//! Plugin configuration values: environment variable modifications and
//! random seeds.

use crate::error::{Error, Result};
use crate::text::{decimal, parse_u64, push_str, spec_parse_u64, str_chars, string_from_chars, u64_to_decimal};
use vstd::prelude::*;

verus! {

/// An environment variable modification.
#[derive(Debug, Clone, PartialEq, Eq)]
pub enum EnvMod {
    /// Sets the environment variable `key` to `value`.
    SetValue { key: String, value: String },
    /// Clears (undefines) the environment variable `key`.
    Remove { key: String },
}

/// The meaning of an environment variable modification: a key and, for a
/// setting, its value (`None` for a removal).
pub open spec fn env_mod_view(m: EnvMod) -> (Seq<char>, Option<Seq<char>>) {
    match m {
        EnvMod::SetValue { key, value } => (key@, Some(value@)),
        EnvMod::Remove { key } => (key@, None),
    }
}

/// The index of the first `=` in `s`, if any.
pub open spec fn first_equals(s: Seq<char>) -> Option<nat>
    decreases s.len(),
{
    if s.len() == 0 {
        None
    } else if s[0] == '=' {
        Some(0)
    } else {
        match first_equals(s.drop_first()) {
            Some(i) => Some(i + 1),
            None => None,
        }
    }
}

/// What the textual form `s` means: `~<key>` removes `key`; `<key>=<value>`
/// sets `key` to `value`, split at the first `=`; `<key>` sets `key` to the
/// empty string.
pub open spec fn parse_env_mod(s: Seq<char>) -> (Seq<char>, Option<Seq<char>>) {
    if s.len() > 0 && s[0] == '~' {
        (s.drop_first(), None)
    } else {
        match first_equals(s) {
            Some(i) => (s.take(i as int), Some(s.skip(i + 1 as int))),
            None => (s, Some(Seq::empty())),
        }
    }
}

/// The textual form of a modification: `<key>=<value>` or `~<key>`.
pub open spec fn env_mod_text(m: (Seq<char>, Option<Seq<char>>)) -> Seq<char> {
    match m.1 {
        Some(v) => m.0 + seq!['='] + v,
        None => seq!['~'] + m.0,
    }
}

impl EnvMod {
    /// Builds a modification that sets `key` to `value`.
    pub fn set(key: &str, value: &str) -> (m: EnvMod)
        ensures
            env_mod_view(m) == (key@, Some(value@)),
    {
        EnvMod::SetValue { key: key.to_string(), value: value.to_string() }
    }

    /// Builds a modification that removes `key`.
    pub fn remove(key: &str) -> (m: EnvMod)
        ensures
            env_mod_view(m) == (key@, None::<Seq<char>>),
    {
        EnvMod::Remove { key: key.to_string() }
    }

    /// Constructs a modification from its textual form: `~<key>`,
    /// `<key>=<value>` or `<key>`.
    pub fn from_str(s: &str) -> (r: Result<EnvMod>)
        ensures
            r is Ok && env_mod_view(r->Ok_0) == parse_env_mod(s@),
    {
        let chars = str_chars(s);
        if chars.len() > 0 && chars[0] == '~' {
            let mut key: Vec<char> = Vec::new();
            let mut i: usize = 1;
            while i < chars.len()
                invariant
                    1 <= i <= chars@.len(),
                    key@ =~= chars@.subrange(1, i as int),
                decreases chars@.len() - i,
            {
                key.push(chars[i]);
                i = i + 1;
            }
            assert(key@ =~= s@.drop_first());
            return Ok(EnvMod::Remove { key: string_from_chars(&key) });
        }
        let mut key: Vec<char> = Vec::new();
        let mut i: usize = 0;
        assert(s@.skip(0) =~= s@);
        while i < chars.len() && chars[i] != '='
            invariant
                i <= chars@.len(),
                chars@ == s@,
                key@ =~= chars@.take(i as int),
                first_equals(s@) == (match first_equals(s@.skip(i as int)) {
                    Some(j) => Some((j + i) as nat),
                    None => None::<nat>,
                }),
            decreases chars@.len() - i,
        {
            assert(s@.skip(i as int).drop_first() =~= s@.skip(i + 1));
            key.push(chars[i]);
            i = i + 1;
        }
        let mut value: Vec<char> = Vec::new();
        if i < chars.len() {
            let mut j: usize = i + 1;
            while j < chars.len()
                invariant
                    i < j <= chars@.len(),
                    value@ =~= chars@.subrange(i + 1, j as int),
                decreases chars@.len() - j,
            {
                value.push(chars[j]);
                j = j + 1;
            }
            assert(first_equals(s@.skip(i as int)) == Some(0nat));
            assert(value@ =~= s@.skip(i + 1 as int));
        } else {
            assert(s@.skip(i as int) =~= Seq::<char>::empty());
            assert(key@ =~= s@);
            assert(value@ =~= Seq::<char>::empty());
        }
        Ok(EnvMod::SetValue { key: string_from_chars(&key), value: string_from_chars(&value) })
    }

    /// The textual form that `from_str` reads: `<key>=<value>` or `~<key>`.
    pub fn to_string(&self) -> (s: String)
        ensures
            s@ == env_mod_text(env_mod_view(*self)),
    {
        let mut out: Vec<char> = Vec::new();
        match self {
            EnvMod::SetValue { key, value } => {
                push_str(&mut out, key.as_str());
                out.push('=');
                push_str(&mut out, value.as_str());
            },
            EnvMod::Remove { key } => {
                out.push('~');
                push_str(&mut out, key.as_str());
            },
        }
        assert(out@ =~= env_mod_text(env_mod_view(*self)));
        string_from_chars(&out)
    }
}

/// The textual form of a modification parses back to it, except for a
/// setting whose key holds `=` or starts with `~`.
pub proof fn lemma_env_mod_roundtrip(key: Seq<char>, value: Option<Seq<char>>)
    requires
        value is Some ==> (forall|i: int| 0 <= i < key.len() ==> key[i] != '=') && !(key.len()
            > 0 && key[0] == '~'),
    ensures
        parse_env_mod(env_mod_text((key, value))) == (key, value),
{
    let t = env_mod_text((key, value));
    match value {
        Some(v) => {
            assert(t[key.len() as int] == '=');
            lemma_first_equals_at(t, key.len());
            assert(t.take(key.len() as int) =~= key);
            assert(t.skip(key.len() + 1 as int) =~= v);
            if key.len() == 0 {
                assert(t[0] == '=');
            } else {
                assert(t[0] == key[0]);
            }
        },
        None => {
            assert(t.drop_first() =~= key);
        },
    }
}

/// The first `=` in `s` is at index `i`.
proof fn lemma_first_equals_at(s: Seq<char>, i: nat)
    requires
        i < s.len(),
        s[i as int] == '=',
        forall|j: int| 0 <= j < i ==> s[j] != '=',
    ensures
        first_equals(s) == Some(i),
    decreases i,
{
    if i > 0 {
        lemma_first_equals_at(s.drop_first(), (i - 1) as nat);
    }
}

/// What std's `DefaultHasher`, as made by `DefaultHasher::new`, gives for
/// a string.
pub uninterp spec fn default_hash_of_str(s: Seq<char>) -> u64;

/// Calls std's `BuildHasher::hash_one` on the builder of default
/// `DefaultHasher`s, which makes a `DefaultHasher` (fixed keys), feeds it
/// the string and finishes it. Claims only that the hash is
/// `default_hash_of_str` of the string.
#[verifier::external_body]
fn hash_str(s: &str) -> (h: u64)
    ensures
        h == default_hash_of_str(s@),
{
    let builder = std::hash::BuildHasherDefault::<std::collections::hash_map::DefaultHasher>::default();
    std::hash::BuildHasher::hash_one(&builder, s)
}

/// A random 64-bit value from `rand::random`. Nothing is claimed of it.
#[verifier::external_body]
fn random_u64() -> (v: u64) {
    rand::random()
}

/// A 64-bit random seed.
#[derive(Debug, Clone, PartialEq, Eq)]
pub struct Seed {
    /// The random seed.
    pub value: u64,
}

/// The seed a string stands for: the number it holds if it is a `u64`, and
/// its hash otherwise.
pub open spec fn seed_of_str(s: Seq<char>) -> u64 {
    match spec_parse_u64(s) {
        Some(v) => v,
        None => default_hash_of_str(s),
    }
}

impl<'a> From<&'a str> for Seed {
    /// Parses the string as a `u64` if possible, and hashes it otherwise.
    fn from(s: &'a str) -> (seed: Seed) {
        let chars = str_chars(s);
        match parse_u64(&chars) {
            Some(v) => Seed { value: v },
            None => Seed { value: hash_str(s) },
        }
    }
}

impl<'a> vstd::std_specs::convert::FromSpecImpl<&'a str> for Seed {
    open spec fn obeys_from_spec() -> bool {
        true
    }

    open spec fn from_spec(s: &'a str) -> Seed {
        Seed { value: seed_of_str(s@) }
    }
}

impl From<Seed> for u64 {
    /// The embedded seed.
    fn from(seed: Seed) -> (v: u64) {
        seed.value
    }
}

impl vstd::std_specs::convert::FromSpecImpl<Seed> for u64 {
    open spec fn obeys_from_spec() -> bool {
        true
    }

    open spec fn from_spec(seed: Seed) -> u64 {
        seed.value
    }
}

impl Default for Seed {
    /// A random seed.
    fn default() -> (seed: Seed) {
        Seed { value: random_u64() }
    }
}

impl Seed {
    /// The decimal representation of the seed.
    pub fn to_string(&self) -> (s: String)
        ensures
            s@ == decimal(self.value as nat),
    {
        string_from_chars(&u64_to_decimal(self.value))
    }
}

/// A seed written in decimal reads back as the same seed.
pub proof fn lemma_seed_roundtrip(v: u64)
    ensures
        seed_of_str(decimal(v as nat)) == v,
{
    crate::text::lemma_parse_decimal(v as nat);
}

} // verus!
