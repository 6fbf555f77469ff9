//! Utility functions: binary logarithms and friendly names and lists.

use crate::error::{Error, Result};
use crate::text::{push_str, str_chars, string_from_chars};
use vstd::prelude::*;

verus! {

/// Two to the power `k`.
pub open spec fn two_pow(k: nat) -> nat
    decreases k,
{
    if k == 0 {
        1
    } else {
        2 * two_pow((k - 1) as nat)
    }
}

/// Powers of two grow with the exponent.
pub proof fn lemma_two_pow_mono(i: nat, j: nat)
    requires
        i <= j,
    ensures
        two_pow(i) <= two_pow(j),
        i < j ==> two_pow(i) < two_pow(j),
    decreases j - i,
{
    if i < j {
        lemma_two_pow_mono(i, (j - 1) as nat);
        lemma_two_pow_pos((j - 1) as nat);
    }
}

/// Powers of two are positive.
pub proof fn lemma_two_pow_pos(k: nat)
    ensures
        two_pow(k) >= 1,
    decreases k,
{
    if k > 0 {
        lemma_two_pow_pos((k - 1) as nat);
    }
}

/// The number of bits of a value of type `T`.
pub fn num_bits<T>() -> (r: usize)
    requires
        vstd::layout::size_of::<T>() * 8 <= usize::MAX,
    ensures
        r == vstd::layout::size_of::<T>() * 8,
{
    core::mem::size_of::<T>() * 8
}

/// Returns the base-2 logarithm of `x` when `x` is a power of two, and
/// `None` otherwise.
pub fn log_2(x: usize) -> (r: Option<usize>)
    ensures
        match r {
            Some(k) => two_pow(k as nat) == x,
            None => forall|k: nat| two_pow(k) != x,
        },
{
    if x == 0 {
        proof {
            assert forall|k: nat| two_pow(k) != x by {
                lemma_two_pow_pos(k);
            }
        }
        return None;
    }
    let mut k: usize = 0;
    let mut p: usize = 1;
    while p < x && p <= usize::MAX / 2
        invariant
            p == two_pow(k as nat),
            k < p,
            forall|j: nat| j < k ==> two_pow(j) < x,
        decreases usize::MAX - p,
    {
        proof {
            assert forall|j: nat| j < k + 1 implies two_pow(j) < x by {
                if j < k {
                } else {
                    assert(j == k);
                }
            }
        }
        p = p * 2;
        k = k + 1;
    }
    if p == x {
        Some(k)
    } else {
        proof {
            assert forall|j: nat| two_pow(j) != x by {
                if j < k {
                } else if p > x {
                    lemma_two_pow_mono(k as nat, j);
                } else {
                    if j > k {
                        lemma_two_pow_mono((k + 1) as nat, j);
                    }
                }
            }
        }
        None
    }
}

/// Whether `c` is an ASCII upper-case letter.
pub open spec fn is_upper(c: char) -> bool {
    'A' <= c <= 'Z'
}

/// The ASCII upper-case form of `c`.
pub open spec fn to_upper(c: char) -> char {
    if 'a' <= c <= 'z' {
        ((c as nat) - 32) as char
    } else {
        c
    }
}

/// The ASCII lower-case form of `c`.
pub open spec fn to_lower(c: char) -> char {
    if 'A' <= c <= 'Z' {
        ((c as nat) + 32) as char
    } else {
        c
    }
}

/// What `friendly_name` has built after some characters: the output, whether
/// the last character was upper case, and whether an abbreviation is being
/// written.
pub struct NameState {
    pub out: Seq<char>,
    pub prev_upper: bool,
    pub abbreviation: bool,
}

/// Takes one more character of a CamelCase name. Two upper-case letters in
/// a row start an abbreviation, written in upper case until a character
/// that is not upper case; any other upper-case letter starts a new
/// lower-case word; `_` becomes a space.
pub open spec fn name_step(st: NameState, c: char) -> NameState {
    let upper = is_upper(c);
    let joined = upper && st.prev_upper;
    let out1 = if joined && st.out.len() > 0 {
        st.out.drop_last().push(to_upper(st.out.last()))
    } else {
        st.out
    };
    let abbreviation = (joined || st.abbreviation) && upper;
    let out2 = if abbreviation {
        out1.push(to_upper(c))
    } else if upper {
        (if out1.len() > 0 && out1.last() != ' ' {
            out1.push(' ')
        } else {
            out1
        }).push(to_lower(c))
    } else if c == '_' {
        out1.push(' ')
    } else {
        out1.push(c)
    };
    NameState { out: out2, prev_upper: upper, abbreviation }
}

/// Takes the characters of `s` in order.
pub open spec fn name_steps(st: NameState, s: Seq<char>) -> NameState
    decreases s.len(),
{
    if s.len() == 0 {
        st
    } else {
        name_steps(name_step(st, s[0]), s.drop_first())
    }
}

/// The friendly form of a CamelCase name.
pub open spec fn friendly_name_spec(name: Seq<char>) -> Seq<char> {
    name_steps(NameState { out: Seq::empty(), prev_upper: false, abbreviation: false }, name).out
}

/// Splits a CamelCase name into space-separated lower-case words;
/// abbreviations stay upper case and underscores become spaces.
pub fn friendly_name(name: &str) -> (s: String)
    ensures
        s@ == friendly_name_spec(name@),
{
    let chars = str_chars(name);
    let mut out: Vec<char> = Vec::new();
    let mut prev_upper = false;
    let mut abbreviation = false;
    let mut i: usize = 0;
    assert(chars@.skip(0) =~= name@);
    while i < chars.len()
        invariant
            i <= chars@.len(),
            chars@ == name@,
            prev_upper ==> out@.len() > 0,
            friendly_name_spec(name@) == name_steps(
                NameState { out: out@, prev_upper, abbreviation },
                chars@.skip(i as int),
            ).out,
        decreases chars@.len() - i,
    {
        let c = chars[i];
        let ghost st = NameState { out: out@, prev_upper, abbreviation };
        assert(chars@.skip(i as int)[0] == c);
        assert(chars@.skip(i as int).drop_first() =~= chars@.skip(i + 1));
        let upper = 'A' <= c && c <= 'Z';
        if upper && prev_upper {
            abbreviation = true;
            let prev = out.pop().unwrap();
            let prev_up = if 'a' <= prev && prev <= 'z' {
                ((prev as u8) - 32) as char
            } else {
                prev
            };
            out.push(prev_up);
        }
        if abbreviation && !upper {
            abbreviation = false;
        }
        if abbreviation {
            let cu = if 'a' <= c && c <= 'z' {
                ((c as u8) - 32) as char
            } else {
                c
            };
            out.push(cu);
        } else if upper {
            if out.len() > 0 && out[out.len() - 1] != ' ' {
                out.push(' ');
            }
            out.push(((c as u8) + 32) as char);
        } else if c == '_' {
            out.push(' ');
        } else {
            out.push(c);
        }
        prev_upper = upper;
        assert(out@ =~= name_step(st, c).out);
        i = i + 1;
    }
    assert(chars@.skip(i as int) =~= Seq::<char>::empty());
    string_from_chars(&out)
}

/// The conjunction followed by a space, or nothing.
pub open spec fn conj_text(conjunction: Option<Seq<char>>) -> Seq<char> {
    match conjunction {
        Some(c) => c + seq![' '],
        None => Seq::empty(),
    }
}

/// The separators and items from index `i` on: `, ` before each, and before
/// the last item the conjunction, preceded by a space instead of `, ` when
/// there are only two items.
pub open spec fn enumerate_rest(items: Seq<Seq<char>>, i: nat, conjunction: Option<Seq<char>>) -> Seq<
    char,
>
    decreases items.len() - i,
{
    if i >= items.len() {
        Seq::empty()
    } else if i == items.len() - 1 {
        (if i == 1 && conj_text(conjunction).len() > 0 {
            seq![' ']
        } else {
            seq![',', ' ']
        }) + conj_text(conjunction) + items[i as int]
    } else {
        seq![',', ' '] + items[i as int] + enumerate_rest(items, i + 1, conjunction)
    }
}

/// A list in natural language: `<nothing>` when empty.
pub open spec fn enumerate_text(items: Seq<Seq<char>>, conjunction: Option<Seq<char>>) -> Seq<char> {
    if items.len() == 0 {
        "<nothing>"@
    } else {
        items[0] + enumerate_rest(items, 1, conjunction)
    }
}

/// The character sequences of a list of strings.
pub open spec fn str_views(items: Seq<&str>) -> Seq<Seq<char>> {
    items.map_values(|s: &str| s@)
}

/// The character sequence of an optional string.
pub open spec fn opt_view(s: Option<&str>) -> Option<Seq<char>> {
    match s {
        Some(c) => Some(c@),
        None => None,
    }
}

/// The natural-language list of `items`, with `conj` the conjunction text
/// (the conjunction and a space, or nothing).
pub(crate) fn enumerate_chars(items: &Vec<Vec<char>>, conj: &Vec<char>, Ghost(conjunction): Ghost<
    Option<Seq<char>>,
>) -> (out: Vec<char>)
    requires
        conj@ == conj_text(conjunction),
    ensures
        out@ == enumerate_text(seq_views(items@), conjunction),
{
    let ghost v = seq_views(items@);
    if items.len() == 0 {
        return str_chars("<nothing>");
    }
    let mut out = vstd::slice::slice_to_vec(items[0].as_slice());
    let n = items.len();
    let mut i: usize = 1;
    while i < n
        invariant
            1 <= i <= n,
            n == items@.len(),
            v == seq_views(items@),
            conj@ == conj_text(conjunction),
            enumerate_text(v, conjunction) == out@ + enumerate_rest(v, i as nat, conjunction),
        decreases n - i,
    {
        let ghost before = out@;
        let mut item = vstd::slice::slice_to_vec(items[i].as_slice());
        assert(item@ == v[i as int]);
        if i == n - 1 {
            if i == 1 && conj.len() > 0 {
                out.push(' ');
            } else {
                out.push(',');
                out.push(' ');
            }
            let mut cc = vstd::slice::slice_to_vec(conj.as_slice());
            out.append(&mut cc);
            out.append(&mut item);
            assert(out@ =~= before + enumerate_rest(v, i as nat, conjunction));
            assert(enumerate_rest(v, (i + 1) as nat, conjunction) =~= Seq::<char>::empty());
        } else {
            out.push(',');
            out.push(' ');
            out.append(&mut item);
            assert(before + enumerate_rest(v, i as nat, conjunction) =~= out@ + enumerate_rest(
                v,
                (i + 1) as nat,
                conjunction,
            ));
        }
        i = i + 1;
    }
    assert(enumerate_rest(v, i as nat, conjunction) =~= Seq::<char>::empty());
    assert(out@ =~= enumerate_text(v, conjunction));
    out
}

/// The character sequences of a list of character vectors.
pub open spec fn seq_views(items: Seq<Vec<char>>) -> Seq<Seq<char>> {
    items.map_values(|s: Vec<char>| s@)
}

/// Turns a list of strings into natural language, with the optional
/// conjunction between the last comma and the last item: `a, b, or c`,
/// `x and y`, `x, y`; an empty list gives `<nothing>`.
pub fn friendly_enumerate(items: &[&str], conjunction: Option<&str>) -> (s: String)
    ensures
        s@ == enumerate_text(str_views(items@), opt_view(conjunction)),
{
    let mut conj: Vec<char> = Vec::new();
    match conjunction {
        Some(c) => {
            push_str(&mut conj, c);
            conj.push(' ');
        },
        None => {},
    }
    assert(conj@ =~= conj_text(opt_view(conjunction)));
    let mut all: Vec<Vec<char>> = Vec::new();
    let mut i: usize = 0;
    while i < items.len()
        invariant
            i <= items@.len(),
            seq_views(all@) =~= str_views(items@).take(i as int),
        decreases items@.len() - i,
    {
        let ghost before = seq_views(all@);
        all.push(str_chars(items[i]));
        assert(seq_views(all@) =~= before.push(items@[i as int]@));
        i = i + 1;
    }
    assert(str_views(items@).take(i as int) =~= str_views(items@));
    string_from_chars(&enumerate_chars(&all, &conj, Ghost(opt_view(conjunction))))
}

/// The ASCII lower-case form of a string.
pub open spec fn lower_all(s: Seq<char>) -> Seq<char> {
    s.map_values(|c: char| to_lower(c))
}

/// The indices, from `i` on, of the names whose lower-case form starts with
/// `key`.
pub open spec fn matches_from(names: Seq<Seq<char>>, key: Seq<char>, i: nat) -> Seq<nat>
    decreases names.len() - i,
{
    if i >= names.len() {
        Seq::empty()
    } else if key.is_prefix_of(lower_all(names[i as int])) {
        seq![i] + matches_from(names, key, i + 1)
    } else {
        matches_from(names, key, i + 1)
    }
}

/// The indices that match from `start` on are exactly those at or after
/// `start` whose lower-case name starts with `key`, in increasing order.
proof fn lemma_matches_from(names: Seq<Seq<char>>, key: Seq<char>, start: nat)
    ensures
        forall|i: nat| #[trigger] matches_from(names, key, start).contains(i) <==> (start <= i < names.len()
            && key.is_prefix_of(lower_all(names[i as int]))),
        forall|a: int, b: int|
            0 <= a < b < matches_from(names, key, start).len() ==> #[trigger] matches_from(
                names,
                key,
                start,
            )[a] < #[trigger] matches_from(names, key, start)[b],
        forall|a: int|
            0 <= a < matches_from(names, key, start).len() ==> start <= #[trigger] matches_from(
                names,
                key,
                start,
            )[a],
    decreases names.len() - start,
{
    if start < names.len() {
        lemma_matches_from(names, key, start + 1);
        let m1 = matches_from(names, key, start + 1);
        if key.is_prefix_of(lower_all(names[start as int])) {
            let m = seq![start] + m1;
            assert(matches_from(names, key, start) == m);
            assert forall|i: nat| #[trigger] m.contains(i) <==> (start <= i < names.len()
                && key.is_prefix_of(lower_all(names[i as int]))) by {
                if m.contains(i) {
                    let j = choose|j: int| 0 <= j < m.len() && m[j] == i;
                    if j > 0 {
                        assert(m1[j - 1] == i);
                        assert(m1.contains(i));
                    }
                }
                if start <= i < names.len() && key.is_prefix_of(lower_all(names[i as int])) {
                    if i == start {
                        assert(m[0] == i);
                    } else {
                        assert(m1.contains(i));
                        let j = choose|j: int| 0 <= j < m1.len() && m1[j] == i;
                        assert(m[j + 1] == i);
                    }
                }
            }
            assert forall|a: int, b: int| 0 <= a < b < m.len() implies #[trigger] m[a] < #[trigger] m[b] by {
                if a > 0 {
                    assert(m[a] == m1[a - 1] && m[b] == m1[b - 1]);
                } else {
                    assert(m[b] == m1[b - 1]);
                }
            }
            assert forall|a: int| 0 <= a < m.len() implies start <= #[trigger] m[a] by {
                if a > 0 {
                    assert(m[a] == m1[a - 1]);
                }
            }
        } else {
            assert(matches_from(names, key, start) == m1);
        }
    } else {
        assert(matches_from(names, key, start) =~= Seq::<nat>::empty());
    }
}

/// Enum parsing picks a variant only when the lower-case input is a prefix
/// of that variant's lower-case name and of no other: a longer input such
/// as `barn` picks no `bar`. When no variant, or more than one, starts with
/// the input, parsing fails.
pub proof fn lemma_enum_parse_prefix(s: Seq<char>, enum_name: Seq<char>, names: Seq<Seq<char>>)
    ensures
        enum_parse_spec(s, enum_name, names) matches Ok(k) ==> (k < names.len() && lower_all(s).is_prefix_of(
            lower_all(names[k as int]),
        ) && forall|j: int|
            0 <= j < names.len() && j != k ==> !lower_all(s).is_prefix_of(lower_all(#[trigger] names[j]))),
        (forall|j: int| 0 <= j < names.len() ==> !lower_all(s).is_prefix_of(lower_all(#[trigger] names[j])))
            ==> enum_parse_spec(s, enum_name, names) is Err,
        (exists|a: int, b: int|
            0 <= a < b < names.len() && lower_all(s).is_prefix_of(lower_all(#[trigger] names[a]))
                && lower_all(s).is_prefix_of(lower_all(#[trigger] names[b]))) ==> enum_parse_spec(
            s,
            enum_name,
            names,
        ) is Err,
{
    let key = lower_all(s);
    let m = matches_from(names, key, 0);
    lemma_matches_from(names, key, 0);
    if m.len() == 1 {
        let k = m[0];
        assert(m.contains(k));
        assert forall|j: int| 0 <= j < names.len() && j != k implies !key.is_prefix_of(
            lower_all(#[trigger] names[j]),
        ) by {
            if key.is_prefix_of(lower_all(names[j])) {
                assert(m.contains(j as nat));
                let x = choose|x: int| 0 <= x < m.len() && m[x] == j as nat;
                assert(x == 0);
            }
        }
    }
    if forall|j: int| 0 <= j < names.len() ==> !key.is_prefix_of(lower_all(#[trigger] names[j])) {
        if m.len() > 0 {
            assert(m.contains(m[0]));
        }
    }
    if exists|a: int, b: int|
        0 <= a < b < names.len() && key.is_prefix_of(lower_all(#[trigger] names[a]))
            && key.is_prefix_of(lower_all(#[trigger] names[b])) {
        let (a, b) = choose|a: int, b: int|
            0 <= a < b < names.len() && key.is_prefix_of(lower_all(#[trigger] names[a]))
                && key.is_prefix_of(lower_all(#[trigger] names[b]));
        assert(m.contains(a as nat));
        assert(m.contains(b as nat));
        if m.len() == 1 {
            let x = choose|x: int| 0 <= x < m.len() && m[x] == a as nat;
            let y = choose|y: int| 0 <= y < m.len() && m[y] == b as nat;
            assert(x == 0 && y == 0);
        }
    }
}

/// What `friendly_enum_parse` gives: the index of the one variant whose
/// lower-case name starts with the lower-case input, or the message saying
/// that no variant or more than one does.
pub open spec fn enum_parse_spec(s: Seq<char>, enum_name: Seq<char>, names: Seq<Seq<char>>) -> std::result::Result<
    nat,
    Seq<char>,
> {
    let key = lower_all(s);
    let m = matches_from(names, key, 0);
    if m.len() == 1 {
        Ok(m[0])
    } else if m.len() == 0 {
        Err(key + " is not a valid "@ + friendly_name_spec(enum_name) + ", valid values are "@
            + enumerate_text(names.map_values(|n: Seq<char>| unicode_lowercase(n)), Some("or"@)))
    } else {
        Err(key + " is an ambiguous "@ + friendly_name_spec(enum_name) + ", it could mean either "@
            + enumerate_text(m.map_values(|k: nat| lower_all(names[k as int])), Some("or"@)))
    }
}

/// The lower-case form of a string as std's `str::to_lowercase` gives it,
/// by the Unicode case tables.
pub uninterp spec fn unicode_lowercase(s: Seq<char>) -> Seq<char>;

/// Calls std's `str::to_lowercase`: the lower-case form of a string by the
/// Unicode case tables. Claims that it depends on the string alone.
#[verifier::external_body]
fn to_lowercase(s: &str) -> (r: String)
    ensures
        r@ == unicode_lowercase(s@),
{
    s.to_lowercase()
}

/// The Unicode lower-case forms of the given names.
fn lowercase_names(variants: &[&str]) -> (r: Vec<Vec<char>>)
    ensures
        seq_views(r@) == str_views(variants@).map_values(|n: Seq<char>| unicode_lowercase(n)),
{
    let mut out: Vec<Vec<char>> = Vec::new();
    let mut i: usize = 0;
    while i < variants.len()
        invariant
            i <= variants@.len(),
            seq_views(out@) =~= str_views(variants@).take(i as int).map_values(
                |n: Seq<char>| unicode_lowercase(n),
            ),
        decreases variants@.len() - i,
    {
        let l = to_lowercase(variants[i]);
        let ghost before = seq_views(out@);
        out.push(str_chars(l.as_str()));
        assert(seq_views(out@) =~= before.push(unicode_lowercase(str_views(variants@)[i as int])));
        i = i + 1;
    }
    assert(str_views(variants@).take(i as int) =~= str_views(variants@));
    out
}

/// The ASCII lower-case form of a string.
fn lower_chars(s: &Vec<char>) -> (r: Vec<char>)
    ensures
        r@ == lower_all(s@),
{
    let mut r: Vec<char> = Vec::new();
    let mut i: usize = 0;
    while i < s.len()
        invariant
            i <= s@.len(),
            r@ =~= lower_all(s@).take(i as int),
        decreases s@.len() - i,
    {
        let c = s[i];
        if 'A' <= c && c <= 'Z' {
            r.push(((c as u8) + 32) as char);
        } else {
            r.push(c);
        }
        i = i + 1;
    }
    assert(lower_all(s@).take(i as int) =~= lower_all(s@));
    r
}

/// Whether `p` is a prefix of `s`.
fn starts_with(s: &Vec<char>, p: &Vec<char>) -> (b: bool)
    ensures
        b == p@.is_prefix_of(s@),
{
    if p.len() > s.len() {
        return false;
    }
    let mut i: usize = 0;
    while i < p.len()
        invariant
            i <= p@.len() <= s@.len(),
            forall|j: int| 0 <= j < i ==> p@[j] == s@[j],
        decreases p@.len() - i,
    {
        if p[i] != s[i] {
            return false;
        }
        i = i + 1;
    }
    true
}

/// Parses the name of an enum variant, given the name of the enum and the
/// names of its variants. Case does not matter, and a prefix that only one
/// variant starts with is enough. Returns the index of the variant.
pub fn friendly_enum_parse(s: &str, enum_name: &str, variants: &[&str]) -> (r: Result<usize>)
    ensures
        match enum_parse_spec(s@, enum_name@, str_views(variants@)) {
            Ok(k) => r == Ok::<usize, Error>(k as usize),
            Err(m) => r is Err && r->Err_0 is InvalidArgument && r->Err_0->InvalidArgument_0@ == m,
        },
{
    let ghost names = str_views(variants@);
    let key = lower_chars(&str_chars(s));
    let mut matched: Vec<Vec<char>> = Vec::new();
    let mut first: usize = 0;
    let mut count: usize = 0;
    let ghost mut idx: Seq<nat> = Seq::empty();
    let mut i: usize = 0;
    while i < variants.len()
        invariant
            i <= variants@.len(),
            names == str_views(variants@),
            key@ == lower_all(s@),
            matches_from(names, key@, 0) == idx + matches_from(names, key@, i as nat),
            count == idx.len(),
            count <= i,
            count > 0 ==> first == idx[0],
            forall|j: int| 0 <= j < idx.len() ==> #[trigger] idx[j] < i,
            seq_views(matched@) =~= idx.map_values(|k: nat| lower_all(names[k as int])),
        decreases variants@.len() - i,
    {
        let name = lower_chars(&str_chars(variants[i]));
        let ghost before_m = seq_views(matched@);
        if starts_with(&name, &key) {
            if count == 0 {
                first = i;
            }
            count = count + 1;
            let copy = vstd::slice::slice_to_vec(name.as_slice());
            matched.push(copy);
            proof {
                assert(seq_views(matched@) =~= before_m.push(lower_all(names[i as int])));
                idx = idx.push(i as nat);
                assert(seq![i as nat] + matches_from(names, key@, (i + 1) as nat) == matches_from(
                    names,
                    key@,
                    i as nat,
                ));
                assert(idx + matches_from(names, key@, (i + 1) as nat) =~= idx.drop_last() + (seq![
                    i as nat,
                ] + matches_from(names, key@, (i + 1) as nat)));
            }
        }
        i = i + 1;
    }
    assert(names.take(i as int) =~= names);
    assert(matches_from(names, key@, i as nat) =~= Seq::<nat>::empty());
    assert(idx + Seq::<nat>::empty() =~= idx);
    if count == 1 {
        return Ok(first);
    }
    let mut msg = vstd::slice::slice_to_vec(key.as_slice());
    if count == 0 {
        push_str(&mut msg, " is not a valid ");
        push_str(&mut msg, friendly_name(enum_name).as_str());
        push_str(&mut msg, ", valid values are ");
        let conj = str_chars("or ");
        proof {
            reveal_strlit("or ");
            reveal_strlit("or");
            assert(conj@ =~= conj_text(Some("or"@)));
        }
        let listed = lowercase_names(variants);
        let mut list = enumerate_chars(&listed, &conj, Ghost(Some("or"@)));
        msg.append(&mut list);
    } else {
        push_str(&mut msg, " is an ambiguous ");
        push_str(&mut msg, friendly_name(enum_name).as_str());
        push_str(&mut msg, ", it could mean either ");
        let conj = str_chars("or ");
        proof {
            reveal_strlit("or ");
            reveal_strlit("or");
            assert(conj@ =~= conj_text(Some("or"@)));
        }
        let mut list = enumerate_chars(&matched, &conj, Ghost(Some("or"@)));
        msg.append(&mut list);
    }
    Err(Error::InvalidArgument(string_from_chars(&msg)))
}

} // verus!
