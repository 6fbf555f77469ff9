//! Conversions between strings, characters and numbers.

use vstd::prelude::*;
use vstd::std_specs::iter::IteratorSpec;

verus! {

/// The decimal digit character for `d`.
pub open spec fn digit_char(d: nat) -> char {
    ((d % 10) + 48) as char
}

/// The decimal representation of `v`, without leading zeros.
pub open spec fn decimal(v: nat) -> Seq<char>
    decreases v,
{
    if v < 10 {
        seq![digit_char(v)]
    } else {
        decimal(v / 10).push(digit_char(v % 10))
    }
}

/// Collects the characters of a string slice.
pub fn str_chars(s: &str) -> (v: Vec<char>)
    ensures
        v@ == s@,
{
    let mut v: Vec<char> = Vec::new();
    let mut it = s.chars();
    loop
        invariant
            it.remaining() == s@.skip(v@.len() as int),
            v@ == s@.take(v@.len() as int),
            v@.len() <= s@.len(),
        ensures
            v@ == s@,
        decreases s@.len() - v@.len(),
    {
        match it.next() {
            Some(c) => {
                v.push(c);
                assert(s@.skip(v@.len() - 1).drop_first() =~= s@.skip(v@.len() as int));
                assert(v@ =~= s@.take(v@.len() as int));
            },
            None => {
                assert(s@.take(v@.len() as int) =~= s@);
                break;
            },
        }
    }
    v
}

/// Builds a `String` holding the given characters, through std's
/// `String::from_iter`. Claims only that the string holds exactly those
/// characters, in order.
#[verifier::external_body]
pub(crate) fn string_from_chars(v: &Vec<char>) -> (s: String)
    ensures
        s@ == v@,
{
    String::from_iter(v.iter())
}

/// Appends the characters of `s` to `out`.
pub fn push_str(out: &mut Vec<char>, s: &str)
    ensures
        final(out)@ == old(out)@ + s@,
{
    let mut cs = str_chars(s);
    out.append(&mut cs);
}

/// The decimal representation of `v`.
pub fn u64_to_decimal(v: u64) -> (s: Vec<char>)
    ensures
        s@ == decimal(v as nat),
{
    let mut out: Vec<char> = Vec::new();
    let mut x: u64 = v;
    loop
        invariant
            decimal(v as nat) == decimal(x as nat) + out@,
        decreases x,
    {
        let c = ((x % 10) as u8 + 48u8) as char;
        if x < 10 {
            out.insert(0, c);
            assert(out@ =~= seq![c] + (out@.subrange(1, out@.len() as int)));
            return out;
        }
        let ghost before = out@;
        out.insert(0, c);
        assert(decimal(x as nat) == decimal((x / 10) as nat).push(c));
        assert(decimal((x / 10) as nat).push(c) + before =~= decimal((x / 10) as nat) + out@);
        x = x / 10;
    }
}

/// The decimal representation of a 128-bit value.
pub fn u128_to_decimal(v: u128) -> (s: Vec<char>)
    ensures
        s@ == decimal(v as nat),
{
    let mut out: Vec<char> = Vec::new();
    let mut x: u128 = v;
    loop
        invariant
            decimal(v as nat) == decimal(x as nat) + out@,
        decreases x,
    {
        let c = ((x % 10) as u8 + 48u8) as char;
        if x < 10 {
            out.insert(0, c);
            assert(out@ =~= seq![c] + (out@.subrange(1, out@.len() as int)));
            return out;
        }
        let ghost before = out@;
        out.insert(0, c);
        assert(decimal(x as nat) == decimal((x / 10) as nat).push(c));
        assert(decimal((x / 10) as nat).push(c) + before =~= decimal((x / 10) as nat) + out@);
        x = x / 10;
    }
}

/// `n` spaces.
pub open spec fn spaces(n: nat) -> Seq<char> {
    Seq::new(n, |i: int| ' ')
}

/// `s` followed by spaces up to `width` characters, as std's `{:<width}`
/// formats it.
pub open spec fn pad_right(s: Seq<char>, width: nat) -> Seq<char> {
    if s.len() < width {
        s + spaces((width - s.len()) as nat)
    } else {
        s
    }
}

/// `s` preceded by spaces up to `width` characters, as std's `{:>width}`
/// formats it.
pub open spec fn pad_left(s: Seq<char>, width: nat) -> Seq<char> {
    if s.len() < width {
        spaces((width - s.len()) as nat) + s
    } else {
        s
    }
}

/// Appends `n` spaces.
fn push_spaces(out: &mut Vec<char>, n: usize)
    ensures
        final(out)@ == old(out)@ + spaces(n as nat),
{
    let mut i: usize = 0;
    while i < n
        invariant
            i <= n,
            out@ == old(out)@ + spaces(i as nat),
        decreases n - i,
    {
        out.push(' ');
        i = i + 1;
        assert(out@ =~= old(out)@ + spaces(i as nat));
    }
}

/// Appends `s`, followed by spaces up to `width` characters.
pub fn push_padded_right(out: &mut Vec<char>, s: &Vec<char>, width: usize)
    ensures
        final(out)@ == old(out)@ + pad_right(s@, width as nat),
{
    let mut t = s.clone();
    assert(t@ == s@);
    out.append(&mut t);
    if s.len() < width {
        push_spaces(out, width - s.len());
    }
    assert(out@ =~= old(out)@ + pad_right(s@, width as nat));
}

/// Appends spaces up to `width` characters, followed by `s`.
pub fn push_padded_left(out: &mut Vec<char>, s: &Vec<char>, width: usize)
    ensures
        final(out)@ == old(out)@ + pad_left(s@, width as nat),
{
    if s.len() < width {
        push_spaces(out, width - s.len());
    }
    let mut t = s.clone();
    assert(t@ == s@);
    out.append(&mut t);
    assert(out@ =~= old(out)@ + pad_left(s@, width as nat));
}

/// The decimal representation of a signed value, with a leading `-` for
/// negative values.
pub open spec fn signed_decimal(v: int) -> Seq<char> {
    if v < 0 {
        seq!['-'] + decimal((-v) as nat)
    } else {
        decimal(v as nat)
    }
}

/// The decimal representation of a signed value.
pub fn i64_to_decimal(v: i64) -> (s: Vec<char>)
    ensures
        s@ == signed_decimal(v as int),
{
    if v < 0 {
        let magnitude: u64 = if v == i64::MIN {
            9223372036854775808u64
        } else {
            (-v) as u64
        };
        let mut out: Vec<char> = vec!['-'];
        let mut digits = u64_to_decimal(magnitude);
        out.append(&mut digits);
        out
    } else {
        u64_to_decimal(v as u64)
    }
}

/// Whether `c` is an ASCII decimal digit.
pub open spec fn is_digit(c: char) -> bool {
    '0' <= c <= '9'
}

/// The value of a string of decimal digits.
pub open spec fn digits_value(s: Seq<char>) -> nat
    decreases s.len(),
{
    if s.len() == 0 {
        0
    } else {
        digits_value(s.drop_last()) * 10 + ((s.last() as nat) - 48) as nat
    }
}

/// Whether every character of `s` is a decimal digit.
pub open spec fn all_digits(s: Seq<char>) -> bool {
    forall|i: int| 0 <= i < s.len() ==> is_digit(#[trigger] s[i])
}

/// The digits of an unsigned number: `s` without an optional leading `+`.
pub open spec fn unsigned_digits(s: Seq<char>) -> Seq<char> {
    if s.len() > 0 && s[0] == '+' {
        s.drop_first()
    } else {
        s
    }
}

/// What std's `u64::from_str` accepts: an optional `+` followed by one or
/// more decimal digits whose value fits in a `u64`.
pub open spec fn spec_parse_u64(s: Seq<char>) -> Option<u64> {
    let d = unsigned_digits(s);
    if d.len() > 0 && all_digits(d) && digits_value(d) <= u64::MAX {
        Some(digits_value(d) as u64)
    } else {
        None
    }
}

/// Appending digits never decreases the value.
pub proof fn lemma_digits_prefix(s: Seq<char>, i: int)
    requires
        0 <= i <= s.len(),
        all_digits(s),
    ensures
        digits_value(s.take(i)) <= digits_value(s),
    decreases s.len(),
{
    if i < s.len() {
        assert(s.drop_last().take(i) =~= s.take(i));
        lemma_digits_prefix(s.drop_last(), i);
    } else {
        assert(s.take(i) =~= s);
    }
}

/// Parses an unsigned decimal number the way std's `u64::from_str` does.
pub fn parse_u64(s: &Vec<char>) -> (r: Option<u64>)
    ensures
        r == spec_parse_u64(s@),
{
    let mut start: usize = 0;
    if s.len() > 0 && s[0] == '+' {
        start = 1;
    }
    let ghost d = unsigned_digits(s@);
    assert(d =~= s@.skip(start as int));
    if start >= s.len() {
        return None;
    }
    let mut value: u64 = 0;
    let mut i: usize = start;
    while i < s.len()
        invariant
            start <= i <= s@.len(),
            start < s@.len(),
            d =~= s@.skip(start as int),
            d == unsigned_digits(s@),
            forall|j: int| 0 <= j < i - start ==> is_digit(#[trigger] d[j]),
            value == digits_value(d.take(i - start)),
        decreases s@.len() - i,
    {
        let c = s[i];
        assert(d[i - start] == c);
        if !('0' <= c && c <= '9') {
            assert(!is_digit(d[i - start]));
            return None;
        }
        let dig = (c as u32 - 48) as u64;
        assert(d.take(i - start + 1).drop_last() =~= d.take(i - start));
        if value > 1844674407370955161 || (value == 1844674407370955161 && dig > 5) {
            proof {
                assert(forall|j: int| 0 <= j < i - start + 1 ==> is_digit(#[trigger] d.take(i - start + 1)[j]));
                assert(digits_value(d.take(i - start + 1)) > u64::MAX);
                if all_digits(d) {
                    lemma_digits_prefix(d, i - start + 1);
                }
            }
            return None;
        }
        value = value * 10 + dig;
        i = i + 1;
    }
    assert(d.take(d.len() as int) =~= d);
    Some(value)
}

/// The decimal representation of a number is a non-empty string of digits
/// whose value is the number.
pub proof fn lemma_decimal_digits(v: nat)
    ensures
        decimal(v).len() > 0,
        all_digits(decimal(v)),
        digits_value(decimal(v)) == v,
    decreases v,
{
    let d = digit_char(v % 10);
    assert(d as nat == v % 10 + 48);
    if v >= 10 {
        lemma_decimal_digits(v / 10);
        let s = decimal(v);
        assert(s.drop_last() =~= decimal(v / 10));
        assert(s.last() == d);
        assert(digits_value(s) == digits_value(decimal(v / 10)) * 10 + ((d as nat) - 48));
        assert((v / 10) * 10 + v % 10 == v);
        assert forall|i: int| 0 <= i < s.len() implies is_digit(#[trigger] s[i]) by {
            if i < s.len() - 1 {
                assert(s[i] == decimal(v / 10)[i]);
            }
        }
    } else {
        assert(decimal(v).drop_last() =~= Seq::<char>::empty());
        assert(decimal(v).last() == d);
        assert(digits_value(decimal(v).drop_last()) == 0);
        assert(digits_value(decimal(v)) == (d as nat) - 48);
    }
}

/// Reading the decimal representation of a `u64` gives it back.
pub proof fn lemma_parse_decimal(v: nat)
    requires
        v <= u64::MAX,
    ensures
        spec_parse_u64(decimal(v)) == Some(v as u64),
{
    lemma_decimal_digits(v);
    assert(is_digit(decimal(v)[0]));
    assert(unsigned_digits(decimal(v)) == decimal(v));
}

} // verus!
