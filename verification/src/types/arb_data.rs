//! `ArbData`: a JSON/CBOR object with a list of binary strings, and its
//! textual form.

use crate::cbor::{canonizalize, spec_canonicalize, views};
use crate::cbor_canonical::{is_canonical, lemma_canonicalize_idempotent, lemma_empty_map_canonical};
use crate::error::{inv_arg, Error, Result};
use crate::text::{push_str, str_chars, string_from_chars};
use vstd::prelude::*;

verus! {

/// The message for a malformed escape in a binary string.
pub open spec fn msg_bad_escape() -> Seq<char> {
    "invalid binary string escape sequence while parsing ArbData"@
}

/// The message for an escape cut off by the end of the text.
pub open spec fn msg_unterminated_escape() -> Seq<char> {
    "unterminated binary string escape sequence while parsing ArbData"@
}

/// Whether `c` is an ASCII hexadecimal digit, in either case.
pub open spec fn is_hex_char(c: char) -> bool {
    ('0' <= c <= '9') || ('a' <= c <= 'f') || ('A' <= c <= 'F')
}

/// The value of a hexadecimal digit.
pub open spec fn hex_val(c: char) -> nat {
    if '0' <= c <= '9' {
        (c as nat - 48) as nat
    } else if 'a' <= c <= 'f' {
        (c as nat - 87) as nat
    } else {
        (c as nat - 55) as nat
    }
}

/// The upper-case hexadecimal digit for `d < 16`.
pub open spec fn hex_upper(d: nat) -> char {
    if d < 10 {
        (48 + d) as char
    } else {
        (55 + d) as char
    }
}

/// The UTF-8 encoding of a character.
pub open spec fn utf8_encode(c: char) -> Seq<u8> {
    let v = c as nat;
    if v < 0x80 {
        seq![v as u8]
    } else if v < 0x800 {
        seq![(0xC0 + v / 64) as u8, (0x80 + v % 64) as u8]
    } else if v < 0x10000 {
        seq![(0xE0 + v / 4096) as u8, (0x80 + (v / 64) % 64) as u8, (0x80 + v % 64) as u8]
    } else {
        seq![
            (0xF0 + v / 262144) as u8,
            (0x80 + (v / 4096) % 64) as u8,
            (0x80 + (v / 64) % 64) as u8,
            (0x80 + v % 64) as u8,
        ]
    }
}

/// Scans comma-separated binary strings from `s`, where `cur` is the string
/// being scanned and `done` the strings finished before it.
///
/// `_,` stands for a comma, `__` for an underscore and `_` followed by two
/// hexadecimal digits for the byte with that value; any other character
/// stands for its UTF-8 encoding.
pub open spec fn scan_args(s: Seq<char>, cur: Seq<u8>, done: Seq<Seq<u8>>) -> std::result::Result<
    Seq<Seq<u8>>,
    Seq<char>,
>
    decreases s.len(),
{
    if s.len() == 0 {
        Ok(done.push(cur))
    } else if s[0] == ',' {
        scan_args(s.drop_first(), Seq::empty(), done.push(cur))
    } else if s[0] == '_' {
        if s.len() < 2 {
            Err(msg_unterminated_escape())
        } else if s[1] == '_' {
            scan_args(s.skip(2), cur.push(95u8), done)
        } else if s[1] == ',' {
            scan_args(s.skip(2), cur.push(44u8), done)
        } else if !is_hex_char(s[1]) {
            Err(msg_bad_escape())
        } else if s.len() < 3 {
            Err(msg_unterminated_escape())
        } else if !is_hex_char(s[2]) {
            Err(msg_bad_escape())
        } else {
            scan_args(s.skip(3), cur.push((hex_val(s[1]) * 16 + hex_val(s[2])) as u8), done)
        }
    } else {
        scan_args(s.drop_first(), cur + utf8_encode(s[0]), done)
    }
}

/// The binary strings written in `s`, or the message of the error in it.
pub open spec fn parse_args(s: Seq<char>) -> std::result::Result<Seq<Seq<u8>>, Seq<char>> {
    scan_args(s, Seq::empty(), Seq::empty())
}

/// Whether a binary string holds a byte that is not printable ASCII.
pub open spec fn needs_hex(arg: Seq<u8>) -> bool {
    exists|i: int| 0 <= i < arg.len() && (arg[i] < 32 || arg[i] > 126)
}

/// Every byte written as `_` and two upper-case hexadecimal digits.
pub open spec fn hex_text(arg: Seq<u8>) -> Seq<char>
    decreases arg.len(),
{
    if arg.len() == 0 {
        Seq::empty()
    } else {
        seq!['_', hex_upper(arg[0] as nat / 16), hex_upper(arg[0] as nat % 16)] + hex_text(
            arg.drop_first(),
        )
    }
}

/// A printable byte as text, with `_` and `,` escaped.
pub open spec fn escaped_byte(b: u8) -> Seq<char> {
    if b == 95 {
        seq!['_', '_']
    } else if b == 44 {
        seq!['_', ',']
    } else {
        seq![b as char]
    }
}

/// Printable bytes as text.
pub open spec fn plain_text(arg: Seq<u8>) -> Seq<char>
    decreases arg.len(),
{
    if arg.len() == 0 {
        Seq::empty()
    } else {
        escaped_byte(arg[0]) + plain_text(arg.drop_first())
    }
}

/// The textual form of one binary string.
pub open spec fn arg_text(arg: Seq<u8>) -> Seq<char> {
    if needs_hex(arg) {
        hex_text(arg)
    } else {
        plain_text(arg)
    }
}

/// The textual form of the binary strings, each preceded by a comma.
pub open spec fn args_text(args: Seq<Seq<u8>>) -> Seq<char>
    decreases args.len(),
{
    if args.len() == 0 {
        Seq::empty()
    } else {
        seq![','] + arg_text(args[0]) + args_text(args.drop_first())
    }
}

/// Whether `c` is a hexadecimal digit.
fn is_hex_digit(c: char) -> (b: bool)
    ensures
        b == is_hex_char(c),
{
    ('0' <= c && c <= '9') || ('a' <= c && c <= 'f') || ('A' <= c && c <= 'F')
}

/// The value of a hexadecimal digit.
fn hex_digit_value(c: char) -> (v: u8)
    requires
        is_hex_char(c),
    ensures
        v == hex_val(c),
        v < 16,
{
    if '0' <= c && c <= '9' {
        (c as u32 - 48) as u8
    } else if 'a' <= c && c <= 'f' {
        (c as u32 - 87) as u8
    } else {
        (c as u32 - 55) as u8
    }
}

/// Appends the UTF-8 encoding of `c`.
fn push_utf8(out: &mut Vec<u8>, c: char)
    ensures
        final(out)@ == old(out)@ + utf8_encode(c),
{
    let v: u32 = c as u32;
    if v < 0x80 {
        out.push(v as u8);
    } else if v < 0x800 {
        out.push((0xC0 + v / 64) as u8);
        out.push((0x80 + v % 64) as u8);
    } else if v < 0x10000 {
        out.push((0xE0 + v / 4096) as u8);
        out.push((0x80 + (v / 64) % 64) as u8);
        out.push((0x80 + v % 64) as u8);
    } else {
        assert(v <= 0x10FFFF);
        out.push((0xF0 + v / 262144) as u8);
        out.push((0x80 + (v / 4096) % 64) as u8);
        out.push((0x80 + (v / 64) % 64) as u8);
        out.push((0x80 + v % 64) as u8);
    }
    assert(final(out)@ =~= old(out)@ + utf8_encode(c));
}

/// Scans the binary strings written in `s` from index `start` on.
fn scan_unstructured_args(s: &Vec<char>, start: usize) -> (r: Result<Vec<Vec<u8>>>)
    requires
        start <= s@.len(),
    ensures
        match parse_args(s@.skip(start as int)) {
            Ok(a) => r is Ok && views(r->Ok_0@) == a,
            Err(m) => r is Err && r->Err_0 is InvalidArgument && r->Err_0->InvalidArgument_0@ == m,
        },
{
    let mut output: Vec<Vec<u8>> = Vec::new();
    let mut current: Vec<u8> = Vec::new();
    let mut i: usize = start;
    assert(views(output@) =~= Seq::<Seq<u8>>::empty());
    while i < s.len()
        invariant
            start <= i <= s@.len(),
            parse_args(s@.skip(start as int)) == scan_args(s@.skip(i as int), current@, views(output@)),
        decreases s@.len() - i,
    {
        let ghost rest = s@.skip(i as int);
        let c = s[i];
        assert(rest[0] == c);
        if c == ',' {
            assert(rest.drop_first() =~= s@.skip(i + 1));
            let ghost before = views(output@);
            output.push(current);
            assert(views(output@) =~= before.push(current@));
            current = Vec::new();
            assert(current@ =~= Seq::<u8>::empty());
            i = i + 1;
        } else if c == '_' {
            if i + 1 >= s.len() {
                return Err(inv_arg("unterminated binary string escape sequence while parsing ArbData"));
            }
            let c1 = s[i + 1];
            assert(rest[1] == c1);
            if c1 == '_' || c1 == ',' {
                assert(rest.skip(2) =~= s@.skip(i + 2));
                if c1 == '_' {
                    current.push(95u8);
                } else {
                    current.push(44u8);
                }
                i = i + 2;
            } else {
                if !is_hex_digit(c1) {
                    return Err(inv_arg("invalid binary string escape sequence while parsing ArbData"));
                }
                if i + 2 >= s.len() {
                    return Err(inv_arg("unterminated binary string escape sequence while parsing ArbData"));
                }
                let c2 = s[i + 2];
                assert(rest[2] == c2);
                if !is_hex_digit(c2) {
                    return Err(inv_arg("invalid binary string escape sequence while parsing ArbData"));
                }
                let hi = hex_digit_value(c1);
                let lo = hex_digit_value(c2);
                assert(rest.skip(3) =~= s@.skip(i + 3));
                current.push(hi * 16 + lo);
                i = i + 3;
            }
        } else {
            assert(rest.drop_first() =~= s@.skip(i + 1));
            push_utf8(&mut current, c);
            i = i + 1;
        }
    }
    assert(s@.skip(i as int) =~= Seq::<char>::empty());
    let ghost before = views(output@);
    output.push(current);
    assert(views(output@) =~= before.push(current@));
    Ok(output)
}

/// The upper-case hexadecimal digit for `d`.
fn hex_digit_upper(d: u8) -> (c: char)
    requires
        d < 16,
    ensures
        c == hex_upper(d as nat),
{
    if d < 10 {
        (48u8 + d) as char
    } else {
        (55u8 + d) as char
    }
}

/// Whether the binary string holds a byte that is not printable ASCII.
fn has_unprintable(arg: &Vec<u8>) -> (b: bool)
    ensures
        b == needs_hex(arg@),
{
    let mut i: usize = 0;
    while i < arg.len()
        invariant
            i <= arg@.len(),
            forall|j: int| 0 <= j < i ==> !(arg@[j] < 32 || arg@[j] > 126),
        decreases arg@.len() - i,
    {
        if arg[i] < 32 || arg[i] > 126 {
            return true;
        }
        i = i + 1;
    }
    false
}

/// Appends the textual form of one binary string.
fn push_arg_text(out: &mut Vec<char>, arg: &Vec<u8>)
    ensures
        final(out)@ == old(out)@ + arg_text(arg@),
{
    let hex = has_unprintable(arg);
    let ghost a = arg@;
    let mut i: usize = 0;
    assert(a.skip(0) =~= a);
    while i < arg.len()
        invariant
            i <= a.len(),
            a == arg@,
            hex == needs_hex(a),
            old(out)@ + arg_text(a) == out@ + (if hex {
                hex_text(a.skip(i as int))
            } else {
                plain_text(a.skip(i as int))
            }),
        decreases a.len() - i,
    {
        let b = arg[i];
        let ghost rest = a.skip(i as int);
        assert(rest[0] == b);
        assert(rest.drop_first() =~= a.skip(i + 1));
        if hex {
            let ghost before = out@;
            out.push('_');
            out.push(hex_digit_upper(b / 16));
            out.push(hex_digit_upper(b % 16));
            assert(out@ =~= before + seq!['_', hex_upper(b as nat / 16), hex_upper(b as nat % 16)]);
        } else {
            let ghost before = out@;
            if b == 95u8 {
                out.push('_');
                out.push('_');
            } else if b == 44u8 {
                out.push('_');
                out.push(',');
            } else {
                out.push(b as char);
            }
            assert(out@ =~= before + escaped_byte(b));
        }
        i = i + 1;
    }
    assert(a.skip(i as int) =~= Seq::<u8>::empty());
    assert(out@ =~= old(out)@ + arg_text(a));
}

/// Appends the textual form of the binary strings, each preceded by a comma.
fn push_args_text(out: &mut Vec<char>, args: &Vec<Vec<u8>>)
    ensures
        final(out)@ == old(out)@ + args_text(views(args@)),
{
    let ghost all = views(args@);
    let mut i: usize = 0;
    assert(all.skip(0) =~= all);
    while i < args.len()
        invariant
            i <= args@.len(),
            all == views(args@),
            old(out)@ + args_text(all) == out@ + args_text(all.skip(i as int)),
        decreases args@.len() - i,
    {
        let ghost rest = all.skip(i as int);
        assert(rest[0] == args@[i as int]@);
        assert(rest.drop_first() =~= all.skip(i + 1));
        let ghost before = out@;
        out.push(',');
        push_arg_text(out, &args[i]);
        assert(out@ =~= before + (seq![','] + arg_text(rest[0])));
        i = i + 1;
    }
    assert(all.skip(i as int) =~= Seq::<Seq<u8>>::empty());
    assert(out@ =~= old(out)@ + args_text(all));
}

/// A binary string written in text, followed by the end of the text or a
/// comma, scans back to the same bytes.
pub proof fn lemma_scan_arg_text(a: Seq<u8>, rest: Seq<char>, cur: Seq<u8>, done: Seq<Seq<u8>>)
    requires
        rest.len() == 0 || rest[0] == ',',
    ensures
        scan_args(arg_text(a) + rest, cur, done) == scan_args(rest, cur + a, done),
{
    if needs_hex(a) {
        lemma_scan_hex_text(a, rest, cur, done);
    } else {
        lemma_scan_plain_text(a, rest, cur, done);
    }
}

/// The hexadecimal form of a binary string scans back to its bytes.
pub proof fn lemma_scan_hex_text(a: Seq<u8>, rest: Seq<char>, cur: Seq<u8>, done: Seq<Seq<u8>>)
    requires
        rest.len() == 0 || rest[0] == ',',
    ensures
        scan_args(hex_text(a) + rest, cur, done) == scan_args(rest, cur + a, done),
    decreases a.len(),
{
    if a.len() == 0 {
        assert(hex_text(a) + rest =~= rest);
        assert(cur + a =~= cur);
    } else {
        let b = a[0];
        let hi = hex_upper(b as nat / 16);
        let lo = hex_upper(b as nat % 16);
        let s = hex_text(a) + rest;
        let tail = hex_text(a.drop_first()) + rest;
        assert(s =~= seq!['_', hi, lo] + tail);
        assert(s[0] == '_' && s[1] == hi && s[2] == lo);
        assert(s.skip(3) =~= tail);
        assert(hex_val(hi) * 16 + hex_val(lo) == b);
        lemma_scan_hex_text(a.drop_first(), rest, cur.push(b), done);
        assert(cur.push(b) + a.drop_first() =~= cur + a);
    }
}

/// The escaped form of a printable binary string scans back to its bytes.
pub proof fn lemma_scan_plain_text(a: Seq<u8>, rest: Seq<char>, cur: Seq<u8>, done: Seq<Seq<u8>>)
    requires
        rest.len() == 0 || rest[0] == ',',
        !needs_hex(a),
    ensures
        scan_args(plain_text(a) + rest, cur, done) == scan_args(rest, cur + a, done),
    decreases a.len(),
{
    if a.len() == 0 {
        assert(plain_text(a) + rest =~= rest);
        assert(cur + a =~= cur);
    } else {
        let b = a[0];
        let s = plain_text(a) + rest;
        let tail = plain_text(a.drop_first()) + rest;
        assert(s =~= escaped_byte(b) + tail);
        assert(!(b < 32 || b > 126));
        assert(!needs_hex(a.drop_first())) by {
            if needs_hex(a.drop_first()) {
                let j = choose|j: int|
                    0 <= j < a.drop_first().len() && (a.drop_first()[j] < 32 || a.drop_first()[j]
                        > 126);
                assert(a[j + 1] == a.drop_first()[j]);
            }
        }
        if b == 95 {
            assert(s[0] == '_' && s[1] == '_' && s.len() >= 2);
            assert(s.skip(2) =~= tail);
        } else if b == 44 {
            assert(s[0] == '_' && s[1] == ',');
            assert(s.skip(2) =~= tail);
        } else {
            assert(s[0] == b as char);
            assert((b as char) as nat == b as nat);
            assert(s[0] != ',' && s[0] != '_');
            assert(s.drop_first() =~= tail);
            assert(utf8_encode(b as char) =~= seq![b]);
            assert(cur + utf8_encode(s[0]) =~= cur.push(b));
        }
        lemma_scan_plain_text(a.drop_first(), rest, cur.push(b), done);
        assert(cur.push(b) + a.drop_first() =~= cur + a);
    }
}

/// The textual form of one or more binary strings, without its leading comma,
/// parses back to the same binary strings.
pub proof fn lemma_args_roundtrip(args: Seq<Seq<u8>>)
    requires
        args.len() > 0,
    ensures
        parse_args(args_text(args).drop_first()) == Ok::<Seq<Seq<u8>>, Seq<char>>(args),
{
    assert(args_text(args).drop_first() =~= arg_text(args[0]) + args_text(args.drop_first()));
    lemma_scan_args_text(args, Seq::empty());
    assert(Seq::<Seq<u8>>::empty() + args =~= args);
}

/// Scanning the text of `args` after the strings `done` gives `done`
/// followed by `args`.
proof fn lemma_scan_args_text(args: Seq<Seq<u8>>, done: Seq<Seq<u8>>)
    requires
        args.len() > 0,
    ensures
        scan_args(arg_text(args[0]) + args_text(args.drop_first()), Seq::empty(), done) == Ok::<
            Seq<Seq<u8>>,
            Seq<char>,
        >(done + args),
    decreases args.len(),
{
    let rest = args_text(args.drop_first());
    let tail = args.drop_first();
    if tail.len() > 0 {
        assert(rest =~= seq![','] + (arg_text(tail[0]) + args_text(tail.drop_first())));
    }
    lemma_scan_arg_text(args[0], rest, Seq::empty(), done);
    assert(Seq::<u8>::empty() + args[0] =~= args[0]);
    if tail.len() == 0 {
        assert(rest =~= Seq::<char>::empty());
        assert(done.push(args[0]) =~= done + args);
    } else {
        assert(rest.drop_first() =~= arg_text(tail[0]) + args_text(tail.drop_first()));
        lemma_scan_args_text(tail, done.push(args[0]));
        assert(done.push(args[0]) + tail =~= done + args);
    }
}

/// The message for text that does not start with a JSON object.
pub open spec fn msg_expected_json() -> Seq<char> {
    "expected JSON argument while parsing ArbData"@
}

/// The message for a JSON string cut off by the end of the text.
pub open spec fn msg_unterminated_string() -> Seq<char> {
    "unterminated JSON string while parsing ArbData"@
}

/// The message for a JSON object cut off by the end of the text.
pub open spec fn msg_unterminated_object() -> Seq<char> {
    "unterminated JSON object while parsing ArbData"@
}

/// Adds `k` to a count of characters taken.
pub open spec fn taken_plus(r: std::result::Result<nat, Seq<char>>, k: nat) -> std::result::Result<
    nat,
    Seq<char>,
> {
    match r {
        Ok(n) => Ok(n + k),
        Err(m) => Err(m),
    }
}

/// Scans the rest of a JSON object from `s`, at the given nesting depth of
/// objects and inside a string or not, and returns the number of characters
/// up to and including the brace that closes the outermost object.
///
/// Inside strings, a backslash escapes the next character, and `\u` the next
/// five; outside strings, braces open and close objects.
pub open spec fn json_scan(s: Seq<char>, depth: nat, in_string: bool) -> std::result::Result<
    nat,
    Seq<char>,
>
    decreases s.len(),
{
    if in_string {
        if s.len() == 0 {
            Err(msg_unterminated_string())
        } else if s[0] == '"' {
            taken_plus(json_scan(s.drop_first(), depth, false), 1)
        } else if s[0] == '\\' {
            if s.len() < 2 {
                Err(msg_unterminated_string())
            } else if s[1] == 'u' {
                if s.len() < 6 {
                    Err(msg_unterminated_string())
                } else {
                    taken_plus(json_scan(s.skip(6), depth, true), 6)
                }
            } else {
                taken_plus(json_scan(s.skip(2), depth, true), 2)
            }
        } else {
            taken_plus(json_scan(s.drop_first(), depth, true), 1)
        }
    } else {
        if s.len() == 0 {
            Err(msg_unterminated_object())
        } else if s[0] == '{' {
            taken_plus(json_scan(s.drop_first(), depth + 1, false), 1)
        } else if s[0] == '}' {
            if depth <= 1 {
                Ok(1)
            } else {
                taken_plus(json_scan(s.drop_first(), (depth - 1) as nat, false), 1)
            }
        } else if s[0] == '"' {
            taken_plus(json_scan(s.drop_first(), depth, true), 1)
        } else {
            taken_plus(json_scan(s.drop_first(), depth, false), 1)
        }
    }
}

/// The length of the JSON object that `s` starts with.
pub open spec fn json_object_len(s: Seq<char>) -> std::result::Result<nat, Seq<char>> {
    if s.len() == 0 || s[0] != '{' {
        Err(msg_expected_json())
    } else {
        taken_plus(json_scan(s.drop_first(), 1, false), 1)
    }
}

/// Whether `t` holds no quote and no backslash: plain characters inside a
/// JSON string.
pub open spec fn plain_string_chars(t: Seq<char>) -> bool {
    forall|i: int| 0 <= i < t.len() ==> t[i] != '"' && t[i] != '\\'
}

/// Inside a JSON string, a backslash escapes the next character, so an
/// escaped quote does not end the string: the two characters are taken
/// together and scanning goes on inside the string. `\u` escapes the four
/// characters after it as well.
pub proof fn lemma_json_escape(c: char, h: Seq<char>, s: Seq<char>, depth: nat)
    requires
        h.len() == 4,
    ensures
        c != 'u' ==> json_scan(seq!['\\', c] + s, depth, true) == taken_plus(json_scan(s, depth, true), 2),
        json_scan(seq!['\\', 'u'] + h + s, depth, true) == taken_plus(json_scan(s, depth, true), 6),
{
    let a = seq!['\\', c] + s;
    assert(a[0] == '\\' && a[1] == c);
    assert(a.skip(2) =~= s);
    let b = seq!['\\', 'u'] + h + s;
    assert(b[0] == '\\' && b[1] == 'u');
    assert(b.skip(6) =~= s);
}

/// Plain characters inside a string are taken one by one.
proof fn lemma_json_plain_chars(t: Seq<char>, s: Seq<char>, depth: nat)
    requires
        plain_string_chars(t),
    ensures
        json_scan(t + s, depth, true) == taken_plus(json_scan(s, depth, true), t.len()),
    decreases t.len(),
{
    if t.len() > 0 {
        let u = t + s;
        assert(u[0] == t[0]);
        assert(u.drop_first() =~= t.drop_first() + s);
        lemma_json_plain_chars(t.drop_first(), s, depth);
    } else {
        assert(t + s =~= s);
    }
}

/// A JSON object with one member whose string value ends in an escaped
/// quote, such as `{"a":"\""}`, is taken whole, whatever follows it: the
/// escaped quote does not end the string.
pub proof fn lemma_json_object_with_escaped_quote(key: Seq<char>, value: Seq<char>, rest: Seq<char>)
    requires
        plain_string_chars(key),
        plain_string_chars(value),
    ensures
        json_object_len(seq!['{', '"'] + key + seq!['"', ':', '"'] + value + seq!['\\', '"', '"', '}']
            + rest) == Ok::<nat, Seq<char>>(key.len() + value.len() + 9),
{
    let tail = seq!['\\', '"', '"', '}'] + rest;
    let after_key = seq!['"', ':', '"'] + value + tail;
    let all = seq!['{', '"'] + key + seq!['"', ':', '"'] + value + tail;
    assert(all =~= seq!['{', '"'] + (key + after_key));
    assert(all[0] == '{');
    let s1 = all.drop_first();
    assert(s1 =~= seq!['"'] + (key + after_key));
    assert(s1[0] == '"');
    assert(s1.drop_first() =~= key + after_key);
    lemma_json_plain_chars(key, after_key, 1);
    assert(after_key[0] == '"');
    let s2 = after_key.drop_first();
    assert(s2 =~= seq![':', '"'] + (value + tail));
    assert(s2[0] == ':');
    let s3 = s2.drop_first();
    assert(s3 =~= seq!['"'] + (value + tail));
    assert(s3[0] == '"');
    assert(s3.drop_first() =~= value + tail);
    lemma_json_plain_chars(value, tail, 1);
    let rest2 = seq!['"', '}'] + rest;
    assert(tail =~= seq!['\\', '"'] + rest2);
    lemma_json_escape('"', seq!['0', '0', '0', '0'], rest2, 1);
    assert(rest2[0] == '"');
    let s4 = rest2.drop_first();
    assert(s4 =~= seq!['}'] + rest);
    assert(s4[0] == '}');
    let (k, v) = (key.len(), value.len());
    assert(json_scan(s4, 1, false) == Ok::<nat, Seq<char>>(1));
    assert(json_scan(rest2, 1, true) == Ok::<nat, Seq<char>>(2));
    assert(json_scan(tail, 1, true) == Ok::<nat, Seq<char>>(4));
    assert(json_scan(value + tail, 1, true) == Ok::<nat, Seq<char>>(v + 4));
    assert(json_scan(s3, 1, false) == Ok::<nat, Seq<char>>(v + 5));
    assert(json_scan(s2, 1, false) == Ok::<nat, Seq<char>>(v + 6));
    assert(json_scan(after_key, 1, true) == Ok::<nat, Seq<char>>(v + 7));
    assert(json_scan(key + after_key, 1, true) == Ok::<nat, Seq<char>>(k + v + 7));
    assert(json_scan(s1, 1, false) == Ok::<nat, Seq<char>>(k + v + 8));
    assert(seq!['{', '"'] + key + seq!['"', ':', '"'] + value + seq!['\\', '"', '"', '}'] + rest =~= all);
}

/// What the scan finds does not depend on what follows the object.
pub proof fn lemma_json_scan_prefix(s: Seq<char>, t: Seq<char>, depth: nat, in_string: bool)
    requires
        json_scan(s, depth, in_string) is Ok,
    ensures
        json_scan(s + t, depth, in_string) == json_scan(s, depth, in_string),
        json_scan(s, depth, in_string)->Ok_0 <= s.len(),
    decreases s.len(),
{
    let u = s + t;
    assert(u[0] == s[0]);
    if s.len() >= 2 {
        assert(u[1] == s[1]);
    }
    assert(u.drop_first() =~= s.drop_first() + t);
    if s.len() >= 2 {
        assert(u.skip(2) =~= s.skip(2) + t);
    }
    if s.len() >= 6 {
        assert(u.skip(6) =~= s.skip(6) + t);
    }
    if in_string {
        if s[0] == '"' {
            lemma_json_scan_prefix(s.drop_first(), t, depth, false);
        } else if s[0] == '\\' {
            if s[1] == 'u' {
                lemma_json_scan_prefix(s.skip(6), t, depth, true);
            } else {
                lemma_json_scan_prefix(s.skip(2), t, depth, true);
            }
        } else {
            lemma_json_scan_prefix(s.drop_first(), t, depth, true);
        }
    } else {
        if s[0] == '{' {
            lemma_json_scan_prefix(s.drop_first(), t, depth + 1, false);
        } else if s[0] == '}' {
            if depth > 1 {
                lemma_json_scan_prefix(s.drop_first(), t, (depth - 1) as nat, false);
            }
        } else if s[0] == '"' {
            lemma_json_scan_prefix(s.drop_first(), t, depth, true);
        } else {
            lemma_json_scan_prefix(s.drop_first(), t, depth, false);
        }
    }
}

/// Finds the end of the JSON object that `s` starts with.
fn scan_json_arg(s: &Vec<char>) -> (r: Result<usize>)
    ensures
        match json_object_len(s@) {
            Ok(n) => r is Ok && r->Ok_0 == n,
            Err(m) => r is Err && r->Err_0 is InvalidArgument && r->Err_0->InvalidArgument_0@ == m,
        },
{
    if s.len() == 0 || s[0] != '{' {
        return Err(inv_arg("expected JSON argument while parsing ArbData"));
    }
    let mut i: usize = 1;
    let mut depth: usize = 1;
    let mut in_string: bool = false;
    assert(s@.skip(1) =~= s@.drop_first());
    loop
        invariant
            1 <= i <= s@.len(),
            1 <= depth <= i,
            json_object_len(s@) == taken_plus(json_scan(s@.skip(i as int), depth as nat, in_string), i as nat),
        decreases s@.len() - i,
    {
        let ghost rest = s@.skip(i as int);
        if i >= s.len() {
            if in_string {
                return Err(inv_arg("unterminated JSON string while parsing ArbData"));
            } else {
                return Err(inv_arg("unterminated JSON object while parsing ArbData"));
            }
        }
        let c = s[i];
        assert(rest[0] == c);
        assert(rest.drop_first() =~= s@.skip(i + 1));
        if in_string {
            if c == '"' {
                in_string = false;
                i = i + 1;
            } else if c == '\\' {
                if i + 1 >= s.len() {
                    return Err(inv_arg("unterminated JSON string while parsing ArbData"));
                }
                assert(rest[1] == s@[i + 1]);
                if s[i + 1] == 'u' {
                    if s.len() - i < 6 {
                        return Err(inv_arg("unterminated JSON string while parsing ArbData"));
                    }
                    assert(rest.skip(6) =~= s@.skip(i + 6));
                    i = i + 6;
                } else {
                    assert(rest.skip(2) =~= s@.skip(i + 2));
                    i = i + 2;
                }
            } else {
                i = i + 1;
            }
        } else {
            if c == '{' {
                depth = depth + 1;
                i = i + 1;
            } else if c == '}' {
                if depth <= 1 {
                    return Ok(i + 1);
                }
                depth = depth - 1;
                i = i + 1;
            } else if c == '"' {
                in_string = true;
                i = i + 1;
            } else {
                i = i + 1;
            }
        }
    }
}

/// What converting JSON text to CBOR gives: the CBOR bytes, or the message
/// of the error.
pub uninterp spec fn json_to_cbor(json: Seq<char>) -> std::result::Result<Seq<u8>, Seq<char>>;

/// What converting CBOR to compact JSON text gives: the text, or the message
/// of the error.
pub uninterp spec fn cbor_to_json(cbor: Seq<u8>) -> std::result::Result<Seq<char>, Seq<char>>;

/// Converts JSON text to CBOR with `serde_transcode::transcode`, reading
/// through a `serde_json` deserializer and writing through a `serde_cbor`
/// serializer. Claims only that the result, bytes or error message, is
/// `json_to_cbor` of the text.
#[verifier::external_body]
fn transcode_json_to_cbor(json: &str) -> (r: std::result::Result<Vec<u8>, String>)
    ensures
        match r {
            Ok(b) => json_to_cbor(json@) == Ok::<Seq<u8>, Seq<char>>(b@),
            Err(m) => json_to_cbor(json@) == Err::<Seq<u8>, Seq<char>>(m@),
        },
{
    let mut output: Vec<u8> = Vec::new();
    let mut de = serde_json::Deserializer::from_str(json);
    let mut ser = serde_cbor::ser::Serializer::new(&mut output);
    match serde_transcode::transcode(&mut de, &mut ser) {
        Ok(()) => Ok(output),
        Err(e) => Err(e.to_string()),
    }
}

/// Converts CBOR to compact JSON text with `serde_transcode::transcode`,
/// reading through a `serde_cbor` deserializer and writing through a
/// `serde_json` serializer, then taking the bytes as UTF-8. Claims only that
/// the result, text or error message, is `cbor_to_json` of the bytes.
#[verifier::external_body]
fn transcode_cbor_to_json(cbor: &[u8]) -> (r: std::result::Result<String, String>)
    ensures
        match r {
            Ok(t) => cbor_to_json(cbor@) == Ok::<Seq<char>, Seq<char>>(t@),
            Err(m) => cbor_to_json(cbor@) == Err::<Seq<char>, Seq<char>>(m@),
        },
{
    let mut output: Vec<u8> = Vec::new();
    let mut de = serde_cbor::de::Deserializer::from_slice(cbor);
    let mut ser = serde_json::Serializer::new(&mut output);
    match serde_transcode::transcode(&mut de, &mut ser) {
        Ok(()) => match String::from_utf8(output) {
            Ok(t) => Ok(t),
            Err(e) => Err(e.to_string()),
        },
        Err(e) => Err(e.to_string()),
    }
}

/// The CBOR encoding of the empty JSON object `{}`.
pub open spec fn empty_cbor() -> Seq<u8> {
    seq![0xA0u8]
}

/// The CBOR encoding of the empty JSON object `{}`.
fn empty_cbor_bytes() -> (v: Vec<u8>)
    ensures
        v@ == empty_cbor(),
        is_canonical(v@),
{
    let v: Vec<u8> = vec![0xA0u8];
    assert(v@ =~= empty_cbor());
    proof {
        lemma_empty_map_canonical();
    }
    v
}

/// Lends out a list of binary strings.
fn borrow_args(args: &mut Vec<Vec<u8>>) -> (r: &mut Vec<Vec<u8>>)
    ensures
        *r == *old(args),
        *final(args) == *final(r),
    no_unwind
{
    args
}

/// Canonicalizes CBOR bytes; what comes out is in canonical form.
fn canonical_cbor(input: &[u8]) -> (r: Result<Vec<u8>>)
    ensures
        match spec_canonicalize(input@) {
            Some(c) => r is Ok && r->Ok_0@ == c,
            None => r is Err && r->Err_0 is InvalidArgument,
        },
        r is Ok ==> is_canonical(r->Ok_0@),
{
    let r = canonizalize(input);
    proof {
        assert(input@.len() == input.len());
        if r is Ok {
            lemma_canonicalize_idempotent(input@);
        }
    }
    r
}

/// Copies a list of binary strings.
fn copy_args(args: &[Vec<u8>]) -> (r: Vec<Vec<u8>>)
    ensures
        views(r@) == views(args@),
{
    let mut r: Vec<Vec<u8>> = Vec::new();
    let mut i: usize = 0;
    while i < args.len()
        invariant
            i <= args@.len(),
            views(r@) =~= views(args@).take(i as int),
        decreases args@.len() - i,
    {
        let a = vstd::slice::slice_to_vec(args[i].as_slice());
        assert(a@ == args@[i as int]@);
        let ghost before = views(r@);
        r.push(a);
        assert(views(r@) =~= before.push(args@[i as int]@));
        assert(views(r@) =~= views(args@).take(i + 1));
        i = i + 1;
    }
    assert(views(args@).take(i as int) =~= views(args@));
    r
}

/// A JSON/CBOR object together with a list of binary strings. The object is
/// kept as canonical CBOR.
#[derive(Debug, PartialEq, Eq, Hash)]
pub struct ArbData {
    cbor: Vec<u8>,
    args: Vec<Vec<u8>>,
}

impl ArbData {
    /// The CBOR object is in canonical form.
    #[verifier::type_invariant]
    spec fn cbor_canonical(&self) -> bool {
        is_canonical(self.cbor@)
    }
}

impl Clone for ArbData {
    /// A copy of the object and the binary strings.
    fn clone(&self) -> (d: ArbData)
        ensures
            d@ == self@,
    {
        let mut d = ArbData::default();
        d.copy_from(self);
        d
    }
}

impl View for ArbData {
    type V = (Seq<u8>, Seq<Seq<u8>>);

    /// The CBOR bytes and the binary strings.
    closed spec fn view(&self) -> (Seq<u8>, Seq<Seq<u8>>) {
        (self.cbor@, views(self.args@))
    }
}

impl Default for ArbData {
    /// The object `{}` with no binary strings.
    fn default() -> (d: ArbData)
        ensures
            d@ == (empty_cbor(), Seq::<Seq<u8>>::empty()),
    {
        let d = ArbData { cbor: empty_cbor_bytes(), args: Vec::new() };
        assert(views(d.args@) =~= Seq::<Seq<u8>>::empty());
        d
    }
}

impl ArbData {
    /// Constructs an `ArbData` from text holding only binary strings, with
    /// `{}` for the JSON object. The strings are separated by commas; `_,`
    /// stands for a comma, `__` for an underscore and `_##`, with `##` two
    /// hexadecimal digits, for the byte with that value.
    pub fn from_str_args_only(s: &str) -> (r: Result<ArbData>)
        ensures
            match parse_args(s@) {
                Ok(a) => r is Ok && r->Ok_0@ == (empty_cbor(), a),
                Err(m) => r is Err && r->Err_0 is InvalidArgument && r->Err_0->InvalidArgument_0@ == m,
            },
    {
        let chars = str_chars(s);
        assert(chars@.skip(0) =~= s@);
        let args = scan_unstructured_args(&chars, 0)?;
        Ok(ArbData { cbor: empty_cbor_bytes(), args })
    }

    /// Constructs an `ArbData` with the given binary strings and `{}` for
    /// the JSON object.
    pub fn from_args(args: Vec<Vec<u8>>) -> (d: ArbData)
        ensures
            d@ == (empty_cbor(), views(args@)),
    {
        ArbData { cbor: empty_cbor_bytes(), args }
    }

    /// Constructs an `ArbData` from a CBOR object, canonicalized, and binary
    /// strings; fails when the bytes are not one well-formed CBOR value.
    pub fn from_cbor(cbor: &[u8], args: Vec<Vec<u8>>) -> (r: Result<ArbData>)
        ensures
            match spec_canonicalize(cbor@) {
                Some(c) => r is Ok && r->Ok_0@ == (c, views(args@)),
                None => r is Err && r->Err_0 is InvalidArgument,
            },
    {
        let c = canonical_cbor(cbor)?;
        Ok(ArbData { cbor: c, args })
    }

    /// Constructs an `ArbData` from JSON text, converted to canonical CBOR,
    /// and binary strings; fails when the text does not convert.
    pub fn from_json(json: &str, args: Vec<Vec<u8>>) -> (r: Result<ArbData>)
        ensures
            match json_to_cbor(json@) {
                Err(m) => r is Err && r->Err_0 is InvalidArgument && r->Err_0->InvalidArgument_0@ == m,
                Ok(raw) => match spec_canonicalize(raw) {
                    Some(c) => r is Ok && r->Ok_0@ == (c, views(args@)),
                    None => r is Err && r->Err_0 is InvalidArgument,
                },
            },
    {
        match transcode_json_to_cbor(json) {
            Err(m) => Err(Error::InvalidArgument(m)),
            Ok(raw) => {
                let c = canonical_cbor(raw.as_slice())?;
                Ok(ArbData { cbor: c, args })
            },
        }
    }

    /// Returns the JSON/CBOR object as compact JSON text.
    pub fn get_json(&self) -> (r: Result<String>)
        ensures
            match cbor_to_json(self@.0) {
                Ok(t) => r is Ok && r->Ok_0@ == t,
                Err(m) => r is Err && r->Err_0 is Other && r->Err_0->Other_0@ == m,
            },
    {
        match transcode_cbor_to_json(self.cbor.as_slice()) {
            Ok(t) => Ok(t),
            Err(m) => Err(Error::Other(m)),
        }
    }

    /// Returns the JSON/CBOR object as CBOR bytes.
    pub fn get_cbor(&self) -> (c: &[u8])
        ensures
            c@ == self@.0,
            is_canonical(c@),
    {
        proof {
            use_type_invariant(self);
        }
        self.cbor.as_slice()
    }

    /// Returns the binary strings.
    pub fn get_args(&self) -> (a: &[Vec<u8>])
        ensures
            views(a@) == self@.1,
    {
        self.args.as_slice()
    }

    /// Returns the binary strings for modification.
    pub fn get_args_mut(&mut self) -> (a: &mut Vec<Vec<u8>>)
        ensures
            views(a@) == old(self)@.1,
            final(self)@ == (old(self)@.0, views(final(a)@)),
    {
        proof {
            use_type_invariant(&*self);
        }
        borrow_args(&mut self.args)
    }

    /// Sets the JSON/CBOR object from JSON text, converted to canonical
    /// CBOR; on failure nothing changes.
    pub fn set_json(&mut self, json: &str) -> (r: Result<()>)
        ensures
            match json_to_cbor(json@) {
                Err(m) => r is Err && r->Err_0 is InvalidArgument && r->Err_0->InvalidArgument_0@ == m
                    && final(self)@ == old(self)@,
                Ok(raw) => match spec_canonicalize(raw) {
                    Some(c) => r is Ok && final(self)@ == (c, old(self)@.1),
                    None => r is Err && r->Err_0 is InvalidArgument && final(self)@ == old(self)@,
                },
            },
    {
        match transcode_json_to_cbor(json) {
            Err(m) => Err(Error::InvalidArgument(m)),
            Ok(raw) => {
                let c = canonical_cbor(raw.as_slice())?;
                self.cbor = c;
                Ok(())
            },
        }
    }

    /// Sets the JSON/CBOR object from CBOR bytes, canonicalized; on failure
    /// nothing changes.
    pub fn set_cbor(&mut self, cbor: &[u8]) -> (r: Result<()>)
        ensures
            match spec_canonicalize(cbor@) {
                Some(c) => r is Ok && final(self)@ == (c, old(self)@.1),
                None => r is Err && r->Err_0 is InvalidArgument && final(self)@ == old(self)@,
            },
    {
        let c = canonical_cbor(cbor)?;
        self.cbor = c;
        Ok(())
    }

    /// Replaces the binary strings.
    pub fn set_args(&mut self, args: Vec<Vec<u8>>)
        ensures
            final(self)@ == (old(self)@.0, views(args@)),
    {
        proof {
            use_type_invariant(&*self);
        }
        self.args = args;
    }

    /// Resets the JSON/CBOR object to `{}`.
    pub fn clear_cbor(&mut self)
        ensures
            final(self)@ == (empty_cbor(), old(self)@.1),
    {
        self.cbor = empty_cbor_bytes();
    }

    /// Removes all binary strings.
    pub fn clear_args(&mut self)
        ensures
            final(self)@ == (old(self)@.0, Seq::<Seq<u8>>::empty()),
    {
        proof {
            use_type_invariant(&*self);
        }
        self.args = Vec::new();
        assert(views(self.args@) =~= Seq::<Seq<u8>>::empty());
    }

    /// Resets the JSON/CBOR object to `{}` and removes all binary strings.
    pub fn clear(&mut self)
        ensures
            final(self)@ == (empty_cbor(), Seq::<Seq<u8>>::empty()),
    {
        self.clear_cbor();
        self.clear_args();
    }

    /// Makes this object a copy of `src`.
    pub fn copy_from(&mut self, src: &ArbData)
        ensures
            final(self)@ == src@,
    {
        proof {
            use_type_invariant(src);
        }
        self.cbor = vstd::slice::slice_to_vec(src.cbor.as_slice());
        self.args = copy_args(src.args.as_slice());
    }
}

/// The outcome of parsing the textual form of an `ArbData`.
pub enum ArbParse {
    /// The text holds this canonical CBOR object and these binary strings.
    Parsed(Seq<u8>, Seq<Seq<u8>>),
    /// The text is rejected with this message.
    Rejected(Seq<char>),
    /// The JSON object converted to CBOR that canonicalization rejected.
    InvalidCbor,
}

/// The message for JSON text that does not convert to CBOR.
pub open spec fn msg_bad_json(json: Seq<char>, e: Seq<char>) -> Seq<char> {
    "error parsing JSON component of ArbData, "@ + json + ": "@ + e
}

/// The message for a character other than a comma after the JSON object.
pub open spec fn msg_no_comma(c: char) -> Seq<char> {
    "expected comma after JSON object in ArbData, received "@ + seq![c]
}

/// Parses the textual form of an `ArbData`: a JSON object, converted to
/// canonical CBOR, optionally followed by a comma and binary strings.
pub open spec fn parse_arb(s: Seq<char>) -> ArbParse {
    match json_object_len(s) {
        Err(m) => ArbParse::Rejected(m),
        Ok(n) => match json_to_cbor(s.take(n as int)) {
            Err(e) => ArbParse::Rejected(msg_bad_json(s.take(n as int), e)),
            Ok(raw) => match spec_canonicalize(raw) {
                None => ArbParse::InvalidCbor,
                Some(c) => if n >= s.len() {
                    ArbParse::Parsed(c, Seq::empty())
                } else if s[n as int] == ',' {
                    match parse_args(s.skip(n + 1 as int)) {
                        Ok(a) => ArbParse::Parsed(c, a),
                        Err(m) => ArbParse::Rejected(m),
                    }
                } else {
                    ArbParse::Rejected(msg_no_comma(s[n as int]))
                },
            },
        },
    }
}

/// The JSON object that text starts with lies within the text.
proof fn lemma_json_object_len_bound(s: Seq<char>)
    requires
        json_object_len(s) is Ok,
    ensures
        json_object_len(s)->Ok_0 <= s.len(),
{
    lemma_json_scan_prefix(s.drop_first(), Seq::empty(), 1, false);
}

impl ArbData {
    /// Constructs an `ArbData` from its textual form: a JSON object,
    /// optionally followed by a comma and binary strings separated by
    /// commas, written as for `from_str_args_only`.
    pub fn from_str(s: &str) -> (r: Result<ArbData>)
        ensures
            match parse_arb(s@) {
                ArbParse::Parsed(c, a) => r is Ok && r->Ok_0@ == (c, a),
                ArbParse::Rejected(m) => r is Err && r->Err_0 is InvalidArgument
                    && r->Err_0->InvalidArgument_0@ == m,
                ArbParse::InvalidCbor => r is Err && r->Err_0 is InvalidArgument,
            },
    {
        let mut chars = str_chars(s);
        let n = scan_json_arg(&chars)?;
        proof {
            lemma_json_object_len_bound(chars@);
        }
        let ghost all = chars@;
        let rest = chars.split_off(n);
        let json = string_from_chars(&chars);
        assert(json@ == all.take(n as int));
        let raw = match transcode_json_to_cbor(json.as_str()) {
            Ok(b) => b,
            Err(e) => {
                let mut msg: Vec<char> = Vec::new();
                push_str(&mut msg, "error parsing JSON component of ArbData, ");
                push_str(&mut msg, json.as_str());
                push_str(&mut msg, ": ");
                push_str(&mut msg, e.as_str());
                assert(msg@ =~= msg_bad_json(all.take(n as int), e@));
                return Err(Error::InvalidArgument(string_from_chars(&msg)));
            },
        };
        let c = canonical_cbor(raw.as_slice())?;
        if rest.len() == 0 {
            let d = ArbData { cbor: c, args: Vec::new() };
            assert(views(d.args@) =~= Seq::<Seq<u8>>::empty());
            Ok(d)
        } else if rest[0] == ',' {
            assert(rest@.skip(1) =~= all.skip(n + 1));
            let args = scan_unstructured_args(&rest, 1)?;
            Ok(ArbData { cbor: c, args })
        } else {
            let mut msg: Vec<char> = Vec::new();
            push_str(&mut msg, "expected comma after JSON object in ArbData, received ");
            msg.push(rest[0]);
            assert(msg@ =~= msg_no_comma(all[n as int]));
            Err(Error::InvalidArgument(string_from_chars(&msg)))
        }
    }

    /// The textual form that `from_str` reads: the JSON text of the object,
    /// then each binary string after a comma. A string holding a byte that
    /// is not printable ASCII is written byte by byte as `_` and two
    /// upper-case hexadecimal digits; otherwise `_` and `,` are escaped.
    pub fn to_string(&self) -> (r: Result<String>)
        ensures
            match arb_text(self@) {
                Ok(t) => r is Ok && r->Ok_0@ == t,
                Err(m) => r is Err && r->Err_0 is Other && r->Err_0->Other_0@ == m,
            },
    {
        let json = self.get_json()?;
        let mut out = str_chars(json.as_str());
        push_args_text(&mut out, &self.args);
        Ok(string_from_chars(&out))
    }
}

/// The textual form of an `ArbData` with the given view: the JSON text of
/// its object followed by the text of its binary strings, or the message of
/// the error in converting the object to JSON.
pub open spec fn arb_text(d: (Seq<u8>, Seq<Seq<u8>>)) -> std::result::Result<Seq<char>, Seq<char>> {
    match cbor_to_json(d.0) {
        Ok(t) => Ok(t + args_text(d.1)),
        Err(m) => Err(m),
    }
}

/// The textual form of an `ArbData` parses back to it: JSON text that is
/// exactly one JSON object, converting to CBOR whose canonical form is
/// `cbor`, followed by the text of `args`, parses to `cbor` and `args`.
pub proof fn lemma_text_roundtrip(json: Seq<char>, cbor: Seq<u8>, args: Seq<Seq<u8>>)
    ensures
        (json_object_len(json) == Ok::<nat, Seq<char>>(json.len()) && json_to_cbor(json) is Ok
            && spec_canonicalize(json_to_cbor(json)->Ok_0) == Some(cbor)) ==> parse_arb(
            json + args_text(args),
        ) == ArbParse::Parsed(cbor, args),
{
    if json_object_len(json) == Ok::<nat, Seq<char>>(json.len()) && json_to_cbor(json) is Ok
        && spec_canonicalize(json_to_cbor(json)->Ok_0) == Some(cbor) {
        let t = args_text(args);
        let s = json + t;
        assert(s[0] == json[0]);
        assert(s.drop_first() =~= json.drop_first() + t);
        lemma_json_scan_prefix(json.drop_first(), t, 1, false);
        assert(json_object_len(s) == Ok::<nat, Seq<char>>(json.len()));
        assert(s.take(json.len() as int) =~= json);
        if args.len() == 0 {
            assert(t =~= Seq::<char>::empty());
            assert(args =~= Seq::<Seq<u8>>::empty());
        } else {
            assert(s[json.len() as int] == t[0]);
            assert(s.skip(json.len() + 1 as int) =~= t.drop_first());
            lemma_args_roundtrip(args);
        }
    }
}

} // verus!
