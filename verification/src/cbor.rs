//! Canonicalization of CBOR values.
//!
//! A CBOR value is canonicalized by rewriting every tag in its shortest form,
//! turning indefinite-length byte strings, text strings, arrays and maps into
//! their definite-length equivalents, and ordering the key/value pairs of
//! every map by the bytes of their (canonicalized) encoding. Floating point
//! and simple values keep their width.

use crate::error::{inv_arg, Error, Result};
use vstd::prelude::*;
use vstd::relations::{sorted_by, total_ordering};

verus! {

broadcast use vstd::std_specs::control_flow::group_control_flow_axioms;

/// A decoded CBOR data item.
pub enum CborValue {
    /// Major types 0, 1 and 7: an unsigned or negative integer, or a simple or
    /// floating point value. `minor` is the additional-information field of
    /// the tag it was read from; `value` is its argument.
    Simple { major: u8, minor: u8, value: u64 },
    /// Major types 2 and 3: a byte string or a UTF-8 text string.
    Bytes { major: u8, content: Seq<u8> },
    /// Major type 4: an array.
    Array { items: Seq<CborValue> },
    /// Major type 5: a map, as its key/value pairs in input order.
    Dict { entries: Seq<(CborValue, CborValue)> },
    /// Major type 6: a semantic tag applied to a data item.
    Tagged { tag: u64, item: Box<CborValue> },
}

/// The decoded form of a CBOR tag: major type, additional information,
/// argument (`None` for indefinite length) and number of bytes taken.
pub struct CborTag {
    pub major: u8,
    pub minor: u8,
    pub additional: Option<u64>,
    pub len: nat,
}

/// `256` to the power `n`.
pub open spec fn pow256(n: nat) -> nat
    decreases n,
{
    if n == 0 {
        1
    } else {
        256 * pow256((n - 1) as nat)
    }
}

/// The big-endian unsigned integer encoded by the given bytes.
pub open spec fn be_value(s: Seq<u8>) -> nat
    decreases s.len(),
{
    if s.len() == 0 {
        0
    } else {
        be_value(s.drop_last()) * 256 + s.last() as nat
    }
}

/// The `n` least significant bytes of `v`, most significant first.
pub open spec fn be_bytes(v: nat, n: nat) -> Seq<u8>
    decreases n,
{
    if n == 0 {
        Seq::empty()
    } else {
        be_bytes(v / 256, (n - 1) as nat).push((v % 256) as u8)
    }
}

/// The number of argument bytes that follow a tag with the given additional
/// information field.
pub open spec fn tag_width(minor: u8) -> nat {
    if minor == 24 {
        1
    } else if minor == 25 {
        2
    } else if minor == 26 {
        4
    } else if minor == 27 {
        8
    } else {
        0
    }
}

/// Decodes the tag at the front of `input`. A `0xFF` byte (break) and the
/// reserved additional-information values 28 to 30 are not tags.
pub open spec fn parse_tag(input: Seq<u8>) -> Option<CborTag> {
    if input.len() == 0 || input[0] == 0xFF {
        None
    } else {
        let major = input[0] / 32;
        let minor = input[0] % 32;
        if minor < 24 {
            Some(CborTag { major, minor, additional: Some(minor as u64), len: 1 })
        } else if minor <= 27 {
            let w = tag_width(minor);
            if input.len() < 1 + w {
                None
            } else {
                Some(
                    CborTag {
                        major,
                        minor,
                        additional: Some(be_value(input.subrange(1, 1 + w as int)) as u64),
                        len: 1 + w,
                    },
                )
            }
        } else if minor < 31 {
            None
        } else {
            Some(CborTag { major, minor, additional: None, len: 1 })
        }
    }
}

/// Decodes the chunks of an indefinite-length byte or text string of the
/// given major type, up to and including the break byte. Returns the
/// concatenated chunk contents and the number of bytes taken.
pub open spec fn parse_chunks(input: Seq<u8>, major: u8) -> Option<(Seq<u8>, nat)>
    decreases input.len(),
{
    if input.len() == 0 {
        None
    } else if input[0] == 0xFF {
        Some((Seq::empty(), 1))
    } else {
        match parse_tag(input) {
            Some(t) => {
                if t.major != major || t.additional is None || t.len + (t.additional->0 as nat)
                    > input.len() {
                    None
                } else {
                    let n = t.additional->0 as nat;
                    match parse_chunks(input.skip((t.len + n) as int), major) {
                        Some((c, l)) => Some((input.subrange(t.len as int, (t.len + n) as int) + c, t.len + n + l)),
                        None => None,
                    }
                }
            },
            None => None,
        }
    }
}

/// Decodes the data item at the front of `input`, returning it and the
/// number of bytes it takes.
pub open spec fn parse_value(input: Seq<u8>) -> Option<(CborValue, nat)>
    decreases input.len(), 0nat, 0nat,
{
    match parse_tag(input) {
        None => None,
        Some(t) => match parse_body(input.skip(t.len as int), t.major, t.minor, t.additional) {
            Some((v, l)) => Some((v, t.len + l)),
            None => None,
        },
    }
}

/// Decodes what follows a tag with the given fields: nothing for simple
/// values, the string contents, the array items, the map entries, or the
/// tagged item. Returns the data item and the number of bytes taken after the
/// tag.
pub open spec fn parse_body(rest: Seq<u8>, major: u8, minor: u8, additional: Option<u64>) -> Option<
    (CborValue, nat),
>
    decreases rest.len(), 3nat, 0nat,
{
    if major <= 1 || major == 7 {
        match additional {
            Some(a) => Some((CborValue::Simple { major, minor, value: a }, 0)),
            None => None,
        }
    } else if major <= 3 {
        match additional {
            Some(n) => if n <= rest.len() {
                Some((CborValue::Bytes { major, content: rest.take(n as int) }, n as nat))
            } else {
                None
            },
            None => match parse_chunks(rest, major) {
                Some((c, l)) => Some((CborValue::Bytes { major, content: c }, l)),
                None => None,
            },
        }
    } else if major == 4 {
        match (
            match additional {
                Some(n) => parse_items(rest, n as nat),
                None => parse_items_indef(rest),
            }
        ) {
            Some((items, l)) => Some((CborValue::Array { items }, l)),
            None => None,
        }
    } else if major == 5 {
        match (
            match additional {
                Some(n) => parse_pairs(rest, n as nat),
                None => parse_pairs_indef(rest),
            }
        ) {
            Some((entries, l)) => Some((CborValue::Dict { entries }, l)),
            None => None,
        }
    } else {
        match additional {
            Some(tag) => match parse_value(rest) {
                Some((v, l)) => Some((CborValue::Tagged { tag, item: Box::new(v) }, l)),
                None => None,
            },
            None => None,
        }
    }
}

/// Decodes `n` consecutive data items.
pub open spec fn parse_items(input: Seq<u8>, n: nat) -> Option<(Seq<CborValue>, nat)>
    decreases input.len(), 1nat, n,
{
    if n == 0 {
        Some((Seq::empty(), 0))
    } else {
        match parse_value(input) {
            Some((v, l)) => if 1 <= l <= input.len() {
                match parse_items(input.skip(l as int), (n - 1) as nat) {
                    Some((vs, l2)) => Some((seq![v] + vs, l + l2)),
                    None => None,
                }
            } else {
                None
            },
            None => None,
        }
    }
}

/// Decodes data items up to and including a break byte.
pub open spec fn parse_items_indef(input: Seq<u8>) -> Option<(Seq<CborValue>, nat)>
    decreases input.len(), 1nat, 0nat,
{
    if input.len() == 0 {
        None
    } else if input[0] == 0xFF {
        Some((Seq::empty(), 1))
    } else {
        match parse_value(input) {
            Some((v, l)) => if 1 <= l <= input.len() {
                match parse_items_indef(input.skip(l as int)) {
                    Some((vs, l2)) => Some((seq![v] + vs, l + l2)),
                    None => None,
                }
            } else {
                None
            },
            None => None,
        }
    }
}

/// Decodes one key/value pair.
pub open spec fn parse_pair(input: Seq<u8>) -> Option<((CborValue, CborValue), nat)>
    decreases input.len(), 0nat, 1nat,
{
    match parse_value(input) {
        Some((k, l1)) => if 1 <= l1 <= input.len() {
            match parse_value(input.skip(l1 as int)) {
                Some((v, l2)) => Some(((k, v), l1 + l2)),
                None => None,
            }
        } else {
            None
        },
        None => None,
    }
}

/// Decodes `n` consecutive key/value pairs.
pub open spec fn parse_pairs(input: Seq<u8>, n: nat) -> Option<(Seq<(CborValue, CborValue)>, nat)>
    decreases input.len(), 1nat, n,
{
    if n == 0 {
        Some((Seq::empty(), 0))
    } else {
        match parse_pair(input) {
            Some((p, l)) => if 1 <= l <= input.len() {
                match parse_pairs(input.skip(l as int), (n - 1) as nat) {
                    Some((ps, l2)) => Some((seq![p] + ps, l + l2)),
                    None => None,
                }
            } else {
                None
            },
            None => None,
        }
    }
}

/// Decodes key/value pairs up to and including a break byte.
pub open spec fn parse_pairs_indef(input: Seq<u8>) -> Option<(Seq<(CborValue, CborValue)>, nat)>
    decreases input.len(), 1nat, 0nat,
{
    if input.len() == 0 {
        None
    } else if input[0] == 0xFF {
        Some((Seq::empty(), 1))
    } else {
        match parse_pair(input) {
            Some((p, l)) => if 1 <= l <= input.len() {
                match parse_pairs_indef(input.skip(l as int)) {
                    Some((ps, l2)) => Some((seq![p] + ps, l + l2)),
                    None => None,
                }
            } else {
                None
            },
            None => None,
        }
    }
}

/// Lexicographic order on byte strings; a proper prefix comes first.
pub open spec fn lex_le(a: Seq<u8>, b: Seq<u8>) -> bool
    decreases a.len(),
{
    if a.len() == 0 {
        true
    } else if b.len() == 0 {
        false
    } else if a[0] < b[0] {
        true
    } else if a[0] > b[0] {
        false
    } else {
        lex_le(a.drop_first(), b.drop_first())
    }
}

/// `lex_le` as a relation.
pub open spec fn lex_order() -> spec_fn(Seq<u8>, Seq<u8>) -> bool {
    |a: Seq<u8>, b: Seq<u8>| lex_le(a, b)
}

/// The shortest additional-information field that can hold `value`.
pub open spec fn shortest_minor(value: u64) -> u8 {
    if value <= 23 {
        value as u8
    } else if value <= 0xFF {
        24
    } else if value <= 0xFFFF {
        25
    } else if value <= 0xFFFF_FFFF {
        26
    } else {
        27
    }
}

/// The encoding of a tag with the given fields.
pub open spec fn header(major: u8, minor: u8, value: u64) -> Seq<u8> {
    seq![(major * 32 + minor) as u8] + be_bytes(value as nat, tag_width(minor))
}

/// The concatenation of a sequence of byte strings.
pub open spec fn concat_all(s: Seq<Seq<u8>>) -> Seq<u8>
    decreases s.len(),
{
    if s.len() == 0 {
        Seq::empty()
    } else {
        concat_all(s.drop_last()) + s.last()
    }
}

/// The canonical encoding of a data item.
pub open spec fn encode(v: CborValue) -> Seq<u8>
    decreases v,
{
    match v {
        CborValue::Simple { major, minor, value } => header(
            major,
            if major == 7 {
                minor
            } else {
                shortest_minor(value)
            },
            value,
        ),
        CborValue::Bytes { major, content } => header(
            major,
            shortest_minor(content.len() as u64),
            content.len() as u64,
        ) + content,
        CborValue::Array { items } => header(4, shortest_minor(items.len() as u64), items.len() as u64)
            + encode_items(items),
        CborValue::Dict { entries } => header(5, shortest_minor(entries.len() as u64), entries.len() as u64)
            + concat_all(encode_pairs(entries).sort_by(lex_order())),
        CborValue::Tagged { tag, item } => header(6, shortest_minor(tag), tag) + encode(*item),
    }
}

/// The concatenated canonical encodings of a sequence of data items.
pub open spec fn encode_items(items: Seq<CborValue>) -> Seq<u8>
    decreases items,
{
    if items.len() == 0 {
        Seq::empty()
    } else {
        encode_items(items.subrange(0, items.len() - 1)) + encode(items[items.len() - 1])
    }
}

/// The canonical encodings of key/value pairs, one byte string per pair.
pub open spec fn encode_pairs(entries: Seq<(CborValue, CborValue)>) -> Seq<Seq<u8>>
    decreases entries,
{
    if entries.len() == 0 {
        Seq::empty()
    } else {
        encode_pairs(entries.subrange(0, entries.len() - 1)).push(
            encode(entries[entries.len() - 1].0) + encode(entries[entries.len() - 1].1),
        )
    }
}

/// The canonical form of a complete CBOR value: `None` when the input is not
/// exactly one well-formed data item.
pub open spec fn spec_canonicalize(input: Seq<u8>) -> Option<Seq<u8>> {
    match parse_value(input) {
        Some((v, l)) => if l == input.len() {
            Some(encode(v))
        } else {
            None
        },
        None => None,
    }
}

/// A big-endian integer of `n` bytes is below `256^n`.
pub proof fn lemma_be_value_bound(s: Seq<u8>)
    ensures
        be_value(s) < pow256(s.len()),
    decreases s.len(),
{
    if s.len() > 0 {
        lemma_be_value_bound(s.drop_last());
    }
}

/// `pow256` is monotonic.
pub proof fn lemma_pow256_mono(i: nat, j: nat)
    requires
        i <= j,
    ensures
        pow256(i) <= pow256(j),
    decreases j,
{
    if i < j {
        lemma_pow256_mono(i, (j - 1) as nat);
    }
}

/// Reads `num` bytes starting at `start` as a big-endian integer.
fn bytes_as_u64(input: &[u8], start: usize, num: usize) -> (r: Result<u64>)
    requires
        start <= input@.len(),
        num <= 8,
    ensures
        start + num <= input@.len() ==> r == Ok::<u64, Error>(
            be_value(input@.subrange(start as int, start + num)) as u64,
        ),
        start + num > input@.len() ==> r is Err,
        r is Err ==> r->Err_0 is InvalidArgument,
{
    if num > input.len() - start {
        return Err(inv_arg("invalid CBOR: expected additional tag byte"));
    }
    let mut value: u64 = 0;
    let mut i: usize = 0;
    while i < num
        invariant
            i <= num <= 8,
            start + num <= input@.len(),
            start + num <= input.len(),
            value == be_value(input@.subrange(start as int, start + i)),
        decreases num - i,
    {
        proof {
            let s = input@.subrange(start as int, start + i);
            lemma_be_value_bound(s);
            lemma_pow256_mono(i as nat, 7);
            assert(pow256(7) == 0x100_0000_0000_0000) by {
                reveal_with_fuel(pow256, 8);
            }
            assert(input@.subrange(start as int, start + i + 1).drop_last() =~= s);
        }
        value = value * 256 + input[start + i] as u64;
        i = i + 1;
    }
    Ok(value)
}

/// Appends the `num` least significant bytes of `value`, most significant
/// first.
fn u64_as_bytes(value: u64, num: usize, output: &mut Vec<u8>)
    requires
        num <= 8,
    ensures
        final(output)@ == old(output)@ + be_bytes(value as nat, num as nat),
{
    let mut tmp: Vec<u8> = Vec::new();
    let mut k: usize = 0;
    while k < num
        invariant
            k <= num,
            tmp@.len() == k,
        decreases num - k,
    {
        tmp.push(0);
        k = k + 1;
    }
    let mut x: u64 = value;
    let mut j: usize = 0;
    while j < num
        invariant
            j <= num,
            tmp@.len() == num,
            be_bytes(value as nat, num as nat) == be_bytes(x as nat, (num - j) as nat) + tmp@.subrange(
                num - j,
                num as int,
            ),
        decreases num - j,
    {
        let ghost old_tmp = tmp@;
        let b = (x % 256) as u8;
        tmp.set(num - 1 - j, b);
        proof {
            assert(tmp@.subrange(num - j - 1, num as int) =~= seq![b] + old_tmp.subrange(
                num - j,
                num as int,
            ));
            assert(be_bytes(x as nat, (num - j) as nat) == be_bytes((x / 256) as nat, (num - j - 1) as nat).push(b));
            assert(be_bytes((x / 256) as nat, (num - j - 1) as nat).push(b) + old_tmp.subrange(
                num - j,
                num as int,
            ) =~= be_bytes((x / 256) as nat, (num - j - 1) as nat) + (seq![b] + old_tmp.subrange(
                num - j,
                num as int,
            )));
        }
        x = x / 256;
        j = j + 1;
    }
    assert(tmp@.subrange(0, num as int) =~= tmp@);
    let ghost start = output@;
    let mut i: usize = 0;
    while i < num
        invariant
            i <= num,
            tmp@.len() == num,
            output@ == start + tmp@.subrange(0, i as int),
        decreases num - i,
    {
        output.push(tmp[i]);
        i = i + 1;
        assert(output@ =~= start + tmp@.subrange(0, i as int));
    }
}

/// Reads the tag at position `start` of `input`, returning the major type,
/// the additional information, the argument (`None` for indefinite length)
/// and the number of bytes read.
fn read_tag(input: &[u8], start: usize) -> (r: Result<(u8, u8, Option<u64>, usize)>)
    requires
        start <= input@.len(),
    ensures
        match parse_tag(input@.skip(start as int)) {
            Some(t) => r is Ok && r->Ok_0.0 == t.major && r->Ok_0.1 == t.minor && r->Ok_0.2
                == t.additional && r->Ok_0.3 == t.len && t.len <= input@.len() - start,
            None => r is Err,
        },
        r is Err ==> r->Err_0 is InvalidArgument,
{
    let ghost s = input@.skip(start as int);
    if start >= input.len() {
        return Err(inv_arg("invalid CBOR: expected tag"));
    }
    let initial = input[start];
    assert(s[0] == initial);
    if initial == 0xFF {
        return Err(inv_arg("invalid CBOR: unexpected break"));
    }
    let major = initial >> 5;
    let minor = initial & 0x1F;
    assert(major == initial / 32 && minor == initial % 32) by (bit_vector)
        requires
            major == initial >> 5,
            minor == initial & 0x1F,
    ;
    if minor < 24 {
        Ok((major, minor, Some(minor as u64), 1))
    } else if minor <= 27 {
        let w: usize = if minor == 24 {
            1
        } else if minor == 25 {
            2
        } else if minor == 26 {
            4
        } else {
            8
        };
        let v = bytes_as_u64(input, start + 1, w)?;
        assert(s.subrange(1, 1 + w as int) =~= input@.subrange(start + 1, start + 1 + w));
        Ok((major, minor, Some(v), 1 + w))
    } else if minor < 31 {
        Err(inv_arg("invalid CBOR: reserved minor tag value"))
    } else {
        Ok((major, minor, None, 1))
    }
}

/// `lex_le` is reflexive.
pub proof fn lemma_lex_reflexive(a: Seq<u8>)
    ensures
        lex_le(a, a),
    decreases a.len(),
{
    if a.len() > 0 {
        lemma_lex_reflexive(a.drop_first());
    }
}

/// `lex_le` is antisymmetric.
pub proof fn lemma_lex_antisymmetric(a: Seq<u8>, b: Seq<u8>)
    requires
        lex_le(a, b),
        lex_le(b, a),
    ensures
        a == b,
    decreases a.len(),
{
    if a.len() > 0 && b.len() > 0 {
        lemma_lex_antisymmetric(a.drop_first(), b.drop_first());
        assert(a =~= seq![a[0]] + a.drop_first());
        assert(b =~= seq![b[0]] + b.drop_first());
    }
}

/// `lex_le` is transitive.
pub proof fn lemma_lex_transitive(a: Seq<u8>, b: Seq<u8>, c: Seq<u8>)
    requires
        lex_le(a, b),
        lex_le(b, c),
    ensures
        lex_le(a, c),
    decreases a.len(),
{
    if a.len() > 0 && b.len() > 0 && c.len() > 0 && a[0] == b[0] && b[0] == c[0] {
        lemma_lex_transitive(a.drop_first(), b.drop_first(), c.drop_first());
    }
}

/// Any two byte strings are comparable under `lex_le`.
pub proof fn lemma_lex_total(a: Seq<u8>, b: Seq<u8>)
    ensures
        lex_le(a, b) || lex_le(b, a),
    decreases a.len(),
{
    if a.len() > 0 && b.len() > 0 && a[0] == b[0] {
        lemma_lex_total(a.drop_first(), b.drop_first());
    }
}

/// `lex_le` is a total order.
pub proof fn lemma_lex_total_ordering()
    ensures
        total_ordering(lex_order()),
{
    assert forall|a: Seq<u8>| #[trigger] lex_order()(a, a) by {
        lemma_lex_reflexive(a);
    }
    assert forall|a: Seq<u8>, b: Seq<u8>| #[trigger]
        lex_order()(a, b) && #[trigger] lex_order()(b, a) implies a == b by {
        lemma_lex_antisymmetric(a, b);
    }
    assert forall|a: Seq<u8>, b: Seq<u8>, c: Seq<u8>| #[trigger]
        lex_order()(a, b) && #[trigger] lex_order()(b, c) implies lex_order()(a, c) by {
        lemma_lex_transitive(a, b, c);
    }
    assert forall|a: Seq<u8>, b: Seq<u8>| #[trigger]
        lex_order()(a, b) || #[trigger] lex_order()(b, a) by {
        lemma_lex_total(a, b);
    }
}

/// Compares two byte strings lexicographically.
fn bytes_le(a: &Vec<u8>, b: &Vec<u8>) -> (r: bool)
    ensures
        r == lex_le(a@, b@),
{
    let mut i: usize = 0;
    assert(a@.skip(0) =~= a@ && b@.skip(0) =~= b@);
    while i < a.len() && i < b.len() && a[i] == b[i]
        invariant
            i <= a@.len(),
            i <= b@.len(),
            lex_le(a@, b@) == lex_le(a@.skip(i as int), b@.skip(i as int)),
        decreases a@.len() - i,
    {
        assert(a@.skip(i as int).drop_first() =~= a@.skip(i + 1));
        assert(b@.skip(i as int).drop_first() =~= b@.skip(i + 1));
        i = i + 1;
    }
    if i == a.len() {
        true
    } else if i == b.len() {
        false
    } else {
        a[i] < b[i]
    }
}

/// The byte-string views of a vector of byte vectors.
pub open spec fn views(v: Seq<Vec<u8>>) -> Seq<Seq<u8>> {
    v.map_values(|e: Vec<u8>| e@)
}

/// Inserts `x` into the sorted vector `v` so that it stays sorted.
fn insert_sorted(v: &mut Vec<Vec<u8>>, x: Vec<u8>)
    requires
        sorted_by(views(old(v)@), lex_order()),
    ensures
        sorted_by(views(final(v)@), lex_order()),
        views(final(v)@).to_multiset() == views(old(v)@).to_multiset().insert(x@),
{
    proof {
        lemma_lex_total_ordering();
    }
    let ghost s = views(v@);
    let mut p: usize = 0;
    while p < v.len() && bytes_le(&v[p], &x)
        invariant
            p <= v@.len(),
            s == views(v@),
            forall|j: int| 0 <= j < p ==> lex_le(#[trigger] s[j], x@),
        decreases v@.len() - p,
    {
        p = p + 1;
    }
    let ghost xv = x@;
    v.insert(p, x);
    proof {
        let t = views(v@);
        assert(t =~= s.insert(p as int, xv));
        if p < s.len() {
            assert(!lex_le(s[p as int], xv));
            lemma_lex_total(s[p as int], xv);
        }
        assert forall|i: int, j: int| 0 <= i < j < t.len() implies #[trigger] lex_order()(
            t[i],
            t[j],
        ) by {
            if j < p {
                assert(t[i] == s[i] && t[j] == s[j]);
            } else if j == p {
                assert(t[i] == s[i]);
            } else if i == p {
                assert(t[j] == s[j - 1]);
                if j - 1 > p {
                    assert(lex_order()(s[p as int], s[j - 1]));
                    lemma_lex_transitive(xv, s[p as int], s[j - 1]);
                }
            } else if i < p {
                assert(t[i] == s[i] && t[j] == s[j - 1]);
                assert(lex_order()(s[i], s[j - 1]));
            } else {
                assert(t[i] == s[i - 1] && t[j] == s[j - 1]);
                assert(lex_order()(s[i - 1], s[j - 1]));
            }
        }
        assert(t.remove(p as int) =~= s);
        broadcast use vstd::seq_lib::group_to_multiset_ensures;
        assert(t.to_multiset().remove(xv) =~= s.to_multiset());
        assert(t.to_multiset().count(xv) > 0);
        assert(t.to_multiset() =~= s.to_multiset().insert(xv));
    }
}

/// `parse_items` yields exactly the requested number of items.
pub proof fn lemma_parse_items_count(input: Seq<u8>, n: nat)
    requires
        parse_items(input, n) is Some,
    ensures
        (parse_items(input, n)->0).0.len() == n,
    decreases n,
{
    if n > 0 {
        let (v, l) = parse_value(input)->0;
        lemma_parse_items_count(input.skip(l as int), (n - 1) as nat);
    }
}

/// `parse_pairs` yields exactly the requested number of pairs.
pub proof fn lemma_parse_pairs_count(input: Seq<u8>, n: nat)
    requires
        parse_pairs(input, n) is Some,
    ensures
        (parse_pairs(input, n)->0).0.len() == n,
    decreases n,
{
    if n > 0 {
        let (p, l) = parse_pair(input)->0;
        lemma_parse_pairs_count(input.skip(l as int), (n - 1) as nat);
    }
}

/// Appends `src[from..to]` to `dst`.
fn append_range(src: &[u8], from: usize, to: usize, dst: &mut Vec<u8>)
    requires
        from <= to <= src@.len(),
    ensures
        final(dst)@ == old(dst)@ + src@.subrange(from as int, to as int),
{
    let ghost d0 = dst@;
    let mut i: usize = from;
    while i < to
        invariant
            from <= i <= to <= src@.len(),
            dst@ == d0 + src@.subrange(from as int, i as int),
        decreases to - i,
    {
        dst.push(src[i]);
        i = i + 1;
        assert(dst@ =~= d0 + src@.subrange(from as int, i as int));
    }
}

/// Appends all of `src` to `dst`.
fn append_bytes(dst: &mut Vec<u8>, src: &Vec<u8>)
    ensures
        final(dst)@ == old(dst)@ + src@,
{
    append_range(src.as_slice(), 0, src.len(), dst);
    assert(src@.subrange(0, src@.len() as int) =~= src@);
}

/// Appends the concatenation of all byte strings in `parts` to `dst`.
fn append_all(parts: &Vec<Vec<u8>>, dst: &mut Vec<u8>)
    ensures
        final(dst)@ == old(dst)@ + concat_all(views(parts@)),
{
    let ghost d0 = dst@;
    let mut i: usize = 0;
    while i < parts.len()
        invariant
            i <= parts@.len(),
            dst@ == d0 + concat_all(views(parts@).take(i as int)),
        decreases parts@.len() - i,
    {
        proof {
            assert(views(parts@).take(i + 1).drop_last() =~= views(parts@).take(i as int));
        }
        append_bytes(dst, &parts[i]);
        i = i + 1;
    }
    assert(views(parts@).take(parts@.len() as int) =~= views(parts@));
}

/// The shortest additional-information field for `value`.
fn shortest_minor_of(value: u64) -> (m: u8)
    ensures
        m == shortest_minor(value),
{
    if value <= 23 {
        value as u8
    } else if value <= 0xFF {
        24
    } else if value <= 0xFFFF {
        25
    } else if value <= 0xFFFF_FFFF {
        26
    } else {
        27
    }
}

/// Copies the chunks of an indefinite-length byte or text string starting at
/// `pos` into `content`, returning the number of input bytes taken.
fn canon_chunks(input: &[u8], pos: usize, major: u8, content: &mut Vec<u8>) -> (r: Result<usize>)
    requires
        pos <= input@.len(),
    ensures
        match parse_chunks(input@.skip(pos as int), major) {
            Some((c, l)) => r == Ok::<usize, Error>(l as usize) && l <= input@.len() - pos
                && final(content)@ == old(content)@ + c,
            None => r is Err,
        },
        r is Err ==> r->Err_0 is InvalidArgument,
{
    let ghost c0 = content@;
    let ghost target = parse_chunks(input@.skip(pos as int), major);
    let ghost mut acc: Seq<u8> = Seq::empty();
    let mut index: usize = 0;
    loop
        invariant
            pos + index <= input@.len(),
            input@.len() == input.len(),
            content@ == c0 + acc,
            c0 == old(content)@,
            target == parse_chunks(input@.skip(pos as int), major),
            target == match parse_chunks(input@.skip(pos + index), major) {
                Some((c, l)) => Some((acc + c, (index + l) as nat)),
                None => None,
            },
        decreases input@.len() - pos - index,
    {
        let ghost here = input@.skip(pos + index);
        if pos + index >= input.len() {
            assert(here.len() == 0);
            return Err(inv_arg("invalid CBOR: incomplete chunked bytes/utf8"));
        }
        if input[pos + index] == 0xFF {
            assert(here[0] == 0xFF);
            assert(acc + Seq::<u8>::empty() =~= acc);
            return Ok(index + 1);
        }
        assert(here.len() > 0 && here[0] != 0xFF);
        let (chunk_major, _chunk_minor, chunk_len, chunk_tag_len) = read_tag(input, pos + index)?;
        if chunk_major != major {
            return Err(inv_arg("invalid CBOR: illegal non-bytes/utf8 chunk"));
        }
        let n = match chunk_len {
            Some(n) => n,
            None => {
                return Err(inv_arg("invalid CBOR: indefinite chunk size"));
            },
        };
        if n > (input.len() - pos - index - chunk_tag_len) as u64 {
            return Err(inv_arg("invalid CBOR: incomplete bytes/utf8 chunk"));
        }
        let from = pos + index + chunk_tag_len;
        let to = from + n as usize;
        append_range(input, from, to, content);
        proof {
            assert(here.subrange(chunk_tag_len as int, chunk_tag_len + n) =~= input@.subrange(
                from as int,
                to as int,
            ));
            assert(here.skip(chunk_tag_len + n) =~= input@.skip(to as int));
            let piece = input@.subrange(from as int, to as int);
            match parse_chunks(input@.skip(to as int), major) {
                Some((c, l)) => {
                    assert(acc + (piece + c) =~= (acc + piece) + c);
                },
                None => {},
            }
            acc = acc + piece;
        }
        index = to - pos;
    }
}

/// Canonicalizes `n` consecutive data items starting at `pos`, appending
/// their encodings to `content`. Returns the number of input bytes taken.
fn canon_items_definite(input: &[u8], pos: usize, n: u64, content: &mut Vec<u8>) -> (r: Result<
    usize,
>)
    requires
        pos <= input@.len(),
    ensures
        match parse_items(input@.skip(pos as int), n as nat) {
            Some((items, l)) => r == Ok::<usize, Error>(l as usize) && l <= input@.len() - pos
                && final(content)@ == old(content)@ + encode_items(items),
            None => r is Err,
        },
        r is Err ==> r->Err_0 is InvalidArgument,
    decreases input@.len() - pos, 1nat,
{
    let ghost c0 = content@;
    let ghost target = parse_items(input@.skip(pos as int), n as nat);
    let ghost mut items: Seq<CborValue> = Seq::empty();
    let mut index: usize = 0;
    let mut i: u64 = 0;
    while i < n
        invariant
            pos + index <= input@.len(),
            input@.len() == input.len(),
            i <= n,
            content@ == c0 + encode_items(items),
            c0 == old(content)@,
            target == parse_items(input@.skip(pos as int), n as nat),
            target == match parse_items(input@.skip(pos + index), (n - i) as nat) {
                Some((vs, l)) => Some((items + vs, (index + l) as nat)),
                None => None,
            },
        decreases n - i,
    {
        let ghost here = input@.skip(pos + index);
        let l = canonicalize_int(input, pos + index, content)?;
        proof {
            let v = (parse_value(here)->0).0;
            assert(here.skip(l as int) =~= input@.skip(pos + index + l));
            match parse_items(input@.skip(pos + index + l), (n - i - 1) as nat) {
                Some((vs, l2)) => {
                    assert(items + (seq![v] + vs) =~= items.push(v) + vs);
                },
                None => {},
            }
            assert(items.push(v).subrange(0, items.len() as int) =~= items);
            items = items.push(v);
        }
        index = index + l;
        i = i + 1;
    }
    assert(items + Seq::<CborValue>::empty() =~= items);
    Ok(index)
}

/// Canonicalizes data items starting at `pos` up to a break byte, appending
/// their encodings to `content`. Returns the number of input bytes taken and
/// the number of items.
fn canon_items_indef(input: &[u8], pos: usize, content: &mut Vec<u8>) -> (r: Result<(usize, u64)>)
    requires
        pos <= input@.len(),
    ensures
        match parse_items_indef(input@.skip(pos as int)) {
            Some((items, l)) => r == Ok::<(usize, u64), Error>((l as usize, items.len() as u64)) && l
                <= input@.len() - pos && final(content)@ == old(content)@ + encode_items(items),
            None => r is Err,
        },
        r is Err ==> r->Err_0 is InvalidArgument,
    decreases input@.len() - pos, 1nat,
{
    let ghost c0 = content@;
    let ghost target = parse_items_indef(input@.skip(pos as int));
    let ghost mut items: Seq<CborValue> = Seq::empty();
    let mut index: usize = 0;
    let mut count: u64 = 0;
    loop
        invariant
            pos + index <= input@.len(),
            input@.len() == input.len(),
            count == items.len(),
            count <= index,
            content@ == c0 + encode_items(items),
            c0 == old(content)@,
            target == parse_items_indef(input@.skip(pos as int)),
            target == match parse_items_indef(input@.skip(pos + index)) {
                Some((vs, l)) => Some((items + vs, (index + l) as nat)),
                None => None,
            },
        decreases input@.len() - pos - index,
    {
        let ghost here = input@.skip(pos + index);
        if pos + index >= input.len() {
            assert(here.len() == 0);
            return Err(inv_arg("invalid CBOR: incomplete indefinite-length array"));
        }
        if input[pos + index] == 0xFF {
            assert(here[0] == 0xFF);
            assert(items + Seq::<CborValue>::empty() =~= items);
            return Ok((index + 1, count));
        }
        assert(here.len() > 0 && here[0] != 0xFF);
        let l = canonicalize_int(input, pos + index, content)?;
        proof {
            let v = (parse_value(here)->0).0;
            assert(here.skip(l as int) =~= input@.skip(pos + index + l));
            match parse_items_indef(input@.skip(pos + index + l)) {
                Some((vs, l2)) => {
                    assert(items + (seq![v] + vs) =~= items.push(v) + vs);
                },
                None => {},
            }
            assert(items.push(v).subrange(0, items.len() as int) =~= items);
            items = items.push(v);
        }
        index = index + l;
        count = count + 1;
    }
}

/// Canonicalizes one key/value pair at `pos` and inserts its encoding into
/// the sorted vector `sorted`. Returns the number of input bytes taken.
fn canon_pair(input: &[u8], pos: usize, sorted: &mut Vec<Vec<u8>>) -> (r: Result<usize>)
    requires
        pos <= input@.len(),
        sorted_by(views(old(sorted)@), lex_order()),
    ensures
        match parse_pair(input@.skip(pos as int)) {
            Some((p, l)) => r == Ok::<usize, Error>(l as usize) && 1 <= l <= input@.len() - pos
                && sorted_by(views(final(sorted)@), lex_order()) && views(final(sorted)@).to_multiset()
                == views(old(sorted)@).to_multiset().insert(encode(p.0) + encode(p.1)),
            None => r is Err,
        },
        r is Err ==> r->Err_0 is InvalidArgument,
    decreases input@.len() - pos, 1nat,
{
    let total = input.len();
    let ghost here = input@.skip(pos as int);
    let mut pair: Vec<u8> = Vec::new();
    let l1 = canonicalize_int(input, pos, &mut pair)?;
    assert(here.skip(l1 as int) =~= input@.skip(pos + l1));
    let l2 = canonicalize_int(input, pos + l1, &mut pair)?;
    insert_sorted(sorted, pair);
    Ok(l1 + l2)
}

/// Canonicalizes `n` key/value pairs starting at `pos`, inserting their
/// encodings into the sorted vector `sorted`. Returns the number of input
/// bytes taken.
fn canon_pairs_definite(input: &[u8], pos: usize, n: u64, sorted: &mut Vec<Vec<u8>>) -> (r: Result<
    usize,
>)
    requires
        pos <= input@.len(),
        sorted_by(views(old(sorted)@), lex_order()),
    ensures
        match parse_pairs(input@.skip(pos as int), n as nat) {
            Some((entries, l)) => r == Ok::<usize, Error>(l as usize) && l <= input@.len() - pos
                && sorted_by(views(final(sorted)@), lex_order()) && views(final(sorted)@).to_multiset()
                == views(old(sorted)@).to_multiset().add(encode_pairs(entries).to_multiset()),
            None => r is Err,
        },
        r is Err ==> r->Err_0 is InvalidArgument,
    decreases input@.len() - pos, 2nat,
{
    broadcast use vstd::seq_lib::group_to_multiset_ensures;

    let ghost m0 = views(sorted@).to_multiset();
    let ghost target = parse_pairs(input@.skip(pos as int), n as nat);
    let ghost mut entries: Seq<(CborValue, CborValue)> = Seq::empty();
    let mut index: usize = 0;
    let mut i: u64 = 0;
    assert(encode_pairs(entries).to_multiset() =~= vstd::multiset::Multiset::empty());
    assert(m0.add(vstd::multiset::Multiset::empty()) =~= m0);
    while i < n
        invariant
            pos + index <= input@.len(),
            input@.len() == input.len(),
            i <= n,
            sorted_by(views(sorted@), lex_order()),
            views(sorted@).to_multiset() == m0.add(encode_pairs(entries).to_multiset()),
            m0 == views(old(sorted)@).to_multiset(),
            target == parse_pairs(input@.skip(pos as int), n as nat),
            target == match parse_pairs(input@.skip(pos + index), (n - i) as nat) {
                Some((ps, l)) => Some((entries + ps, (index + l) as nat)),
                None => None,
            },
        decreases n - i,
    {
        let ghost here = input@.skip(pos + index);
        let ghost before = views(sorted@).to_multiset();
        let l = canon_pair(input, pos + index, sorted)?;
        proof {
            let p = (parse_pair(here)->0).0;
            assert(here.skip(l as int) =~= input@.skip(pos + index + l));
            match parse_pairs(input@.skip(pos + index + l), (n - i - 1) as nat) {
                Some((ps, l2)) => {
                    assert(entries + (seq![p] + ps) =~= entries.push(p) + ps);
                },
                None => {},
            }
            assert(entries.push(p).subrange(0, entries.len() as int) =~= entries);
            assert(encode_pairs(entries.push(p)) == encode_pairs(entries).push(
                encode(p.0) + encode(p.1),
            ));
            let e = encode(p.0) + encode(p.1);
            vstd::seq_lib::to_multiset_build(encode_pairs(entries), e);
            assert(m0.add(encode_pairs(entries).to_multiset()).insert(e) =~= m0.add(
                encode_pairs(entries).to_multiset().insert(e),
            ));
            entries = entries.push(p);
        }
        index = index + l;
        i = i + 1;
    }
    assert(entries + Seq::<(CborValue, CborValue)>::empty() =~= entries);
    Ok(index)
}

/// Canonicalizes key/value pairs starting at `pos` up to a break byte,
/// inserting their encodings into the sorted vector `sorted`. Returns the
/// number of input bytes taken and the number of pairs.
fn canon_pairs_indef(input: &[u8], pos: usize, sorted: &mut Vec<Vec<u8>>) -> (r: Result<
    (usize, u64),
>)
    requires
        pos <= input@.len(),
        sorted_by(views(old(sorted)@), lex_order()),
    ensures
        match parse_pairs_indef(input@.skip(pos as int)) {
            Some((entries, l)) => r == Ok::<(usize, u64), Error>((l as usize, entries.len() as u64))
                && l <= input@.len() - pos && sorted_by(views(final(sorted)@), lex_order()) && views(
                final(sorted)@,
            ).to_multiset() == views(old(sorted)@).to_multiset().add(
                encode_pairs(entries).to_multiset(),
            ),
            None => r is Err,
        },
        r is Err ==> r->Err_0 is InvalidArgument,
    decreases input@.len() - pos, 2nat,
{
    broadcast use vstd::seq_lib::group_to_multiset_ensures;

    let ghost m0 = views(sorted@).to_multiset();
    let ghost target = parse_pairs_indef(input@.skip(pos as int));
    let ghost mut entries: Seq<(CborValue, CborValue)> = Seq::empty();
    let mut index: usize = 0;
    let mut count: u64 = 0;
    assert(encode_pairs(entries).to_multiset() =~= vstd::multiset::Multiset::empty());
    assert(m0.add(vstd::multiset::Multiset::empty()) =~= m0);
    loop
        invariant
            pos + index <= input@.len(),
            input@.len() == input.len(),
            count == entries.len(),
            count <= index,
            sorted_by(views(sorted@), lex_order()),
            views(sorted@).to_multiset() == m0.add(encode_pairs(entries).to_multiset()),
            m0 == views(old(sorted)@).to_multiset(),
            target == parse_pairs_indef(input@.skip(pos as int)),
            target == match parse_pairs_indef(input@.skip(pos + index)) {
                Some((ps, l)) => Some((entries + ps, (index + l) as nat)),
                None => None,
            },
        decreases input@.len() - pos - index,
    {
        let ghost here = input@.skip(pos + index);
        if pos + index >= input.len() {
            assert(here.len() == 0);
            return Err(inv_arg("invalid CBOR: incomplete indefinite-length dict"));
        }
        if input[pos + index] == 0xFF {
            assert(here[0] == 0xFF);
            assert(entries + Seq::<(CborValue, CborValue)>::empty() =~= entries);
            return Ok((index + 1, count));
        }
        assert(here.len() > 0 && here[0] != 0xFF);
        let l = canon_pair(input, pos + index, sorted)?;
        proof {
            let p = (parse_pair(here)->0).0;
            assert(here.skip(l as int) =~= input@.skip(pos + index + l));
            match parse_pairs_indef(input@.skip(pos + index + l)) {
                Some((ps, l2)) => {
                    assert(entries + (seq![p] + ps) =~= entries.push(p) + ps);
                },
                None => {},
            }
            assert(entries.push(p).subrange(0, entries.len() as int) =~= entries);
            assert(encode_pairs(entries.push(p)) == encode_pairs(entries).push(
                encode(p.0) + encode(p.1),
            ));
            let e = encode(p.0) + encode(p.1);
            vstd::seq_lib::to_multiset_build(encode_pairs(entries), e);
            assert(m0.add(encode_pairs(entries).to_multiset()).insert(e) =~= m0.add(
                encode_pairs(entries).to_multiset().insert(e),
            ));
            entries = entries.push(p);
        }
        index = index + l;
        count = count + 1;
    }
}

/// Appends the encoding of a tag with the given fields to `output`.
fn write_header(major: u8, minor: u8, value: u64, output: &mut Vec<u8>)
    requires
        major < 8,
        minor < 32,
    ensures
        final(output)@ == old(output)@ + header(major, minor, value),
{
    let first: u8 = (major << 5) | minor;
    assert(first == major * 32 + minor) by (bit_vector)
        requires
            major < 8,
            minor < 32,
            first == (major << 5) | minor,
    ;
    let w: usize = if minor == 24 {
        1
    } else if minor == 25 {
        2
    } else if minor == 26 {
        4
    } else if minor == 27 {
        8
    } else {
        0
    };
    let ghost o0 = output@;
    output.push(first);
    u64_as_bytes(value, w, output);
    assert(output@ =~= o0 + header(major, minor, value));
}

/// Canonicalizes a byte or text string whose tag has been read; `pos` is
/// the position just after the tag.
fn canon_bytes(
    input: &[u8],
    pos: usize,
    major: u8,
    minor: u8,
    additional: Option<u64>,
    output: &mut Vec<u8>,
) -> (r: Result<usize>)
    requires
        pos <= input@.len(),
        2 <= major <= 3,
    ensures
        match parse_body(input@.skip(pos as int), major, minor, additional) {
            Some((v, l)) => r == Ok::<usize, Error>(l as usize) && l <= input@.len() - pos
                && final(output)@ == old(output)@ + encode(v),
            None => r is Err && final(output)@ == old(output)@,
        },
        r is Err ==> r->Err_0 is InvalidArgument,
{
    let total = input.len();
    let ghost rest = input@.skip(pos as int);
    let mut content: Vec<u8> = Vec::new();
    let input_len: usize;
    match additional {
        Some(n) => {
            if n > (total - pos) as u64 {
                return Err(inv_arg("invalid CBOR: incomplete bytes/utf8"));
            }
            append_range(input, pos, pos + n as usize, &mut content);
            assert(rest.take(n as int) =~= input@.subrange(pos as int, pos + n));
            input_len = n as usize;
        },
        None => {
            input_len = canon_chunks(input, pos, major, &mut content)?;
        },
    }
    let addl = content.len() as u64;
    let m = shortest_minor_of(addl);
    write_header(major, m, addl, output);
    append_bytes(output, &content);
    Ok(input_len)
}

/// Canonicalizes an array whose tag has been read; `pos` is the position
/// just after the tag.
fn canon_array(
    input: &[u8],
    pos: usize,
    minor: u8,
    additional: Option<u64>,
    output: &mut Vec<u8>,
) -> (r: Result<usize>)
    requires
        pos <= input@.len(),
    ensures
        match parse_body(input@.skip(pos as int), 4, minor, additional) {
            Some((v, l)) => r == Ok::<usize, Error>(l as usize) && l <= input@.len() - pos
                && final(output)@ == old(output)@ + encode(v),
            None => r is Err && final(output)@ == old(output)@,
        },
        r is Err ==> r->Err_0 is InvalidArgument,
    decreases input@.len() - pos, 4nat,
{
    let ghost rest = input@.skip(pos as int);
    let mut content: Vec<u8> = Vec::new();
    let input_len: usize;
    let count: u64;
    match additional {
        Some(n) => {
            input_len = canon_items_definite(input, pos, n, &mut content)?;
            proof {
                lemma_parse_items_count(rest, n as nat);
            }
            count = n;
        },
        None => {
            let (l, c) = canon_items_indef(input, pos, &mut content)?;
            input_len = l;
            count = c;
        },
    }
    let m = shortest_minor_of(count);
    write_header(4, m, count, output);
    append_bytes(output, &content);
    Ok(input_len)
}

/// Canonicalizes a map whose tag has been read; `pos` is the position just
/// after the tag.
fn canon_map(
    input: &[u8],
    pos: usize,
    minor: u8,
    additional: Option<u64>,
    output: &mut Vec<u8>,
) -> (r: Result<usize>)
    requires
        pos <= input@.len(),
    ensures
        match parse_body(input@.skip(pos as int), 5, minor, additional) {
            Some((v, l)) => r == Ok::<usize, Error>(l as usize) && l <= input@.len() - pos
                && final(output)@ == old(output)@ + encode(v),
            None => r is Err && final(output)@ == old(output)@,
        },
        r is Err ==> r->Err_0 is InvalidArgument,
    decreases input@.len() - pos, 4nat,
{
    let ghost rest = input@.skip(pos as int);
    let mut sorted: Vec<Vec<u8>> = Vec::new();
    assert(views(sorted@) =~= Seq::<Seq<u8>>::empty());
    let ghost entries: Seq<(CborValue, CborValue)>;
    let input_len: usize;
    let count: u64;
    match additional {
        Some(n) => {
            input_len = canon_pairs_definite(input, pos, n, &mut sorted)?;
            proof {
                lemma_parse_pairs_count(rest, n as nat);
                entries = (parse_pairs(rest, n as nat)->0).0;
            }
            count = n;
        },
        None => {
            let (l, c) = canon_pairs_indef(input, pos, &mut sorted)?;
            proof {
                entries = (parse_pairs_indef(rest)->0).0;
            }
            input_len = l;
            count = c;
        },
    }
    proof {
        broadcast use vstd::seq_lib::group_to_multiset_ensures;
        lemma_lex_total_ordering();
        let enc = encode_pairs(entries);
        enc.lemma_sort_by_ensures(lex_order());
        assert(Seq::<Seq<u8>>::empty().to_multiset() =~= vstd::multiset::Multiset::empty());
        assert(vstd::multiset::Multiset::<Seq<u8>>::empty().add(enc.to_multiset()) =~= enc.to_multiset());
        vstd::seq_lib::lemma_sorted_unique(views(sorted@), enc.sort_by(lex_order()), lex_order());
    }
    let mut content: Vec<u8> = Vec::new();
    append_all(&sorted, &mut content);
    let m = shortest_minor_of(count);
    write_header(5, m, count, output);
    append_bytes(output, &content);
    Ok(input_len)
}

/// Canonicalizes a semantically tagged item whose tag has been read; `pos`
/// is the position just after the tag.
fn canon_tagged(
    input: &[u8],
    pos: usize,
    minor: u8,
    additional: Option<u64>,
    output: &mut Vec<u8>,
) -> (r: Result<usize>)
    requires
        pos <= input@.len(),
    ensures
        match parse_body(input@.skip(pos as int), 6, minor, additional) {
            Some((v, l)) => r == Ok::<usize, Error>(l as usize) && l <= input@.len() - pos
                && final(output)@ == old(output)@ + encode(v),
            None => r is Err && final(output)@ == old(output)@,
        },
        r is Err ==> r->Err_0 is InvalidArgument,
    decreases input@.len() - pos, 4nat,
{
    let tag = match additional {
        Some(tag) => tag,
        None => {
            return Err(inv_arg("invalid CBOR: indefinite length tag for semantic tag"));
        },
    };
    let mut content: Vec<u8> = Vec::new();
    let input_len = canonicalize_int(input, pos, &mut content)?;
    let m = shortest_minor_of(tag);
    write_header(6, m, tag, output);
    append_bytes(output, &content);
    Ok(input_len)
}

/// Canonicalizes what follows a tag with the given fields; `pos` is the
/// position just after the tag.
fn canon_body(
    input: &[u8],
    pos: usize,
    major: u8,
    minor: u8,
    additional: Option<u64>,
    output: &mut Vec<u8>,
) -> (r: Result<usize>)
    requires
        pos <= input@.len(),
        major < 8,
        minor < 32,
    ensures
        match parse_body(input@.skip(pos as int), major, minor, additional) {
            Some((v, l)) => r == Ok::<usize, Error>(l as usize) && l <= input@.len() - pos
                && final(output)@ == old(output)@ + encode(v),
            None => r is Err && final(output)@ == old(output)@,
        },
        r is Err ==> r->Err_0 is InvalidArgument,
    decreases input@.len() - pos, 5nat,
{
    if major <= 1 || major == 7 {
        match additional {
            Some(a) => {
                let m = if major == 7 {
                    minor
                } else {
                    shortest_minor_of(a)
                };
                write_header(major, m, a, output);
                Ok(0)
            },
            None => Err(inv_arg("invalid CBOR: indefinite length tag for non-sequence")),
        }
    } else if major <= 3 {
        canon_bytes(input, pos, major, minor, additional, output)
    } else if major == 4 {
        canon_array(input, pos, minor, additional, output)
    } else if major == 5 {
        canon_map(input, pos, minor, additional, output)
    } else {
        canon_tagged(input, pos, minor, additional, output)
    }
}

/// Canonicalizes the data item at position `start` of `input`, appending its
/// canonical encoding to `output`. Returns the number of input bytes taken.
/// On failure `output` is left unchanged.
fn canonicalize_int(input: &[u8], start: usize, output: &mut Vec<u8>) -> (r: Result<usize>)
    requires
        start <= input@.len(),
    ensures
        match parse_value(input@.skip(start as int)) {
            Some((v, l)) => r == Ok::<usize, Error>(l as usize) && 1 <= l <= input@.len() - start
                && final(output)@ == old(output)@ + encode(v),
            None => r is Err && final(output)@ == old(output)@,
        },
        r is Err ==> r->Err_0 is InvalidArgument,
    decreases input@.len() - start, 0nat,
{
    let total = input.len();
    let ghost whole = input@.skip(start as int);
    let (major, minor, additional, tag_len) = read_tag(input, start)?;
    let pos = start + tag_len;
    assert(whole.skip(tag_len as int) =~= input@.skip(pos as int));
    assert(major < 8 && minor < 32);
    let l = canon_body(input, pos, major, minor, additional, output)?;
    Ok(tag_len + l)
}

/// Canonicalizes the given CBOR value.
///
/// Fails when `input` is not exactly one well-formed data item.
pub fn canonizalize(input: &[u8]) -> (r: Result<Vec<u8>>)
    ensures
        match spec_canonicalize(input@) {
            Some(c) => r is Ok && r->Ok_0@ == c,
            None => r is Err && r->Err_0 is InvalidArgument,
        },
{
    let mut output: Vec<u8> = Vec::new();
    assert(input@.skip(0) =~= input@);
    let len = match canonicalize_int(input, 0, &mut output) {
        Ok(len) => len,
        Err(e) => {
            return Err(e);
        },
    };
    if len != input.len() {
        return Err(inv_arg("invalid CBOR: garbage after end"));
    }
    assert(output@ =~= Seq::<u8>::empty() + output@);
    Ok(output)
}

} // verus!
