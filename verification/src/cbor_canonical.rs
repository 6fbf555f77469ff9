//! Canonical CBOR is a fixed point of canonicalization: canonicalizing the
//! output of `canonizalize` gives it back unchanged.

use crate::cbor::{
    be_bytes, be_value, concat_all, encode, encode_items, encode_pairs, header, lemma_be_value_bound,
    lemma_parse_items_count, lemma_parse_pairs_count,
    lemma_lex_total_ordering, lex_order, parse_body, parse_chunks, parse_items, parse_items_indef,
    parse_pair, parse_pairs, parse_pairs_indef, parse_tag, parse_value, pow256, shortest_minor,
    spec_canonicalize, tag_width, CborTag, CborValue,
};
use vstd::prelude::*;
use vstd::relations::sorted_by;

verus! {

/// Whether a tag's additional-information field and argument agree: fields
/// below 24 are their own argument, and 24 to 27 announce an argument of 1,
/// 2, 4 or 8 bytes.
pub open spec fn minor_fits(minor: u8, value: u64) -> bool {
    &&& minor <= 27
    &&& minor < 24 ==> value == minor
    &&& minor >= 24 ==> value < pow256(tag_width(minor))
}

/// `256^n` is positive.
pub proof fn lemma_pow256_pos(n: nat)
    ensures
        pow256(n) >= 1,
    decreases n,
{
    if n > 0 {
        lemma_pow256_pos((n - 1) as nat);
    }
}

/// Writing `n` big-endian bytes and reading them back gives the value
/// modulo `256^n`.
pub proof fn lemma_be_roundtrip(v: nat, n: nat)
    ensures
        be_bytes(v, n).len() == n,
        be_value(be_bytes(v, n)) == v % pow256(n),
    decreases n,
{
    if n > 0 {
        lemma_be_roundtrip(v / 256, (n - 1) as nat);
        lemma_pow256_pos((n - 1) as nat);
        let s = be_bytes(v, n);
        assert(s.drop_last() =~= be_bytes(v / 256, (n - 1) as nat));
        assert(s.last() == (v % 256) as u8);
        vstd::arithmetic::div_mod::lemma_mod_breakdown(v as int, 256, pow256((n - 1) as nat) as int);
    } else {
        assert(be_bytes(v, 0) =~= Seq::<u8>::empty());
    }
}

/// The shortest additional-information field fits its argument.
pub proof fn lemma_shortest_fits(value: u64)
    ensures
        minor_fits(shortest_minor(value), value),
{
    reveal_with_fuel(pow256, 9);
}

/// The header that canonical encoding writes is the shortest that fits:
/// every additional-information field that can carry `value` needs at least
/// as many argument bytes, so `value` is written in the tag itself below 24,
/// with one byte up to 255, two up to 65535, four up to 2^32 - 1, and eight
/// beyond.
pub proof fn lemma_shortest_minimal(value: u64, minor: u8)
    ensures
        minor_fits(shortest_minor(value), value),
        minor_fits(minor, value) ==> tag_width(shortest_minor(value)) <= tag_width(minor),
        tag_width(shortest_minor(value)) == (if value < 24 {
            0nat
        } else if value <= 0xFF {
            1nat
        } else if value <= 0xFFFF {
            2nat
        } else if value <= 0xFFFF_FFFF {
            4nat
        } else {
            8nat
        }),
{
    reveal_with_fuel(pow256, 9);
    lemma_shortest_fits(value);
}

/// A tag reads back as written.
pub proof fn lemma_header_parse(major: u8, minor: u8, value: u64, rest: Seq<u8>)
    requires
        major <= 7,
        minor_fits(minor, value),
    ensures
        header(major, minor, value).len() == 1 + tag_width(minor),
        parse_tag(header(major, minor, value) + rest) == Some(
            CborTag { major, minor, additional: Some(value), len: 1 + tag_width(minor) },
        ),
{
    let w = tag_width(minor);
    lemma_be_roundtrip(value as nat, w);
    let h = header(major, minor, value);
    let s = h + rest;
    let b = (major * 32 + minor) as u8;
    assert(s[0] == b);
    assert(b / 32 == major && b % 32 == minor);
    if minor >= 24 {
        assert(s.subrange(1, 1 + w as int) =~= be_bytes(value as nat, w));
        vstd::arithmetic::div_mod::lemma_small_mod(value as nat, pow256(w));
    }
}

/// Whether a data item can be written canonically and read back: simple
/// values have the major type of an integer or of a simple or floating-point
/// value (whose additional-information field must fit its argument), strings
/// are byte or text strings, and no length exceeds a `u64`.
pub open spec fn encodable(v: CborValue) -> bool
    decreases v,
{
    match v {
        CborValue::Simple { major, minor, value } => (major <= 1 || major == 7) && (major == 7
            ==> minor_fits(minor, value)),
        CborValue::Bytes { major, content } => (major == 2 || major == 3) && content.len()
            <= u64::MAX,
        CborValue::Array { items } => items.len() <= u64::MAX && encodable_items(items),
        CborValue::Dict { entries } => entries.len() <= u64::MAX && encodable_entries(entries),
        CborValue::Tagged { tag, item } => encodable(*item),
    }
}

/// Whether all the items are encodable.
pub open spec fn encodable_items(items: Seq<CborValue>) -> bool
    decreases items,
{
    if items.len() == 0 {
        true
    } else {
        encodable_items(items.subrange(0, items.len() - 1)) && encodable(items[items.len() - 1])
    }
}

/// Whether all the keys and values are encodable.
pub open spec fn encodable_entries(entries: Seq<(CborValue, CborValue)>) -> bool
    decreases entries,
{
    if entries.len() == 0 {
        true
    } else {
        encodable_entries(entries.subrange(0, entries.len() - 1)) && encodable(
            entries[entries.len() - 1].0,
        ) && encodable(entries[entries.len() - 1].1)
    }
}

/// `encodable_items` holds exactly when every item is encodable.
pub proof fn lemma_encodable_items(items: Seq<CborValue>)
    ensures
        encodable_items(items) <==> forall|i: int| 0 <= i < items.len() ==> #[trigger] encodable(items[i]),
    decreases items.len(),
{
    if items.len() > 0 {
        let init = items.subrange(0, items.len() - 1);
        lemma_encodable_items(init);
        assert(encodable_items(items) == (encodable_items(init) && encodable(items[items.len() - 1])));
        if encodable_items(items) {
            assert forall|i: int| 0 <= i < items.len() implies #[trigger] encodable(items[i]) by {
                if i < items.len() - 1 {
                    assert(init[i] == items[i]);
                    assert(encodable(init[i]));
                }
            }
        }
        if forall|i: int| 0 <= i < items.len() ==> #[trigger] encodable(items[i]) {
            assert forall|i: int| 0 <= i < init.len() implies #[trigger] encodable(init[i]) by {
                assert(init[i] == items[i]);
                assert(encodable(items[i]));
            }
        }
    }
}

/// `encodable_entries` holds exactly when every key and value is encodable.
pub proof fn lemma_encodable_entries(entries: Seq<(CborValue, CborValue)>)
    ensures
        encodable_entries(entries) <==> forall|i: int|
            #![trigger entries[i]]
            0 <= i < entries.len() ==> encodable(entries[i].0) && encodable(entries[i].1),
    decreases entries.len(),
{
    if entries.len() > 0 {
        let init = entries.subrange(0, entries.len() - 1);
        lemma_encodable_entries(init);
        let last = entries[entries.len() - 1];
        assert(encodable_entries(entries) == (encodable_entries(init) && encodable(last.0)
            && encodable(last.1)));
        if encodable_entries(entries) {
            assert forall|i: int| #![trigger entries[i]] 0 <= i < entries.len() implies encodable(
                entries[i].0,
            ) && encodable(entries[i].1) by {
                if i < entries.len() - 1 {
                    assert(init[i] == entries[i]);
                }
            }
        }
        if forall|i: int|
            #![trigger entries[i]]
            0 <= i < entries.len() ==> encodable(entries[i].0) && encodable(entries[i].1) {
            assert forall|i: int| #![trigger init[i]] 0 <= i < init.len() implies encodable(init[i].0)
                && encodable(init[i].1) by {
                assert(init[i] == entries[i]);
            }
        }
    }
}

/// The encoding of a data item is never empty.
pub proof fn lemma_encode_nonempty(v: CborValue)
    ensures
        encode(v).len() >= 1,
{
}

/// The encodings of items, split after the first.
pub proof fn lemma_encode_items_front(items: Seq<CborValue>)
    requires
        items.len() > 0,
    ensures
        encode_items(items) == encode(items[0]) + encode_items(items.drop_first()),
    decreases items.len(),
{
    if items.len() == 1 {
        assert(items.subrange(0, 0) =~= Seq::<CborValue>::empty());
        assert(items.drop_first() =~= Seq::<CborValue>::empty());
        assert(encode_items(Seq::<CborValue>::empty()) =~= Seq::<u8>::empty());
        assert(encode_items(items) =~= encode(items[0]));
    } else {
        let init = items.subrange(0, items.len() - 1);
        lemma_encode_items_front(init);
        assert(init.drop_first() =~= items.drop_first().subrange(0, items.drop_first().len() - 1));
        assert(items.drop_first()[items.drop_first().len() - 1] == items[items.len() - 1]);
        assert(init[0] == items[0]);
        assert(encode_items(items) =~= encode(items[0]) + encode_items(items.drop_first()));
    }
}

/// The concatenation of byte strings, split after the first.
pub proof fn lemma_concat_front(s: Seq<Seq<u8>>)
    requires
        s.len() > 0,
    ensures
        concat_all(s) == s[0] + concat_all(s.drop_first()),
    decreases s.len(),
{
    if s.len() == 1 {
        assert(s.drop_last() =~= Seq::<Seq<u8>>::empty());
        assert(s.drop_first() =~= Seq::<Seq<u8>>::empty());
        assert(concat_all(Seq::<Seq<u8>>::empty()) =~= Seq::<u8>::empty());
        assert(concat_all(s) =~= s[0]);
    } else {
        lemma_concat_front(s.drop_last());
        assert(s.drop_last().drop_first() =~= s.drop_first().drop_last());
        assert(s.drop_first().last() == s.last());
        assert(concat_all(s) =~= s[0] + concat_all(s.drop_first()));
    }
}

/// The encoding of each key/value pair is the key's followed by the value's.
pub proof fn lemma_encode_pairs_index(entries: Seq<(CborValue, CborValue)>)
    ensures
        encode_pairs(entries).len() == entries.len(),
        forall|i: int|
            0 <= i < entries.len() ==> #[trigger] encode_pairs(entries)[i] == encode(entries[i].0)
                + encode(entries[i].1),
    decreases entries.len(),
{
    if entries.len() > 0 {
        let init = entries.subrange(0, entries.len() - 1);
        lemma_encode_pairs_index(init);
        assert forall|i: int| 0 <= i < entries.len() implies #[trigger] encode_pairs(entries)[i]
            == encode(entries[i].0) + encode(entries[i].1) by {
            if i < entries.len() - 1 {
                assert(init[i] == entries[i]);
                assert(encode_pairs(init)[i] == encode_pairs(entries)[i]);
            }
        }
    }
}

/// Whether `x` is the encoding of one of the key/value pairs.
pub open spec fn encodes_an_entry(x: Seq<u8>, entries: Seq<(CborValue, CborValue)>) -> bool {
    exists|i: int| 0 <= i < entries.len() && x == encode(entries[i].0) + encode(#[trigger] entries[i].1)
}

/// What `lemma_parse_encode` states of one data item.
pub open spec fn reads_back(v: CborValue, rest: Seq<u8>) -> bool {
    &&& parse_value(encode(v) + rest) is Some
    &&& (parse_value(encode(v) + rest)->0).1 == encode(v).len()
    &&& encode((parse_value(encode(v) + rest)->0).0) == encode(v)
    &&& encodable((parse_value(encode(v) + rest)->0).0)
}

/// A simple value reads back.
proof fn lemma_reads_back_simple(major: u8, minor: u8, value: u64, rest: Seq<u8>)
    requires
        encodable(CborValue::Simple { major, minor, value }),
    ensures
        reads_back(CborValue::Simple { major, minor, value }, rest),
{
    let v = CborValue::Simple { major, minor, value };
    let m = if major == 7 {
        minor
    } else {
        shortest_minor(value)
    };
    if major != 7 {
        lemma_shortest_fits(value);
    }
    lemma_header_parse(major, m, value, rest);
    let w = CborValue::Simple { major, minor: m, value };
    let input = encode(v) + rest;
    assert(parse_body(input.skip(1 + tag_width(m) as int), major, m, Some(value)) == Some((w, 0nat)));
}

/// A byte or text string reads back.
proof fn lemma_reads_back_bytes(major: u8, content: Seq<u8>, rest: Seq<u8>)
    requires
        encodable(CborValue::Bytes { major, content }),
    ensures
        reads_back(CborValue::Bytes { major, content }, rest),
{
    let v = CborValue::Bytes { major, content };
    let n = content.len() as u64;
    let m = shortest_minor(n);
    lemma_shortest_fits(n);
    let h = header(major, m, n);
    lemma_header_parse(major, m, n, content + rest);
    let input = encode(v) + rest;
    assert(input =~= h + (content + rest));
    assert(input.skip(h.len() as int) =~= content + rest);
    assert((content + rest).take(n as int) =~= content);
}

/// An array reads back when its items do.
proof fn lemma_reads_back_array(items: Seq<CborValue>, rest: Seq<u8>)
    requires
        items.len() <= u64::MAX,
        parse_items(encode_items(items) + rest, items.len()) is Some,
        (parse_items(encode_items(items) + rest, items.len())->0).1 == encode_items(items).len(),
        (parse_items(encode_items(items) + rest, items.len())->0).0.len() == items.len(),
        encode_items((parse_items(encode_items(items) + rest, items.len())->0).0) == encode_items(items),
        forall|i: int|
            0 <= i < items.len() ==> #[trigger] encodable(
                (parse_items(encode_items(items) + rest, items.len())->0).0[i],
            ),
    ensures
        reads_back(CborValue::Array { items }, rest),
{
    let v = CborValue::Array { items };
    let n = items.len() as u64;
    let m = shortest_minor(n);
    lemma_shortest_fits(n);
    let h = header(4, m, n);
    let body = encode_items(items);
    lemma_header_parse(4, m, n, body + rest);
    let input = encode(v) + rest;
    assert(input =~= h + (body + rest));
    assert(input.skip(h.len() as int) =~= body + rest);
    let (ws, l) = parse_items(body + rest, items.len())->0;
    assert(n as nat == items.len());
    assert(parse_body(input.skip(h.len() as int), 4, m, Some(n)) == Some((CborValue::Array { items: ws }, l)));
    assert(parse_value(input) == Some((CborValue::Array { items: ws }, h.len() + l)));
    assert(encode(CborValue::Array { items: ws }) == encode(v));
    lemma_encodable_items(ws);
}

/// A map reads back when its sorted pair encodings do.
proof fn lemma_reads_back_dict(entries: Seq<(CborValue, CborValue)>, rest: Seq<u8>)
    requires
        entries.len() <= u64::MAX,
        ({
            let sorted = encode_pairs(entries).sort_by(lex_order());
            &&& sorted.len() == entries.len()
            &&& sorted_by(sorted, lex_order())
            &&& parse_pairs(concat_all(sorted) + rest, sorted.len()) is Some
            &&& (parse_pairs(concat_all(sorted) + rest, sorted.len())->0).1 == concat_all(sorted).len()
            &&& encode_pairs((parse_pairs(concat_all(sorted) + rest, sorted.len())->0).0) == sorted
            &&& forall|i: int|
                0 <= i < sorted.len() ==> encodable(
                    #[trigger] (parse_pairs(concat_all(sorted) + rest, sorted.len())->0).0[i].0,
                ) && encodable((parse_pairs(concat_all(sorted) + rest, sorted.len())->0).0[i].1)
        }),
    ensures
        reads_back(CborValue::Dict { entries }, rest),
{
    let v = CborValue::Dict { entries };
    let n = entries.len() as u64;
    let m = shortest_minor(n);
    lemma_shortest_fits(n);
    let h = header(5, m, n);
    let sorted = encode_pairs(entries).sort_by(lex_order());
    let body = concat_all(sorted);
    lemma_header_parse(5, m, n, body + rest);
    let input = encode(v) + rest;
    assert(input =~= h + (body + rest));
    assert(input.skip(h.len() as int) =~= body + rest);
    let ws = (parse_pairs(body + rest, sorted.len())->0).0;
    lemma_parse_pairs_count(body + rest, sorted.len());
    lemma_encode_pairs_index(ws);
    lemma_lex_total_ordering();
    sorted.lemma_sort_by_ensures(lex_order());
    vstd::seq_lib::lemma_sorted_unique(sorted.sort_by(lex_order()), sorted, lex_order());
    assert(encode_pairs(ws).sort_by(lex_order()) == sorted);
    lemma_encodable_entries(ws);
}

/// A tagged item reads back when the item does.
proof fn lemma_reads_back_tagged(tag: u64, item: CborValue, rest: Seq<u8>)
    requires
        reads_back(item, rest),
    ensures
        reads_back(CborValue::Tagged { tag, item: Box::new(item) }, rest),
{
    let v = CborValue::Tagged { tag, item: Box::new(item) };
    let m = shortest_minor(tag);
    lemma_shortest_fits(tag);
    let h = header(6, m, tag);
    let body = encode(item);
    lemma_header_parse(6, m, tag, body + rest);
    let input = encode(v) + rest;
    assert(input =~= h + (body + rest));
    assert(input.skip(h.len() as int) =~= body + rest);
}

/// The pair encodings of a map, sorted, each encode an entry.
proof fn lemma_sorted_pairs(entries: Seq<(CborValue, CborValue)>)
    ensures
        encode_pairs(entries).sort_by(lex_order()).len() == entries.len(),
        sorted_by(encode_pairs(entries).sort_by(lex_order()), lex_order()),
        forall|j: int|
            0 <= j < entries.len() ==> encodes_an_entry(
                #[trigger] encode_pairs(entries).sort_by(lex_order())[j],
                entries,
            ),
{
    let pairs = encode_pairs(entries);
    let sorted = pairs.sort_by(lex_order());
    lemma_lex_total_ordering();
    pairs.lemma_sort_by_ensures(lex_order());
    lemma_encode_pairs_index(entries);
    broadcast use vstd::seq_lib::group_to_multiset_ensures;
    assert(sorted.len() == pairs.len()) by {
        assert(sorted.to_multiset().len() == pairs.to_multiset().len());
    }
    assert forall|j: int| 0 <= j < entries.len() implies encodes_an_entry(#[trigger] sorted[j], entries) by {
        assert(sorted.to_multiset().count(sorted[j]) > 0);
        assert(pairs.contains(sorted[j]));
        let i = choose|i: int| 0 <= i < pairs.len() && pairs[i] == sorted[j];
        assert(pairs[i] == encode(entries[i].0) + encode(entries[i].1));
    }
}

/// Reading back the canonical encoding of an encodable data item, followed
/// by anything, takes exactly the encoding and gives an encodable item with
/// the same encoding.
pub proof fn lemma_parse_encode(v: CborValue, rest: Seq<u8>)
    requires
        encodable(v),
    ensures
        reads_back(v, rest),
    decreases v, 0nat,
{
    match v {
        CborValue::Simple { major, minor, value } => {
            lemma_reads_back_simple(major, minor, value, rest);
        },
        CborValue::Bytes { major, content } => {
            lemma_reads_back_bytes(major, content, rest);
        },
        CborValue::Array { items } => {
            lemma_encodable_items(items);
            lemma_parse_items_encoded(items, rest);
            lemma_reads_back_array(items, rest);
        },
        CborValue::Dict { entries } => {
            lemma_encodable_entries(entries);
            lemma_sorted_pairs(entries);
            lemma_parse_pairs_encoded(entries, encode_pairs(entries).sort_by(lex_order()), rest);
            lemma_reads_back_dict(entries, rest);
        },
        CborValue::Tagged { tag, item } => {
            lemma_parse_encode(*item, rest);
            lemma_reads_back_tagged(tag, *item, rest);
        },
    }
}

/// Reading back the encodings of encodable items, followed by anything,
/// takes exactly those encodings and gives as many encodable items with the
/// same encodings.
pub proof fn lemma_parse_items_encoded(items: Seq<CborValue>, rest: Seq<u8>)
    requires
        forall|i: int| 0 <= i < items.len() ==> #[trigger] encodable(items[i]),
    ensures
        parse_items(encode_items(items) + rest, items.len()) is Some,
        (parse_items(encode_items(items) + rest, items.len())->0).1 == encode_items(items).len(),
        (parse_items(encode_items(items) + rest, items.len())->0).0.len() == items.len(),
        encode_items((parse_items(encode_items(items) + rest, items.len())->0).0) == encode_items(items),
        forall|i: int|
            0 <= i < items.len() ==> #[trigger] encodable(
                (parse_items(encode_items(items) + rest, items.len())->0).0[i],
            ),
    decreases items, 1nat,
{
    if items.len() == 0 {
        assert(encode_items(items) =~= Seq::<u8>::empty());
        assert(encode_items(Seq::<CborValue>::empty()) =~= Seq::<u8>::empty());
    } else {
        let tail = items.subrange(1, items.len() as int);
        assert(tail =~= items.drop_first());
        lemma_encode_items_front(items);
        let input = encode_items(items) + rest;
        let after = encode_items(tail) + rest;
        assert(input =~= encode(items[0]) + after);
        lemma_parse_encode(items[0], after);
        lemma_encode_nonempty(items[0]);
        let (w0, l0) = parse_value(input)->0;
        assert(input.skip(l0 as int) =~= after);
        assert forall|i: int| 0 <= i < tail.len() implies #[trigger] encodable(tail[i]) by {
            assert(tail[i] == items[i + 1]);
        }
        lemma_parse_items_encoded(tail, rest);
        let (ws, l1) = parse_items(after, tail.len())->0;
        let all = seq![w0] + ws;
        assert(parse_items(input, items.len()) == Some((all, l0 + l1)));
        lemma_encode_items_front(all);
        assert(all[0] == w0);
        assert(all.drop_first() =~= ws);
        assert forall|i: int| 0 <= i < items.len() implies #[trigger] encodable(all[i]) by {
            if i > 0 {
                assert(all[i] == ws[i - 1]);
            }
        }
    }
}

/// What `lemma_parse_pairs_encoded` states of pair encodings.
pub open spec fn pairs_read_back(s: Seq<Seq<u8>>, rest: Seq<u8>) -> bool {
    &&& parse_pairs(concat_all(s) + rest, s.len()) is Some
    &&& (parse_pairs(concat_all(s) + rest, s.len())->0).1 == concat_all(s).len()
    &&& encode_pairs((parse_pairs(concat_all(s) + rest, s.len())->0).0) == s
    &&& forall|i: int|
        0 <= i < s.len() ==> encodable(
            #[trigger] (parse_pairs(concat_all(s) + rest, s.len())->0).0[i].0,
        ) && encodable((parse_pairs(concat_all(s) + rest, s.len())->0).0[i].1)
}

/// Pair encodings read back when the first pair's key and value and the
/// remaining pairs do.
#[verifier::spinoff_prover]
#[verifier::rlimit(50)]
proof fn lemma_pairs_cons(a: CborValue, b: CborValue, tail: Seq<Seq<u8>>, rest: Seq<u8>)
    requires
        reads_back(a, encode(b) + (concat_all(tail) + rest)),
        reads_back(b, concat_all(tail) + rest),
        pairs_read_back(tail, rest),
    ensures
        pairs_read_back(seq![encode(a) + encode(b)] + tail, rest),
{
    let s = seq![encode(a) + encode(b)] + tail;
    assert(s.drop_first() =~= tail);
    lemma_concat_front(s);
    let after = concat_all(tail) + rest;
    let input = concat_all(s) + rest;
    assert(input =~= encode(a) + (encode(b) + after));
    lemma_encode_nonempty(a);
    lemma_encode_nonempty(b);
    let (wa, la) = parse_value(input)->0;
    assert(input.skip(la as int) =~= encode(b) + after);
    let (wb, lb) = parse_value(encode(b) + after)->0;
    assert(parse_pair(input) == Some(((wa, wb), la + lb)));
    assert(input.skip((la + lb) as int) =~= after);
    let (ws, l1) = parse_pairs(after, tail.len())->0;
    lemma_parse_pairs_count(after, tail.len());
    let all = seq![(wa, wb)] + ws;
    assert(s.len() - 1 == tail.len());
    assert(parse_pairs(input, s.len()) == Some((all, la + lb + l1)));
    lemma_encode_pairs_index(all);
    lemma_encode_pairs_index(ws);
    assert(encode_pairs(all) =~= s) by {
        assert forall|j: int| 0 <= j < s.len() implies encode_pairs(all)[j] == s[j] by {
            if j > 0 {
                assert(all[j] == ws[j - 1]);
                assert(encode_pairs(ws)[j - 1] == tail[j - 1]);
            }
        }
    }
    assert forall|j: int| 0 <= j < s.len() implies encodable(#[trigger] all[j].0) && encodable(all[j].1) by {
        if j > 0 {
            assert(all[j] == ws[j - 1]);
        }
    }
}

/// Reading back concatenated key/value pair encodings, each of an encodable
/// entry, followed by anything, takes exactly them and gives as many
/// encodable entries whose encodings they are.
pub proof fn lemma_parse_pairs_encoded(
    entries: Seq<(CborValue, CborValue)>,
    s: Seq<Seq<u8>>,
    rest: Seq<u8>,
)
    requires
        forall|i: int|
            0 <= i < entries.len() ==> encodable(#[trigger] entries[i].0) && encodable(entries[i].1),
        forall|j: int| 0 <= j < s.len() ==> encodes_an_entry(#[trigger] s[j], entries),
    ensures
        pairs_read_back(s, rest),
    decreases entries, s.len(),
{
    if s.len() == 0 {
        assert(concat_all(s) =~= Seq::<u8>::empty());
        assert(encode_pairs(Seq::<(CborValue, CborValue)>::empty()) =~= s);
    } else {
        assert(encodes_an_entry(s[0], entries));
        let i = choose|i: int|
            0 <= i < entries.len() && s[0] == encode(entries[i].0) + encode(#[trigger] entries[i].1);
        let a = entries[i].0;
        let b = entries[i].1;
        let tail = s.drop_first();
        assert forall|j: int| 0 <= j < tail.len() implies encodes_an_entry(#[trigger] tail[j], entries) by {
            assert(tail[j] == s[j + 1]);
        }
        let after = concat_all(tail) + rest;
        lemma_parse_encode(a, encode(b) + after);
        lemma_parse_encode(b, after);
        lemma_parse_pairs_encoded(entries, tail, rest);
        lemma_pairs_cons(a, b, tail, rest);
        assert(s =~= seq![encode(a) + encode(b)] + tail);
    }
}

/// What a tag read from `x` holds: a major type, a length within `x`, and
/// an argument that fits its additional-information field, or no argument
/// for field 31.
pub proof fn lemma_tag_facts(x: Seq<u8>)
    requires
        parse_tag(x) is Some,
    ensures
        ({
            let t = parse_tag(x)->0;
            &&& t.major <= 7
            &&& 1 <= t.len <= x.len()
            &&& t.additional matches Some(a) ==> minor_fits(t.minor, a)
            &&& t.additional is None ==> t.minor == 31
        }),
{
    let t = parse_tag(x)->0;
    if t.minor >= 24 && t.minor <= 27 {
        let w = tag_width(t.minor);
        let bytes = x.subrange(1, 1 + w as int);
        lemma_be_value_bound(bytes);
        reveal_with_fuel(pow256, 9);
        assert(pow256(w) <= pow256(8));
    }
}

/// The chunks of a string take no more bytes than there are.
proof fn lemma_parsed_chunks(x: Seq<u8>, major: u8)
    requires
        parse_chunks(x, major) is Some,
    ensures
        (parse_chunks(x, major)->0).0.len() <= (parse_chunks(x, major)->0).1 <= x.len(),
    decreases x.len(),
{
    if x.len() > 0 && x[0] != 0xFF {
        let t = parse_tag(x)->0;
        lemma_tag_facts(x);
        let n = t.additional->0 as nat;
        lemma_parsed_chunks(x.skip((t.len + n) as int), major);
    }
}

/// A data item read from at most `u64::MAX` bytes is encodable and takes
/// at least one of those bytes.
pub proof fn lemma_parsed_value(x: Seq<u8>)
    requires
        parse_value(x) is Some,
        x.len() <= u64::MAX,
    ensures
        1 <= (parse_value(x)->0).1 <= x.len(),
        encodable((parse_value(x)->0).0),
    decreases x.len(), 0nat, 0nat,
{
    let t = parse_tag(x)->0;
    lemma_tag_facts(x);
    lemma_parsed_body(x.skip(t.len as int), t.major, t.minor, t.additional);
}

/// What follows a tag read from at most `u64::MAX` bytes is an encodable
/// data item within those bytes.
proof fn lemma_parsed_body(rest: Seq<u8>, major: u8, minor: u8, additional: Option<u64>)
    requires
        parse_body(rest, major, minor, additional) is Some,
        rest.len() <= u64::MAX,
        major <= 7,
        additional matches Some(a) ==> minor_fits(minor, a),
    ensures
        (parse_body(rest, major, minor, additional)->0).1 <= rest.len(),
        encodable((parse_body(rest, major, minor, additional)->0).0),
    decreases rest.len(), 3nat, 0nat,
{
    if major <= 1 || major == 7 {
    } else if major <= 3 {
        if additional is None {
            lemma_parsed_chunks(rest, major);
        }
    } else if major == 4 {
        match additional {
            Some(n) => {
                lemma_parsed_items(rest, n as nat);
            },
            None => {
                lemma_parsed_items_indef(rest);
            },
        }
    } else if major == 5 {
        match additional {
            Some(n) => {
                lemma_parsed_pairs(rest, n as nat);
            },
            None => {
                lemma_parsed_pairs_indef(rest);
            },
        }
    } else {
        lemma_parsed_value(rest);
    }
}

/// `n` items read from at most `u64::MAX` bytes are encodable and lie
/// within those bytes.
proof fn lemma_parsed_items(x: Seq<u8>, n: nat)
    requires
        parse_items(x, n) is Some,
        x.len() <= u64::MAX,
    ensures
        (parse_items(x, n)->0).0.len() == n,
        (parse_items(x, n)->0).1 <= x.len(),
        encodable_items((parse_items(x, n)->0).0),
    decreases x.len(), 1nat, n,
{
    lemma_parse_items_count(x, n);
    if n > 0 {
        let (v, l) = parse_value(x)->0;
        lemma_parsed_value(x);
        let after = x.skip(l as int);
        lemma_parsed_items(after, (n - 1) as nat);
        let (vs, l2) = parse_items(after, (n - 1) as nat)->0;
        let all = seq![v] + vs;
        lemma_encodable_items(vs);
        lemma_encodable_items(all);
        assert forall|i: int| 0 <= i < all.len() implies #[trigger] encodable(all[i]) by {
            if i > 0 {
                assert(all[i] == vs[i - 1]);
            }
        }
    } else {
        assert(encodable_items(Seq::<CborValue>::empty()));
    }
}

/// Items up to a break byte, read from at most `u64::MAX` bytes, are
/// encodable, no more than the bytes, and lie within them.
proof fn lemma_parsed_items_indef(x: Seq<u8>)
    requires
        parse_items_indef(x) is Some,
        x.len() <= u64::MAX,
    ensures
        (parse_items_indef(x)->0).0.len() <= (parse_items_indef(x)->0).1 <= x.len(),
        encodable_items((parse_items_indef(x)->0).0),
    decreases x.len(), 1nat, 0nat,
{
    if x[0] != 0xFF {
        let (v, l) = parse_value(x)->0;
        lemma_parsed_value(x);
        let after = x.skip(l as int);
        lemma_parsed_items_indef(after);
        let (vs, l2) = parse_items_indef(after)->0;
        let all = seq![v] + vs;
        lemma_encodable_items(vs);
        lemma_encodable_items(all);
        assert forall|i: int| 0 <= i < all.len() implies #[trigger] encodable(all[i]) by {
            if i > 0 {
                assert(all[i] == vs[i - 1]);
            }
        }
    } else {
        assert(encodable_items(Seq::<CborValue>::empty()));
    }
}

/// A key/value pair read from at most `u64::MAX` bytes is encodable and
/// takes at least one of those bytes.
proof fn lemma_parsed_pair(x: Seq<u8>)
    requires
        parse_pair(x) is Some,
        x.len() <= u64::MAX,
    ensures
        1 <= (parse_pair(x)->0).1 <= x.len(),
        encodable((parse_pair(x)->0).0.0),
        encodable((parse_pair(x)->0).0.1),
    decreases x.len(), 0nat, 1nat,
{
    let (k, l1) = parse_value(x)->0;
    lemma_parsed_value(x);
    lemma_parsed_value(x.skip(l1 as int));
}

/// `n` pairs read from at most `u64::MAX` bytes are encodable and lie
/// within those bytes.
proof fn lemma_parsed_pairs(x: Seq<u8>, n: nat)
    requires
        parse_pairs(x, n) is Some,
        x.len() <= u64::MAX,
    ensures
        (parse_pairs(x, n)->0).0.len() == n,
        (parse_pairs(x, n)->0).1 <= x.len(),
        encodable_entries((parse_pairs(x, n)->0).0),
    decreases x.len(), 1nat, n,
{
    lemma_parse_pairs_count(x, n);
    if n > 0 {
        let (p, l) = parse_pair(x)->0;
        lemma_parsed_pair(x);
        let after = x.skip(l as int);
        lemma_parsed_pairs(after, (n - 1) as nat);
        let (ps, l2) = parse_pairs(after, (n - 1) as nat)->0;
        let all = seq![p] + ps;
        lemma_encodable_entries(ps);
        lemma_encodable_entries(all);
        assert forall|i: int| #![trigger all[i]] 0 <= i < all.len() implies encodable(all[i].0)
            && encodable(all[i].1) by {
            if i > 0 {
                assert(all[i] == ps[i - 1]);
            }
        }
    } else {
        assert(encodable_entries(Seq::<(CborValue, CborValue)>::empty()));
    }
}

/// Pairs up to a break byte, read from at most `u64::MAX` bytes, are
/// encodable, no more than the bytes, and lie within them.
proof fn lemma_parsed_pairs_indef(x: Seq<u8>)
    requires
        parse_pairs_indef(x) is Some,
        x.len() <= u64::MAX,
    ensures
        (parse_pairs_indef(x)->0).0.len() <= (parse_pairs_indef(x)->0).1 <= x.len(),
        encodable_entries((parse_pairs_indef(x)->0).0),
    decreases x.len(), 1nat, 0nat,
{
    if x[0] != 0xFF {
        let (p, l) = parse_pair(x)->0;
        lemma_parsed_pair(x);
        let after = x.skip(l as int);
        lemma_parsed_pairs_indef(after);
        let (ps, l2) = parse_pairs_indef(after)->0;
        let all = seq![p] + ps;
        lemma_encodable_entries(ps);
        lemma_encodable_entries(all);
        assert forall|i: int| #![trigger all[i]] 0 <= i < all.len() implies encodable(all[i].0)
            && encodable(all[i].1) by {
            if i > 0 {
                assert(all[i] == ps[i - 1]);
            }
        }
    } else {
        assert(encodable_entries(Seq::<(CborValue, CborValue)>::empty()));
    }
}

/// Canonicalization is idempotent: the canonical form of any input no
/// longer than `u64::MAX` bytes is its own canonical form.
pub proof fn lemma_canonicalize_idempotent(input: Seq<u8>)
    requires
        input.len() <= u64::MAX,
        spec_canonicalize(input) is Some,
    ensures
        spec_canonicalize(spec_canonicalize(input)->0) == spec_canonicalize(input),
{
    let (v, l) = parse_value(input)->0;
    lemma_parsed_value(input);
    let c = encode(v);
    lemma_parse_encode(v, Seq::empty());
    assert(c + Seq::<u8>::empty() =~= c);
}

/// Canonicalization keeps the value: the canonical form of an input no
/// longer than `u64::MAX` bytes is one data item, all of it, and that item
/// encodes canonically to the same bytes as the input's item, so the two
/// differ at most in how the input was written (argument widths, chunked
/// strings, indefinite lengths, the order of map entries).
pub proof fn lemma_canonical_same_value(input: Seq<u8>)
    requires
        input.len() <= u64::MAX,
        spec_canonicalize(input) is Some,
    ensures
        parse_value(spec_canonicalize(input)->0) is Some,
        (parse_value(spec_canonicalize(input)->0)->0).1 == (spec_canonicalize(input)->0).len(),
        encode((parse_value(spec_canonicalize(input)->0)->0).0) == encode((parse_value(input)->0).0),
        spec_canonicalize(input)->0 == encode((parse_value(input)->0).0),
{
    let (v, l) = parse_value(input)->0;
    lemma_parsed_value(input);
    lemma_parse_encode(v, Seq::empty());
    assert(encode(v) + Seq::<u8>::empty() =~= encode(v));
}

/// Whether `c` is in canonical form: its own canonical form.
pub open spec fn is_canonical(c: Seq<u8>) -> bool {
    spec_canonicalize(c) == Some(c)
}

/// The empty map, `0xA0`, is in canonical form.
pub proof fn lemma_empty_map_canonical()
    ensures
        is_canonical(seq![0xA0u8]),
{
    let v = CborValue::Dict { entries: Seq::empty() };
    let pairs = encode_pairs(Seq::<(CborValue, CborValue)>::empty());
    assert(pairs =~= Seq::<Seq<u8>>::empty());
    lemma_lex_total_ordering();
    pairs.lemma_sort_by_ensures(lex_order());
    broadcast use vstd::seq_lib::group_to_multiset_ensures;
    assert(pairs.sort_by(lex_order()).len() == 0) by {
        assert(pairs.sort_by(lex_order()).to_multiset().len() == pairs.to_multiset().len());
    }
    assert(pairs.sort_by(lex_order()) =~= Seq::<Seq<u8>>::empty());
    assert(concat_all(Seq::<Seq<u8>>::empty()) =~= Seq::<u8>::empty());
    assert(be_bytes(0, 0) =~= Seq::<u8>::empty());
    assert(encode(v) =~= seq![0xA0u8]);
    lemma_encodable_entries(Seq::<(CborValue, CborValue)>::empty());
    lemma_parse_encode(v, Seq::empty());
    assert(encode(v) + Seq::<u8>::empty() =~= encode(v));
}

} // verus!
