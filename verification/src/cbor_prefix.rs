//! A data item decodes the same whatever bytes follow it, so a well-formed
//! item followed by further bytes is not one data item and does not
//! canonicalize.

use crate::cbor::{
    parse_body, parse_chunks, parse_items, parse_items_indef, parse_pair, parse_pairs,
    parse_pairs_indef, parse_tag, parse_value, spec_canonicalize,
};
use vstd::prelude::*;

verus! {

/// Skipping into a concatenation skips into its first part.
proof fn lemma_skip_concat(x: Seq<u8>, s: Seq<u8>, k: int)
    requires
        0 <= k <= x.len(),
    ensures
        (x + s).skip(k) == x.skip(k) + s,
{
    assert((x + s).skip(k) =~= x.skip(k) + s);
}

/// A tag decodes the same whatever follows it, and lies within the input.
proof fn lemma_tag_prefix(x: Seq<u8>, s: Seq<u8>)
    requires
        parse_tag(x) is Some,
    ensures
        parse_tag(x + s) == parse_tag(x),
        (parse_tag(x)->0).len <= x.len(),
{
    let y = x + s;
    assert(y[0] == x[0]);
    let minor = x[0] % 32;
    if 24 <= minor <= 27 {
        let w = crate::cbor::tag_width(minor);
        assert(y.subrange(1, 1 + w as int) =~= x.subrange(1, 1 + w as int));
    }
}

/// Chunks of a string decode the same whatever follows them.
proof fn lemma_chunks_prefix(x: Seq<u8>, s: Seq<u8>, major: u8)
    requires
        parse_chunks(x, major) is Some,
    ensures
        parse_chunks(x + s, major) == parse_chunks(x, major),
        (parse_chunks(x, major)->0).1 <= x.len(),
    decreases x.len(),
{
    let y = x + s;
    assert(y[0] == x[0]);
    if x[0] != 0xFF {
        let t = parse_tag(x)->0;
        lemma_tag_prefix(x, s);
        let n = t.additional->0 as nat;
        lemma_skip_concat(x, s, (t.len + n) as int);
        assert(y.subrange(t.len as int, (t.len + n) as int) =~= x.subrange(
            t.len as int,
            (t.len + n) as int,
        ));
        lemma_chunks_prefix(x.skip((t.len + n) as int), s, major);
    }
}

/// A data item decodes the same whatever follows it, and lies within the
/// input.
pub proof fn lemma_value_prefix(x: Seq<u8>, s: Seq<u8>)
    requires
        parse_value(x) is Some,
    ensures
        parse_value(x + s) == parse_value(x),
        (parse_value(x)->0).1 <= x.len(),
    decreases x.len(), 0nat, 0nat,
{
    let t = parse_tag(x)->0;
    lemma_tag_prefix(x, s);
    lemma_skip_concat(x, s, t.len as int);
    lemma_body_prefix(x.skip(t.len as int), s, t.major, t.minor, t.additional);
}

/// What follows a tag decodes the same whatever follows it.
proof fn lemma_body_prefix(x: Seq<u8>, s: Seq<u8>, major: u8, minor: u8, additional: Option<u64>)
    requires
        parse_body(x, major, minor, additional) is Some,
    ensures
        parse_body(x + s, major, minor, additional) == parse_body(x, major, minor, additional),
        (parse_body(x, major, minor, additional)->0).1 <= x.len(),
    decreases x.len(), 3nat, 0nat,
{
    if major <= 1 || major == 7 {
    } else if major <= 3 {
        match additional {
            Some(n) => {
                assert((x + s).take(n as int) =~= x.take(n as int));
            },
            None => {
                lemma_chunks_prefix(x, s, major);
            },
        }
    } else if major == 4 {
        match additional {
            Some(n) => lemma_items_prefix(x, s, n as nat),
            None => lemma_items_indef_prefix(x, s),
        }
    } else if major == 5 {
        match additional {
            Some(n) => lemma_pairs_prefix(x, s, n as nat),
            None => lemma_pairs_indef_prefix(x, s),
        }
    } else {
        lemma_value_prefix(x, s);
    }
}

/// Consecutive data items decode the same whatever follows them.
proof fn lemma_items_prefix(x: Seq<u8>, s: Seq<u8>, n: nat)
    requires
        parse_items(x, n) is Some,
    ensures
        parse_items(x + s, n) == parse_items(x, n),
        (parse_items(x, n)->0).1 <= x.len(),
    decreases x.len(), 1nat, n,
{
    if n > 0 {
        let (v, l) = parse_value(x)->0;
        lemma_value_prefix(x, s);
        lemma_skip_concat(x, s, l as int);
        lemma_items_prefix(x.skip(l as int), s, (n - 1) as nat);
    }
}

/// Data items up to a break decode the same whatever follows them.
proof fn lemma_items_indef_prefix(x: Seq<u8>, s: Seq<u8>)
    requires
        parse_items_indef(x) is Some,
    ensures
        parse_items_indef(x + s) == parse_items_indef(x),
        (parse_items_indef(x)->0).1 <= x.len(),
    decreases x.len(), 1nat, 0nat,
{
    let y = x + s;
    assert(y[0] == x[0]);
    if x[0] != 0xFF {
        let (v, l) = parse_value(x)->0;
        lemma_value_prefix(x, s);
        lemma_skip_concat(x, s, l as int);
        lemma_items_indef_prefix(x.skip(l as int), s);
    }
}

/// A key/value pair decodes the same whatever follows it.
proof fn lemma_pair_prefix(x: Seq<u8>, s: Seq<u8>)
    requires
        parse_pair(x) is Some,
    ensures
        parse_pair(x + s) == parse_pair(x),
        (parse_pair(x)->0).1 <= x.len(),
    decreases x.len(), 0nat, 1nat,
{
    let (k, l1) = parse_value(x)->0;
    lemma_value_prefix(x, s);
    lemma_skip_concat(x, s, l1 as int);
    lemma_value_prefix(x.skip(l1 as int), s);
}

/// Consecutive key/value pairs decode the same whatever follows them.
proof fn lemma_pairs_prefix(x: Seq<u8>, s: Seq<u8>, n: nat)
    requires
        parse_pairs(x, n) is Some,
    ensures
        parse_pairs(x + s, n) == parse_pairs(x, n),
        (parse_pairs(x, n)->0).1 <= x.len(),
    decreases x.len(), 1nat, n,
{
    if n > 0 {
        let (p, l) = parse_pair(x)->0;
        lemma_pair_prefix(x, s);
        lemma_skip_concat(x, s, l as int);
        lemma_pairs_prefix(x.skip(l as int), s, (n - 1) as nat);
    }
}

/// Key/value pairs up to a break decode the same whatever follows them.
proof fn lemma_pairs_indef_prefix(x: Seq<u8>, s: Seq<u8>)
    requires
        parse_pairs_indef(x) is Some,
    ensures
        parse_pairs_indef(x + s) == parse_pairs_indef(x),
        (parse_pairs_indef(x)->0).1 <= x.len(),
    decreases x.len(), 1nat, 0nat,
{
    let y = x + s;
    assert(y[0] == x[0]);
    if x[0] != 0xFF {
        let (p, l) = parse_pair(x)->0;
        lemma_pair_prefix(x, s);
        lemma_skip_concat(x, s, l as int);
        lemma_pairs_indef_prefix(x.skip(l as int), s);
    }
}

/// Bytes after one well-formed data item make canonicalization fail: the
/// input is then not exactly one data item.
pub proof fn lemma_trailing_bytes_rejected(input: Seq<u8>, s: Seq<u8>)
    requires
        spec_canonicalize(input) is Some,
        s.len() > 0,
    ensures
        spec_canonicalize(input + s) is None,
{
    lemma_value_prefix(input, s);
}

} // verus!
