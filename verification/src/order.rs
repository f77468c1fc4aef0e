//! Byte-wise lexicographic order of text, the order in which the report lists
//! client ids and endpoints.

use vstd::prelude::*;
use vstd::utf8::*;

use crate::tally::is_strict_total_order;

verus! {

/// Outcome of a three-way comparison.
#[derive(Clone, Copy, Debug)]
pub enum Comparison {
    Less,
    Equal,
    Greater,
}

/// `a` comes strictly before `b` in lexicographic byte order
/// (a proper prefix comes first).
pub open spec fn bytes_less(a: Seq<u8>, b: Seq<u8>) -> bool
    decreases a.len(),
{
    if a.len() == 0 {
        b.len() > 0
    } else if b.len() == 0 {
        false
    } else if a[0] != b[0] {
        a[0] < b[0]
    } else {
        bytes_less(a.drop_first(), b.drop_first())
    }
}

/// `a` comes strictly before `b` when both are compared by their UTF-8 bytes,
/// which is the order of Rust's `String`.
pub open spec fn text_less(a: Seq<char>, b: Seq<char>) -> bool {
    bytes_less(encode_utf8(a), encode_utf8(b))
}

pub proof fn lemma_bytes_less_irreflexive(a: Seq<u8>)
    ensures
        !bytes_less(a, a),
    decreases a.len(),
{
    if a.len() > 0 {
        lemma_bytes_less_irreflexive(a.drop_first());
    }
}

pub proof fn lemma_bytes_less_transitive(a: Seq<u8>, b: Seq<u8>, c: Seq<u8>)
    requires
        bytes_less(a, b),
        bytes_less(b, c),
    ensures
        bytes_less(a, c),
    decreases a.len(),
{
    if a.len() > 0 && b.len() > 0 && c.len() > 0 && a[0] == b[0] && b[0] == c[0] {
        lemma_bytes_less_transitive(a.drop_first(), b.drop_first(), c.drop_first());
    }
}

pub proof fn lemma_bytes_less_total(a: Seq<u8>, b: Seq<u8>)
    requires
        a != b,
    ensures
        bytes_less(a, b) || bytes_less(b, a),
    decreases a.len(),
{
    if a.len() > 0 && b.len() > 0 && a[0] == b[0] {
        if a.drop_first() == b.drop_first() {
            assert(a =~= seq![a[0]] + a.drop_first());
            assert(b =~= seq![b[0]] + b.drop_first());
        }
        lemma_bytes_less_total(a.drop_first(), b.drop_first());
    } else if a.len() == 0 && b.len() == 0 {
        assert(a =~= b);
    }
}

proof fn lemma_bytes_less_common_prefix(a: Seq<u8>, b: Seq<u8>, i: int)
    requires
        0 <= i <= a.len(),
        i <= b.len(),
        forall|j: int| 0 <= j < i ==> a[j] == b[j],
    ensures
        bytes_less(a, b) == bytes_less(a.skip(i), b.skip(i)),
    decreases i,
{
    if i > 0 {
        lemma_bytes_less_common_prefix(a.drop_first(), b.drop_first(), i - 1);
        assert(a.drop_first().skip(i - 1) =~= a.skip(i));
        assert(b.drop_first().skip(i - 1) =~= b.skip(i));
    } else {
        assert(a.skip(0) =~= a);
        assert(b.skip(0) =~= b);
    }
}

/// Different texts have different UTF-8 encodings.
pub proof fn lemma_encode_injective(a: Seq<char>, b: Seq<char>)
    requires
        encode_utf8(a) == encode_utf8(b),
    ensures
        a == b,
{
    encode_utf8_decode_utf8(a);
    encode_utf8_decode_utf8(b);
}

/// `text_less` is a strict total order.
pub proof fn lemma_text_order(a: Seq<char>, b: Seq<char>, c: Seq<char>)
    ensures
        !text_less(a, a),
        text_less(a, b) && text_less(b, c) ==> text_less(a, c),
        a != b ==> text_less(a, b) || text_less(b, a),
{
    lemma_bytes_less_irreflexive(encode_utf8(a));
    if text_less(a, b) && text_less(b, c) {
        lemma_bytes_less_transitive(encode_utf8(a), encode_utf8(b), encode_utf8(c));
    }
    if a != b {
        if encode_utf8(a) == encode_utf8(b) {
            lemma_encode_injective(a, b);
        }
        lemma_bytes_less_total(encode_utf8(a), encode_utf8(b));
    }
}

/// `text_less` as a relation.
pub open spec fn text_order() -> spec_fn(Seq<char>, Seq<char>) -> bool {
    |a: Seq<char>, b: Seq<char>| text_less(a, b)
}

/// The byte order of texts is a strict total order.
pub proof fn lemma_text_strict_order()
    ensures
        is_strict_total_order(text_order()),
{
    let less = text_order();
    assert forall|a: Seq<char>| !(#[trigger] less(a, a)) by {
        lemma_text_order(a, a, a);
    }
    assert forall|a: Seq<char>, b: Seq<char>, c: Seq<char>|
        #![trigger less(a, b), less(b, c)]
        less(a, b) && less(b, c) implies less(a, c) by {
        lemma_text_order(a, b, c);
    }
    assert forall|a: Seq<char>, b: Seq<char>| #![trigger less(a, b)] a != b implies less(a, b)
        || less(b, a) by {
        lemma_text_order(a, b, a);
    }
}

/// Compares two byte strings lexicographically.
pub fn compare_bytes(a: &[u8], b: &[u8]) -> (r: Comparison)
    ensures
        match r {
            Comparison::Less => bytes_less(a@, b@),
            Comparison::Equal => a@ == b@,
            Comparison::Greater => bytes_less(b@, a@),
        },
{
    let mut i: usize = 0;
    while i < a.len() && i < b.len() && a[i] == b[i]
        invariant
            i <= a.len(),
            i <= b.len(),
            forall|j: int| 0 <= j < i ==> a@[j] == b@[j],
        decreases a.len() - i,
    {
        i = i + 1;
    }
    proof {
        lemma_bytes_less_common_prefix(a@, b@, i as int);
        lemma_bytes_less_common_prefix(b@, a@, i as int);
    }
    if i == a.len() && i == b.len() {
        assert(a@ =~= b@);
        Comparison::Equal
    } else if i == a.len() {
        Comparison::Less
    } else if i == b.len() {
        Comparison::Greater
    } else if a[i] < b[i] {
        Comparison::Less
    } else {
        Comparison::Greater
    }
}

/// Compares two texts by their UTF-8 bytes.
pub fn compare_text(a: &str, b: &str) -> (r: Comparison)
    ensures
        match r {
            Comparison::Less => text_less(a@, b@),
            Comparison::Equal => a@ == b@,
            Comparison::Greater => text_less(b@, a@),
        },
        r is Equal <==> a@ == b@,
{
    proof {
        lemma_text_order(a@, b@, a@);
        lemma_text_order(b@, a@, b@);
    }
    let r = compare_bytes(a.as_bytes(), b.as_bytes());
    if let Comparison::Equal = r {
        proof {
            lemma_encode_injective(a@, b@);
        }
    }
    r
}

} // verus!
