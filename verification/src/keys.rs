//! The keys by which the report groups requests, and their order.

use vstd::prelude::*;

use crate::order::{lemma_text_order, text_less};
use crate::record::RecordView;
use crate::tally::{is_strict_total_order, tally_of};

verus! {

/// The traffic-cube key of a request.
pub struct GroupKey {
    pub client_id: Seq<char>,
    pub endpoint: Seq<char>,
    pub status_code: u16,
}

/// The rate-limit key of a request: its client and its ten-second bucket.
pub struct BucketKey {
    pub client_id: Seq<char>,
    pub bucket: i64,
}

/// Traffic-cube keys ascend by client id, then endpoint, then status code.
pub open spec fn group_less(a: GroupKey, b: GroupKey) -> bool {
    ||| text_less(a.client_id, b.client_id)
    ||| a.client_id == b.client_id && text_less(a.endpoint, b.endpoint)
    ||| a.client_id == b.client_id && a.endpoint == b.endpoint && a.status_code < b.status_code
}

/// Bucket keys ascend by client id, then bucket.
pub open spec fn bucket_less(a: BucketKey, b: BucketKey) -> bool {
    ||| text_less(a.client_id, b.client_id)
    ||| a.client_id == b.client_id && a.bucket < b.bucket
}

/// `group_less` as a relation.
pub open spec fn group_order() -> spec_fn(GroupKey, GroupKey) -> bool {
    |a: GroupKey, b: GroupKey| group_less(a, b)
}

/// `bucket_less` as a relation.
pub open spec fn bucket_order() -> spec_fn(BucketKey, BucketKey) -> bool {
    |a: BucketKey, b: BucketKey| bucket_less(a, b)
}

/// The order of traffic-cube keys is a strict total order.
pub proof fn lemma_group_order()
    ensures
        is_strict_total_order(group_order()),
{
    let less = group_order();
    assert forall|a: GroupKey| !(#[trigger] less(a, a)) by {
        lemma_text_order(a.client_id, a.client_id, a.client_id);
        lemma_text_order(a.endpoint, a.endpoint, a.endpoint);
    }
    assert forall|a: GroupKey, b: GroupKey, c: GroupKey|
        #![trigger less(a, b), less(b, c)]
        less(a, b) && less(b, c) implies less(a, c) by {
        lemma_text_order(a.client_id, b.client_id, c.client_id);
        lemma_text_order(a.endpoint, b.endpoint, c.endpoint);
    }
    assert forall|a: GroupKey, b: GroupKey| #![trigger less(a, b)] a != b implies less(a, b) || less(
        b,
        a,
    ) by {
        lemma_text_order(a.client_id, b.client_id, a.client_id);
        lemma_text_order(a.endpoint, b.endpoint, a.endpoint);
    }
}

/// The order of bucket keys is a strict total order.
pub proof fn lemma_bucket_order()
    ensures
        is_strict_total_order(bucket_order()),
{
    let less = bucket_order();
    assert forall|a: BucketKey| !(#[trigger] less(a, a)) by {
        lemma_text_order(a.client_id, a.client_id, a.client_id);
    }
    assert forall|a: BucketKey, b: BucketKey, c: BucketKey|
        #![trigger less(a, b), less(b, c)]
        less(a, b) && less(b, c) implies less(a, c) by {
        lemma_text_order(a.client_id, b.client_id, c.client_id);
    }
    assert forall|a: BucketKey, b: BucketKey| #![trigger less(a, b)] a != b implies less(a, b)
        || less(b, a) by {
        lemma_text_order(a.client_id, b.client_id, a.client_id);
    }
}

/// The traffic-cube key of a record.
pub open spec fn group_key(r: RecordView) -> GroupKey {
    GroupKey { client_id: r.client_id, endpoint: r.endpoint, status_code: r.status_code }
}

/// The rate-limit key of a record.
pub open spec fn bucket_key(r: RecordView) -> BucketKey {
    BucketKey { client_id: r.client_id, bucket: r.bucket }
}

/// The traffic cube of a list of records: each (client, endpoint, status)
/// group once, in ascending order, with the number of its records.
pub open spec fn request_tally(records: Seq<RecordView>) -> Seq<(GroupKey, nat)> {
    tally_of(records.map_values(|r: RecordView| group_key(r)), group_order())
}

/// The client buckets of a list of records, in ascending order, each with the
/// number of its records.
pub open spec fn bucket_tally(records: Seq<RecordView>) -> Seq<(BucketKey, nat)> {
    tally_of(records.map_values(|r: RecordView| bucket_key(r)), bucket_order())
}

} // verus!
