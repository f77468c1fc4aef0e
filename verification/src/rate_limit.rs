//! Rate limits: which client buckets exceed the limit, by how much, and the
//! per-client summary of them.

use vstd::prelude::*;

use crate::keys::{bucket_order, BucketKey};
use crate::order::{lemma_text_order, text_less};
use crate::tally::{lemma_sum_drop_last, tally_sorted, tally_sum};

verus! {

/// The most requests that one client may make in one bucket.
pub const REQUESTS_PER_BUCKET: u64 = 5;

/// The requests of a bucket above the limit.
pub open spec fn excess_of(count: nat) -> nat {
    if count > REQUESTS_PER_BUCKET {
        (count - REQUESTS_PER_BUCKET) as nat
    } else {
        0
    }
}

/// The number of buckets of client `c` that exceed the limit.
pub open spec fn client_violations(buckets: Seq<(BucketKey, nat)>, c: Seq<char>) -> nat
    decreases buckets.len(),
{
    if buckets.len() == 0 {
        0
    } else {
        client_violations(buckets.drop_last(), c) + if buckets.last().0.client_id == c
            && buckets.last().1 > REQUESTS_PER_BUCKET {
            1nat
        } else {
            0nat
        }
    }
}

/// The requests of client `c` above the limit, over all its buckets.
pub open spec fn client_excess(buckets: Seq<(BucketKey, nat)>, c: Seq<char>) -> nat
    decreases buckets.len(),
{
    if buckets.len() == 0 {
        0
    } else {
        client_excess(buckets.drop_last(), c) + if buckets.last().0.client_id == c {
            excess_of(buckets.last().1)
        } else {
            0nat
        }
    }
}

/// The number of buckets, of all clients, that exceed the limit.
pub open spec fn total_violations(buckets: Seq<(BucketKey, nat)>) -> nat
    decreases buckets.len(),
{
    if buckets.len() == 0 {
        0
    } else {
        total_violations(buckets.drop_last()) + if buckets.last().1 > REQUESTS_PER_BUCKET {
            1nat
        } else {
            0nat
        }
    }
}

/// The requests above the limit, over all buckets.
pub open spec fn total_excess(buckets: Seq<(BucketKey, nat)>) -> nat
    decreases buckets.len(),
{
    if buckets.len() == 0 {
        0
    } else {
        total_excess(buckets.drop_last()) + excess_of(buckets.last().1)
    }
}

/// `rc` lists each client with a violating bucket once, in ascending order,
/// with its number of violating buckets and of excess requests.
pub open spec fn rate_counts_describe(
    rc: Seq<(Seq<char>, nat, nat)>,
    buckets: Seq<(BucketKey, nat)>,
) -> bool {
    &&& forall|i: int, j: int|
        #![trigger rc[i], rc[j]]
        0 <= i < j < rc.len() ==> text_less(rc[i].0, rc[j].0)
    &&& forall|i: int|
        0 <= i < rc.len() ==> (#[trigger] rc[i]).1 == client_violations(buckets, rc[i].0)
            && rc[i].2 == client_excess(buckets, rc[i].0)
    &&& forall|c: Seq<char>|
        #[trigger] client_violations(buckets, c) > 0 <==> exists|i: int|
            0 <= i < rc.len() && (#[trigger] rc[i]).0 == c
}

pub proof fn lemma_rate_bounds(s: Seq<(BucketKey, nat)>, c: Seq<char>)
    ensures
        total_excess(s) <= tally_sum(s),
        total_violations(s) <= s.len(),
        client_excess(s, c) <= total_excess(s),
        client_violations(s, c) <= total_violations(s),
        client_excess(s, c) > 0 ==> client_violations(s, c) > 0,
    decreases s.len(),
{
    if s.len() > 0 {
        lemma_rate_bounds(s.drop_last(), c);
        lemma_sum_drop_last(s);
    }
}

/// The client ids of a list of client summaries.
pub open spec fn rc_keys(rc: Seq<(Seq<char>, nat, nat)>) -> Seq<Seq<char>> {
    rc.map_values(|row: (Seq<char>, nat, nat)| row.0)
}

/// The sum of the violation counts of a list of client summaries.
pub open spec fn rows_violation_sum(rc: Seq<(Seq<char>, nat, nat)>) -> nat
    decreases rc.len(),
{
    if rc.len() == 0 {
        0
    } else {
        rows_violation_sum(rc.drop_last()) + rc.last().1
    }
}

/// The sum of the excess counts of a list of client summaries.
pub open spec fn rows_excess_sum(rc: Seq<(Seq<char>, nat, nat)>) -> nat
    decreases rc.len(),
{
    if rc.len() == 0 {
        0
    } else {
        rows_excess_sum(rc.drop_last()) + rc.last().2
    }
}

/// The state of the rate-limit pass of `finish` after the first `i` buckets.
pub open spec fn rate_pass_state(
    rc: Seq<(Seq<char>, nat, nat)>,
    clients: Seq<Seq<char>>,
    violations: nat,
    excess: nat,
    buckets: Seq<(BucketKey, nat)>,
    i: int,
) -> bool {
    &&& 0 <= i <= buckets.len()
    &&& rate_counts_describe(rc, buckets.take(i))
    &&& clients == rc_keys(rc)
    &&& violations == total_violations(buckets.take(i))
    &&& excess == total_excess(buckets.take(i))
    &&& violations == rows_violation_sum(rc)
    &&& excess == rows_excess_sum(rc)
    &&& i > 0 ==> forall|k: int|
        0 <= k < rc.len() ==> (#[trigger] rc[k]).0 == buckets[i - 1].0.client_id || text_less(
            rc[k].0,
            buckets[i - 1].0.client_id,
        )
}

pub proof fn lemma_rate_pass_start(buckets: Seq<(BucketKey, nat)>)
    ensures
        rate_pass_state(Seq::empty(), Seq::empty(), 0, 0, buckets, 0),
{
    let t = buckets.take(0);
    assert(t.len() == 0);
    assert(rc_keys(Seq::empty()) =~= Seq::<Seq<char>>::empty());
}

/// One step of the rate-limit pass over a bucket within the limit.
pub proof fn lemma_rate_pass_quiet(
    rc: Seq<(Seq<char>, nat, nat)>,
    clients: Seq<Seq<char>>,
    violations: nat,
    excess: nat,
    buckets: Seq<(BucketKey, nat)>,
    i: int,
)
    requires
        rate_pass_state(rc, clients, violations, excess, buckets, i),
        tally_sorted(buckets, bucket_order()),
        i < buckets.len(),
        buckets[i].1 <= REQUESTS_PER_BUCKET,
    ensures
        rate_pass_state(rc, clients, violations, excess, buckets, i + 1),
{
    let t = buckets.take(i);
    let t1 = buckets.take(i + 1);
    assert(t1.drop_last() =~= t);
    assert(t1.last() == buckets[i]);
    assert forall|c: Seq<char>|
        client_violations(t1, c) == client_violations(t, c) && client_excess(t1, c)
            == client_excess(t, c) by {}
    if i == 0 {
        lemma_rate_pass_empty_at_start(rc, buckets);
    }
    lemma_rate_order_step(rc, buckets, i);
}

pub proof fn lemma_rate_pass_empty_at_start(
    rc: Seq<(Seq<char>, nat, nat)>,
    buckets: Seq<(BucketKey, nat)>,
)
    requires
        rate_counts_describe(rc, buckets.take(0)),
    ensures
        rc.len() == 0,
{
    if rc.len() > 0 {
        let t = buckets.take(0);
        assert(t.len() == 0);
        assert(client_violations(t, rc[0].0) == 0);
        assert(rc[0].0 == rc[0].0);
    }
}

pub proof fn lemma_rate_order_step(rc: Seq<(Seq<char>, nat, nat)>, buckets: Seq<(BucketKey, nat)>, i: int)
    requires
        0 <= i < buckets.len(),
        tally_sorted(buckets, bucket_order()),
        i > 0 ==> forall|k: int|
            0 <= k < rc.len() ==> (#[trigger] rc[k]).0 == buckets[i - 1].0.client_id || text_less(
                rc[k].0,
                buckets[i - 1].0.client_id,
            ),
        i == 0 ==> rc.len() == 0,
    ensures
        forall|k: int|
            0 <= k < rc.len() ==> (#[trigger] rc[k]).0 == buckets[i].0.client_id || text_less(
                rc[k].0,
                buckets[i].0.client_id,
            ),
{
    if i > 0 {
        let prev = buckets[i - 1].0.client_id;
        let c = buckets[i].0.client_id;
        assert((bucket_order())(buckets[i - 1].0, buckets[i].0));
        assert forall|k: int| 0 <= k < rc.len() implies (#[trigger] rc[k]).0 == c || text_less(
            rc[k].0,
            c,
        ) by {
            lemma_text_order(rc[k].0, prev, c);
        }
    }
}

/// One step of the rate-limit pass over a violating bucket of the client
/// that the last summary row holds.
pub proof fn lemma_rate_pass_same(
    rc: Seq<(Seq<char>, nat, nat)>,
    clients: Seq<Seq<char>>,
    violations: nat,
    excess: nat,
    buckets: Seq<(BucketKey, nat)>,
    i: int,
)
    requires
        rate_pass_state(rc, clients, violations, excess, buckets, i),
        tally_sorted(buckets, bucket_order()),
        i < buckets.len(),
        buckets[i].1 > REQUESTS_PER_BUCKET,
        rc.len() > 0,
        rc.last().0 == buckets[i].0.client_id,
    ensures
        rate_pass_state(
            rc.update(
                rc.len() - 1,
                (rc.last().0, rc.last().1 + 1, rc.last().2 + excess_of(buckets[i].1)),
            ),
            clients,
            violations + 1,
            excess + excess_of(buckets[i].1),
            buckets,
            i + 1,
        ),
{
    let c = buckets[i].0.client_id;
    let n = rc.len() - 1;
    let rc1 = rc.update(n, (rc.last().0, rc.last().1 + 1, rc.last().2 + excess_of(buckets[i].1)));
    let t = buckets.take(i);
    let t1 = buckets.take(i + 1);
    assert(t1.drop_last() =~= t);
    assert(t1.last() == buckets[i]);
    assert forall|k: int| 0 <= k < n implies (#[trigger] rc[k]).0 != c by {
        assert(text_less(rc[k].0, rc[n].0));
        lemma_text_order(c, c, c);
    }
    assert forall|k: int| 0 <= k < rc1.len() implies (#[trigger] rc1[k]).1 == client_violations(
        t1,
        rc1[k].0,
    ) && rc1[k].2 == client_excess(t1, rc1[k].0) by {
        if k < n {
            assert(rc1[k] == rc[k]);
        }
    }
    assert forall|d: Seq<char>|
        #[trigger] client_violations(t1, d) > 0 <==> exists|k: int|
            0 <= k < rc1.len() && (#[trigger] rc1[k]).0 == d by {
        if d == c {
            assert(rc1[n].0 == d);
        } else {
            assert(client_violations(t1, d) == client_violations(t, d));
            if client_violations(t, d) > 0 {
                let k = choose|k: int| 0 <= k < rc.len() && (#[trigger] rc[k]).0 == d;
                assert(rc1[k].0 == d);
            } else if exists|k: int| 0 <= k < rc1.len() && (#[trigger] rc1[k]).0 == d {
                let k = choose|k: int| 0 <= k < rc1.len() && (#[trigger] rc1[k]).0 == d;
                assert(rc[k].0 == d);
            }
        }
    }
    assert(rc_keys(rc1) =~= rc_keys(rc));
    assert(rc1.drop_last() =~= rc.drop_last());
    lemma_rate_order_step(rc, buckets, i);
    assert forall|k: int| 0 <= k < rc1.len() implies (#[trigger] rc1[k]).0 == c || text_less(
        rc1[k].0,
        c,
    ) by {
        assert(rc1[k].0 == rc[k].0);
    }
    assert forall|a: int, b: int| 0 <= a < b < rc1.len() implies #[trigger] text_less(
        rc1[a].0,
        rc1[b].0,
    ) by {
        assert(rc1[a].0 == rc[a].0);
        assert(rc1[b].0 == rc[b].0);
        assert(text_less(rc[a].0, rc[b].0));
    }
}

/// One step of the rate-limit pass over a violating bucket of a client that
/// no summary row holds yet.
pub proof fn lemma_rate_pass_new(
    rc: Seq<(Seq<char>, nat, nat)>,
    clients: Seq<Seq<char>>,
    violations: nat,
    excess: nat,
    buckets: Seq<(BucketKey, nat)>,
    i: int,
)
    requires
        rate_pass_state(rc, clients, violations, excess, buckets, i),
        tally_sorted(buckets, bucket_order()),
        i < buckets.len(),
        buckets[i].1 > REQUESTS_PER_BUCKET,
        rc.len() > 0 ==> rc.last().0 != buckets[i].0.client_id,
    ensures
        rate_pass_state(
            rc.push((buckets[i].0.client_id, 1, excess_of(buckets[i].1))),
            clients.push(buckets[i].0.client_id),
            violations + 1,
            excess + excess_of(buckets[i].1),
            buckets,
            i + 1,
        ),
{
    let c = buckets[i].0.client_id;
    let rc1 = rc.push((c, 1nat, excess_of(buckets[i].1)));
    let t = buckets.take(i);
    let t1 = buckets.take(i + 1);
    assert(t1.drop_last() =~= t);
    assert(t1.last() == buckets[i]);
    if i == 0 {
        lemma_rate_pass_empty_at_start(rc, buckets);
    }
    lemma_rate_order_step(rc, buckets, i);
    assert forall|k: int| 0 <= k < rc.len() implies #[trigger] text_less(rc[k].0, c) by {
        let n = rc.len() - 1;
        assert(rc[n].0 == c || text_less(rc[n].0, c));
        if k < n {
            assert(text_less(rc[k].0, rc[n].0));
            lemma_text_order(rc[k].0, rc[n].0, c);
        }
    }
    assert forall|k: int| 0 <= k < rc.len() implies (#[trigger] rc[k]).0 != c by {
        assert(text_less(rc[k].0, c));
        lemma_text_order(c, c, c);
    }
    lemma_rate_bounds(t, c);
    assert(client_violations(t, c) == 0);
    assert forall|k: int| 0 <= k < rc1.len() implies (#[trigger] rc1[k]).1 == client_violations(
        t1,
        rc1[k].0,
    ) && rc1[k].2 == client_excess(t1, rc1[k].0) by {
        if k < rc.len() {
            assert(rc1[k] == rc[k]);
        }
    }
    assert forall|d: Seq<char>|
        #[trigger] client_violations(t1, d) > 0 <==> exists|k: int|
            0 <= k < rc1.len() && (#[trigger] rc1[k]).0 == d by {
        if d == c {
            assert(rc1[rc.len() as int].0 == d);
        } else {
            assert(client_violations(t1, d) == client_violations(t, d));
            if client_violations(t, d) > 0 {
                let k = choose|k: int| 0 <= k < rc.len() && (#[trigger] rc[k]).0 == d;
                assert(rc1[k].0 == d);
            } else if exists|k: int| 0 <= k < rc1.len() && (#[trigger] rc1[k]).0 == d {
                let k = choose|k: int| 0 <= k < rc1.len() && (#[trigger] rc1[k]).0 == d;
                assert(k < rc.len());
                assert(rc[k].0 == d);
            }
        }
    }
    assert(rc_keys(rc1) =~= rc_keys(rc).push(c));
    assert(rc1.drop_last() =~= rc);
    assert forall|k: int| 0 <= k < rc1.len() implies (#[trigger] rc1[k]).0 == c || text_less(
        rc1[k].0,
        c,
    ) by {
        if k < rc.len() {
            assert(rc1[k] == rc[k]);
        }
    }
    assert forall|a: int, b: int| 0 <= a < b < rc1.len() implies #[trigger] text_less(
        rc1[a].0,
        rc1[b].0,
    ) by {
        assert(rc1[a] == rc[a]);
        if b < rc.len() {
            assert(rc1[b] == rc[b]);
            assert(text_less(rc[a].0, rc[b].0));
        }
    }
}

} // verus!
