//! Accumulates valid request records and reduces them into the report.

use vstd::prelude::*;

use crate::ids::{ClientId, Endpoint, StatusCode};
use crate::keys::{
    bucket_key, bucket_less, bucket_order, bucket_tally, group_key, group_less, group_order,
    lemma_bucket_order, lemma_group_order, request_tally, BucketKey, GroupKey,
};
use crate::order::{compare_text, Comparison};
use crate::rate_limit::{
    excess_of, lemma_rate_bounds, lemma_rate_pass_new, lemma_rate_pass_quiet,
    lemma_rate_pass_same, lemma_rate_pass_start, rate_counts_describe, rate_pass_state, rc_keys,
    rows_excess_sum, rows_violation_sum, total_excess, total_violations, REQUESTS_PER_BUCKET,
};
use crate::record::{RecordView, RequestRecord};
use crate::tally::{
    is_strict_total_order, lemma_count_le_sum, lemma_insert_at, lemma_search_above,
    lemma_prefix_sum, lemma_search_below, lemma_tally_of, tally_insert, tally_sorted, tally_sum,
};

verus! {

// ---------------------------------------------------------------------------
// Report rows and the report
// ---------------------------------------------------------------------------

/// One row of the traffic cube: a request tally for one (client, endpoint,
/// status) group.
pub struct RequestCount {
    pub client_id: ClientId,
    pub endpoint: Endpoint,
    pub status_code: StatusCode,
    pub request_count: u64,
}

impl View for RequestCount {
    type V = (GroupKey, nat);

    open spec fn view(&self) -> (GroupKey, nat) {
        (
            GroupKey {
                client_id: self.client_id@,
                endpoint: self.endpoint@,
                status_code: self.status_code@,
            },
            self.request_count as nat,
        )
    }
}

/// The views of a list of traffic-cube rows.
pub open spec fn request_counts_view(rows: Seq<RequestCount>) -> Seq<(GroupKey, nat)> {
    rows.map_values(|row: RequestCount| row@)
}

/// One client's rate-limit summary across all of its buckets.
pub struct ClientRateLimitCount {
    pub client_id: ClientId,
    pub client_bucket_rate_limit_violation_count: u64,
    pub rate_limit_excess_request_count: u64,
}

impl View for ClientRateLimitCount {
    type V = (Seq<char>, nat, nat);

    open spec fn view(&self) -> (Seq<char>, nat, nat) {
        (
            self.client_id@,
            self.client_bucket_rate_limit_violation_count as nat,
            self.rate_limit_excess_request_count as nat,
        )
    }
}

/// The views of a list of client summaries.
pub open spec fn rate_counts_view(rows: Seq<ClientRateLimitCount>) -> Seq<(Seq<char>, nat, nat)> {
    rows.map_values(|row: ClientRateLimitCount| row@)
}

/// The views of a list of client ids.
pub open spec fn client_ids_view(ids: Seq<ClientId>) -> Seq<Seq<char>> {
    ids.map_values(|id: ClientId| id@)
}

/// One client bucket and the number of its requests.
struct BucketCount {
    client_id: ClientId,
    bucket: i64,
    count: u64,
}

impl View for BucketCount {
    type V = (BucketKey, nat);

    closed spec fn view(&self) -> (BucketKey, nat) {
        (BucketKey { client_id: self.client_id@, bucket: self.bucket }, self.count as nat)
    }
}

spec fn bucket_counts_view(rows: Seq<BucketCount>) -> Seq<(BucketKey, nat)> {
    rows.map_values(|row: BucketCount| row@)
}

/// The complete traffic report, in the field order of its JSON form.
pub struct Report {
    pub total_line_count: u64,
    pub processed_line_count: u64,
    pub valid_request_count: u64,
    pub malformed_input_count: u64,
    pub ignored_blank_line_count: u64,
    pub client_bucket_rate_limit_violation_count: u64,
    pub rate_limit_excess_request_count: u64,
    pub rate_limit_violating_clients: Vec<ClientId>,
    pub request_counts_by_client_endpoint_status: Vec<RequestCount>,
    pub rate_limit_counts_by_client: Vec<ClientRateLimitCount>,
}

/// The report as mathematical values.
pub struct ReportView {
    pub total_line_count: nat,
    pub processed_line_count: nat,
    pub valid_request_count: nat,
    pub malformed_input_count: nat,
    pub ignored_blank_line_count: nat,
    pub client_bucket_rate_limit_violation_count: nat,
    pub rate_limit_excess_request_count: nat,
    pub rate_limit_violating_clients: Seq<Seq<char>>,
    pub request_counts_by_client_endpoint_status: Seq<(GroupKey, nat)>,
    pub rate_limit_counts_by_client: Seq<(Seq<char>, nat, nat)>,
}

impl View for Report {
    type V = ReportView;

    open spec fn view(&self) -> ReportView {
        ReportView {
            total_line_count: self.total_line_count as nat,
            processed_line_count: self.processed_line_count as nat,
            valid_request_count: self.valid_request_count as nat,
            malformed_input_count: self.malformed_input_count as nat,
            ignored_blank_line_count: self.ignored_blank_line_count as nat,
            client_bucket_rate_limit_violation_count: self.client_bucket_rate_limit_violation_count as nat,
            rate_limit_excess_request_count: self.rate_limit_excess_request_count as nat,
            rate_limit_violating_clients: client_ids_view(self.rate_limit_violating_clients@),
            request_counts_by_client_endpoint_status: request_counts_view(
                self.request_counts_by_client_endpoint_status@,
            ),
            rate_limit_counts_by_client: rate_counts_view(self.rate_limit_counts_by_client@),
        }
    }
}

// ---------------------------------------------------------------------------
// The accumulator
// ---------------------------------------------------------------------------

/// What an accumulator has seen: its line counters and the valid records, in
/// the order they came.
pub struct AccumulatorView {
    pub total_line_count: nat,
    pub processed_line_count: nat,
    pub valid_request_count: nat,
    pub malformed_input_count: nat,
    pub ignored_blank_line_count: nat,
    pub records: Seq<RecordView>,
}

/// The report of what an accumulator has seen: its counters as they stand,
/// the traffic cube of its records, the clients with violating buckets, and
/// the violation and excess totals.
pub open spec fn report_describes(r: ReportView, acc: AccumulatorView) -> bool {
    let buckets = bucket_tally(acc.records);
    &&& r.total_line_count == acc.total_line_count
    &&& r.processed_line_count == acc.processed_line_count
    &&& r.valid_request_count == acc.valid_request_count
    &&& r.malformed_input_count == acc.malformed_input_count
    &&& r.ignored_blank_line_count == acc.ignored_blank_line_count
    &&& r.request_counts_by_client_endpoint_status == request_tally(acc.records)
    &&& rate_counts_describe(r.rate_limit_counts_by_client, buckets)
    &&& r.rate_limit_violating_clients == rc_keys(r.rate_limit_counts_by_client)
    &&& r.client_bucket_rate_limit_violation_count == total_violations(buckets)
    &&& r.rate_limit_excess_request_count == total_excess(buckets)
}

/// Streaming accumulator that folds each line into the running aggregates.
pub struct ReportAccumulator {
    total_line_count: u64,
    processed_line_count: u64,
    valid_request_count: u64,
    malformed_input_count: u64,
    ignored_blank_line_count: u64,
    request_counts: Vec<RequestCount>,
    bucket_counts: Vec<BucketCount>,
    records: Ghost<Seq<RecordView>>,
}

impl View for ReportAccumulator {
    type V = AccumulatorView;

    closed spec fn view(&self) -> AccumulatorView {
        AccumulatorView {
            total_line_count: self.total_line_count as nat,
            processed_line_count: self.processed_line_count as nat,
            valid_request_count: self.valid_request_count as nat,
            malformed_input_count: self.malformed_input_count as nat,
            ignored_blank_line_count: self.ignored_blank_line_count as nat,
            records: self.records@,
        }
    }
}

/// Compares the key of a traffic-cube row with the key of a record.
fn compare_group(row: &RequestCount, record: &RequestRecord) -> (r: Comparison)
    ensures
        match r {
            Comparison::Less => group_less(row@.0, group_key(record@)),
            Comparison::Equal => row@.0 == group_key(record@),
            Comparison::Greater => group_less(group_key(record@), row@.0),
        },
{
    match compare_text(row.client_id.as_str(), record.client_id.as_str()) {
        Comparison::Less => Comparison::Less,
        Comparison::Greater => Comparison::Greater,
        Comparison::Equal => match compare_text(row.endpoint.as_str(), record.endpoint.as_str()) {
            Comparison::Less => Comparison::Less,
            Comparison::Greater => Comparison::Greater,
            Comparison::Equal => {
                let a = row.status_code.code();
                let b = record.status_code.code();
                if a < b {
                    Comparison::Less
                } else if a == b {
                    Comparison::Equal
                } else {
                    Comparison::Greater
                }
            },
        },
    }
}

/// Adds one request of the record's group to the traffic cube.
fn tally_request(rows: &mut Vec<RequestCount>, record: &RequestRecord)
    requires
        tally_sorted(request_counts_view(old(rows)@), group_order()),
        tally_sum(request_counts_view(old(rows)@)) < u64::MAX,
    ensures
        request_counts_view(final(rows)@) == tally_insert(
            request_counts_view(old(rows)@),
            group_key(record@),
            group_order(),
        ),
{
    let ghost s = request_counts_view(rows@);
    let ghost k = group_key(record@);
    let ghost less = group_order();
    proof {
        lemma_group_order();
    }
    let mut lo: usize = 0;
    let mut hi: usize = rows.len();
    while lo < hi
        invariant
            s == request_counts_view(rows@),
            k == group_key(record@),
            less == group_order(),
            is_strict_total_order(less),
            tally_sorted(s, less),
            lo <= hi <= rows.len(),
            forall|j: int| 0 <= j < lo ==> less(#[trigger] s[j].0, k),
            forall|j: int| hi <= j < s.len() ==> !less(#[trigger] s[j].0, k),
        decreases hi - lo,
    {
        let mid = lo + (hi - lo) / 2;
        assert(s[mid as int] == rows@[mid as int]@);
        match compare_group(&rows[mid], record) {
            Comparison::Less => {
                proof {
                    lemma_search_below(s, k, less, lo as int, mid as int);
                }
                lo = mid + 1;
            },
            other => {
                proof {
                    if let Comparison::Greater = other {
                        assert(less(k, s[mid as int].0));
                        if less(s[mid as int].0, k) {
                            assert(less(k, k));
                        }
                    }
                    lemma_search_above(s, k, less, mid as int, hi as int);
                }
                hi = mid;
            },
        }
    }
    let i = lo;
    let found = if i < rows.len() {
        assert(s[i as int] == rows@[i as int]@);
        if let Comparison::Equal = compare_group(&rows[i], record) {
            true
        } else {
            false
        }
    } else {
        false
    };
    proof {
        lemma_insert_at(s, k, less, i as int);
    }
    if found {
        proof {
            lemma_count_le_sum(s, i as int);
        }
        rows[i].request_count = rows[i].request_count + 1;
    } else {
        let row = RequestCount {
            client_id: record.client_id.clone(),
            endpoint: record.endpoint.clone(),
            status_code: record.status_code,
            request_count: 1,
        };
        rows.insert(i, row);
    }
    assert(request_counts_view(rows@) =~= tally_insert(s, k, less));
}

/// Compares the key of a bucket row with the bucket key of a record.
fn compare_bucket(row: &BucketCount, record: &RequestRecord) -> (r: Comparison)
    ensures
        match r {
            Comparison::Less => bucket_less(row@.0, bucket_key(record@)),
            Comparison::Equal => row@.0 == bucket_key(record@),
            Comparison::Greater => bucket_less(bucket_key(record@), row@.0),
        },
{
    match compare_text(row.client_id.as_str(), record.client_id.as_str()) {
        Comparison::Less => Comparison::Less,
        Comparison::Greater => Comparison::Greater,
        Comparison::Equal => {
            if row.bucket < record.bucket {
                Comparison::Less
            } else if row.bucket == record.bucket {
                Comparison::Equal
            } else {
                Comparison::Greater
            }
        },
    }
}

/// Adds one request to the record's client bucket.
fn tally_bucket(rows: &mut Vec<BucketCount>, record: &RequestRecord)
    requires
        tally_sorted(bucket_counts_view(old(rows)@), bucket_order()),
        tally_sum(bucket_counts_view(old(rows)@)) < u64::MAX,
    ensures
        bucket_counts_view(final(rows)@) == tally_insert(
            bucket_counts_view(old(rows)@),
            bucket_key(record@),
            bucket_order(),
        ),
{
    let ghost s = bucket_counts_view(rows@);
    let ghost k = bucket_key(record@);
    let ghost less = bucket_order();
    proof {
        lemma_bucket_order();
    }
    let mut lo: usize = 0;
    let mut hi: usize = rows.len();
    while lo < hi
        invariant
            s == bucket_counts_view(rows@),
            k == bucket_key(record@),
            less == bucket_order(),
            is_strict_total_order(less),
            tally_sorted(s, less),
            lo <= hi <= rows.len(),
            forall|j: int| 0 <= j < lo ==> less(#[trigger] s[j].0, k),
            forall|j: int| hi <= j < s.len() ==> !less(#[trigger] s[j].0, k),
        decreases hi - lo,
    {
        let mid = lo + (hi - lo) / 2;
        assert(s[mid as int] == rows@[mid as int]@);
        match compare_bucket(&rows[mid], record) {
            Comparison::Less => {
                proof {
                    lemma_search_below(s, k, less, lo as int, mid as int);
                }
                lo = mid + 1;
            },
            other => {
                proof {
                    if let Comparison::Greater = other {
                        assert(less(k, s[mid as int].0));
                        if less(s[mid as int].0, k) {
                            assert(less(k, k));
                        }
                    }
                    lemma_search_above(s, k, less, mid as int, hi as int);
                }
                hi = mid;
            },
        }
    }
    let i = lo;
    let found = if i < rows.len() {
        assert(s[i as int] == rows@[i as int]@);
        if let Comparison::Equal = compare_bucket(&rows[i], record) {
            true
        } else {
            false
        }
    } else {
        false
    };
    proof {
        lemma_insert_at(s, k, less, i as int);
    }
    if found {
        proof {
            lemma_count_le_sum(s, i as int);
        }
        rows[i].count = rows[i].count + 1;
    } else {
        let row = BucketCount { client_id: record.client_id.clone(), bucket: record.bucket, count: 1 };
        rows.insert(i, row);
    }
    assert(bucket_counts_view(rows@) =~= tally_insert(s, k, less));
}

impl ReportAccumulator {
    /// The accumulator's internal invariant: the processed lines are the valid
    /// and the malformed ones, and the two tallies are those of the records.
    pub closed spec fn wf(&self) -> bool {
        &&& self.processed_line_count == self.valid_request_count + self.malformed_input_count
        &&& self.valid_request_count == self.records@.len()
        &&& request_counts_view(self.request_counts@) == request_tally(self.records@)
        &&& bucket_counts_view(self.bucket_counts@) == bucket_tally(self.records@)
    }

    pub fn new() -> (r: Self)
        ensures
            r.wf(),
            r@ == (AccumulatorView {
                total_line_count: 0,
                processed_line_count: 0,
                valid_request_count: 0,
                malformed_input_count: 0,
                ignored_blank_line_count: 0,
                records: Seq::empty(),
            }),
    {
        let r = ReportAccumulator {
            total_line_count: 0,
            processed_line_count: 0,
            valid_request_count: 0,
            malformed_input_count: 0,
            ignored_blank_line_count: 0,
            request_counts: Vec::new(),
            bucket_counts: Vec::new(),
            records: Ghost(Seq::empty()),
        };
        assert(request_counts_view(r.request_counts@) =~= request_tally(r.records@));
        assert(bucket_counts_view(r.bucket_counts@) =~= bucket_tally(r.records@));
        r
    }

    /// The number of lines counted so far.
    pub fn total_line_count(&self) -> (r: u64)
        ensures
            r == self@.total_line_count,
    {
        self.total_line_count
    }

    /// The number of nonblank lines processed so far.
    pub fn processed_line_count(&self) -> (r: u64)
        ensures
            r == self@.processed_line_count,
    {
        self.processed_line_count
    }

    /// The number of valid requests counted so far.
    pub fn valid_request_count(&self) -> (r: u64)
        ensures
            r == self@.valid_request_count,
    {
        self.valid_request_count
    }

    /// The number of malformed lines counted so far.
    pub fn malformed_input_count(&self) -> (r: u64)
        ensures
            r == self@.malformed_input_count,
    {
        self.malformed_input_count
    }

    /// The number of blank lines ignored so far.
    pub fn ignored_blank_line_count(&self) -> (r: u64)
        ensures
            r == self@.ignored_blank_line_count,
    {
        self.ignored_blank_line_count
    }

    /// Counts one more input line.
    pub fn received_line(&mut self)
        requires
            old(self).wf(),
            old(self)@.total_line_count < u64::MAX,
        ensures
            final(self).wf(),
            final(self)@ == (AccumulatorView {
                total_line_count: old(self)@.total_line_count + 1,
                ..old(self)@
            }),
    {
        self.total_line_count = self.total_line_count + 1;
    }

    /// Counts one more blank line.
    pub fn received_blank_line(&mut self)
        requires
            old(self).wf(),
            old(self)@.ignored_blank_line_count < u64::MAX,
        ensures
            final(self).wf(),
            final(self)@ == (AccumulatorView {
                ignored_blank_line_count: old(self)@.ignored_blank_line_count + 1,
                ..old(self)@
            }),
    {
        self.ignored_blank_line_count = self.ignored_blank_line_count + 1;
    }

    /// Counts one more malformed line, which is also a processed line.
    pub fn received_malformed_input(&mut self)
        requires
            old(self).wf(),
            old(self)@.processed_line_count < u64::MAX,
        ensures
            final(self).wf(),
            final(self)@ == (AccumulatorView {
                processed_line_count: old(self)@.processed_line_count + 1,
                malformed_input_count: old(self)@.malformed_input_count + 1,
                ..old(self)@
            }),
    {
        self.processed_line_count = self.processed_line_count + 1;
        self.malformed_input_count = self.malformed_input_count + 1;
    }
    /// Counts one more valid request, a processed line too, and adds it to
    /// the traffic cube and to its client bucket.
    pub fn add_request(&mut self, record: RequestRecord)
        requires
            old(self).wf(),
            old(self)@.processed_line_count < u64::MAX,
        ensures
            final(self).wf(),
            final(self)@ == (AccumulatorView {
                processed_line_count: old(self)@.processed_line_count + 1,
                valid_request_count: old(self)@.valid_request_count + 1,
                records: old(self)@.records.push(record@),
                ..old(self)@
            }),
    {
        let ghost records = self.records@;
        let ghost new_records = records.push(record@);
        proof {
            lemma_group_order();
            lemma_bucket_order();
            lemma_tally_of(records.map_values(|r: RecordView| group_key(r)), group_order());
            lemma_tally_of(records.map_values(|r: RecordView| bucket_key(r)), bucket_order());
            assert(new_records.map_values(|r: RecordView| group_key(r)).drop_last() =~= records.map_values(
                |r: RecordView| group_key(r),
            ));
            assert(new_records.map_values(|r: RecordView| bucket_key(r)).drop_last() =~= records.map_values(
                |r: RecordView| bucket_key(r),
            ));
        }
        tally_request(&mut self.request_counts, &record);
        tally_bucket(&mut self.bucket_counts, &record);
        self.processed_line_count = self.processed_line_count + 1;
        self.valid_request_count = self.valid_request_count + 1;
        self.records = Ghost(new_records);
    }
    /// Reduces the accumulated counts into the report: the traffic cube in
    /// ascending key order, the clients with violating buckets in ascending
    /// order with their violation and excess counts, and the totals.
    pub fn finish(self) -> (report: Report)
        requires
            self.wf(),
        ensures
            report_describes(report@, self@),
            report@.client_bucket_rate_limit_violation_count == rows_violation_sum(
                report@.rate_limit_counts_by_client,
            ),
            report@.rate_limit_excess_request_count == rows_excess_sum(
                report@.rate_limit_counts_by_client,
            ),
    {
        let ghost records = self.records@;
        let ghost bt = bucket_counts_view(self.bucket_counts@);
        proof {
            lemma_bucket_order();
            lemma_tally_of(records.map_values(|r: RecordView| bucket_key(r)), bucket_order());
            assert(usize::MAX <= u64::MAX);
        }
        let buckets = self.bucket_counts;
        let mut rc: Vec<ClientRateLimitCount> = Vec::new();
        let mut clients: Vec<ClientId> = Vec::new();
        let mut violations: u64 = 0;
        let mut excess: u64 = 0;
        proof {
            lemma_rate_pass_start(bt);
            assert(rate_counts_view(rc@) =~= Seq::empty());
            assert(client_ids_view(clients@) =~= Seq::empty());
        }
        let mut i: usize = 0;
        while i < buckets.len()
            invariant
                bt == bucket_counts_view(buckets@),
                tally_sorted(bt, bucket_order()),
                tally_sum(bt) <= u64::MAX,
                usize::MAX <= u64::MAX,
                rate_pass_state(
                    rate_counts_view(rc@),
                    client_ids_view(clients@),
                    violations as nat,
                    excess as nat,
                    bt,
                    i as int,
                ),
            decreases buckets.len() - i,
        {
            let ghost rcv = rate_counts_view(rc@);
            let ghost cv = client_ids_view(clients@);
            let ghost t1 = bt.take(i + 1);
            assert(bt[i as int] == buckets@[i as int]@);
            let row = &buckets[i];
            if row.count > REQUESTS_PER_BUCKET {
                let over = row.count - REQUESTS_PER_BUCKET;
                proof {
                    assert(t1.drop_last() =~= bt.take(i as int));
                    assert(t1.last() == bt[i as int]);
                    lemma_rate_bounds(t1, row.client_id@);
                    lemma_prefix_sum(bt, i + 1);
                }
                let n = rc.len();
                let same = if n > 0 {
                    if let Comparison::Equal = compare_text(
                        rc[n - 1].client_id.as_str(),
                        row.client_id.as_str(),
                    ) {
                        true
                    } else {
                        false
                    }
                } else {
                    false
                };
                if same {
                    proof {
                        assert(rcv[n - 1] == rc@[n - 1]@);
                        lemma_rate_pass_same(rcv, cv, violations as nat, excess as nat, bt, i as int);
                        lemma_rate_bounds(bt.take(i as int), row.client_id@);
                    }
                    rc[n - 1].client_bucket_rate_limit_violation_count = rc[n
                        - 1].client_bucket_rate_limit_violation_count + 1;
                    rc[n - 1].rate_limit_excess_request_count = rc[n - 1].rate_limit_excess_request_count
                        + over;
                    assert(rate_counts_view(rc@) =~= rcv.update(
                        rcv.len() - 1,
                        (rcv.last().0, rcv.last().1 + 1, rcv.last().2 + excess_of(bt[i as int].1)),
                    ));
                } else {
                    proof {
                        if n > 0 {
                            assert(rcv[n - 1] == rc@[n - 1]@);
                        }
                        lemma_rate_pass_new(rcv, cv, violations as nat, excess as nat, bt, i as int);
                    }
                    rc.push(
                        ClientRateLimitCount {
                            client_id: row.client_id.clone(),
                            client_bucket_rate_limit_violation_count: 1,
                            rate_limit_excess_request_count: over,
                        },
                    );
                    clients.push(row.client_id.clone());
                    assert(rate_counts_view(rc@) =~= rcv.push(
                        (bt[i as int].0.client_id, 1, excess_of(bt[i as int].1)),
                    ));
                    assert(client_ids_view(clients@) =~= cv.push(bt[i as int].0.client_id));
                }
                violations = violations + 1;
                excess = excess + over;
            } else {
                proof {
                    lemma_rate_pass_quiet(rcv, cv, violations as nat, excess as nat, bt, i as int);
                }
            }
            i = i + 1;
        }
        assert(bt.take(bt.len() as int) =~= bt);
        Report {
            total_line_count: self.total_line_count,
            processed_line_count: self.processed_line_count,
            valid_request_count: self.valid_request_count,
            malformed_input_count: self.malformed_input_count,
            ignored_blank_line_count: self.ignored_blank_line_count,
            client_bucket_rate_limit_violation_count: violations,
            rate_limit_excess_request_count: excess,
            rate_limit_violating_clients: clients,
            request_counts_by_client_endpoint_status: self.request_counts,
            rate_limit_counts_by_client: rc,
        }
    }
}

} // verus!
