//! Properties of the report that hold for every input.

use vstd::prelude::*;

use crate::aggregate::{report_describes, AccumulatorView, ReportView};
use crate::keys::{
    bucket_key, bucket_order, bucket_tally, group_key, group_order, lemma_bucket_order,
    lemma_group_order, request_tally, BucketKey, GroupKey,
};
use crate::rate_limit::{client_excess, client_violations, excess_of};
use crate::record::{
    bucket_of, check_members_spec, is_blank_line, lemma_member_value_at, member_value,
    parse_record, RecordView,
};
use crate::report::{
    after_line, after_lines, empty_view, first_terminator, input_lines, LINE_TERMINATOR,
};
use crate::order::{bytes_less, lemma_text_strict_order, text_order};
use crate::record::{json_object_members, timestamp_unix_seconds};
use crate::timestamp::{
    digits_at, is_ascii_digit, lemma_digit_run_end, lemma_digit_run_end_at,
    lemma_form_seconds_range, rfc3339_form_seconds, two_digits, zone_start,
};
use vstd::utf8::encode_utf8;
use crate::tally::{
    lemma_sorted_unique, lemma_tally_of, lemma_tally_of_swap, occurrences, sorted_by_key,
    tally_count, tally_positive, tally_sorted, tally_sum,
};

verus! {

/// The line counters agree with one another and with the records.
pub open spec fn counters_consistent(acc: AccumulatorView) -> bool {
    &&& acc.total_line_count == acc.processed_line_count + acc.ignored_blank_line_count
    &&& acc.processed_line_count == acc.valid_request_count + acc.malformed_input_count
    &&& acc.valid_request_count == acc.records.len()
}

proof fn lemma_after_lines_consistent(acc: AccumulatorView, lines: Seq<Seq<u8>>)
    requires
        counters_consistent(acc),
    ensures
        counters_consistent(after_lines(acc, lines)),
        after_lines(acc, lines).total_line_count == acc.total_line_count + lines.len(),
    decreases lines.len(),
{
    if lines.len() > 0 {
        lemma_after_lines_consistent(after_line(acc, lines[0]), lines.drop_first());
    }
}

/// Line accounting: every physical line is counted once; a counted line is
/// either processed or ignored as blank; a processed line is either a valid
/// request or malformed input; and the traffic cube counts every valid
/// request once.
pub proof fn law_line_accounting(input: Seq<u8>, r: ReportView)
    requires
        report_describes(r, after_lines(empty_view(), input_lines(input))),
    ensures
        r.total_line_count == input_lines(input).len(),
        r.total_line_count == r.processed_line_count + r.ignored_blank_line_count,
        r.processed_line_count == r.valid_request_count + r.malformed_input_count,
        tally_sum(r.request_counts_by_client_endpoint_status) == r.valid_request_count,
{
    let acc = after_lines(empty_view(), input_lines(input));
    lemma_after_lines_consistent(empty_view(), input_lines(input));
    lemma_group_order();
    lemma_tally_of(acc.records.map_values(|x: RecordView| group_key(x)), group_order());
}

/// The traffic cube lists each (client, endpoint, status) group once, in
/// ascending order, with the number of valid records of that group; a group
/// without records is absent.
pub proof fn law_traffic_cube(acc: AccumulatorView, r: ReportView, k: GroupKey)
    requires
        report_describes(r, acc),
    ensures
        tally_sorted(r.request_counts_by_client_endpoint_status, group_order()),
        tally_positive(r.request_counts_by_client_endpoint_status),
        tally_count(r.request_counts_by_client_endpoint_status, k) == occurrences(
            acc.records.map_values(|x: RecordView| group_key(x)),
            k,
        ),
{
    lemma_group_order();
    lemma_tally_of(acc.records.map_values(|x: RecordView| group_key(x)), group_order());
}

/// A client's rate limit covers all of its traffic: the count of a client
/// bucket is the number of that client's valid records in the bucket, over
/// every endpoint and status code.
pub proof fn law_client_bucket_counts(acc: AccumulatorView, k: BucketKey)
    ensures
        tally_sorted(bucket_tally(acc.records), bucket_order()),
        tally_positive(bucket_tally(acc.records)),
        tally_count(bucket_tally(acc.records), k) == occurrences(
            acc.records.map_values(|x: RecordView| bucket_key(x)),
            k,
        ),
{
    lemma_bucket_order();
    lemma_tally_of(acc.records.map_values(|x: RecordView| bucket_key(x)), bucket_order());
}

proof fn lemma_excess_covers_violations(s: Seq<(BucketKey, nat)>, c: Seq<char>)
    ensures
        client_violations(s, c) <= client_excess(s, c),
    decreases s.len(),
{
    if s.len() > 0 {
        lemma_excess_covers_violations(s.drop_last(), c);
    }
}

/// Each client that the rate-limit summary lists has at least one violating
/// bucket, and at least one excess request for each violating bucket.
pub proof fn law_rate_limit_rows(acc: AccumulatorView, r: ReportView, i: int)
    requires
        report_describes(r, acc),
        0 <= i < r.rate_limit_counts_by_client.len(),
    ensures
        1 <= r.rate_limit_counts_by_client[i].1 <= r.rate_limit_counts_by_client[i].2,
        r.rate_limit_violating_clients[i] == r.rate_limit_counts_by_client[i].0,
{
    let rc = r.rate_limit_counts_by_client;
    let bt = bucket_tally(acc.records);
    assert(client_violations(bt, rc[i].0) > 0);
    lemma_excess_covers_violations(bt, rc[i].0);
}

/// A bucket is violating when it holds more than five requests, and its
/// excess is the number of requests above five.
pub proof fn law_excess_of_bucket(count: nat)
    ensures
        excess_of(count) > 0 <==> count > 5,
        count > 5 ==> excess_of(count) == count - 5,
        count <= 5 ==> excess_of(count) == 0,
{
}

/// A client has a violating bucket exactly when one of its buckets holds
/// more than five requests.
pub proof fn law_violating_client(s: Seq<(BucketKey, nat)>, c: Seq<char>)
    ensures
        client_violations(s, c) > 0 <==> exists|i: int|
            0 <= i < s.len() && (#[trigger] s[i]).0.client_id == c && s[i].1 > 5,
    decreases s.len(),
{
    if s.len() > 0 {
        let d = s.drop_last();
        law_violating_client(d, c);
        if exists|i: int| 0 <= i < d.len() && (#[trigger] d[i]).0.client_id == c && d[i].1 > 5 {
            let i = choose|i: int| 0 <= i < d.len() && (#[trigger] d[i]).0.client_id == c && d[i].1
                > 5;
            assert(s[i] == d[i]);
        }
        if exists|i: int| 0 <= i < s.len() && (#[trigger] s[i]).0.client_id == c && s[i].1 > 5 {
            let i = choose|i: int| 0 <= i < s.len() && (#[trigger] s[i]).0.client_id == c && s[i].1
                > 5;
            if i < s.len() - 1 {
                assert(d[i] == s[i]);
            }
        }
    }
}

/// Buckets are aligned to UTC: each holds the ten seconds from a multiple of
/// ten, its start included and its end excluded.
pub proof fn law_bucket_alignment(unix_seconds: i64)
    ensures
        bucket_of(unix_seconds) * 10 <= unix_seconds < bucket_of(unix_seconds) * 10 + 10,
{
}

/// A valid record has a nonempty client id and endpoint and a status code
/// from 100 to 599.
pub proof fn law_record_fields(line: Seq<u8>)
    ensures
        parse_record(line) matches Some(record) ==> {
            &&& record.client_id.len() > 0
            &&& record.endpoint.len() > 0
            &&& 100 <= record.status_code <= 599
        },
{
}

/// A single final line terminator makes no extra line; a terminator after
/// another one (or at the very start) makes one more, empty, line.
pub proof fn law_final_terminator(s: Seq<u8>)
    ensures
        input_lines(s.push(LINE_TERMINATOR)) == if s.len() == 0 || s.last() == LINE_TERMINATOR {
            input_lines(s).push(Seq::empty())
        } else {
            input_lines(s)
        },
    decreases s.len(),
{
    let t = s.push(LINE_TERMINATOR);
    let p = first_terminator(s);
    lemma_first_terminator_bound(s);
    if s.len() == 0 {
        lemma_first_terminator_zero(t);
        assert(t.take(0) =~= Seq::<u8>::empty());
        assert(t.skip(1).len() == 0);
        assert(input_lines(t.skip(1)) == Seq::<Seq<u8>>::empty());
        assert(input_lines(t) =~= seq![Seq::<u8>::empty()]);
        assert(input_lines(s).push(Seq::empty()) =~= seq![Seq::<u8>::empty()]);
    } else if p >= s.len() {
        lemma_first_terminator_extend(s);
        assert(t.take(s.len() as int) =~= s);
        assert(t.skip(s.len() + 1 as int).len() == 0);
        assert(input_lines(t.skip(s.len() + 1 as int)) == Seq::<Seq<u8>>::empty());
        assert(input_lines(t) =~= seq![s]);
        if s.last() == LINE_TERMINATOR {
            lemma_terminator_found(s, s.len() - 1);
        }
    } else {
        lemma_first_terminator_prefix(s);
        let rest = s.skip(p + 1 as int);
        assert(t.take(p as int) =~= s.take(p as int));
        assert(t.skip(p + 1 as int) =~= rest.push(LINE_TERMINATOR));
        law_final_terminator(rest);
        if rest.len() > 0 {
            assert(rest.last() == s.last());
        } else {
            assert(s.last() == s[p as int]);
        }
        let head = seq![s.take(p as int)];
        assert((head + input_lines(rest)).push(Seq::empty()) =~= head + input_lines(rest).push(
            Seq::empty(),
        ));
    }
}

proof fn lemma_first_terminator_bound(s: Seq<u8>)
    ensures
        first_terminator(s) <= s.len(),
        first_terminator(s) < s.len() ==> s[first_terminator(s) as int] == LINE_TERMINATOR,
        forall|m: int| 0 <= m < first_terminator(s) ==> s[m] != LINE_TERMINATOR,
    decreases s.len(),
{
    if s.len() > 0 && s[0] != LINE_TERMINATOR {
        lemma_first_terminator_bound(s.drop_first());
        assert forall|m: int| 0 <= m < first_terminator(s) implies s[m] != LINE_TERMINATOR by {
            if m > 0 {
                assert(s[m] == s.drop_first()[m - 1]);
            }
        }
    }
}

proof fn lemma_first_terminator_zero(t: Seq<u8>)
    requires
        t.len() > 0,
        t[0] == LINE_TERMINATOR,
    ensures
        first_terminator(t) == 0,
{
}

proof fn lemma_terminator_found(s: Seq<u8>, m: int)
    requires
        0 <= m < s.len(),
        s[m] == LINE_TERMINATOR,
    ensures
        first_terminator(s) <= m,
{
    lemma_first_terminator_bound(s);
}

proof fn lemma_first_terminator_extend(s: Seq<u8>)
    requires
        first_terminator(s) >= s.len(),
    ensures
        first_terminator(s.push(LINE_TERMINATOR)) == s.len(),
{
    lemma_first_terminator_bound(s);
    let t = s.push(LINE_TERMINATOR);
    lemma_first_terminator_bound(t);
    assert(t[s.len() as int] == LINE_TERMINATOR);
    if first_terminator(t) < s.len() {
        assert(t[first_terminator(t) as int] == s[first_terminator(t) as int]);
    }
}

proof fn lemma_first_terminator_prefix(s: Seq<u8>)
    requires
        first_terminator(s) < s.len(),
    ensures
        first_terminator(s.push(LINE_TERMINATOR)) == first_terminator(s),
{
    lemma_first_terminator_bound(s);
    let t = s.push(LINE_TERMINATOR);
    lemma_first_terminator_bound(t);
    let p = first_terminator(s);
    assert(t[p as int] == LINE_TERMINATOR);
    if first_terminator(t) < p {
        assert(t[first_terminator(t) as int] == s[first_terminator(t) as int]);
    }
}

/// The report of an accumulator is unique: two reports that both describe
/// what one accumulator has seen are the same report.
pub proof fn law_report_unique(acc: AccumulatorView, r1: ReportView, r2: ReportView)
    requires
        report_describes(r1, acc),
        report_describes(r2, acc),
    ensures
        r1 == r2,
{
    let bt = bucket_tally(acc.records);
    let rc1 = r1.rate_limit_counts_by_client;
    let rc2 = r2.rate_limit_counts_by_client;
    let key = |x: (Seq<char>, nat, nat)| x.0;
    lemma_text_strict_order();
    assert forall|x: (Seq<char>, nat, nat)| rc1.contains(x) <==> rc2.contains(x) by {
        if rc1.contains(x) {
            let i = choose|i: int| 0 <= i < rc1.len() && rc1[i] == x;
            assert(client_violations(bt, x.0) > 0);
            let j = choose|j: int| 0 <= j < rc2.len() && (#[trigger] rc2[j]).0 == x.0;
            assert(rc2[j] == x);
        }
        if rc2.contains(x) {
            let i = choose|i: int| 0 <= i < rc2.len() && rc2[i] == x;
            assert(client_violations(bt, x.0) > 0);
            let j = choose|j: int| 0 <= j < rc1.len() && (#[trigger] rc1[j]).0 == x.0;
            assert(rc1[j] == x);
        }
    }
    assert(sorted_by_key(rc1, key, text_order()));
    assert(sorted_by_key(rc2, key, text_order()));
    lemma_sorted_unique(rc1, rc2, key, text_order());
}

/// The report does not depend on the order in which valid records arrive:
/// swapping two neighbouring records (and so, step by step, any reordering)
/// gives the same report.
pub proof fn law_record_order_irrelevant(
    acc1: AccumulatorView,
    acc2: AccumulatorView,
    p: Seq<RecordView>,
    a: RecordView,
    b: RecordView,
    q: Seq<RecordView>,
    r1: ReportView,
    r2: ReportView,
)
    requires
        acc1.records == p + seq![a, b] + q,
        acc2 == (AccumulatorView { records: p + seq![b, a] + q, ..acc1 }),
        report_describes(r1, acc1),
        report_describes(r2, acc2),
    ensures
        r1 == r2,
{
    let g = |x: RecordView| group_key(x);
    let h = |x: RecordView| bucket_key(x);
    assert(acc1.records.map_values(g) =~= p.map_values(g) + seq![g(a), g(b)] + q.map_values(g));
    assert(acc2.records.map_values(g) =~= p.map_values(g) + seq![g(b), g(a)] + q.map_values(g));
    assert(acc1.records.map_values(h) =~= p.map_values(h) + seq![h(a), h(b)] + q.map_values(h));
    assert(acc2.records.map_values(h) =~= p.map_values(h) + seq![h(b), h(a)] + q.map_values(h));
    lemma_group_order();
    lemma_bucket_order();
    lemma_tally_of_swap(p.map_values(g), g(a), g(b), q.map_values(g), group_order());
    lemma_tally_of_swap(p.map_values(h), h(a), h(b), q.map_values(h), bucket_order());
    assert(request_tally(acc1.records) == request_tally(acc2.records));
    assert(bucket_tally(acc1.records) == bucket_tally(acc2.records));
    assert(report_describes(r2, acc1));
    law_report_unique(acc1, r1, r2);
}

/// Two accumulator views taken together: counters added, records in order.
pub open spec fn combine(a: AccumulatorView, b: AccumulatorView) -> AccumulatorView {
    AccumulatorView {
        total_line_count: a.total_line_count + b.total_line_count,
        processed_line_count: a.processed_line_count + b.processed_line_count,
        valid_request_count: a.valid_request_count + b.valid_request_count,
        malformed_input_count: a.malformed_input_count + b.malformed_input_count,
        ignored_blank_line_count: a.ignored_blank_line_count + b.ignored_blank_line_count,
        records: a.records + b.records,
    }
}

proof fn lemma_after_line_combine(acc: AccumulatorView, line: Seq<u8>)
    ensures
        after_line(acc, line) == combine(acc, after_line(empty_view(), line)),
        after_line(empty_view(), line).records.len() <= 1,
{
    let e = after_line(empty_view(), line);
    assert(after_line(acc, line).records =~= acc.records + e.records);
}

proof fn lemma_combine_assoc(a: AccumulatorView, b: AccumulatorView, c: AccumulatorView)
    ensures
        combine(combine(a, b), c) == combine(a, combine(b, c)),
{
    assert(combine(combine(a, b), c).records =~= combine(a, combine(b, c)).records);
}

/// What lines do to an accumulator is what they do to an empty one, added on.
proof fn lemma_after_lines_combine(acc: AccumulatorView, lines: Seq<Seq<u8>>)
    ensures
        after_lines(acc, lines) == combine(acc, after_lines(empty_view(), lines)),
    decreases lines.len(),
{
    if lines.len() == 0 {
        assert(combine(acc, empty_view()).records =~= acc.records);
    } else {
        let e1 = after_line(empty_view(), lines[0]);
        let rest = lines.drop_first();
        lemma_after_line_combine(acc, lines[0]);
        lemma_after_lines_combine(after_line(acc, lines[0]), rest);
        lemma_after_lines_combine(e1, rest);
        lemma_combine_assoc(acc, e1, after_lines(empty_view(), rest));
    }
}

proof fn lemma_after_lines_append(acc: AccumulatorView, x: Seq<Seq<u8>>, y: Seq<Seq<u8>>)
    ensures
        after_lines(acc, x + y) == after_lines(after_lines(acc, x), y),
    decreases x.len(),
{
    if x.len() == 0 {
        assert(x + y =~= y);
    } else {
        assert((x + y)[0] == x[0]);
        assert((x + y).drop_first() =~= x.drop_first() + y);
        lemma_after_lines_append(after_line(acc, x[0]), x.drop_first(), y);
    }
}

/// The report does not depend on the order of the input's lines: swapping
/// two neighbouring lines (and so, step by step, any reordering of the lines)
/// gives the same report.
pub proof fn law_line_order_irrelevant(
    p: Seq<Seq<u8>>,
    x: Seq<u8>,
    y: Seq<u8>,
    q: Seq<Seq<u8>>,
    r1: ReportView,
    r2: ReportView,
)
    requires
        report_describes(r1, after_lines(empty_view(), p + seq![x, y] + q)),
        report_describes(r2, after_lines(empty_view(), p + seq![y, x] + q)),
    ensures
        r1 == r2,
{
    let a = after_lines(empty_view(), p);
    let ex = after_line(empty_view(), x);
    let ey = after_line(empty_view(), y);
    let eq = after_lines(empty_view(), q);
    lemma_after_lines_append(empty_view(), p + seq![x, y], q);
    lemma_after_lines_append(empty_view(), p + seq![y, x], q);
    lemma_after_lines_append(empty_view(), p, seq![x, y]);
    lemma_after_lines_append(empty_view(), p, seq![y, x]);
    assert(seq![x, y].drop_first() =~= seq![y]);
    assert(seq![y].drop_first() =~= Seq::<Seq<u8>>::empty());
    assert(seq![y, x].drop_first() =~= seq![x]);
    assert(seq![x].drop_first() =~= Seq::<Seq<u8>>::empty());
    lemma_after_line_combine(a, x);
    lemma_after_line_combine(a, y);
    lemma_after_line_combine(combine(a, ex), y);
    lemma_after_line_combine(combine(a, ey), x);
    let b1 = combine(combine(a, ex), ey);
    let b2 = combine(combine(a, ey), ex);
    lemma_after_lines_combine(b1, q);
    lemma_after_lines_combine(b2, q);
    let f1 = combine(b1, eq);
    let f2 = combine(b2, eq);
    let e = Seq::<Seq<u8>>::empty();
    assert(after_lines(a, seq![x, y]) == after_lines(after_line(a, x), seq![y]));
    assert(after_lines(after_line(a, x), seq![y]) == after_lines(after_line(after_line(a, x), y), e));
    assert(after_lines(a, seq![y, x]) == after_lines(after_line(a, y), seq![x]));
    assert(after_lines(after_line(a, y), seq![x]) == after_lines(after_line(after_line(a, y), x), e));
    assert(after_lines(empty_view(), p + seq![x, y] + q) == after_lines(b1, q));
    assert(after_lines(empty_view(), p + seq![y, x] + q) == after_lines(b2, q));
    assert(report_describes(r1, f1));
    assert(report_describes(r2, f2));
    if ex.records.len() == 1 && ey.records.len() == 1 {
        let ra = ex.records[0];
        let rb = ey.records[0];
        assert(f1.records =~= a.records + seq![ra, rb] + eq.records);
        assert(f2.records =~= a.records + seq![rb, ra] + eq.records);
        assert(f2 == (AccumulatorView { records: a.records + seq![rb, ra] + eq.records, ..f1 }));
        law_record_order_irrelevant(f1, f2, a.records, ra, rb, eq.records, r1, r2);
    } else {
        assert(f1.records =~= f2.records);
        assert(f1 == f2);
        law_report_unique(f1, r1, r2);
    }
}

/// The number of blank lines among `lines`.
pub open spec fn blank_line_count(lines: Seq<Seq<u8>>) -> nat
    decreases lines.len(),
{
    if lines.len() == 0 {
        0
    } else {
        (if is_blank_line(lines[0]) {
            1nat
        } else {
            0nat
        }) + blank_line_count(lines.drop_first())
    }
}

/// Blank lines, whatever their length, are ignored and counted as blank; the
/// processed lines are exactly the nonblank ones.
pub proof fn law_blank_lines(input: Seq<u8>, r: ReportView)
    requires
        report_describes(r, after_lines(empty_view(), input_lines(input))),
    ensures
        r.ignored_blank_line_count == blank_line_count(input_lines(input)),
        r.processed_line_count == input_lines(input).len() - blank_line_count(input_lines(input)),
{
    lemma_blank_count(input_lines(input));
    law_line_accounting(input, r);
}

proof fn lemma_blank_count(lines: Seq<Seq<u8>>)
    ensures
        after_lines(empty_view(), lines).ignored_blank_line_count == blank_line_count(lines),
    decreases lines.len(),
{
    if lines.len() > 0 {
        let rest = lines.drop_first();
        lemma_blank_count(rest);
        lemma_after_lines_combine(after_line(empty_view(), lines[0]), rest);
    }
}

proof fn lemma_member_value_insert(
    members: Seq<(Seq<char>, Option<Seq<char>>, Option<u64>)>,
    i: int,
    extra: (Seq<char>, Option<Seq<char>>, Option<u64>),
    name: Seq<char>,
)
    requires
        0 <= i <= members.len(),
        extra.0 != name,
    ensures
        member_value(members.insert(i, extra), name) == member_value(members, name),
    decreases i,
{
    let m = members.insert(i, extra);
    if i == 0 {
        assert(m.drop_first() =~= members);
    } else {
        assert(m[0] == members[0]);
        assert(m.drop_first() =~= members.drop_first().insert(i - 1, extra));
        lemma_member_value_insert(members.drop_first(), i - 1, extra, name);
    }
}

/// Unknown extra members are accepted: a member whose name is none of the
/// five that a record needs, added anywhere, changes nothing the checks find.
pub proof fn law_extra_members_ignored(
    members: Seq<(Seq<char>, Option<Seq<char>>, Option<u64>)>,
    i: int,
    extra: (Seq<char>, Option<Seq<char>>, Option<u64>),
)
    requires
        0 <= i <= members.len(),
        extra.0 != "request_id"@,
        extra.0 != "timestamp"@,
        extra.0 != "client_id"@,
        extra.0 != "endpoint"@,
        extra.0 != "status_code"@,
    ensures
        check_members_spec(members.insert(i, extra)) == check_members_spec(members),
{
    lemma_member_value_insert(members, i, extra, "request_id"@);
    lemma_member_value_insert(members, i, extra, "timestamp"@);
    lemma_member_value_insert(members, i, extra, "client_id"@);
    lemma_member_value_insert(members, i, extra, "endpoint"@);
    lemma_member_value_insert(members, i, extra, "status_code"@);
}

/// `i` is the position of the first member of `m` called `name`.
pub open spec fn first_member_at(
    m: Seq<(Seq<char>, Option<Seq<char>>, Option<u64>)>,
    name: Seq<char>,
    i: int,
) -> bool {
    &&& 0 <= i < m.len()
    &&& m[i].0 == name
    &&& forall|j: int| 0 <= j < i ==> m[j].0 != name
}

proof fn lemma_member_value_found(
    m: Seq<(Seq<char>, Option<Seq<char>>, Option<u64>)>,
    name: Seq<char>,
)
    ensures
        member_value(m, name) matches Some(v) ==> exists|i: int|
            first_member_at(m, name, i) && v == (m[i].1, m[i].2),
        member_value(m, name) is None ==> forall|i: int| 0 <= i < m.len() ==> m[i].0 != name,
    decreases m.len(),
{
    if m.len() > 0 {
        let d = m.drop_first();
        lemma_member_value_found(d, name);
        if m[0].0 == name {
            assert(first_member_at(m, name, 0));
        } else {
            if member_value(d, name) is Some {
                let i = choose|i: int| first_member_at(d, name, i) && member_value(d, name)->0 == (
                d[i].1, d[i].2);
                assert forall|j: int| 0 <= j < i + 1 implies m[j].0 != name by {
                    if j > 0 {
                        assert(m[j] == d[j - 1]);
                    }
                }
                assert(first_member_at(m, name, i + 1));
            } else {
                assert forall|i: int| 0 <= i < m.len() implies m[i].0 != name by {
                    if i > 0 {
                        assert(m[i] == d[i - 1]);
                    }
                }
            }
        }
    }
}

/// A line's members pass the checks only if it has all five required
/// members, the first of each name being of the right kind: `request_id`,
/// `timestamp`, `client_id` and `endpoint` nonempty strings and `status_code`
/// an integer from 100 to 599; the checked fields are those members' values.
pub proof fn law_checked_members_are_present(m: Seq<(Seq<char>, Option<Seq<char>>, Option<u64>)>)
    ensures
        check_members_spec(m) matches Some(c) ==> {
            &&& exists|i: int|
                first_member_at(m, "request_id"@, i) && m[i].1 is Some && m[i].1->0.len() > 0
            &&& exists|i: int|
                first_member_at(m, "timestamp"@, i) && m[i].1 == Some(c.timestamp)
                    && c.timestamp.len() > 0
            &&& exists|i: int|
                first_member_at(m, "client_id"@, i) && m[i].1 == Some(c.client_id)
                    && c.client_id.len() > 0
            &&& exists|i: int|
                first_member_at(m, "endpoint"@, i) && m[i].1 == Some(c.endpoint)
                    && c.endpoint.len() > 0
            &&& exists|i: int|
                first_member_at(m, "status_code"@, i) && m[i].2 == Some(c.status_code as u64)
            &&& 100 <= c.status_code <= 599
        },
{
    lemma_member_value_found(m, "request_id"@);
    lemma_member_value_found(m, "timestamp"@);
    lemma_member_value_found(m, "client_id"@);
    lemma_member_value_found(m, "endpoint"@);
    lemma_member_value_found(m, "status_code"@);
}

/// Lines whose five required members (the first of each name) are of the
/// right kind pass the checks, with exactly those members' values.
pub proof fn law_checked_members_complete(
    m: Seq<(Seq<char>, Option<Seq<char>>, Option<u64>)>,
    ir: int,
    it: int,
    ic: int,
    ie: int,
    is: int,
    request_id: Seq<char>,
    timestamp: Seq<char>,
    client_id: Seq<char>,
    endpoint: Seq<char>,
    status: u64,
)
    requires
        first_member_at(m, "request_id"@, ir),
        first_member_at(m, "timestamp"@, it),
        first_member_at(m, "client_id"@, ic),
        first_member_at(m, "endpoint"@, ie),
        first_member_at(m, "status_code"@, is),
        m[ir].1 == Some(request_id),
        m[it].1 == Some(timestamp),
        m[ic].1 == Some(client_id),
        m[ie].1 == Some(endpoint),
        m[is].2 == Some(status),
        request_id.len() > 0,
        timestamp.len() > 0,
        client_id.len() > 0,
        endpoint.len() > 0,
        100 <= status <= 599,
    ensures
        check_members_spec(m) matches Some(c) && c.timestamp == timestamp && c.client_id
            == client_id && c.endpoint == endpoint && c.status_code as u64 == status,
{
    lemma_member_value_at(m, "request_id"@, ir);
    lemma_member_value_at(m, "timestamp"@, it);
    lemma_member_value_at(m, "client_id"@, ic);
    lemma_member_value_at(m, "endpoint"@, ie);
    lemma_member_value_at(m, "status_code"@, is);
}

/// `a` and `b` agree on their first `k` bytes, and there `a` ends while `b`
/// goes on, or `a`'s byte is the smaller.
pub open spec fn diverges_lower_at(a: Seq<u8>, b: Seq<u8>, k: int) -> bool {
    &&& 0 <= k <= a.len()
    &&& k <= b.len()
    &&& forall|j: int| 0 <= j < k ==> a[j] == b[j]
    &&& (k == a.len() && k < b.len()) || (k < a.len() && k < b.len() && a[k] < b[k])
}

proof fn lemma_diverges_lower_gives_less(a: Seq<u8>, b: Seq<u8>, k: int)
    requires
        diverges_lower_at(a, b, k),
    ensures
        bytes_less(a, b),
    decreases k,
{
    if k > 0 {
        assert(a[0] == b[0]);
        let da = a.drop_first();
        let db = b.drop_first();
        assert forall|j: int| 0 <= j < k - 1 implies da[j] == db[j] by {
            assert(a[j + 1] == b[j + 1]);
        }
        lemma_diverges_lower_gives_less(da, db, k - 1);
    }
}

proof fn lemma_less_diverges_lower(a: Seq<u8>, b: Seq<u8>) -> (k: int)
    requires
        bytes_less(a, b),
    ensures
        diverges_lower_at(a, b, k),
    decreases a.len(),
{
    if a.len() == 0 || a[0] != b[0] {
        0
    } else {
        let da = a.drop_first();
        let db = b.drop_first();
        let k = lemma_less_diverges_lower(da, db);
        assert forall|j: int| 0 <= j < k + 1 implies a[j] == b[j] by {
            if j > 0 {
                assert(da[j - 1] == db[j - 1]);
            }
        }
        k + 1
    }
}

/// Lexicographic byte order: `a` comes before `b` exactly when, after their
/// longest common prefix, `a` ends while `b` goes on, or `a`'s next byte is
/// smaller.
pub proof fn law_bytes_order(a: Seq<u8>, b: Seq<u8>)
    ensures
        bytes_less(a, b) <==> exists|k: int| diverges_lower_at(a, b, k),
{
    if bytes_less(a, b) {
        let k = lemma_less_diverges_lower(a, b);
        assert(diverges_lower_at(a, b, k));
    }
    if exists|k: int| diverges_lower_at(a, b, k) {
        let k = choose|k: int| diverges_lower_at(a, b, k);
        lemma_diverges_lower_gives_less(a, b, k);
    }
}

/// The traffic cube is ordered by client id, then endpoint, then status code:
/// of two rows, the earlier has the smaller client id in byte order, or the
/// same client id and the smaller endpoint, or the same client id and
/// endpoint and the smaller status code.
pub proof fn law_traffic_cube_order(acc: AccumulatorView, r: ReportView, i: int, j: int)
    requires
        report_describes(r, acc),
        0 <= i < j < r.request_counts_by_client_endpoint_status.len(),
    ensures
        ({
            let a = r.request_counts_by_client_endpoint_status[i].0;
            let b = r.request_counts_by_client_endpoint_status[j].0;
            ||| bytes_less(encode_utf8(a.client_id), encode_utf8(b.client_id))
            ||| a.client_id == b.client_id && bytes_less(
                encode_utf8(a.endpoint),
                encode_utf8(b.endpoint),
            )
            ||| a.client_id == b.client_id && a.endpoint == b.endpoint && a.status_code
                < b.status_code
        }),
{
    lemma_group_order();
    lemma_tally_of(acc.records.map_values(|x: RecordView| group_key(x)), group_order());
    let s = r.request_counts_by_client_endpoint_status;
    assert((group_order())(s[i].0, s[j].0));
}

/// A fraction of a second does not change the instant a timestamp names:
/// writing `.` and any digits right after the seconds of a timestamp leaves
/// its Unix time as it was, valid or not.
pub proof fn law_fraction_keeps_instant(t: Seq<char>, fraction: Seq<char>)
    requires
        t.len() > 19,
        t[19] != '.',
        !is_ascii_digit(t[19]),
        fraction.len() > 0,
        digits_at(fraction, 0, fraction.len() as int),
    ensures
        ({
            let with_fraction = t.take(19) + seq!['.'] + fraction + t.skip(19);
            &&& rfc3339_form_seconds(with_fraction) == rfc3339_form_seconds(t)
            &&& rfc3339_form_seconds(t) is Some ==> timestamp_unix_seconds(with_fraction)
                == timestamp_unix_seconds(t)
        }),
{
    let n = fraction.len() as int;
    let t2 = t.take(19) + seq!['.'] + fraction + t.skip(19);
    assert(t2.len() == t.len() + 1 + n);
    assert forall|j: int| 0 <= j < 19 implies t2[j] == t[j] by {}
    assert(t2[19] == '.');
    assert forall|k: int| 0 <= k < n implies t2[20 + k] == fraction[k] by {}
    assert forall|j: int| 19 <= j < t.len() implies t2[j + 1 + n] == t[j] by {}
    assert forall|j: int| 20 <= j < 20 + n implies is_ascii_digit(#[trigger] t2[j]) by {
        assert(t2[j] == fraction[j - 20]);
    }
    assert(t2[20 + n] == t[19]);
    lemma_digit_run_end_at(t2, 20, n);
    let z2 = 20 + n;
    assert(zone_start(t2) == z2);
    assert(zone_start(t) == 19);
    assert(digits_at(t2, 0, 4) == digits_at(t, 0, 4));
    assert(digits_at(t2, 5, 2) == digits_at(t, 5, 2));
    assert(digits_at(t2, 8, 2) == digits_at(t, 8, 2));
    assert(digits_at(t2, 11, 2) == digits_at(t, 11, 2));
    assert(digits_at(t2, 14, 2) == digits_at(t, 14, 2));
    assert(digits_at(t2, 17, 2) == digits_at(t, 17, 2));
    if t.len() == 25 {
        assert(t2[z2 + 1] == t[20] && t2[z2 + 2] == t[21] && t2[z2 + 3] == t[22]);
        assert(t2[z2 + 4] == t[23] && t2[z2 + 5] == t[24]);
        assert(digits_at(t2, z2 + 1, 2) == digits_at(t, 20, 2));
        assert(digits_at(t2, z2 + 4, 2) == digits_at(t, 23, 2));
    }
}

/// An offset moves the instant by its own amount, in its own direction: the
/// date and time of a `Z` timestamp written with `+hh:mm` in place of `Z`
/// name an instant `hh:mm` earlier, and with `-hh:mm` one `hh:mm` later.
pub proof fn law_offset_shifts_instant(t: Seq<char>, zone: Seq<char>)
    requires
        rfc3339_form_seconds(t) is Some,
        t.len() == zone_start(t) + 1,
        zone.len() == 6,
        zone[0] == '+' || zone[0] == '-',
        digits_at(zone, 1, 2),
        zone[3] == ':',
        digits_at(zone, 4, 2),
        two_digits(zone, 1) <= 23,
        two_digits(zone, 4) <= 59,
    ensures
        ({
            let shifted = t.take(zone_start(t)) + zone;
            let magnitude = two_digits(zone, 1) * 3600 + two_digits(zone, 4) * 60;
            let utc = rfc3339_form_seconds(t)->0;
            &&& rfc3339_form_seconds(shifted) == Some(
                if zone[0] == '-' {
                    utc + magnitude
                } else {
                    utc - magnitude
                },
            )
            &&& timestamp_unix_seconds(shifted) == Some(
                (if zone[0] == '-' {
                    utc + magnitude
                } else {
                    utc - magnitude
                }) as i64,
            )
        }),
{
    let z = zone_start(t);
    let t2 = t.take(z) + zone;
    if t[19] == '.' {
        lemma_digit_run_end(t, 20);
    }
    assert(19 <= z < t.len());
    assert(t2.len() == z + 6);
    assert forall|j: int| 0 <= j < z implies t2[j] == t[j] by {}
    assert forall|k: int| 0 <= k < 6 implies t2[z + k] == zone[k] by {}
    if t[19] == '.' {
        assert(t2[19] == '.');
        assert forall|j: int| 20 <= j < z implies is_ascii_digit(#[trigger] t2[j]) by {
            assert(t2[j] == t[j]);
        }
        lemma_digit_run_end_at(t2, 20, z - 20);
    } else {
        if z > 19 {
            assert(t2[19] == t[19]);
        } else {
            assert(t2[19] == zone[0]);
        }
    }
    assert(zone_start(t2) == z);
    assert(digits_at(t2, 0, 4) == digits_at(t, 0, 4));
    assert(digits_at(t2, 5, 2) == digits_at(t, 5, 2));
    assert(digits_at(t2, 8, 2) == digits_at(t, 8, 2));
    assert(digits_at(t2, 11, 2) == digits_at(t, 11, 2));
    assert(digits_at(t2, 14, 2) == digits_at(t, 14, 2));
    assert(digits_at(t2, 17, 2) == digits_at(t, 17, 2));
    assert(t2[z + 1] == zone[1] && t2[z + 2] == zone[2] && t2[z + 3] == zone[3]);
    assert(t2[z + 4] == zone[4] && t2[z + 5] == zone[5]);
    assert(digits_at(t2, z + 1, 2) == digits_at(zone, 1, 2));
    assert(digits_at(t2, z + 4, 2) == digits_at(zone, 4, 2));
    lemma_form_seconds_range(t2);
}

/// A valid line whose timestamp is in the plain RFC 3339 form gives the
/// record of its client, endpoint and status code, in the UTC bucket that
/// holds the timestamp's instant: its Unix time divided by ten, rounded down.
pub proof fn law_record_bucket(line: Seq<u8>)
    ensures
        json_object_members(line) matches Some(m) ==> (check_members_spec(m) matches Some(c) ==> (
        rfc3339_form_seconds(c.timestamp) matches Some(v) ==> ({
            &&& parse_record(line) matches Some(r)
            &&& r.client_id == c.client_id
            &&& r.endpoint == c.endpoint
            &&& r.status_code == c.status_code
            &&& r.bucket as int == v / 10
        }))),
{
    if let Some(m) = json_object_members(line) {
        if let Some(c) = check_members_spec(m) {
            lemma_form_seconds_range(c.timestamp);
        }
    }
}

/// A line that lacks any of the five required members (`request_id`,
/// `timestamp`, `client_id`, `endpoint`, `status_code`) is malformed,
/// whatever else it holds.
pub proof fn law_missing_member_malformed(
    line: Seq<u8>,
    m: Seq<(Seq<char>, Option<Seq<char>>, Option<u64>)>,
    name: Seq<char>,
)
    requires
        json_object_members(line) == Some(m),
        name == "request_id"@ || name == "timestamp"@ || name == "client_id"@ || name
            == "endpoint"@ || name == "status_code"@,
        forall|i: int| 0 <= i < m.len() ==> m[i].0 != name,
    ensures
        parse_record(line) is None,
        check_members_spec(m) is None,
{
    law_checked_members_are_present(m);
}

} // verus!
