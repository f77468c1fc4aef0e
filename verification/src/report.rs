//! Builds the complete traffic report from a JSON Lines input.

use vstd::prelude::*;

use crate::aggregate::{report_describes, AccumulatorView, Report, ReportAccumulator};
use crate::blank_scan::BlankScan;
use crate::rate_limit::{rows_excess_sum, rows_violation_sum};
use crate::record::{is_blank, is_blank_line, parse_record, RequestRecord};

verus! {

/// The longest line, in bytes without its terminator, that is read as a
/// record; a longer line is malformed unless it is blank.
pub const MAX_INPUT_LINE_BYTES: usize = 1024 * 1024;

/// The byte that ends a line.
pub const LINE_TERMINATOR: u8 = 10;

/// What an accumulator has seen before any line.
pub open spec fn empty_view() -> AccumulatorView {
    AccumulatorView {
        total_line_count: 0,
        processed_line_count: 0,
        valid_request_count: 0,
        malformed_input_count: 0,
        ignored_blank_line_count: 0,
        records: Seq::empty(),
    }
}

/// One more malformed line.
pub open spec fn with_malformed(acc: AccumulatorView) -> AccumulatorView {
    AccumulatorView {
        processed_line_count: acc.processed_line_count + 1,
        malformed_input_count: acc.malformed_input_count + 1,
        ..acc
    }
}

/// What an accumulator has seen after one more line (without its
/// terminator): every line is counted; a blank line, of any length, is
/// ignored; a nonblank line longer than the limit is malformed; any other
/// line is a valid request or malformed.
pub open spec fn after_line(acc: AccumulatorView, line: Seq<u8>) -> AccumulatorView {
    let counted = AccumulatorView { total_line_count: acc.total_line_count + 1, ..acc };
    if is_blank_line(line) {
        AccumulatorView { ignored_blank_line_count: counted.ignored_blank_line_count + 1, ..counted }
    } else if line.len() > MAX_INPUT_LINE_BYTES {
        with_malformed(counted)
    } else {
        match parse_record(line) {
            Some(record) => AccumulatorView {
                processed_line_count: counted.processed_line_count + 1,
                valid_request_count: counted.valid_request_count + 1,
                records: counted.records.push(record),
                ..counted
            },
            None => with_malformed(counted),
        }
    }
}

/// What an accumulator has seen after the lines `lines`, in order.
pub open spec fn after_lines(acc: AccumulatorView, lines: Seq<Seq<u8>>) -> AccumulatorView
    decreases lines.len(),
{
    if lines.len() == 0 {
        acc
    } else {
        after_lines(after_line(acc, lines[0]), lines.drop_first())
    }
}

/// The position of the first line terminator in `s`, or its length.
pub open spec fn first_terminator(s: Seq<u8>) -> nat
    decreases s.len(),
{
    if s.len() == 0 || s[0] == LINE_TERMINATOR {
        0
    } else {
        1 + first_terminator(s.drop_first())
    }
}

/// The lines of `input`, without their terminators. A terminator ends a line;
/// a last line may lack one; input that ends with a terminator has no empty
/// line after it.
pub open spec fn input_lines(input: Seq<u8>) -> Seq<Seq<u8>>
    decreases input.len(),
{
    if input.len() == 0 {
        Seq::empty()
    } else {
        let p = first_terminator(input);
        if p >= input.len() {
            seq![input]
        } else {
            seq![input.take(p as int)] + input_lines(input.skip(p + 1 as int))
        }
    }
}

proof fn lemma_first_terminator(s: Seq<u8>, p: int)
    requires
        0 <= p <= s.len(),
        forall|m: int| 0 <= m < p ==> s[m] != LINE_TERMINATOR,
        p < s.len() ==> s[p] == LINE_TERMINATOR,
    ensures
        first_terminator(s) == p,
    decreases p,
{
    if p > 0 {
        assert forall|m: int| 0 <= m < p - 1 implies s.drop_first()[m] != LINE_TERMINATOR by {
            assert(s.drop_first()[m] == s[m + 1]);
        }
        lemma_first_terminator(s.drop_first(), p - 1);
    }
}

impl ReportAccumulator {
    /// Counts and classifies one input line (without its terminator).
    pub fn add_line(&mut self, line: &[u8])
        requires
            old(self).wf(),
            old(self)@.total_line_count < u64::MAX,
            old(self)@.processed_line_count < u64::MAX,
            old(self)@.ignored_blank_line_count < u64::MAX,
        ensures
            final(self).wf(),
            final(self)@ == after_line(old(self)@, line@),
    {
        self.received_line();
        if is_blank(line) {
            self.received_blank_line();
        } else if line.len() > MAX_INPUT_LINE_BYTES {
            self.received_malformed_input();
        } else {
            match RequestRecord::parse(line) {
                Some(record) => self.add_request(record),
                None => self.received_malformed_input(),
            }
        }
    }
}

impl ReportAccumulator {
    /// Counts and classifies one line longer than the limit, whose bytes
    /// (without the terminator) a scan has read: it is blank or malformed.
    pub fn add_long_line(&mut self, scan: &BlankScan)
        requires
            old(self).wf(),
            scan.wf(),
            scan@.len() > MAX_INPUT_LINE_BYTES,
            old(self)@.total_line_count < u64::MAX,
            old(self)@.processed_line_count < u64::MAX,
            old(self)@.ignored_blank_line_count < u64::MAX,
        ensures
            final(self).wf(),
            final(self)@ == after_line(old(self)@, scan@),
    {
        self.received_line();
        if scan.is_blank() {
            self.received_blank_line();
        } else {
            self.received_malformed_input();
        }
    }
}

/// Builds the complete traffic report from a JSON Lines input.
pub fn build_report(input: &[u8]) -> (report: Report)
    ensures
        report_describes(report@, after_lines(empty_view(), input_lines(input@))),
        report@.client_bucket_rate_limit_violation_count == rows_violation_sum(
            report@.rate_limit_counts_by_client,
        ),
        report@.rate_limit_excess_request_count == rows_excess_sum(
            report@.rate_limit_counts_by_client,
        ),
{
    let mut acc = ReportAccumulator::new();
    let mut start: usize = 0;
    assert(input@.skip(0) =~= input@);
    while start < input.len()
        invariant
            acc.wf(),
            start <= input.len(),
            after_lines(acc@, input_lines(input@.skip(start as int))) == after_lines(
                empty_view(),
                input_lines(input@),
            ),
            acc@.total_line_count <= start,
            acc@.processed_line_count + acc@.ignored_blank_line_count == acc@.total_line_count,
            usize::MAX <= u64::MAX,
        decreases input.len() - start,
    {
        let mut end: usize = start;
        while end < input.len() && input[end] != LINE_TERMINATOR
            invariant
                start <= end <= input.len(),
                forall|m: int| start <= m < end ==> input@[m] != LINE_TERMINATOR,
            decreases input.len() - end,
        {
            end = end + 1;
        }
        let ghost rest = input@.skip(start as int);
        let ghost p = end - start;
        let ghost before = acc@;
        proof {
            lemma_first_terminator(rest, p);
            assert(rest.take(p) =~= input@.subrange(start as int, end as int));
            if end < input.len() {
                assert(rest.skip(p + 1) =~= input@.skip(end + 1));
            } else {
                assert(rest =~= input@.subrange(start as int, end as int));
                assert(input@.skip(end as int).len() == 0);
            }
        }
        let line = &input[start..end];
        acc.add_line(line);
        proof {
            let lines = input_lines(rest);
            assert(lines[0] == line@);
            if end < input.len() {
                assert(lines.drop_first() =~= input_lines(input@.skip(end + 1)));
            } else {
                assert(lines.drop_first() =~= input_lines(input@.skip(end as int)));
            }
            assert(after_lines(before, lines) == after_lines(acc@, lines.drop_first()));
        }
        if end < input.len() {
            start = end + 1;
        } else {
            start = end;
        }
    }
    acc.finish()
}

} // verus!
