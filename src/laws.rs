use vstd::prelude::*;
use crate::filter::{accepts_spec, status_allowed, status_class, FilterView};
use crate::parse::parse_spec;
use crate::rank::{lemma_top_shape, lemma_top_split, non_increasing, top_rest};
use crate::stats::{lemma_run_wf, lemma_total_status_texts, report_of, run, Report};
use crate::tally::{bump, find_key, lemma_find_key, total};
use crate::text::decimal;
use crate::time::{not_after, Timestamp};

verus! {

/// The number of lines that are unreadable or not log lines.
pub open spec fn rejected_count(lines: Seq<Option<Seq<char>>>) -> nat
    decreases lines.len(),
{
    if lines.len() == 0 {
        0
    } else {
        rejected_count(lines.drop_last()) + match lines.last() {
            None => 1nat,
            Some(l) => if parse_spec(l) is None { 1nat } else { 0nat },
        }
    }
}

/// The number of log lines whose entries the filters let through.
pub open spec fn accepted_count(lines: Seq<Option<Seq<char>>>, c: FilterView) -> nat
    decreases lines.len(),
{
    if lines.len() == 0 {
        0
    } else {
        accepted_count(lines.drop_last(), c) + match lines.last() {
            None => 0nat,
            Some(l) => match parse_spec(l) {
                Some(e) => if accepts_spec(e, c) { 1nat } else { 0nat },
                None => 0nat,
            },
        }
    }
}

/// No filter at all.
pub open spec fn no_filter() -> FilterView {
    FilterView { from: None, to: None, status: None }
}

/// Only a lower time bound.
pub open spec fn from_filter(f: Timestamp) -> FilterView {
    FilterView { from: Some(f), to: None, status: None }
}

/// The number of requests equals the sum of the per-status counts, of the
/// per-hour counts and of the per-address counts, whatever the input.
pub proof fn law_totals_agree(lines: Seq<Option<Seq<char>>>, c: FilterView, top_n: nat)
    ensures
        ({
            let v = run(lines, c);
            let r = report_of(v, top_n);
            &&& r.total_requests == total(r.requests_by_status)
            &&& r.total_requests == total(r.requests_by_hour)
            &&& r.total_requests == total(v.ip_counts)
        }),
{
    lemma_run_wf(lines, c);
    lemma_total_status_texts(run(lines, c).by_status);
}

/// The skipped lines are exactly the unreadable or malformed ones, whatever
/// the filters: two runs under any two configurations skip as many.
pub proof fn law_skipped_ignores_filters(
    lines: Seq<Option<Seq<char>>>,
    c1: FilterView,
    c2: FilterView,
)
    ensures
        run(lines, c1).skipped_lines == rejected_count(lines),
        run(lines, c1).skipped_lines == run(lines, c2).skipped_lines,
    decreases lines.len(),
{
    if lines.len() > 0 {
        law_skipped_ignores_filters(lines.drop_last(), c1, c2);
    }
}

/// The requests counted are the log lines that the filters let through.
pub proof fn lemma_total_is_accepted(lines: Seq<Option<Seq<char>>>, c: FilterView)
    ensures
        run(lines, c).total_requests == accepted_count(lines, c),
    decreases lines.len(),
{
    if lines.len() > 0 {
        lemma_total_is_accepted(lines.drop_last(), c);
    }
}

proof fn lemma_from_count(lines: Seq<Option<Seq<char>>>, f: Timestamp, k: int)
    ensures
        accepted_count(lines, from_filter(f)) <= accepted_count(lines, no_filter()),
        (0 <= k < lines.len() && lines[k] is Some && parse_spec(lines[k]->0) is Some && !not_after(
            f,
            parse_spec(lines[k]->0)->0.timestamp,
        )) ==> accepted_count(lines, from_filter(f)) < accepted_count(lines, no_filter()),
    decreases lines.len(),
{
    if lines.len() > 0 {
        let d = lines.drop_last();
        if 0 <= k < lines.len() - 1 {
            assert(d[k] == lines[k]);
        }
        lemma_from_count(d, f, k);
    }
}

/// A lower time bound that falls after some entry of the input counts
/// strictly fewer requests than no filter at all.
pub proof fn law_from_bound_drops_entries(lines: Seq<Option<Seq<char>>>, f: Timestamp, k: int)
    requires
        0 <= k < lines.len(),
        lines[k] is Some,
        parse_spec(lines[k]->0) is Some,
        !not_after(f, parse_spec(lines[k]->0)->0.timestamp),
    ensures
        run(lines, from_filter(f)).total_requests < run(lines, no_filter()).total_requests,
{
    lemma_from_count(lines, f, k);
    lemma_total_is_accepted(lines, from_filter(f));
    lemma_total_is_accepted(lines, no_filter());
}

proof fn lemma_status_keys_allowed(lines: Seq<Option<Seq<char>>>, c: FilterView)
    ensures
        forall|i: int|
            0 <= i < run(lines, c).by_status.len() ==> status_allowed(
                #[trigger] run(lines, c).by_status[i].0 as int,
                c.status,
            ),
    decreases lines.len(),
{
    if lines.len() > 0 {
        let prev = run(lines.drop_last(), c);
        lemma_status_keys_allowed(lines.drop_last(), c);
        if let Some(l) = lines.last() {
            if let Some(e) = parse_spec(l) {
                if accepts_spec(e, c) {
                    lemma_find_key(prev.by_status, e.status, 0);
                    let b = bump(prev.by_status, e.status);
                    assert forall|i: int| 0 <= i < b.len() implies status_allowed(
                        #[trigger] b[i].0 as int,
                        c.status,
                    ) by {
                        if i < prev.by_status.len() {
                            assert(b[i].0 == prev.by_status[i].0);
                        }
                    }
                }
            }
        }
    }
}

/// Under a status class filter every status key of the report is the decimal
/// text of a code of that class.
pub proof fn law_status_class_keys(
    lines: Seq<Option<Seq<char>>>,
    c: FilterView,
    top_n: nat,
    f: Seq<char>,
    lo: int,
)
    requires
        c.status == Some(f),
        status_class(f) == Some(lo),
    ensures
        forall|i: int|
            0 <= i < report_of(run(lines, c), top_n).requests_by_status.len() ==> exists|code: u16|
                lo <= code < lo + 100 && (#[trigger] report_of(
                    run(lines, c),
                    top_n,
                ).requests_by_status[i]).0 == decimal(code as nat),
{
    let v = run(lines, c);
    lemma_status_keys_allowed(lines, c);
    lemma_total_status_texts(v.by_status);
    let r = report_of(v, top_n);
    assert forall|i: int| 0 <= i < r.requests_by_status.len() implies exists|code: u16|
        lo <= code < lo + 100 && (#[trigger] r.requests_by_status[i]).0 == decimal(
            code as nat,
        ) by {
        let code = v.by_status[i].0;
        assert(status_allowed(code as int, c.status));
        assert(r.requests_by_status[i].0 == decimal(code as nat));
    }
}

/// The ranking never holds more than `top_n` addresses, its counts never
/// increase, and no address left out of it has more requests than one in it.
pub proof fn law_top_ips_bounded(lines: Seq<Option<Seq<char>>>, c: FilterView, top_n: nat)
    ensures
        ({
            let v = run(lines, c);
            let t = report_of(v, top_n).top_ips;
            let rest = top_rest(v.ip_counts, top_n);
            &&& t.len() <= top_n
            &&& t.len() == if top_n < v.ip_counts.len() { top_n } else { v.ip_counts.len() }
            &&& non_increasing(t)
            &&& forall|k: int|
                0 <= k < v.ip_counts.len() ==> t.contains(#[trigger] v.ip_counts[k])
                    || rest.contains(v.ip_counts[k])
            &&& forall|i: int, k: int|
                0 <= i < t.len() && 0 <= k < rest.len() ==> (#[trigger] rest[k]).1 <= (
                #[trigger] t[i]).1
        }),
{
    lemma_top_shape(run(lines, c).ip_counts, top_n);
    lemma_top_split(run(lines, c).ip_counts, top_n);
}

/// Two passes over the same input under the same configuration report the
/// same values.
pub proof fn law_same_input_same_report(
    lines: Seq<Option<Seq<char>>>,
    c: FilterView,
    top_n: nat,
    r1: Report,
    r2: Report,
)
    requires
        r1@ == report_of(run(lines, c), top_n),
        r2@ == report_of(run(lines, c), top_n),
    ensures
        r1@ == r2@,
{
}

} // verus!
