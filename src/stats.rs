use vstd::prelude::*;
use crate::filter::{accepts_spec, FilterConfig, FilterView};
use crate::parse::{parse_log_line, parse_spec, EntryView, LogEntry};
use crate::rank::{lemma_top_shape, non_increasing, ranking_view, top_entries, top_spec, TopIp};
use crate::tally::{
    bump, bump_code, bump_text, code_tally, lemma_total_bump, lemma_unique_bump, text_tally, total,
    unique_keys,
};
use crate::text::{decimal, decimal_text};
use crate::time::{hour_bucket, hour_key};

verus! {

/// The running statistics of one pass, as mathematical values.
pub struct StatsView {
    pub total_requests: nat,
    pub total_bytes: nat,
    pub skipped_lines: nat,
    pub error_count: nat,
    pub by_status: Seq<(u16, nat)>,
    pub by_hour: Seq<(Seq<char>, nat)>,
    pub ip_counts: Seq<(Seq<char>, nat)>,
}

/// The statistics before any line.
pub open spec fn empty_stats() -> StatsView {
    StatsView {
        total_requests: 0,
        total_bytes: 0,
        skipped_lines: 0,
        error_count: 0,
        by_status: Seq::empty(),
        by_hour: Seq::empty(),
        ip_counts: Seq::empty(),
    }
}

/// The statistics after one more counted entry.
pub open spec fn add_entry(v: StatsView, e: EntryView) -> StatsView {
    StatsView {
        total_requests: v.total_requests + 1,
        total_bytes: v.total_bytes + e.bytes as nat,
        skipped_lines: v.skipped_lines,
        error_count: v.error_count + if e.status >= 400 { 1nat } else { 0nat },
        by_status: bump(v.by_status, e.status),
        by_hour: bump(v.by_hour, hour_key(e.timestamp)),
        ip_counts: bump(v.ip_counts, e.ip),
    }
}

/// The statistics after one more line that could not be read.
pub open spec fn add_skip(v: StatsView) -> StatsView {
    StatsView { skipped_lines: v.skipped_lines + 1, ..v }
}

/// The statistics after one more line (`None` for a line that could not be
/// read at all): an unreadable or malformed line is skipped, an entry that
/// the filters refuse changes nothing, and any other is counted.
pub open spec fn step(v: StatsView, line: Option<Seq<char>>, c: FilterView) -> StatsView {
    match line {
        None => add_skip(v),
        Some(l) => match parse_spec(l) {
            None => add_skip(v),
            Some(e) => if accepts_spec(e, c) {
                add_entry(v, e)
            } else {
                v
            },
        },
    }
}

/// The statistics after all of `lines`, in order.
pub open spec fn run(lines: Seq<Option<Seq<char>>>, c: FilterView) -> StatsView
    decreases lines.len(),
{
    if lines.len() == 0 {
        empty_stats()
    } else {
        step(run(lines.drop_last(), c), lines.last(), c)
    }
}

/// The counts agree with one another, and keys stand once.
pub open spec fn stats_wf(v: StatsView) -> bool {
    &&& total(v.by_status) == v.total_requests
    &&& total(v.by_hour) == v.total_requests
    &&& total(v.ip_counts) == v.total_requests
    &&& v.error_count <= v.total_requests
    &&& v.total_bytes <= v.total_requests * (u64::MAX as nat)
    &&& unique_keys(v.by_status)
    &&& unique_keys(v.by_hour)
    &&& unique_keys(v.ip_counts)
}

/// The view of a sequence of lines.
pub open spec fn lines_view(lines: Seq<Option<String>>) -> Seq<Option<Seq<char>>> {
    lines.map_values(|o: Option<String>| match o {
        Some(s) => Some(s@),
        None => None,
    })
}

/// Streaming aggregation of access-log lines.
pub struct Aggregator {
    total_requests: usize,
    total_bytes: u128,
    skipped_lines: usize,
    error_count: usize,
    by_status: Vec<(u16, usize)>,
    by_hour: Vec<(String, usize)>,
    ip_counts: Vec<(String, usize)>,
}

impl View for Aggregator {
    type V = StatsView;

    closed spec fn view(&self) -> StatsView {
        StatsView {
            total_requests: self.total_requests as nat,
            total_bytes: self.total_bytes as nat,
            skipped_lines: self.skipped_lines as nat,
            error_count: self.error_count as nat,
            by_status: code_tally(self.by_status@),
            by_hour: text_tally(self.by_hour@),
            ip_counts: text_tally(self.ip_counts@),
        }
    }
}

/// The report of a pass, as mathematical values.
pub struct ReportView {
    pub total_requests: nat,
    pub total_bytes: nat,
    pub skipped_lines: nat,
    pub error_count: nat,
    pub requests_by_status: Seq<(Seq<char>, nat)>,
    pub requests_by_hour: Seq<(Seq<char>, nat)>,
    pub top_ips: Seq<(Seq<char>, nat)>,
}

/// The status tally with each code written in decimal.
pub open spec fn status_texts(s: Seq<(u16, nat)>) -> Seq<(Seq<char>, nat)> {
    s.map_values(|p: (u16, nat)| (decimal(p.0 as nat), p.1))
}

/// The report that statistics `v` give, with at most `top_n` addresses
/// ranked.
pub open spec fn report_of(v: StatsView, top_n: nat) -> ReportView {
    ReportView {
        total_requests: v.total_requests,
        total_bytes: v.total_bytes,
        skipped_lines: v.skipped_lines,
        error_count: v.error_count,
        requests_by_status: status_texts(v.by_status),
        requests_by_hour: v.by_hour,
        top_ips: top_spec(v.ip_counts, top_n),
    }
}

/// The outcome of a pass. The error rate is `error_count` out of
/// `total_requests`, and the mean response size `total_bytes` over
/// `total_requests`, both zero where nothing was counted.
#[derive(Debug)]
pub struct Report {
    pub total_requests: usize,
    pub total_bytes: u128,
    pub skipped_lines: usize,
    pub error_count: usize,
    pub requests_by_status: Vec<(String, usize)>,
    pub requests_by_hour: Vec<(String, usize)>,
    pub top_ips: Vec<TopIp>,
}

impl View for Report {
    type V = ReportView;

    open spec fn view(&self) -> ReportView {
        ReportView {
            total_requests: self.total_requests as nat,
            total_bytes: self.total_bytes as nat,
            skipped_lines: self.skipped_lines as nat,
            error_count: self.error_count as nat,
            requests_by_status: text_tally(self.requests_by_status@),
            requests_by_hour: text_tally(self.requests_by_hour@),
            top_ips: ranking_view(self.top_ips@),
        }
    }
}

pub proof fn lemma_total_status_texts(s: Seq<(u16, nat)>)
    ensures
        total(status_texts(s)) == total(s),
        status_texts(s).len() == s.len(),
    decreases s.len(),
{
    if s.len() > 0 {
        assert(status_texts(s).drop_last() =~= status_texts(s.drop_last()));
        lemma_total_status_texts(s.drop_last());
    }
}

proof fn lemma_add_entry_wf(v: StatsView, e: EntryView)
    requires
        stats_wf(v),
    ensures
        stats_wf(add_entry(v, e)),
{
    lemma_total_bump(v.by_status, e.status);
    lemma_total_bump(v.by_hour, hour_key(e.timestamp));
    lemma_total_bump(v.ip_counts, e.ip);
    lemma_unique_bump(v.by_status, e.status);
    lemma_unique_bump(v.by_hour, hour_key(e.timestamp));
    lemma_unique_bump(v.ip_counts, e.ip);
    let m = u64::MAX as nat;
    assert(v.total_bytes + e.bytes <= (v.total_requests + 1) * m) by (nonlinear_arith)
        requires v.total_bytes <= v.total_requests * m, e.bytes <= m;
}

/// Every state that a pass reaches is well formed.
pub proof fn lemma_run_wf(lines: Seq<Option<Seq<char>>>, c: FilterView)
    ensures
        stats_wf(run(lines, c)),
    decreases lines.len(),
{
    if lines.len() > 0 {
        let prev = run(lines.drop_last(), c);
        lemma_run_wf(lines.drop_last(), c);
        if let Some(l) = lines.last() {
            if let Some(e) = parse_spec(l) {
                lemma_add_entry_wf(prev, e);
            }
        }
    }
}

impl Aggregator {
    pub closed spec fn wf(&self) -> bool {
        stats_wf(self@)
    }

    /// An aggregator that has seen no line.
    pub fn new() -> (r: Aggregator)
        ensures
            r@ == empty_stats(),
            r.wf(),
    {
        let r = Aggregator {
            total_requests: 0,
            total_bytes: 0,
            skipped_lines: 0,
            error_count: 0,
            by_status: Vec::new(),
            by_hour: Vec::new(),
            ip_counts: Vec::new(),
        };
        assert(r@.by_status =~= Seq::<(u16, nat)>::empty());
        assert(r@.by_hour =~= Seq::<(Seq<char>, nat)>::empty());
        assert(r@.ip_counts =~= Seq::<(Seq<char>, nat)>::empty());
        r
    }

    /// Counts an entry that the filters let through.
    pub fn update(&mut self, entry: &LogEntry)
        requires
            old(self).wf(),
            old(self)@.total_requests < usize::MAX,
        ensures
            final(self).wf(),
            final(self)@ == add_entry(old(self)@, entry@),
    {
        proof { lemma_add_entry_wf(self@, entry@); }
        let ghost m = u64::MAX as nat;
        assert(self.total_bytes + entry.bytes <= (self.total_requests + 1) * m);
        assert((self.total_requests + 1) * m <= usize::MAX * m) by (nonlinear_arith)
            requires self.total_requests < usize::MAX;
        self.total_requests = self.total_requests + 1;
        self.total_bytes = self.total_bytes + entry.bytes as u128;
        if entry.status >= 400 {
            self.error_count = self.error_count + 1;
        }
        bump_code(&mut self.by_status, entry.status);
        bump_text(&mut self.by_hour, hour_bucket(&entry.timestamp));
        bump_text(&mut self.ip_counts, entry.ip.clone());
    }

    /// Counts a line that could not be read or is not a log line.
    pub fn record_skipped(&mut self)
        requires
            old(self).wf(),
            old(self)@.skipped_lines < usize::MAX,
        ensures
            final(self).wf(),
            final(self)@ == add_skip(old(self)@),
    {
        self.skipped_lines = self.skipped_lines + 1;
    }

    /// Takes one more line (`None` for a line that could not be read).
    pub fn consume(&mut self, line: &Option<String>, config: &FilterConfig)
        requires
            old(self).wf(),
            old(self)@.total_requests < usize::MAX,
            old(self)@.skipped_lines < usize::MAX,
        ensures
            final(self).wf(),
            final(self)@ == step(
                old(self)@,
                match line {
                    Some(s) => Some(s@),
                    None => None,
                },
                config@,
            ),
    {
        match line {
            None => self.record_skipped(),
            Some(l) => match parse_log_line(l.as_str()) {
                None => self.record_skipped(),
                Some(e) => {
                    if config.accepts(&e) {
                        self.update(&e);
                    }
                },
            },
        }
    }

    /// The report of what has been seen, with at most `top_n` addresses
    /// ranked.
    pub fn finalize(&self, top_n: usize) -> (r: Report)
        requires
            self.wf(),
        ensures
            r@ == report_of(self@, top_n as nat),
            r.total_requests == total(r@.requests_by_status),
            r.total_requests == total(r@.requests_by_hour),
            r.top_ips.len() <= top_n,
            r.top_ips.len() == if top_n < self@.ip_counts.len() { top_n as nat } else {
                self@.ip_counts.len()
            },
            non_increasing(r@.top_ips),
    {
        let mut by_status: Vec<(String, usize)> = Vec::new();
        let mut i: usize = 0;
        while i < self.by_status.len()
            invariant
                i <= self.by_status.len(),
                text_tally(by_status@) == status_texts(code_tally(self.by_status@)).subrange(
                    0,
                    i as int,
                ),
            decreases self.by_status.len() - i,
        {
            let (code, count) = self.by_status[i];
            let key = decimal_text(code as u64);
            let ghost b0 = by_status@;
            by_status.push((key, count));
            assert(text_tally(by_status@) =~= text_tally(b0).push((key@, count as nat)));
            i = i + 1;
            assert(text_tally(by_status@) =~= status_texts(code_tally(self.by_status@)).subrange(
                0,
                i as int,
            ));
        }
        assert(status_texts(code_tally(self.by_status@)).subrange(0, i as int) =~= status_texts(
            code_tally(self.by_status@),
        ));
        let mut by_hour: Vec<(String, usize)> = Vec::new();
        let mut j: usize = 0;
        while j < self.by_hour.len()
            invariant
                j <= self.by_hour.len(),
                text_tally(by_hour@) == text_tally(self.by_hour@).subrange(0, j as int),
            decreases self.by_hour.len() - j,
        {
            let key = self.by_hour[j].0.clone();
            let ghost b0 = by_hour@;
            by_hour.push((key, self.by_hour[j].1));
            assert(text_tally(by_hour@) =~= text_tally(b0).push(
                (key@, self.by_hour@[j as int].1 as nat),
            ));
            j = j + 1;
            assert(text_tally(by_hour@) =~= text_tally(self.by_hour@).subrange(0, j as int));
        }
        assert(text_tally(self.by_hour@).subrange(0, j as int) =~= text_tally(self.by_hour@));
        let top_ips = top_entries(&self.ip_counts, top_n);
        proof {
            lemma_total_status_texts(self@.by_status);
            lemma_top_shape(self@.ip_counts, top_n as nat);
        }
        Report {
            total_requests: self.total_requests,
            total_bytes: self.total_bytes,
            skipped_lines: self.skipped_lines,
            error_count: self.error_count,
            requests_by_status: by_status,
            requests_by_hour: by_hour,
            top_ips,
        }
    }
}

/// Runs the whole pass over `lines` (`None` for a line that could not be
/// read) and reports, with at most `top_n` addresses ranked.
pub fn analyze(lines: &Vec<Option<String>>, config: &FilterConfig, top_n: usize) -> (r: Report)
    ensures
        r@ == report_of(run(lines_view(lines@), config@), top_n as nat),
        r.total_requests == total(r@.requests_by_status),
        r.total_requests == total(r@.requests_by_hour),
        r.top_ips.len() <= top_n,
        non_increasing(r@.top_ips),
{
    let ghost lv = lines_view(lines@);
    let mut agg = Aggregator::new();
    let mut i: usize = 0;
    while i < lines.len()
        invariant
            i <= lines.len(),
            lv == lines_view(lines@),
            agg.wf(),
            agg@ == run(lv.subrange(0, i as int), config@),
            agg@.total_requests + agg@.skipped_lines <= i,
        decreases lines.len() - i,
    {
        assert(lv.subrange(0, i as int + 1).drop_last() =~= lv.subrange(0, i as int));
        agg.consume(&lines[i], config);
        i = i + 1;
    }
    assert(lv.subrange(0, i as int) =~= lv);
    agg.finalize(top_n)
}

} // verus!
