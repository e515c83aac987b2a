use vstd::prelude::*;
use crate::text::{all_digits, chars_of, digit_value, digits_value, is_digit, is_space, is_space_char, string_of};
use crate::time::{log_time_of, parse_log_timestamp, Timestamp};

verus! {

/// One accepted access-log line: the fields that the analysis reads.
#[derive(Debug)]
pub struct LogEntry {
    pub ip: String,
    pub timestamp: Timestamp,
    pub status: u16,
    pub bytes: u64,
}

/// The mathematical value of a [`LogEntry`].
pub struct EntryView {
    pub ip: Seq<char>,
    pub timestamp: Timestamp,
    pub status: u16,
    pub bytes: u64,
}

impl View for LogEntry {
    type V = EntryView;

    open spec fn view(&self) -> EntryView {
        EntryView { ip: self.ip@, timestamp: self.timestamp, status: self.status, bytes: self.bytes }
    }
}

/// The first index from `i` on that holds white space, or the length.
pub open spec fn token_end(s: Seq<char>, i: int) -> int
    decreases s.len() - i,
{
    if i < 0 || i >= s.len() {
        s.len() as int
    } else if is_space(s[i]) {
        i
    } else {
        token_end(s, i + 1)
    }
}

/// The first index from `i` on that holds `c`, or the length.
pub open spec fn find_char(s: Seq<char>, i: int, c: char) -> int
    decreases s.len() - i,
{
    if i < 0 || i >= s.len() {
        s.len() as int
    } else if s[i] == c {
        i
    } else {
        find_char(s, i + 1, c)
    }
}

/// The first index from `i` on that holds no ASCII digit, or the length.
pub open spec fn digits_end(s: Seq<char>, i: int) -> int
    decreases s.len() - i,
{
    if i < 0 || i >= s.len() {
        s.len() as int
    } else if !is_digit(s[i]) {
        i
    } else {
        digits_end(s, i + 1)
    }
}

/// Where the fields of a well-formed line lie: the client address is
/// `[0, ip_end)`, the time `[time_start, time_end)`, the status
/// `[status_start, status_end)` and the size `[status_end + 1, bytes_end)`.
pub struct Layout {
    pub ip_end: int,
    pub time_start: int,
    pub time_end: int,
    pub status_start: int,
    pub status_end: int,
    pub bytes_end: int,
}

/// Whether what follows the size field is either nothing or
/// ` "<referer>" "<user-agent>"`.
pub open spec fn tail_ok(s: Seq<char>, g: int) -> bool {
    let n = s.len() as int;
    g == n || (g + 1 < n && s[g] == ' ' && s[g + 1] == '"' && {
        let h = find_char(s, g + 2, '"');
        h + 2 < n && s[h + 1] == ' ' && s[h + 2] == '"' && find_char(s, h + 3, '"') == n - 1
    })
}

/// The layout of a line in Combined Log Format,
/// `<ip> <ident> <user> [<time>] "<request>" <status> <bytes>` with an
/// optional ` "<referer>" "<user-agent>"`, the whole line matched.
pub open spec fn layout(s: Seq<char>) -> Option<Layout> {
    let n = s.len() as int;
    let a = token_end(s, 0);
    let b = token_end(s, a + 1);
    let c = token_end(s, b + 1);
    let d = find_char(s, c + 2, ']');
    let e = find_char(s, d + 3, '"');
    let f = digits_end(s, e + 2);
    let g = token_end(s, f + 1);
    if 0 < a && a < n && s[a] == ' ' && a + 1 < b && b < n && s[b] == ' ' && b + 1 < c && c
        + 1 < n && s[c] == ' ' && s[c + 1] == '[' && c + 2 < d && d + 2 < n && s[d + 1] == ' '
        && s[d + 2] == '"' && e + 1 < n && s[e + 1] == ' ' && e + 2 < f && f < n && s[f] == ' '
        && f + 1 < g && tail_ok(s, g) {
        Some(
            Layout {
                ip_end: a,
                time_start: c + 2,
                time_end: d,
                status_start: e + 2,
                status_end: f,
                bytes_end: g,
            },
        )
    } else {
        None
    }
}

/// The response size field: `-` stands for zero, anything else is an
/// unsigned 64-bit decimal with an optional `+`.
pub open spec fn bytes_value(s: Seq<char>) -> Option<u64> {
    if s == seq!['-'] {
        Some(0u64)
    } else {
        let ds = if s.len() > 0 && s[0] == '+' { s.drop_first() } else { s };
        if all_digits(ds) && digits_value(ds) <= u64::MAX {
            Some(digits_value(ds) as u64)
        } else {
            None
        }
    }
}

/// What a line yields: an entry, or nothing where it is not a well-formed
/// line, its time does not read, its status is over 65535 or its size does not
/// read.
pub open spec fn parse_spec(s: Seq<char>) -> Option<EntryView> {
    match layout(s) {
        None => None,
        Some(l) => {
            let st = s.subrange(l.status_start, l.status_end);
            match (log_time_of(s.subrange(l.time_start, l.time_end)), bytes_value(
                s.subrange(l.status_end + 1, l.bytes_end),
            )) {
                (Some(t), Some(b)) => if digits_value(st) <= 65535 {
                    Some(
                        EntryView {
                            ip: s.subrange(0, l.ip_end),
                            timestamp: t,
                            status: digits_value(st) as u16,
                            bytes: b,
                        },
                    )
                } else {
                    None
                },
                _ => None,
            }
        },
    }
}

fn scan_token(s: &Vec<char>, i: usize) -> (r: usize)
    ensures
        r as int == token_end(s@, i as int),
        r <= s.len(),
{
    let mut k = i;
    if k > s.len() {
        k = s.len();
    }
    while k < s.len() && !is_space_char(s[k])
        invariant
            k <= s.len(),
            token_end(s@, i as int) == token_end(s@, k as int),
        decreases s.len() - k,
    {
        k = k + 1;
    }
    k
}

fn scan_char(s: &Vec<char>, i: usize, c: char) -> (r: usize)
    ensures
        r as int == find_char(s@, i as int, c),
        r <= s.len(),
{
    let mut k = i;
    if k > s.len() {
        k = s.len();
    }
    while k < s.len() && s[k] != c
        invariant
            k <= s.len(),
            find_char(s@, i as int, c) == find_char(s@, k as int, c),
        decreases s.len() - k,
    {
        k = k + 1;
    }
    k
}

fn scan_digits(s: &Vec<char>, i: usize) -> (r: usize)
    ensures
        r as int == digits_end(s@, i as int),
        r <= s.len(),
{
    let mut k = i;
    if k > s.len() {
        k = s.len();
    }
    while k < s.len() && '0' <= s[k] && s[k] <= '9'
        invariant
            k <= s.len(),
            digits_end(s@, i as int) == digits_end(s@, k as int),
        decreases s.len() - k,
    {
        k = k + 1;
    }
    k
}


proof fn lemma_digits_value_grows(s: Seq<char>, i: int, j: int)
    requires
        0 <= i <= j <= s.len(),
    ensures
        digits_value(s.subrange(0, i)) <= digits_value(s.subrange(0, j)),
    decreases j - i,
{
    if i < j {
        lemma_digits_value_grows(s, i, j - 1);
        assert(s.subrange(0, j).drop_last() =~= s.subrange(0, j - 1));
    }
}

/// Reads the digits `s[from..to]` as a decimal number, if it is at most `max`.
fn read_number(s: &Vec<char>, from: usize, to: usize, max: u64) -> (r: Option<u64>)
    requires
        from <= to <= s.len(),
        all_digits(s@.subrange(from as int, to as int)),
        max >= 9,
    ensures
        ({
            let v = digits_value(s@.subrange(from as int, to as int));
            &&& v <= max ==> r == Some(v as u64)
            &&& v > max ==> r is None
        }),
{
    let ghost w = s@.subrange(from as int, to as int);
    let mut acc: u64 = 0;
    let mut i = from;
    assert(w.subrange(0, 0).len() == 0);
    while i < to
        invariant
            from <= i <= to <= s.len(),
            w == s@.subrange(from as int, to as int),
            all_digits(w),
            acc as nat == digits_value(w.subrange(0, (i - from) as int)),
            acc <= max,
            max >= 9,
        decreases to - i,
    {
        let c = s[i];
        assert(w[(i - from) as int] == s@[i as int]);
        assert(is_digit(w[(i - from) as int]));
        assert('0' <= c && c <= '9');
        let d = (c as u32 - '0' as u32) as u64;
        assert(d <= 9);
        assert(d == digit_value(w[(i - from) as int]));
        assert(w.subrange(0, (i + 1 - from) as int).drop_last() =~= w.subrange(0, (i - from) as int));
        if acc > (max - d) / 10 {
            proof {
                assert(acc * 10 + d > max) by (nonlinear_arith)
                    requires acc > (max - d) / 10, d <= 9, max >= 9;
                lemma_digits_value_grows(w, (i + 1 - from) as int, w.len() as int);
                assert(w.subrange(0, w.len() as int) =~= w);
            }
            return None;
        }
        assert(acc * 10 + d <= max) by (nonlinear_arith)
            requires acc <= (max - d) / 10, d <= 9;
        acc = acc * 10 + d;
        i = i + 1;
    }
    assert(w.subrange(0, w.len() as int) =~= w);
    Some(acc)
}

fn check_digits(s: &Vec<char>, from: usize, to: usize) -> (r: bool)
    requires
        from <= to <= s.len(),
    ensures
        r == all_digits(s@.subrange(from as int, to as int)),
{
    let ghost w = s@.subrange(from as int, to as int);
    if from == to {
        return false;
    }
    let mut i = from;
    while i < to
        invariant
            from <= i <= to <= s.len(),
            w == s@.subrange(from as int, to as int),
            forall|k: int| 0 <= k < i - from ==> is_digit(#[trigger] w[k]),
        decreases to - i,
    {
        if !('0' <= s[i] && s[i] <= '9') {
            assert(!is_digit(w[(i - from) as int]));
            return false;
        }
        i = i + 1;
    }
    true
}

/// Reads the size field `s[from..to]`.
fn read_bytes(s: &Vec<char>, from: usize, to: usize) -> (r: Option<u64>)
    requires
        from <= to <= s.len(),
    ensures
        r == bytes_value(s@.subrange(from as int, to as int)),
{
    let ghost w = s@.subrange(from as int, to as int);
    if to - from == 1 && s[from] == '-' {
        assert(w =~= seq!['-']);
        return Some(0);
    }
    proof {
        if w == seq!['-'] {
            assert(w.len() == 1);
            assert(w[0] == s@[from as int]);
        }
    }
    let start = if from < to && s[from] == '+' { from + 1 } else { from };
    assert(s@.subrange(start as int, to as int) =~= (if w.len() > 0 && w[0] == '+' {
        w.drop_first()
    } else {
        w
    }));
    if !check_digits(s, start, to) {
        return None;
    }
    read_number(s, start, to, u64::MAX)
}

fn copy_range(s: &Vec<char>, from: usize, to: usize) -> (r: Vec<char>)
    requires
        from <= to <= s.len(),
    ensures
        r@ == s@.subrange(from as int, to as int),
{
    let mut out: Vec<char> = Vec::new();
    let mut i = from;
    while i < to
        invariant
            from <= i <= to <= s.len(),
            out@ == s@.subrange(from as int, i as int),
        decreases to - i,
    {
        out.push(s[i]);
        i = i + 1;
        assert(out@ =~= s@.subrange(from as int, i as int));
    }
    out
}

fn check_tail(s: &Vec<char>, g: usize) -> (r: bool)
    requires
        g <= s.len(),
    ensures
        r == tail_ok(s@, g as int),
{
    let n = s.len();
    if g == n {
        return true;
    }
    if !(g + 1 < n && s[g] == ' ' && s[g + 1] == '"') {
        return false;
    }
    let h = scan_char(s, g + 2, '"');
    if !(h < n && n - h > 2 && s[h + 1] == ' ' && s[h + 2] == '"') {
        return false;
    }
    scan_char(s, h + 3, '"') == n - 1
}

fn find_layout(s: &Vec<char>) -> (r: Option<(usize, usize, usize, usize, usize, usize)>)
    ensures
        match (r, layout(s@)) {
            (None, None) => true,
            (Some(p), Some(l)) => p.0 == l.ip_end && p.1 == l.time_start && p.2 == l.time_end
                && p.3 == l.status_start && p.4 == l.status_end && p.5 == l.bytes_end
                && l.bytes_end <= s.len(),
            _ => false,
        },
{
    let n = s.len();
    let a = scan_token(s, 0);
    if !(0 < a && a < n && s[a] == ' ') {
        return None;
    }
    let b = scan_token(s, a + 1);
    if !(a + 1 < b && b < n && s[b] == ' ') {
        return None;
    }
    let c = scan_token(s, b + 1);
    if !(b + 1 < c && c < n && n - c > 1 && s[c] == ' ' && s[c + 1] == '[') {
        return None;
    }
    let d = scan_char(s, c + 2, ']');
    if !(c + 2 < d && d < n && n - d > 2 && s[d + 1] == ' ' && s[d + 2] == '"') {
        return None;
    }
    let e = scan_char(s, d + 3, '"');
    if !(e < n && n - e > 1 && s[e + 1] == ' ') {
        return None;
    }
    let f = scan_digits(s, e + 2);
    if !(e + 2 < f && f < n && s[f] == ' ') {
        return None;
    }
    let g = scan_token(s, f + 1);
    if !(f + 1 < g && check_tail(s, g)) {
        return None;
    }
    Some((a, c + 2, d, e + 2, f, g))
}

/// Reads one access-log line. `None` where the line is not a well-formed
/// Combined Log Format line, or its time, status or size does not read.
pub fn parse_log_line(line: &str) -> (r: Option<LogEntry>)
    ensures
        match (r, parse_spec(line@)) {
            (None, None) => true,
            (Some(e), Some(v)) => e@ == v,
            _ => false,
        },
{
    let s = chars_of(line);
    let (a, ts, te, ss, se, g) = match find_layout(&s) {
        None => return None,
        Some(p) => p,
    };
    let time_text = string_of(copy_range(&s, ts, te));
    let timestamp = match parse_log_timestamp(time_text.as_str()) {
        None => return None,
        Some(t) => t,
    };
    let bytes = match read_bytes(&s, se + 1, g) {
        None => return None,
        Some(b) => b,
    };
    proof {
        let st = s@.subrange(ss as int, se as int);
        assert forall|k: int| 0 <= k < st.len() implies is_digit(#[trigger] st[k]) by {
            lemma_digits_run(s@, ss as int, se as int, ss + k);
        }
    }
    let status = match read_number(&s, ss, se, 65535) {
        None => return None,
        Some(v) => v as u16,
    };
    let ip = string_of(copy_range(&s, 0, a));
    Some(LogEntry { ip, timestamp, status, bytes })
}

proof fn lemma_digits_run(s: Seq<char>, i: int, e: int, k: int)
    requires
        0 <= i <= k < e,
        e == digits_end(s, i),
    ensures
        is_digit(s[k]),
    decreases k - i,
{
    if k > i {
        lemma_digits_run(s, i + 1, e, k);
    }
}

} // verus!
