use vstd::prelude::*;
use crate::parse::{EntryView, LogEntry};
use crate::text::chars_of;
use crate::time::{is_not_after, not_after, Timestamp};

verus! {

/// Which entries the analysis counts: an inclusive time window, each end
/// optional, and an optional status class (`2xx`, `3xx`, `4xx`, `5xx`; any
/// other text selects every status).
#[derive(Debug)]
pub struct FilterConfig {
    pub from: Option<Timestamp>,
    pub to: Option<Timestamp>,
    pub status: Option<String>,
}

/// The mathematical value of a [`FilterConfig`].
pub struct FilterView {
    pub from: Option<Timestamp>,
    pub to: Option<Timestamp>,
    pub status: Option<Seq<char>>,
}

impl View for FilterConfig {
    type V = FilterView;

    open spec fn view(&self) -> FilterView {
        FilterView {
            from: self.from,
            to: self.to,
            status: match self.status {
                Some(s) => Some(s@),
                None => None,
            },
        }
    }
}

/// The lowest status of the class that `f` names, if it names one of
/// `2xx`, `3xx`, `4xx`, `5xx`.
pub open spec fn status_class(f: Seq<char>) -> Option<int> {
    if f.len() == 3 && f[1] == 'x' && f[2] == 'x' {
        if f[0] == '2' {
            Some(200)
        } else if f[0] == '3' {
            Some(300)
        } else if f[0] == '4' {
            Some(400)
        } else if f[0] == '5' {
            Some(500)
        } else {
            None
        }
    } else {
        None
    }
}

/// Whether `status` passes the status filter: no filter, or a text that
/// names no class, lets every status through; a class lets through the
/// hundred statuses it starts.
pub open spec fn status_allowed(status: int, filter: Option<Seq<char>>) -> bool {
    match filter {
        None => true,
        Some(f) => match status_class(f) {
            None => true,
            Some(lo) => lo <= status < lo + 100,
        },
    }
}

/// Whether an entry passes every filter.
pub open spec fn accepts_spec(e: EntryView, c: FilterView) -> bool {
    &&& (c.from matches Some(f) ==> not_after(f, e.timestamp))
    &&& (c.to matches Some(t) ==> not_after(e.timestamp, t))
    &&& status_allowed(e.status as int, c.status)
}

pub fn matches_status_filter(status: u16, filter: &Option<String>) -> (r: bool)
    ensures
        r == status_allowed(
            status as int,
            match filter {
                Some(s) => Some(s@),
                None => None,
            },
        ),
{
    match filter {
        None => true,
        Some(f) => {
            let c = chars_of(f.as_str());
            if c.len() == 3 && c[1] == 'x' && c[2] == 'x' {
                if c[0] == '2' {
                    200 <= status && status < 300
                } else if c[0] == '3' {
                    300 <= status && status < 400
                } else if c[0] == '4' {
                    400 <= status && status < 500
                } else if c[0] == '5' {
                    500 <= status && status < 600
                } else {
                    true
                }
            } else {
                true
            }
        },
    }
}

impl FilterConfig {
    /// Whether `entry` is counted under this configuration.
    pub fn accepts(&self, entry: &LogEntry) -> (r: bool)
        ensures
            r == accepts_spec(entry@, self@),
    {
        if let Some(f) = &self.from {
            if !is_not_after(f, &entry.timestamp) {
                return false;
            }
        }
        if let Some(t) = &self.to {
            if !is_not_after(&entry.timestamp, t) {
                return false;
            }
        }
        matches_status_filter(entry.status, &self.status)
    }
}

} // verus!
