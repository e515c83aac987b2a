//! Access-log analysis: parsing of Combined Log Format lines, filtering by
//! time window and status class, and aggregation into a statistics report.

pub mod text;
pub mod time;
pub mod parse;
pub mod filter;
pub mod tally;
pub mod rank;
pub mod stats;
pub mod laws;
