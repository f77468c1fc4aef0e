//! Turns a JSON Lines log of API requests into a traffic report: counts of
//! lines by kind, request tallies by client, endpoint and status code, and
//! per-client rate-limit violations in fixed ten-second UTC buckets.

pub mod order;
pub mod tally;
pub mod ids;
pub mod timestamp;
pub mod record;
pub mod blank_scan;
pub mod keys;
pub mod rate_limit;
pub mod aggregate;
pub mod report;
pub mod laws;
