//! Parser and aggregator for a line-oriented game-server admin log.
//!
//! Each log line is either a chat message, a race-time result, or a
//! track-loading notice.  The parser turns one raw line into a typed
//! [`event::Line`] (or nothing, for lines in no known format), and the
//! aggregation state folds the resulting events into a per-track table of
//! each player's best (minimum) completion time.

pub mod aggregate;
pub mod event;
pub mod laws;
pub mod parse;
pub mod process;
pub mod report;
pub mod strutil;
