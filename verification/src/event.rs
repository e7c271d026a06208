//! The typed events read out of the log, and their mathematical models.

use vstd::prelude::*;

verus! {

/// A wall-clock instant, as the plain calendar and clock fields read from a
/// log line's `YYYY/MM/DD HH:MM:SS` stamp.  The aggregation logic never
/// inspects these fields; they are carried through for the caller.
#[derive(Clone, Copy, PartialEq, Eq, Structural, Debug)]
pub struct Timestamp {
    pub year: i32,
    pub month: u32,
    pub day: u32,
    pub hour: u32,
    pub minute: u32,
    pub second: u32,
}

/// One successfully parsed log line.  Exactly one variant applies; string
/// fields may be empty but are never absent, and a race time is a
/// non-negative whole number of milliseconds.
#[derive(PartialEq, Eq, Debug)]
pub enum Line {
    Chat { ts: Timestamp, from: String, to: String, message: String },
    Time { ts: Timestamp, from: String, nick: String, time: u64 },
    Loading { ts: Timestamp, track: String },
}

/// The mathematical model of a [`Line`]: the same shape with every string
/// replaced by its character sequence.
pub ghost enum LineModel {
    Chat { ts: Timestamp, from: Seq<char>, to: Seq<char>, message: Seq<char> },
    Time { ts: Timestamp, from: Seq<char>, nick: Seq<char>, time: u64 },
    Loading { ts: Timestamp, track: Seq<char> },
}

impl View for Line {
    type V = LineModel;

    open spec fn view(&self) -> LineModel {
        match self {
            Line::Chat { ts, from, to, message } => LineModel::Chat {
                ts: *ts,
                from: from@,
                to: to@,
                message: message@,
            },
            Line::Time { ts, from, nick, time } => LineModel::Time {
                ts: *ts,
                from: from@,
                nick: nick@,
                time: *time,
            },
            Line::Loading { ts, track } => LineModel::Loading { ts: *ts, track: track@ },
        }
    }
}

/// The model of an optional parse result.
pub open spec fn option_line_view(r: Option<Line>) -> Option<LineModel> {
    match r {
        Some(l) => Some(l@),
        None => None,
    }
}

} // verus!
