//! The free-text timestamp cell of a run block.

use crate::grid::{text_at, MyRange};
use crate::text::{parse_dec, parse_dec_str, split_char, tokens};
use vstd::prelude::*;

verus! {

/// Calendar date and wall-clock time of a run, exactly as written.
#[derive(Debug, Clone, Copy, PartialEq, Eq, Structural, Hash)]
pub struct TimeStamp {
    pub year: u16,
    pub month: u8,
    pub day: u8,
    pub hour: u8,
    pub minute: u8,
    pub second: u8,
}

/// A calendar day, the key of identifier counters.
#[derive(Debug, Clone, Copy, PartialEq, Eq, Structural, Hash)]
pub struct Date {
    pub year: u16,
    pub month: u8,
    pub day: u8,
}

impl From<TimeStamp> for Date {
    fn from(timestamp: TimeStamp) -> (r: Self) {
        Date { year: timestamp.year, month: timestamp.month, day: timestamp.day }
    }
}

impl vstd::std_specs::convert::FromSpecImpl<TimeStamp> for Date {
    open spec fn obeys_from_spec() -> bool {
        true
    }

    open spec fn from_spec(timestamp: TimeStamp) -> Date {
        Date { year: timestamp.year, month: timestamp.month, day: timestamp.day }
    }
}

/// The numeral in piece `i`, bounded by `max`; a missing piece counts
/// as zero.
pub open spec fn piece_val(parts: Seq<Seq<char>>, i: int, max: int) -> Option<int> {
    if i < parts.len() {
        parse_dec(parts[i], max)
    } else {
        Some(0)
    }
}

/// A timestamp text: the first whitespace token is `month/day/year`
/// (the instrument writes month first), the second is
/// `hour:minute:second`.  A missing slash or colon piece counts as
/// zero; an unparseable piece fails the decode.
pub open spec fn parse_timestamp_v(s: Seq<char>) -> Option<TimeStamp> {
    let toks = tokens(s, false);
    if toks.len() < 2 {
        None
    } else {
        let dparts = split_char(toks[0], '/');
        let tparts = split_char(toks[1], ':');
        match (
            piece_val(dparts, 0, 255),
            piece_val(dparts, 1, 255),
            piece_val(dparts, 2, 65535),
            piece_val(tparts, 0, 255),
            piece_val(tparts, 1, 255),
            piece_val(tparts, 2, 255),
        ) {
            (Some(month), Some(day), Some(year), Some(hour), Some(minute), Some(second)) => Some(
                TimeStamp {
                    year: year as u16,
                    month: month as u8,
                    day: day as u8,
                    hour: hour as u8,
                    minute: minute as u8,
                    second: second as u8,
                },
            ),
            _ => None,
        }
    }
}

/// The timestamp of a run block sits at (9, 1).
pub open spec fn timestamp_v(g: MyRange) -> Option<TimeStamp> {
    match text_at(g, 9, 1) {
        Some(s) => parse_timestamp_v(s),
        None => None,
    }
}

/// The numeral in piece `i` of `parts`, executable side.
fn piece_val_ex(parts: &Vec<String>, i: usize, max: u64, Ghost(view): Ghost<Seq<Seq<char>>>) -> (r:
    Option<u64>)
    requires
        parts@.map_values(|t: String| t@) == view,
        max <= u64::MAX,
    ensures
        match r {
            Some(v) => piece_val(view, i as int, max as int) == Some(v as int),
            None => piece_val(view, i as int, max as int) is None,
        },
{
    if i < parts.len() {
        proof {
            assert(view[i as int] == parts@[i as int]@);
        }
        parse_dec_str(parts[i].as_str(), max)
    } else {
        Some(0)
    }
}

impl TimeStamp {
    /// Decode the timestamp cell of a run block.
    pub fn extract(sheet: &MyRange) -> (r: Option<TimeStamp>)
        requires
            sheet.wf(),
        ensures
            r == timestamp_v(*sheet),
    {
        let raw = match sheet.get_text(9, 1) {
            Some(s) => s,
            None => {
                return None;
            },
        };
        let toks = crate::text::tokenize(raw.as_str(), false);
        if toks.len() < 2 {
            return None;
        }
        proof {
            assert(tokens(raw@, false)[0] == toks@[0]@);
            assert(tokens(raw@, false)[1] == toks@[1]@);
        }
        let dparts = crate::text::split_all(toks[0].as_str(), '/');
        let tparts = crate::text::split_all(toks[1].as_str(), ':');
        let ghost dv = split_char(tokens(raw@, false)[0], '/');
        let ghost tv = split_char(tokens(raw@, false)[1], ':');
        let month = match piece_val_ex(&dparts, 0, 255, Ghost(dv)) {
            Some(v) => v,
            None => {
                return None;
            },
        };
        let day = match piece_val_ex(&dparts, 1, 255, Ghost(dv)) {
            Some(v) => v,
            None => {
                return None;
            },
        };
        let year = match piece_val_ex(&dparts, 2, 65535, Ghost(dv)) {
            Some(v) => v,
            None => {
                return None;
            },
        };
        let hour = match piece_val_ex(&tparts, 0, 255, Ghost(tv)) {
            Some(v) => v,
            None => {
                return None;
            },
        };
        let minute = match piece_val_ex(&tparts, 1, 255, Ghost(tv)) {
            Some(v) => v,
            None => {
                return None;
            },
        };
        let second = match piece_val_ex(&tparts, 2, 255, Ghost(tv)) {
            Some(v) => v,
            None => {
                return None;
            },
        };
        Some(
            TimeStamp {
                year: year as u16,
                month: month as u8,
                day: day as u8,
                hour: hour as u8,
                minute: minute as u8,
                second: second as u8,
            },
        )
    }
}

} // verus!
