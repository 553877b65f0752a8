//! The source-measure or pulse unit wired to a terminal.

use crate::grid::{text_at, MyRange};
use crate::text::str_eq;
use vstd::prelude::*;

verus! {

#[derive(Debug, Clone, Copy, PartialEq, Eq, Structural)]
pub enum Instrument {
    SMU1,
    SMU2,
    SMU3,
    SMU4,
    GNDU,
    PMU1,
    PMU2,
    PMU3,
    PMU4,
}

/// The instrument label of a column sits in its second cell.
pub open spec fn instrument_v(g: MyRange) -> Option<Instrument> {
    match text_at(g, 1, 0) {
        Some(s) => {
            if s == "SMU1"@ {
                Some(Instrument::SMU1)
            } else if s == "SMU2"@ {
                Some(Instrument::SMU2)
            } else if s == "SMU3"@ {
                Some(Instrument::SMU3)
            } else if s == "SMU4"@ {
                Some(Instrument::SMU4)
            } else if s == "GNDU"@ {
                Some(Instrument::GNDU)
            } else if s == "PMU1"@ {
                Some(Instrument::PMU1)
            } else if s == "PMU2"@ {
                Some(Instrument::PMU2)
            } else if s == "PMU3"@ {
                Some(Instrument::PMU3)
            } else if s == "PMU4"@ {
                Some(Instrument::PMU4)
            } else {
                None
            }
        },
        None => None,
    }
}

impl Instrument {
    /// Decode the instrument label of a settings column.
    pub fn extract(column: &MyRange) -> (r: Option<Instrument>)
        requires
            column.wf(),
        ensures
            r == instrument_v(*column),
    {
        match column.get_text(1, 0) {
            Some(s) => {
                if str_eq(s.as_str(), "SMU1") {
                    Some(Instrument::SMU1)
                } else if str_eq(s.as_str(), "SMU2") {
                    Some(Instrument::SMU2)
                } else if str_eq(s.as_str(), "SMU3") {
                    Some(Instrument::SMU3)
                } else if str_eq(s.as_str(), "SMU4") {
                    Some(Instrument::SMU4)
                } else if str_eq(s.as_str(), "GNDU") {
                    Some(Instrument::GNDU)
                } else if str_eq(s.as_str(), "PMU1") {
                    Some(Instrument::PMU1)
                } else if str_eq(s.as_str(), "PMU2") {
                    Some(Instrument::PMU2)
                } else if str_eq(s.as_str(), "PMU3") {
                    Some(Instrument::PMU3)
                } else if str_eq(s.as_str(), "PMU4") {
                    Some(Instrument::PMU4)
                } else {
                    None
                }
            },
            None => None,
        }
    }
}

} // verus!
