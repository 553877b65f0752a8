//! A terminal's current-range descriptor.

use crate::grid::{text_at, MyRange};
use crate::measurement::offsets::{offset_of, offset_table, OffsetField};
use crate::measurement::testparameter::TestType;
use crate::text::{after_last_eq, starts_with, str_eq, str_starts_with};
use vstd::prelude::*;

verus! {

/// Current range: auto, or auto limited to the bound written after the
/// `=` of the cell text.
#[derive(Debug, PartialEq)]
pub enum CRange {
    LimitedAuto(String),
    Auto,
}

/// Ghost image of a current range.
pub enum CRangeV {
    LimitedAuto(Seq<char>),
    Auto,
}

impl View for CRange {
    type V = CRangeV;

    open spec fn view(&self) -> CRangeV {
        match self {
            CRange::LimitedAuto(s) => CRangeV::LimitedAuto(s@),
            CRange::Auto => CRangeV::Auto,
        }
    }
}

impl Clone for CRange {
    fn clone(&self) -> (r: Self)
        ensures
            r@ == self@,
    {
        match self {
            CRange::LimitedAuto(s) => CRange::LimitedAuto(s.clone()),
            CRange::Auto => CRange::Auto,
        }
    }
}

/// The current-range cell of a column under a test mode; softly absent
/// unless it reads "Auto" or starts with "Limited".
pub open spec fn crange_v(g: MyRange, tt: TestType) -> Option<CRangeV> {
    match text_at(g, offset_table(OffsetField::CurrentRange, tt), 0) {
        Some(s) => {
            if starts_with(s, "Limited"@) {
                Some(CRangeV::LimitedAuto(after_last_eq(s)))
            } else if s == "Auto"@ {
                Some(CRangeV::Auto)
            } else {
                None
            }
        },
        None => None,
    }
}

impl CRange {
    /// Decode the current-range cell of a settings column.
    pub fn extract(column: &MyRange, test_type: &TestType) -> (r: Option<CRange>)
        requires
            column.wf(),
        ensures
            match r {
                Some(c) => crange_v(*column, *test_type) == Some(c@),
                None => crange_v(*column, *test_type) is None,
            },
    {
        match column.get_text(offset_of(OffsetField::CurrentRange, test_type), 0) {
            Some(s) => {
                if str_starts_with(s.as_str(), "Limited") {
                    Some(CRange::LimitedAuto(crate::text::after_last_eq_str(s.as_str())))
                } else if str_eq(s.as_str(), "Auto") {
                    Some(CRange::Auto)
                } else {
                    None
                }
            },
            None => None,
        }
    }
}

} // verus!
