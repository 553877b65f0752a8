//! A terminal's voltage-range descriptor.

use crate::grid::{text_at, MyRange};
use crate::measurement::offsets::{offset_of, offset_table, OffsetField};
use crate::measurement::testparameter::TestType;
use crate::text::str_eq;
use vstd::prelude::*;

verus! {

#[derive(Debug, Clone, Copy, PartialEq, Eq, Structural)]
pub enum VRange {
    BestFixed,
}

/// The voltage-range cell of a column under a test mode; softly absent
/// unless it reads "Best Fixed".
pub open spec fn vrange_v(g: MyRange, tt: TestType) -> Option<VRange> {
    match text_at(g, offset_table(OffsetField::VoltageRange, tt), 0) {
        Some(s) => {
            if s == "Best Fixed"@ {
                Some(VRange::BestFixed)
            } else {
                None
            }
        },
        None => None,
    }
}

impl VRange {
    /// Decode the voltage-range cell of a settings column.
    pub fn extract(column: &MyRange, test_type: &TestType) -> (r: Option<VRange>)
        requires
            column.wf(),
        ensures
            r == vrange_v(*column, *test_type),
    {
        match column.get_text(offset_of(OffsetField::VoltageRange, test_type), 0) {
            Some(s) => {
                if str_eq(s.as_str(), "Best Fixed") {
                    Some(VRange::BestFixed)
                } else {
                    None
                }
            },
            None => None,
        }
    }
}

} // verus!
