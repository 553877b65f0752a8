//! Whether a terminal's voltage or current was measured or programmed.

use crate::grid::{text_at, MyRange};
use crate::measurement::offsets::{offset_of, offset_table, OffsetField};
use crate::measurement::testparameter::TestType;
use crate::text::str_eq;
use vstd::prelude::*;

verus! {

#[derive(Debug, Clone, Copy, PartialEq, Eq, Structural)]
pub enum UnitMeasured {
    Measured,
    Programmed,
}

/// Which electrical unit a measured/programmed flag belongs to.
#[derive(Debug, Clone, Copy, PartialEq, Eq, Structural)]
pub enum UnitType {
    Voltage,
    Current,
}

pub open spec fn measured_field(unit: UnitType) -> OffsetField {
    match unit {
        UnitType::Voltage => OffsetField::VoltageMeasured,
        UnitType::Current => OffsetField::CurrentMeasured,
    }
}

/// The measured/programmed flag of a column for one unit under a test
/// mode; softly absent when missing or not a known label.
pub open spec fn measured_v(g: MyRange, tt: TestType, unit: UnitType) -> Option<UnitMeasured> {
    match text_at(g, offset_table(measured_field(unit), tt), 0) {
        Some(s) => {
            if s == "Measured"@ {
                Some(UnitMeasured::Measured)
            } else if s == "Programmed"@ {
                Some(UnitMeasured::Programmed)
            } else {
                None
            }
        },
        None => None,
    }
}

/// Decode the measured/programmed flag of a settings column.
pub fn extract(column: &MyRange, test_type: &TestType, unit: UnitType) -> (r: Option<UnitMeasured>)
    requires
        column.wf(),
    ensures
        r == measured_v(*column, *test_type, unit),
{
    let field = match unit {
        UnitType::Voltage => OffsetField::VoltageMeasured,
        UnitType::Current => OffsetField::CurrentMeasured,
    };
    match column.get_text(offset_of(field, test_type), 0) {
        Some(s) => {
            if str_eq(s.as_str(), "Measured") {
                Some(UnitMeasured::Measured)
            } else if str_eq(s.as_str(), "Programmed") {
                Some(UnitMeasured::Programmed)
            } else {
                None
            }
        },
        None => None,
    }
}

} // verus!
