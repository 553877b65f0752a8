//! The per-field, per-test-mode row offsets of a terminal column.
//!
//! The instrument export is not self-describing: what a row means
//! depends entirely on the run's test mode.  This table is the format
//! specification that every terminal decoder keys off.

use crate::measurement::testparameter::TestType;
use vstd::prelude::*;

verus! {

/// The logical fields a terminal column carries.
#[derive(Debug, Clone, Copy, PartialEq, Eq, Structural)]
pub enum OffsetField {
    BiasOrStart,
    Stop,
    StepSize,
    Compliance,
    CurrentMeasured,
    VoltageMeasured,
    CurrentRange,
    VoltageRange,
}

/// Row offset of a field within a terminal column, per test mode.
pub open spec fn offset_table(f: OffsetField, tt: TestType) -> int {
    match tt {
        TestType::Sweeping => match f {
            OffsetField::BiasOrStart => 5,
            OffsetField::Stop => 6,
            OffsetField::StepSize => 7,
            OffsetField::Compliance => 9,
            OffsetField::CurrentMeasured => 10,
            OffsetField::VoltageMeasured => 11,
            OffsetField::CurrentRange => 12,
            OffsetField::VoltageRange => 13,
        },
        TestType::Sampling => match f {
            OffsetField::BiasOrStart => 4,
            OffsetField::Stop => 4,
            OffsetField::StepSize => 4,
            OffsetField::Compliance => 6,
            OffsetField::CurrentMeasured => 7,
            OffsetField::VoltageMeasured => 8,
            OffsetField::CurrentRange => 9,
            OffsetField::VoltageRange => 10,
        },
    }
}

pub fn offset_of(f: OffsetField, tt: &TestType) -> (r: usize)
    ensures
        r == offset_table(f, *tt),
{
    match tt {
        TestType::Sweeping => match f {
            OffsetField::BiasOrStart => 5,
            OffsetField::Stop => 6,
            OffsetField::StepSize => 7,
            OffsetField::Compliance => 9,
            OffsetField::CurrentMeasured => 10,
            OffsetField::VoltageMeasured => 11,
            OffsetField::CurrentRange => 12,
            OffsetField::VoltageRange => 13,
        },
        TestType::Sampling => match f {
            OffsetField::BiasOrStart => 4,
            OffsetField::Stop => 4,
            OffsetField::StepSize => 4,
            OffsetField::CurrentMeasured => 7,
            OffsetField::Compliance => 6,
            OffsetField::VoltageMeasured => 8,
            OffsetField::CurrentRange => 9,
            OffsetField::VoltageRange => 10,
        },
    }
}

/// In either mode, fields of distinct meaning sit in distinct rows.
/// The one sharing is deliberate: in Sampling mode the sweep triple
/// collapses into the single bias slot.
pub proof fn lemma_offsets_disjoint(f1: OffsetField, f2: OffsetField, tt: TestType)
    requires
        f1 != f2,
        !(matches!(f1, OffsetField::BiasOrStart | OffsetField::Stop | OffsetField::StepSize)
            && matches!(f2, OffsetField::BiasOrStart | OffsetField::Stop | OffsetField::StepSize)),
    ensures
        offset_table(f1, tt) != offset_table(f2, tt),
{
}

} // verus!
