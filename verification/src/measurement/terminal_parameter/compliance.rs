//! A terminal's current-limit cell.

use crate::decimal::Decimal;
use crate::grid::{num_at, MyRange};
use crate::measurement::offsets::{offset_of, offset_table, OffsetField};
use crate::measurement::testparameter::TestType;
use vstd::prelude::*;

verus! {

/// The compliance limit of a column under a test mode; softly absent
/// when missing or unparseable.
pub open spec fn compliance_v(g: MyRange, tt: TestType) -> Option<Decimal> {
    num_at(g, offset_table(OffsetField::Compliance, tt), 0)
}

/// Decode the compliance limit of a settings column.
pub fn extract(column: &MyRange, test_type: &TestType) -> (r: Option<Decimal>)
    requires
        column.wf(),
    ensures
        r == compliance_v(*column, *test_type),
{
    column.get_decimal(offset_of(OffsetField::Compliance, test_type), 0)
}

} // verus!
