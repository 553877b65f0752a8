//! The electrical unit of a data column.

use vstd::prelude::*;

verus! {

#[derive(Debug, Clone, Copy, PartialEq, Eq, Structural)]
pub enum Unit {
    Voltage,
    Current,
    Seconds,
}

impl Unit {
    pub fn to_string_concise(&self) -> (r: &str)
        ensures
            r@ == match self {
                Unit::Voltage => "V"@,
                Unit::Current => "I"@,
                Unit::Seconds => "T"@,
            },
    {
        match self {
            Unit::Voltage => "V",
            Unit::Current => "I",
            Unit::Seconds => "T",
        }
    }
}

} // verus!
