//! A terminal's operating mode and its numeric parameters.

use crate::decimal::Decimal;
use crate::grid::{num_at, text_at, MyRange};
use crate::measurement::offsets::{offset_of, offset_table, OffsetField};
use crate::measurement::testparameter::TestType;
use crate::text::str_eq;
use vstd::prelude::*;

verus! {

#[derive(Debug, Clone, Copy, PartialEq, Eq, Structural)]
pub enum OpModeType {
    VoltageBias,
    VoltageLinearSweep,
    VoltageStep,
    CurrentBias,
    CurrentLinearSweep,
    CurrentStep,
    Common,
    Floating,
}

/// Operating mode: a bias mode carries one value, a sweep or step mode
/// a start/stop/step triple, common and floating none.  A parameter
/// cell that fails to parse is softly absent.
#[derive(Debug, Clone, Copy, PartialEq, Eq, Structural)]
pub struct OpMode {
    pub op_type: OpModeType,
    pub bias: Option<Decimal>,
    pub start: Option<Decimal>,
    pub stop: Option<Decimal>,
    pub stepsize: Option<Decimal>,
}

/// The mode label of a column sits in its fourth cell.
pub open spec fn op_type_v(s: Seq<char>) -> Option<OpModeType> {
    if s == "Voltage Bias"@ {
        Some(OpModeType::VoltageBias)
    } else if s == "Current Bias"@ {
        Some(OpModeType::CurrentBias)
    } else if s == "Voltage Linear Sweep"@ {
        Some(OpModeType::VoltageLinearSweep)
    } else if s == "Current Linear Sweep"@ {
        Some(OpModeType::CurrentLinearSweep)
    } else if s == "Voltage Step"@ {
        Some(OpModeType::VoltageStep)
    } else if s == "Current Step"@ {
        Some(OpModeType::CurrentStep)
    } else if s == "Common"@ {
        Some(OpModeType::Common)
    } else if s == "Floating"@ {
        Some(OpModeType::Floating)
    } else {
        None
    }
}

/// The full operating-mode decode of a column under a test mode.
pub open spec fn opmode_v(g: MyRange, tt: TestType) -> Option<OpMode> {
    match text_at(g, 3, 0) {
        None => None,
        Some(label) => match op_type_v(label) {
            None => None,
            Some(op_type) => Some(
                match op_type {
                    OpModeType::VoltageBias | OpModeType::CurrentBias => OpMode {
                        op_type,
                        bias: num_at(g, offset_table(OffsetField::BiasOrStart, tt), 0),
                        start: None,
                        stop: None,
                        stepsize: None,
                    },
                    OpModeType::Common | OpModeType::Floating => OpMode {
                        op_type,
                        bias: None,
                        start: None,
                        stop: None,
                        stepsize: None,
                    },
                    _ => OpMode {
                        op_type,
                        bias: None,
                        start: num_at(g, offset_table(OffsetField::BiasOrStart, tt), 0),
                        stop: num_at(g, offset_table(OffsetField::Stop, tt), 0),
                        stepsize: num_at(g, offset_table(OffsetField::StepSize, tt), 0),
                    },
                },
            ),
        },
    }
}

impl OpMode {
    /// Decode the operating mode of a settings column.
    pub fn extract(column: &MyRange, test_type: &TestType) -> (r: Option<OpMode>)
        requires
            column.wf(),
        ensures
            r == opmode_v(*column, *test_type),
    {
        let label = match column.get_text(3, 0) {
            Some(s) => s,
            None => {
                return None;
            },
        };
        let op_type = if str_eq(label.as_str(), "Voltage Bias") {
            OpModeType::VoltageBias
        } else if str_eq(label.as_str(), "Current Bias") {
            OpModeType::CurrentBias
        } else if str_eq(label.as_str(), "Voltage Linear Sweep") {
            OpModeType::VoltageLinearSweep
        } else if str_eq(label.as_str(), "Current Linear Sweep") {
            OpModeType::CurrentLinearSweep
        } else if str_eq(label.as_str(), "Voltage Step") {
            OpModeType::VoltageStep
        } else if str_eq(label.as_str(), "Current Step") {
            OpModeType::CurrentStep
        } else if str_eq(label.as_str(), "Common") {
            OpModeType::Common
        } else if str_eq(label.as_str(), "Floating") {
            OpModeType::Floating
        } else {
            return None;
        };
        match op_type {
            OpModeType::VoltageBias | OpModeType::CurrentBias => {
                let bias = column.get_decimal(offset_of(OffsetField::BiasOrStart, test_type), 0);
                Some(OpMode { op_type, bias, start: None, stop: None, stepsize: None })
            },
            OpModeType::Common | OpModeType::Floating => {
                Some(OpMode { op_type, bias: None, start: None, stop: None, stepsize: None })
            },
            _ => {
                let start = column.get_decimal(offset_of(OffsetField::BiasOrStart, test_type), 0);
                let stop = column.get_decimal(offset_of(OffsetField::Stop, test_type), 0);
                let stepsize = column.get_decimal(offset_of(OffsetField::StepSize, test_type), 0);
                Some(OpMode { op_type, bias: None, start, stop, stepsize })
            },
        }
    }
}

} // verus!
