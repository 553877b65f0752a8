//! Decoding one terminal's settings column.
//!
//! A terminal column starts at the fifteenth row of a run block.  Its
//! first cells name the terminal, the instrument and the operating
//! mode; the remaining fields sit at rows given by the offset table
//! for the run's test mode.

use crate::decimal::Decimal;
use crate::grid::MyRange;
use crate::measurement::testparameter::TestType;
use vstd::prelude::*;

pub mod compliance;

pub mod crange;

pub mod instrument;

pub mod measured;

pub mod opmode;

pub mod terminal;

pub mod vrange;

verus! {

/// Everything decoded from one terminal column.  Terminal, instrument
/// and operating mode are mandatory; the rest is softly optional.
#[derive(Debug, PartialEq)]
pub struct TerminalParameter {
    pub terminal: terminal::Terminal,
    pub instrument: instrument::Instrument,
    pub operational_mode: opmode::OpMode,
    pub compliance: Option<Decimal>,
    pub voltage: Option<measured::UnitMeasured>,
    pub voltage_range: Option<vrange::VRange>,
    pub current: Option<measured::UnitMeasured>,
    pub current_range: Option<crange::CRange>,
}

/// Ghost image of a terminal column decode.
pub struct TerminalParameterV {
    pub terminal: terminal::Terminal,
    pub instrument: instrument::Instrument,
    pub operational_mode: opmode::OpMode,
    pub compliance: Option<Decimal>,
    pub voltage: Option<measured::UnitMeasured>,
    pub voltage_range: Option<vrange::VRange>,
    pub current: Option<measured::UnitMeasured>,
    pub current_range: Option<crange::CRangeV>,
}

impl View for TerminalParameter {
    type V = TerminalParameterV;

    open spec fn view(&self) -> TerminalParameterV {
        TerminalParameterV {
            terminal: self.terminal,
            instrument: self.instrument,
            operational_mode: self.operational_mode,
            compliance: self.compliance,
            voltage: self.voltage,
            voltage_range: self.voltage_range,
            current: self.current,
            current_range: match &self.current_range {
                Some(c) => Some(c@),
                None => None,
            },
        }
    }
}

impl Clone for TerminalParameter {
    fn clone(&self) -> (r: Self)
        ensures
            r@ == self@,
    {
        TerminalParameter {
            terminal: self.terminal,
            instrument: self.instrument,
            operational_mode: self.operational_mode,
            compliance: self.compliance,
            voltage: self.voltage,
            voltage_range: self.voltage_range,
            current: self.current,
            current_range: match &self.current_range {
                Some(c) => Some(c.clone()),
                None => None,
            },
        }
    }
}

/// The full decode of a terminal column: `None` when the terminal, the
/// instrument or the operating mode cannot be read.
pub open spec fn terminal_parameter_v(g: MyRange, tt: TestType) -> Option<TerminalParameterV> {
    match (terminal::terminal_v(g), instrument::instrument_v(g), opmode::opmode_v(g, tt)) {
        (Some(term), Some(inst), Some(op)) => Some(
            TerminalParameterV {
                terminal: term,
                instrument: inst,
                operational_mode: op,
                compliance: compliance::compliance_v(g, tt),
                voltage: measured::measured_v(g, tt, measured::UnitType::Voltage),
                voltage_range: vrange::vrange_v(g, tt),
                current: measured::measured_v(g, tt, measured::UnitType::Current),
                current_range: crange::crange_v(g, tt),
            },
        ),
        _ => None,
    }
}

impl TerminalParameter {
    /// Decode one terminal column under the run's test mode.
    pub fn extract(column: &MyRange, test_type: &TestType) -> (r: Option<TerminalParameter>)
        requires
            column.wf(),
        ensures
            match r {
                Some(tp) => terminal_parameter_v(*column, *test_type) == Some(tp@),
                None => terminal_parameter_v(*column, *test_type) is None,
            },
    {
        let term = match terminal::Terminal::extract(column) {
            Some(t) => t,
            None => {
                return None;
            },
        };
        let inst = match instrument::Instrument::extract(column) {
            Some(t) => t,
            None => {
                return None;
            },
        };
        let op = match opmode::OpMode::extract(column, test_type) {
            Some(t) => t,
            None => {
                return None;
            },
        };
        Some(
            TerminalParameter {
                terminal: term,
                instrument: inst,
                operational_mode: op,
                compliance: compliance::extract(column, test_type),
                voltage: measured::extract(column, test_type, measured::UnitType::Voltage),
                voltage_range: vrange::VRange::extract(column, test_type),
                current: measured::extract(column, test_type, measured::UnitType::Current),
                current_range: crange::CRange::extract(column, test_type),
            },
        )
    }
}

} // verus!
