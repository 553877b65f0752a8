//! The run-wide parameter block of a settings sheet.

use crate::decimal::Decimal;
use crate::grid::{text_at, MyRange};
use crate::text::str_eq;
use vstd::prelude::*;

verus! {

/// The two test-mode variants.  The mode decides which offset-table
/// row applies to every later decode on the run.
#[derive(Debug, Clone, Copy, PartialEq, Eq, Structural)]
pub enum TestType {
    Sampling,
    Sweeping,
}

#[derive(Debug, Clone, Copy, PartialEq, Eq, Structural)]
pub enum MeasurementSpeed {
    Fast,
    Normal,
    Quiet,
    Custom,
}

/// Run-wide test parameters, decoded from rows 4..=7 of a run block.
#[derive(Debug, Clone, Copy, PartialEq, Eq, Structural)]
pub struct TestParameter {
    pub test_type: TestType,
    pub measurement_speed: MeasurementSpeed,
    pub ad_aperture: Option<Decimal>,
    pub filter_factor: Option<Decimal>,
    pub interval_time: Option<Decimal>,
    pub sweep_delay_time: Option<Decimal>,
    pub hold_time: Decimal,
}

/// The speed label; any unknown label means a custom speed.
pub open spec fn speed_v(s: Seq<char>) -> MeasurementSpeed {
    if s == "Fast"@ {
        MeasurementSpeed::Fast
    } else if s == "Normal"@ {
        MeasurementSpeed::Normal
    } else if s == "Quiet"@ {
        MeasurementSpeed::Quiet
    } else {
        MeasurementSpeed::Custom
    }
}

/// The parameter block of a run: the mode label at (4,1) selects the
/// variant; the speed cell (5,1), the delay cell (6,1) and the hold
/// cell (7,1) must hold text; the delay value is optional, the hold
/// value mandatory.
pub open spec fn test_parameter_v(g: MyRange) -> Option<TestParameter> {
    match text_at(g, 4, 1) {
        None => None,
        Some(mode) => {
            if mode == "Sweeping"@ || mode == "Sampling"@ {
                let sweeping = mode == "Sweeping"@;
                match (text_at(g, 5, 1), text_at(g, 6, 1), text_at(g, 7, 1)) {
                    (Some(speed), Some(delay), Some(hold)) => {
                        match crate::decimal::parse_decimal_v(hold) {
                            None => None,
                            Some(hold_time) => Some(
                                TestParameter {
                                    test_type: if sweeping {
                                        TestType::Sweeping
                                    } else {
                                        TestType::Sampling
                                    },
                                    measurement_speed: speed_v(speed),
                                    ad_aperture: None,
                                    filter_factor: None,
                                    interval_time: if sweeping {
                                        None
                                    } else {
                                        crate::decimal::parse_decimal_v(delay)
                                    },
                                    sweep_delay_time: if sweeping {
                                        crate::decimal::parse_decimal_v(delay)
                                    } else {
                                        None
                                    },
                                    hold_time,
                                },
                            ),
                        }
                    },
                    _ => None,
                }
            } else {
                None
            }
        },
    }
}

impl TestParameter {
    /// Decode the run-wide parameters from a run block.
    pub fn extract(sheet: &MyRange) -> (r: Option<TestParameter>)
        requires
            sheet.wf(),
        ensures
            r == test_parameter_v(*sheet),
    {
        let mode = match sheet.get_text(4, 1) {
            Some(s) => s,
            None => {
                return None;
            },
        };
        let sweeping = str_eq(mode.as_str(), "Sweeping");
        if !sweeping && !str_eq(mode.as_str(), "Sampling") {
            return None;
        }
        let speed_s = match sheet.get_text(5, 1) {
            Some(s) => s,
            None => {
                return None;
            },
        };
        let delay_s = match sheet.get_text(6, 1) {
            Some(s) => s,
            None => {
                return None;
            },
        };
        let hold_s = match sheet.get_text(7, 1) {
            Some(s) => s,
            None => {
                return None;
            },
        };
        let hold_time = match crate::decimal::parse_decimal(hold_s.as_str()) {
            Some(d) => d,
            None => {
                return None;
            },
        };
        let measurement_speed = if str_eq(speed_s.as_str(), "Fast") {
            MeasurementSpeed::Fast
        } else if str_eq(speed_s.as_str(), "Normal") {
            MeasurementSpeed::Normal
        } else if str_eq(speed_s.as_str(), "Quiet") {
            MeasurementSpeed::Quiet
        } else {
            MeasurementSpeed::Custom
        };
        let delay = crate::decimal::parse_decimal(delay_s.as_str());
        if sweeping {
            Some(
                TestParameter {
                    test_type: TestType::Sweeping,
                    measurement_speed,
                    ad_aperture: None,
                    filter_factor: None,
                    interval_time: None,
                    sweep_delay_time: delay,
                    hold_time,
                },
            )
        } else {
            Some(
                TestParameter {
                    test_type: TestType::Sampling,
                    measurement_speed,
                    ad_aperture: None,
                    filter_factor: None,
                    interval_time: delay,
                    sweep_delay_time: None,
                    hold_time,
                },
            )
        }
    }
}

} // verus!
