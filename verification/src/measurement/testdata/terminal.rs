//! The probe point a data column belongs to; the time axis counts as
//! its own terminal.

use crate::measurement::terminal_parameter::terminal::Terminal as SettingTerminal;
use vstd::prelude::*;

verus! {

#[derive(Debug, Clone, Copy, PartialEq, Eq, Structural)]
pub enum Terminal {
    Gate,
    Drain,
    Source,
    Bulk,
    Time,
}

impl Terminal {
    pub fn to_string_concise(&self) -> (r: &str)
        ensures
            r@ == match self {
                Terminal::Bulk => "b"@,
                Terminal::Drain => "d"@,
                Terminal::Gate => "g"@,
                Terminal::Source => "s"@,
                Terminal::Time => "T"@,
            },
    {
        match self {
            Terminal::Bulk => "b",
            Terminal::Drain => "d",
            Terminal::Gate => "g",
            Terminal::Source => "s",
            Terminal::Time => "T",
        }
    }
}

impl From<SettingTerminal> for Terminal {
    fn from(setting_terminal: SettingTerminal) -> (r: Self) {
        match setting_terminal {
            SettingTerminal::Bulk => Terminal::Bulk,
            SettingTerminal::Drain => Terminal::Drain,
            SettingTerminal::Gate => Terminal::Gate,
            SettingTerminal::Source => Terminal::Source,
        }
    }
}

impl vstd::std_specs::convert::FromSpecImpl<SettingTerminal> for Terminal {
    open spec fn obeys_from_spec() -> bool {
        true
    }

    open spec fn from_spec(setting_terminal: SettingTerminal) -> Terminal {
        match setting_terminal {
            SettingTerminal::Bulk => Terminal::Bulk,
            SettingTerminal::Drain => Terminal::Drain,
            SettingTerminal::Gate => Terminal::Gate,
            SettingTerminal::Source => Terminal::Source,
        }
    }
}

} // verus!
