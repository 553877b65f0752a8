//! The probe point a settings column belongs to.

use crate::grid::{text_at, MyRange};
use crate::text::str_eq;
use vstd::prelude::*;

verus! {

#[derive(Debug, Clone, Copy, PartialEq, Eq, Structural)]
pub enum Terminal {
    Gate,
    Drain,
    Source,
    Bulk,
}

impl Terminal {
    #[allow(dead_code)]
    fn _to_string_concise(&self) -> (r: &str)
        ensures
            r@ == match self {
                Terminal::Bulk => "b"@,
                Terminal::Drain => "d"@,
                Terminal::Gate => "g"@,
                Terminal::Source => "s"@,
            },
    {
        match self {
            Terminal::Bulk => "b",
            Terminal::Drain => "d",
            Terminal::Gate => "g",
            Terminal::Source => "s",
        }
    }
}

/// The terminal label of a column sits in its first cell.
pub open spec fn terminal_v(g: MyRange) -> Option<Terminal> {
    match text_at(g, 0, 0) {
        Some(s) => {
            if s == "Gate"@ {
                Some(Terminal::Gate)
            } else if s == "Drain"@ {
                Some(Terminal::Drain)
            } else if s == "Source"@ {
                Some(Terminal::Source)
            } else if s == "Bulk"@ {
                Some(Terminal::Bulk)
            } else {
                None
            }
        },
        None => None,
    }
}

impl Terminal {
    /// Decode the terminal label of a settings column.
    pub fn extract(column: &MyRange) -> (r: Option<Terminal>)
        requires
            column.wf(),
        ensures
            r == terminal_v(*column),
    {
        match column.get_text(0, 0) {
            Some(s) => {
                if str_eq(s.as_str(), "Gate") {
                    Some(Terminal::Gate)
                } else if str_eq(s.as_str(), "Drain") {
                    Some(Terminal::Drain)
                } else if str_eq(s.as_str(), "Source") {
                    Some(Terminal::Source)
                } else if str_eq(s.as_str(), "Bulk") {
                    Some(Terminal::Bulk)
                } else {
                    None
                }
            },
            None => None,
        }
    }
}

} // verus!
