//! Output control: whether anything is written to the terminal.

use vstd::prelude::*;

verus! {

/// Controls all terminal output.
///
/// In `Default` mode output goes to the terminal. In `Silent` mode, used
/// when serving an agent, nothing is written: a stray line would corrupt
/// the protocol.
#[derive(Debug, Clone, Copy, PartialEq, Eq, Structural)]
pub enum Printer {
    /// Normal output.
    Default,
    /// No output.
    Silent,
}

impl Printer {
    /// Whether messages are written.
    pub open spec fn writes(self) -> bool {
        self == Printer::Default
    }

    /// Whether a message handed to this printer is to be written.
    pub fn is_enabled(&self) -> (b: bool)
        ensures
            b == self.writes(),
    {
        match self {
            Printer::Default => true,
            Printer::Silent => false,
        }
    }
}

} // verus!
