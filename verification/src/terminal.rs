//! Which terminal device the browser draws on.

use vstd::prelude::*;

verus! {

/// The device the browser draws on: standard output, or the controlling terminal when standard
/// output carries the selected paths.
#[derive(Clone, Copy, Debug, PartialEq, Eq, Hash, Structural)]
pub enum TerminalTarget {
    Stdout,
    Tty,
}

/// The number that records a target.
pub open spec fn target_code(target: TerminalTarget) -> u8 {
    match target {
        TerminalTarget::Stdout => 0,
        TerminalTarget::Tty => 1,
    }
}

/// The target a recorded number stands for.
pub open spec fn target_of_code(code: u8) -> TerminalTarget {
    if code == 1 {
        TerminalTarget::Tty
    } else {
        TerminalTarget::Stdout
    }
}

impl TerminalTarget {
    /// The controlling terminal in selection mode, standard output otherwise.
    pub fn for_result_mode(result_mode: bool) -> (target: TerminalTarget)
        ensures
            target == (if result_mode { TerminalTarget::Tty } else { TerminalTarget::Stdout }),
    {
        if result_mode {
            TerminalTarget::Tty
        } else {
            TerminalTarget::Stdout
        }
    }

    /// The number that records the target: 0 for standard output, 1 for the terminal.
    pub fn code(self) -> (code: u8)
        ensures
            code == target_code(self),
    {
        match self {
            TerminalTarget::Stdout => 0,
            TerminalTarget::Tty => 1,
        }
    }

    /// The target a recorded number stands for; any number but 1 is standard output.
    pub fn from_code(code: u8) -> (target: TerminalTarget)
        ensures
            target == target_of_code(code),
    {
        if code == 1 {
            TerminalTarget::Tty
        } else {
            TerminalTarget::Stdout
        }
    }
}

/// Recording a target and reading the record back gives the same target.
pub proof fn law_target_code_round_trips(target: TerminalTarget)
    ensures
        target_of_code(target_code(target)) == target,
{
}

} // verus!
