//! Prompt-command-output blocks, as shells report them with OSC 133 marks.

use vstd::prelude::*;

verus! {

/// Where a block stands in its life.
#[derive(Debug, Clone, Copy, PartialEq, Eq, Structural)]
pub enum TermBlockState {
    /// The prompt is visible and the user is typing.
    Input,
    /// The user pressed Enter and the command is running.
    Running,
    /// The command finished with this exit code.
    Done { exit_code: i32 },
}

/// One prompt-command-output cycle.
#[derive(Debug, Clone, Copy, PartialEq, Eq, Structural)]
pub struct TermBlock {
    /// Absolute row of the prompt, counted from the oldest scrollback row. It
    /// follows the prompt when rows move.
    pub start_row: usize,
    pub state: TermBlockState,
}

} // verus!
