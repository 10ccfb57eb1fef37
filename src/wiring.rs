//! How each stage of a pipeline connects its standard streams.

use vstd::prelude::*;

verus! {

/// Where a stage reads its input.
#[derive(PartialEq, Eq, Structural, Clone, Copy, Debug)]
pub enum Input {
    /// The shell's own standard input.
    Terminal,
    /// The standard output of the external process of the stage before.
    PreviousStage,
    /// The text that the builtin of the stage before produced, written in before the stage reads.
    BuiltinText,
}

/// Where a stage's output stream goes.
#[derive(PartialEq, Eq, Structural, Clone, Copy, Debug)]
pub enum Output {
    /// The shell's own stream.
    Terminal,
    /// A pipe into the stage after.
    NextStage,
    /// Collected, then written to the stage's redirection targets (or the terminal).
    Captured,
}

#[derive(PartialEq, Eq, Structural, Clone, Copy, Debug)]
pub struct StageWiring {
    pub stdin: Input,
    pub stdout: Output,
    pub stderr: Output,
}

/// The wiring of stage `index` of `count`: the first stage reads the terminal,
/// a later one the stage before (a builtin's text or a process's output); every
/// stage but the last feeds the next; the last one's output is captured when it
/// has a redirection and goes to the terminal otherwise.
pub open spec fn wiring_spec(index: nat, count: nat, prev_is_builtin: bool, redirected: bool) -> StageWiring {
    StageWiring {
        stdin: if index == 0 {
            Input::Terminal
        } else if prev_is_builtin {
            Input::BuiltinText
        } else {
            Input::PreviousStage
        },
        stdout: if index + 1 < count {
            Output::NextStage
        } else if redirected {
            Output::Captured
        } else {
            Output::Terminal
        },
        stderr: if index + 1 < count || !redirected {
            Output::Terminal
        } else {
            Output::Captured
        },
    }
}

/// The wiring of stage `index` of a pipeline of `count` stages.
pub fn wire_stage(index: usize, count: usize, prev_is_builtin: bool, redirected: bool) -> (r: StageWiring)
    requires
        index < count,
    ensures
        r == wiring_spec(index as nat, count as nat, prev_is_builtin, redirected),
{
    let stdin = if index == 0 {
        Input::Terminal
    } else if prev_is_builtin {
        Input::BuiltinText
    } else {
        Input::PreviousStage
    };
    let last = index + 1 == count;
    let stdout = if !last {
        Output::NextStage
    } else if redirected {
        Output::Captured
    } else {
        Output::Terminal
    };
    let stderr = if !last || !redirected {
        Output::Terminal
    } else {
        Output::Captured
    };
    StageWiring { stdin, stdout, stderr }
}

} // verus!
