use shell_core::wiring::{wire_stage, Input, Output, StageWiring};

#[test]
fn builtin_feeds_external() {
    let w = wire_stage(1, 2, true, false);
    assert_eq!(w, StageWiring { stdin: Input::BuiltinText, stdout: Output::Terminal, stderr: Output::Terminal });
}

#[test]
fn external_feeds_external() {
    assert_eq!(wire_stage(0, 2, false, false).stdout, Output::NextStage);
    assert_eq!(wire_stage(0, 2, false, false).stdin, Input::Terminal);
    assert_eq!(wire_stage(1, 2, false, false).stdin, Input::PreviousStage);
}

#[test]
fn redirected_last_stage_is_captured() {
    let w = wire_stage(0, 1, false, true);
    assert_eq!(w, StageWiring { stdin: Input::Terminal, stdout: Output::Captured, stderr: Output::Captured });
    assert_eq!(wire_stage(1, 3, false, true).stdout, Output::NextStage);
}
