use hunkfmt::batcher::batch;
use hunkfmt::hunks::Hunk;
use hunkfmt::invoker::{failure_message, invocation, invocation_outcome, RUSTFMT};

fn hunk(file: &str, line: usize, count: usize) -> Hunk {
    Hunk { file: String::from(file), line, count }
}

#[test]
fn default_tool_is_rustfmt() {
    assert_eq!(RUSTFMT, "rustfmt");
}

#[test]
fn invocation_command_line() {
    let groups = batch(&vec![hunk("x.rs", 10, 3)]);
    let inv = invocation(&groups[0]);
    assert_eq!(inv.program, "rustfmt");
    assert_eq!(inv.args.len(), 4);
    assert_eq!(inv.args[0], "--unstable-features");
    assert_eq!(inv.args[1], "x.rs");
    assert_eq!(inv.args[2], "--file-lines");
    assert_eq!(inv.args[3], "[{\"file\":\"x.rs\",\"range\":[10,13]}]");
}

#[test]
fn failure_carries_the_first_diagnostic_line() {
    let r = invocation_outcome("rustfmt", false, Some("error: syntax problem\n"));
    let msg = r.unwrap_err();
    assert_eq!(msg, "process `rustfmt` failed: error: syntax problem");
    assert!(msg.contains("rustfmt"));
    assert!(msg.contains("error: syntax problem"));
}

#[test]
fn failure_without_diagnostic_is_bare() {
    let r = invocation_outcome("rustfmt", false, None);
    assert_eq!(r.unwrap_err(), "process `rustfmt` failed");
}

#[test]
fn failure_with_blank_diagnostic_is_bare() {
    let msg = failure_message("rustfmt", Some(" \n"));
    assert_eq!(msg, "process `rustfmt` failed");
}

#[test]
fn success_has_no_error() {
    let r = invocation_outcome("rustfmt", true, None);
    assert!(r.is_ok());
}
