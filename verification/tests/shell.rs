use axsh::shell::{exit_status_line, CommandOutput, Console, ConsoleAction, OutputStream};
use axsh::LogLevel;

#[test]
fn exit_status_lines() {
    assert_eq!(exit_status_line(Some(0), "exit status: 0"), ">>> Exit status 0\n");
    assert_eq!(exit_status_line(Some(127), ""), ">>> Exit status 127\n");
    assert_eq!(exit_status_line(Some(-1), ""), ">>> Exit status -1\n");
    assert_eq!(
        exit_status_line(Some(i32::MIN), ""),
        format!(">>> Exit status {}\n", i32::MIN)
    );
    assert_eq!(
        exit_status_line(None, "signal: 9 (SIGKILL)"),
        ">>> Exit status unknown (signal: 9 (SIGKILL))\n"
    );
}

#[test]
fn output_is_open_until_both_streams_end() {
    let mut output = CommandOutput::new();
    assert!(output.is_open());
    assert!(output.read(OutputStream::Stdout, 4));
    assert!(output.read(OutputStream::Stderr, 4));
    assert!(!output.read(OutputStream::Stdout, 0));
    assert!(!output.stdout_open);
    assert!(output.stderr_open);
    assert!(output.is_open());
    assert!(output.read(OutputStream::Stderr, 1));
    assert!(!output.read(OutputStream::Stderr, 0));
    assert!(!output.is_open());
}

#[test]
fn typed_lines_are_sent_with_a_line_feed() {
    let mut console = Console::new();
    match console.typed(Some("echo h\u{e9}llo")) {
        ConsoleAction::Send(data) => assert_eq!(data, "echo h\u{e9}llo\n".as_bytes()),
        ConsoleAction::Shutdown => panic!("shut down"),
    }
    assert!(console.stdin_open);
    assert!(matches!(console.typed(None), ConsoleAction::Shutdown));
    assert!(!console.stdin_open);
    assert!(console.received(1));
    assert!(!console.received(0));
}

#[test]
fn verbosity_counts_levels() {
    assert_eq!(LogLevel::Error.verbosity(), 0);
    assert_eq!(LogLevel::Warn.verbosity(), 1);
    assert_eq!(LogLevel::Info.verbosity(), 2);
    assert_eq!(LogLevel::Debug.verbosity(), 3);
    assert_eq!(LogLevel::Trace.verbosity(), 4);
}
