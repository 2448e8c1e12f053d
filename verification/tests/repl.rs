use codecrafters_shell::error::ShellError;
use codecrafters_shell::repl::{continues_after, on_read, LoopStep, ReadEvent};

#[test]
fn lines_are_trimmed_and_blank_ones_skipped() {
    match on_read(ReadEvent::Line("  echo hi \t".to_string())) {
        LoopStep::Run(l) => assert_eq!(l, "echo hi"),
        other => panic!("expected a line to run, got {:?}", other),
    }
    assert!(matches!(on_read(ReadEvent::Line("   ".to_string())), LoopStep::Skip));
    assert!(matches!(on_read(ReadEvent::Line(String::new())), LoopStep::Skip));
}

#[test]
fn end_of_input_and_interrupt_stop_the_shell() {
    assert!(matches!(on_read(ReadEvent::EndOfInput), LoopStep::Stop));
    assert!(matches!(on_read(ReadEvent::Interrupted), LoopStep::Stop));
}

#[test]
fn failed_reads_are_reported() {
    match on_read(ReadEvent::Failed("boom".to_string())) {
        LoopStep::Report(e) => assert_eq!(e.to_string(), "readline error: boom"),
        other => panic!("expected a report, got {:?}", other),
    }
}

#[test]
fn only_exit_ends_the_loop() {
    assert!(!continues_after(&Err(ShellError::ExitOut)));
    assert!(continues_after(&Ok(())));
    assert!(continues_after(&Err(ShellError::CommandNotFound("x".to_string()))));
}
