use vstd::prelude::*;
use crate::error::ShellError;
use crate::utils::text::{spec_trim, trim};

verus! {

/// What reading a line at the prompt gave.
#[derive(Debug)]
pub enum ReadEvent {
    /// A line, as typed.
    Line(String),
    /// The input ended (Ctrl-D).
    EndOfInput,
    /// The read was interrupted (Ctrl-C).
    Interrupted,
    /// Reading failed with this message.
    Failed(String),
}

/// What the prompt loop does next.
#[derive(Debug)]
pub enum LoopStep {
    /// Read the next line: there is nothing to run.
    Skip,
    /// Record this command line in the history, then run it.
    Run(String),
    /// Leave the loop.
    Stop,
    /// Report this error, then read the next line.
    Report(ShellError),
}

/// Decides what to do with what was read: a line is trimmed, and run
/// unless nothing is left; the end of input and an interrupt end the
/// shell; a failed read is reported.
pub fn on_read(event: ReadEvent) -> (step: LoopStep)
    ensures
        match event {
            ReadEvent::Line(l) => if spec_trim(l@).len() == 0 {
                step is Skip
            } else {
                step matches LoopStep::Run(t) && t@ == spec_trim(l@)
            },
            ReadEvent::EndOfInput => step is Stop,
            ReadEvent::Interrupted => step is Stop,
            ReadEvent::Failed(m) => (step matches LoopStep::Report(ShellError::Readline(n)) && n@ == m@),
        },
{
    match event {
        ReadEvent::Line(l) => {
            let t = trim(l.as_str());
            if t.as_str().is_empty() {
                LoopStep::Skip
            } else {
                LoopStep::Run(t)
            }
        },
        ReadEvent::EndOfInput => LoopStep::Stop,
        ReadEvent::Interrupted => LoopStep::Stop,
        ReadEvent::Failed(m) => LoopStep::Report(ShellError::Readline(m)),
    }
}

/// Whether the prompt loop goes on after running a command line: only
/// `exit` (reported as `ExitOut`) ends it; other errors are reported and
/// the shell carries on.
pub fn continues_after(result: &Result<(), ShellError>) -> (go_on: bool)
    ensures
        go_on == !(result matches Err(ShellError::ExitOut)),
{
    match result {
        Err(ShellError::ExitOut) => false,
        _ => true,
    }
}

} // verus!
