use vstd::prelude::*;
use crate::parser::lexer::Token;

verus! {

/// Everything that can go wrong while reading, parsing or running a command.
/// Failures that come from the operating system carry their message as text.
#[derive(Debug)]
pub enum ShellError {
    CommandNotFound(String),
    SyntaxError(String),
    ExecutionError { command: String, source: String },
    ExitWithStatus { command: String, status: String },
    WaitError(String),
    IoError(String),
    CdError(String),
    Readline(String),
    ExitOut,
    TooManyArguments,
    InvalidArgument(String),
    HistoryWriteError(String),
    ParserSyntaxError(Token),
}

/// The message an error is reported with.
pub open spec fn error_message(e: ShellError) -> Seq<char> {
    match e {
        ShellError::CommandNotFound(c) => c@ + ": not found"@,
        ShellError::SyntaxError(m) => "syntax error: "@ + m@,
        ShellError::ExecutionError { command, source } => "failed to execute command '"@ + command@
            + "': "@ + source@,
        ShellError::ExitWithStatus { command, status } => "command '"@ + command@
            + "' exited with status: "@ + status@,
        ShellError::WaitError(c) => "failed to wait for command '"@ + c@ + "'"@,
        ShellError::IoError(m) => "io error: "@ + m@,
        ShellError::CdError(p) => "cd: "@ + p@ + ": No such file or directory"@,
        ShellError::Readline(m) => "readline error: "@ + m@,
        ShellError::ExitOut => "exit"@,
        ShellError::TooManyArguments => "fc: too many arguments"@,
        ShellError::InvalidArgument(a) => "fc: invalid argument: "@ + a@,
        ShellError::HistoryWriteError(m) => "could not write to history file: "@ + m@,
        ShellError::ParserSyntaxError(t) => "syntax error near unexpected token `"@
            + crate::parser::lexer::token_text(t.deep_view()) + "`"@,
    }
}

impl ShellError {
    /// The message the error is reported with.
    pub fn to_string(&self) -> (s: String)
        ensures
            s@ == error_message(*self),
    {
        match self {
            ShellError::CommandNotFound(c) => String::from_str(c.as_str()).concat(": not found"),
            ShellError::SyntaxError(m) => String::from_str("syntax error: ").concat(m.as_str()),
            ShellError::ExecutionError { command, source } => String::from_str(
                "failed to execute command '",
            ).concat(command.as_str()).concat("': ").concat(source.as_str()),
            ShellError::ExitWithStatus { command, status } => String::from_str(
                "command '",
            ).concat(command.as_str()).concat("' exited with status: ").concat(status.as_str()),
            ShellError::WaitError(c) => String::from_str("failed to wait for command '").concat(
                c.as_str(),
            ).concat("'"),
            ShellError::IoError(m) => String::from_str("io error: ").concat(m.as_str()),
            ShellError::CdError(p) => String::from_str("cd: ").concat(p.as_str()).concat(
                ": No such file or directory",
            ),
            ShellError::Readline(m) => String::from_str("readline error: ").concat(m.as_str()),
            ShellError::ExitOut => String::from_str("exit"),
            ShellError::TooManyArguments => String::from_str("fc: too many arguments"),
            ShellError::InvalidArgument(a) => String::from_str("fc: invalid argument: ").concat(
                a.as_str(),
            ),
            ShellError::HistoryWriteError(m) => String::from_str(
                "could not write to history file: ",
            ).concat(m.as_str()),
            ShellError::ParserSyntaxError(t) => String::from_str(
                "syntax error near unexpected token `",
            ).concat(t.to_string().as_str()).concat("`"),
        }
    }
}

} // verus!
