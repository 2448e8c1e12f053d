use vstd::prelude::*;
use crate::commands::builtin::{builtin_from_name, BuiltinCommands};
use crate::commands::executors::cd::{cd_target, execute_cd};
use crate::commands::executors::command_type::{execute_type, opt_view, type_report};
use crate::commands::executors::echo::{execute_echo, join_words};
use crate::commands::executors::help::{execute_help, help_text};
use crate::commands::executors::history::{execute_history, history_outcome};
use crate::commands::executors::jobs::execute_jobs;
use crate::commands::external::ExternalCommand;
use crate::error::ShellError;
use crate::parser::parser::ParsedCommand;
use crate::state::jobs::{job_listing, still_running};
use crate::state::shell::ShellState;
use crate::utils::redirection::{last_redirect_of, Descriptor, RedirectTargets, SpecRedirection};

verus! {

/// A command ready to run: a builtin, or a program found on `PATH`.
pub enum Command {
    Builtin(BuiltinCommands, ParsedCommand),
    External(ExternalCommand),
}

/// What is left to do once `Command::execute` has run the logic of a
/// command; the caller does it, since it touches the process or the terminal.
#[derive(Debug)]
pub enum Effect {
    /// Nothing: the command is done.
    Done,
    /// Change the working directory to this path (`cd`). When it does not
    /// exist or is not a directory, that is a `CdError` with this path.
    ChangeDirectory(String),
    /// Print the working directory, then a newline (`pwd`).
    PrintWorkingDirectory,
    /// Clear the terminal (`clear`).
    ClearScreen,
    /// Start the external program and wait for it to end.
    RunExternal,
    /// Add the lines of this history file to the history (`history -r`).
    ReadHistory(String),
    /// Write the whole history to this file (`history -w`).
    WriteHistory(String),
    /// Append the entries not appended yet to this file (`history -a`).
    AppendHistory(String),
}

/// Where one of a command's standard streams is bound.
#[derive(Clone, Copy, PartialEq, Eq, Debug, Structural)]
pub enum StreamTarget {
    /// The file of the redirection at this position of the command's
    /// redirections.
    Redirect(usize),
    /// The stream the caller hands over (a pipe or buffer of a pipeline).
    Caller,
    /// The shell's own stream.
    Inherit,
}

/// Where a command's standard input, output and error are bound.
#[derive(Clone, Copy, PartialEq, Eq, Debug, Structural)]
pub struct Routing {
    pub stdin: StreamTarget,
    pub stdout: StreamTarget,
    pub stderr: StreamTarget,
}

/// Stream `d` is bound to the last redirection of it, if there is one, and
/// otherwise to the caller's stream when there is one (`caller`), and
/// otherwise to the shell's own.
pub open spec fn routes(t: StreamTarget, rs: Seq<SpecRedirection>, d: Descriptor, caller: bool) -> bool {
    match last_redirect_of(rs, d) {
        Some(i) => t == StreamTarget::Redirect(i as usize),
        None => t == (if caller {
            StreamTarget::Caller
        } else {
            StreamTarget::Inherit
        }),
    }
}

/// The command as typed.
pub open spec fn parsed_of(c: Command) -> ParsedCommand {
    match c {
        Command::Builtin(_, p) => p,
        Command::External(e) => e.parsed_cmd,
    }
}

/// The routing of command `c` when the caller hands over an input stream
/// (`caller_input`) and an output stream (`caller_output`): redirections
/// take precedence over the caller's streams, which take precedence over
/// the shell's own; standard error is never handed over.
pub open spec fn routing_spec(c: Command, caller_input: bool, caller_output: bool, r: Routing) -> bool {
    let rs = parsed_of(c).redirects.deep_view();
    &&& routes(r.stdin, rs, Descriptor::Stdin, caller_input)
    &&& routes(r.stdout, rs, Descriptor::Stdout, caller_output)
    &&& routes(r.stderr, rs, Descriptor::Stderr, false)
}

/// Binds one stream.
fn target_of(redirect: Option<usize>, caller: bool) -> (t: StreamTarget)
    ensures
        match redirect {
            Some(i) => t == StreamTarget::Redirect(i),
            None => t == (if caller {
                StreamTarget::Caller
            } else {
                StreamTarget::Inherit
            }),
        },
{
    match redirect {
        Some(i) => StreamTarget::Redirect(i),
        None => if caller {
            StreamTarget::Caller
        } else {
            StreamTarget::Inherit
        },
    }
}

impl Command {
    /// Where the command's standard streams go: the file of its last
    /// redirection of a stream wins over the stream the caller hands over,
    /// which wins over the shell's own.
    pub fn routing(&self, caller_input: bool, caller_output: bool) -> (r: Routing)
        ensures
            routing_spec(*self, caller_input, caller_output, r),
    {
        let parsed_cmd = match self {
            Command::Builtin(_, p) => p,
            Command::External(e) => &e.parsed_cmd,
        };
        let t = RedirectTargets::resolve(parsed_cmd);
        Routing {
            stdin: target_of(t.stdin, caller_input),
            stdout: target_of(t.stdout, caller_output),
            stderr: target_of(t.stderr, false),
        }
    }

    /// Decides what `parsed_cmd` runs: a builtin when its name is one,
    /// otherwise the program the `PATH` search found (`executable_path`).
    pub fn resolve(parsed_cmd: ParsedCommand, executable_path: Option<String>) -> (r: Result<Command, ShellError>)
        ensures
            parsed_cmd.cmd@.len() == 0 ==> (r matches Err(ShellError::SyntaxError(m)) && m@ == "empty command"@),
            parsed_cmd.cmd@.len() > 0 ==> match builtin_from_name(parsed_cmd.cmd@) {
                Some(b) => (r matches Ok(Command::Builtin(b2, p)) && b2 == b && p == parsed_cmd),
                None => match executable_path {
                    Some(path) => (r matches Ok(Command::External(e)) && e.path == path && e.parsed_cmd == parsed_cmd),
                    None => (r matches Err(ShellError::CommandNotFound(c)) && c@ == parsed_cmd.cmd@),
                },
            },
    {
        if parsed_cmd.cmd.as_str().is_empty() {
            return Err(ShellError::SyntaxError(String::from_str("empty command")));
        }
        if let Some(builtin) = BuiltinCommands::from_name(parsed_cmd.cmd.as_str()) {
            return Ok(Command::Builtin(builtin, parsed_cmd));
        }
        let cmd_name = parsed_cmd.cmd.clone();
        match ExternalCommand::try_resolve(parsed_cmd, executable_path) {
            Some(e) => Ok(Command::External(e)),
            None => Err(ShellError::CommandNotFound(cmd_name)),
        }
    }

    /// Runs the command's own logic, writing what it prints to `stdout`, and
    /// returns where its standard streams go together with what is left for
    /// the caller to do. What it writes to `stdout` belongs where the
    /// routing's `stdout` says: the file of its last output redirection when
    /// it has one, and only otherwise the caller's stream (`caller_output`)
    /// or the shell's own; likewise for input. `home` is the home directory
    /// (`HOME`), and for `type`, `type_paths[i]` is where the `PATH` search
    /// found its `i`-th argument.
    pub fn execute(
        &self,
        state: &mut ShellState,
        home: Option<&str>,
        type_paths: &Vec<Option<String>>,
        caller_input: bool,
        caller_output: bool,
        stdout: &mut String,
    ) -> (r: (Routing, Result<Effect, ShellError>))
        requires
            *self matches Command::Builtin(BuiltinCommands::Type, p) ==> type_paths.len() == p.args.len(),
        ensures
            routing_spec(*self, caller_input, caller_output, r.0),
            match *self {
                Command::Builtin(BuiltinCommands::Jobs, _) => {
                    &&& final(state).jobs.jobs_view() == old(state).jobs.jobs_view().filter(still_running())
                    &&& final(state).history == old(state).history
                },
                _ => *final(state) == *old(state),
            },
            match *self {
                Command::Builtin(BuiltinCommands::Echo, p) => r.1 matches Ok(Effect::Done) && final(stdout)@
                    == old(stdout)@ + join_words(p.args.deep_view()) + "\n"@,
                Command::Builtin(BuiltinCommands::Help, _) => r.1 matches Ok(Effect::Done) && final(stdout)@
                    == old(stdout)@ + help_text(),
                Command::Builtin(BuiltinCommands::History, p) => history_outcome(
                    p.args.deep_view(),
                    old(state).history.entries.deep_view(),
                    old(stdout)@,
                    final(stdout)@,
                    r.1,
                ),
                Command::Builtin(BuiltinCommands::Jobs, _) => r.1 matches Ok(Effect::Done) && final(stdout)@
                    == old(stdout)@ + job_listing(old(state).jobs.jobs_view()),
                Command::Builtin(BuiltinCommands::Type, p) => if p.args.len() == 0 {
                    final(stdout)@ == old(stdout)@ && (r.1 matches Err(ShellError::SyntaxError(m)) && m@
                        == "type: missing argument"@)
                } else {
                    let (text, missing) = type_report(
                        p.args.deep_view(),
                        type_paths@.map_values(|o: Option<String>| opt_view(o)),
                    );
                    &&& final(stdout)@ == old(stdout)@ + text
                    &&& match missing {
                        Some(a) => (r.1 matches Err(ShellError::CommandNotFound(c)) && c@ == a),
                        None => r.1 matches Ok(Effect::Done),
                    }
                },
                Command::Builtin(BuiltinCommands::Cd, p) => final(stdout)@ == old(stdout)@ && (r.1 matches Ok(
                    Effect::ChangeDirectory(t),
                ) && t@ == cd_target(
                    p.args.deep_view(),
                    match home {
                        Some(h) => Some(h@),
                        None => None,
                    },
                )),
                Command::Builtin(BuiltinCommands::Pwd, _) => final(stdout)@ == old(stdout)@ && r.1 matches Ok(
                    Effect::PrintWorkingDirectory,
                ),
                Command::Builtin(BuiltinCommands::Clear, _) => final(stdout)@ == old(stdout)@ && r.1 matches Ok(
                    Effect::ClearScreen,
                ),
                Command::Builtin(BuiltinCommands::Exit, _) => final(stdout)@ == old(stdout)@ && r.1 matches Ok(
                    Effect::Done,
                ),
                Command::External(_) => final(stdout)@ == old(stdout)@ && r.1 matches Ok(Effect::RunExternal),
            },
    {
        let routing = self.routing(caller_input, caller_output);
        let result = match self {
            Command::Builtin(builtin, parsed_cmd) => match builtin {
                BuiltinCommands::Cd => Ok(Effect::ChangeDirectory(execute_cd(parsed_cmd, home))),
                BuiltinCommands::Clear => Ok(Effect::ClearScreen),
                BuiltinCommands::Echo => {
                    execute_echo(parsed_cmd, stdout);
                    Ok(Effect::Done)
                },
                BuiltinCommands::Help => {
                    execute_help(stdout);
                    Ok(Effect::Done)
                },
                BuiltinCommands::History => execute_history(state, &parsed_cmd.args, stdout),
                BuiltinCommands::Jobs => {
                    execute_jobs(state, stdout);
                    Ok(Effect::Done)
                },
                BuiltinCommands::Pwd => Ok(Effect::PrintWorkingDirectory),
                BuiltinCommands::Type => match execute_type(parsed_cmd, type_paths, stdout) {
                    Ok(()) => Ok(Effect::Done),
                    Err(e) => Err(e),
                },
                BuiltinCommands::Exit => Ok(Effect::Done),
            },
            Command::External(_) => Ok(Effect::RunExternal),
        };
        (routing, result)
    }
}

} // verus!
