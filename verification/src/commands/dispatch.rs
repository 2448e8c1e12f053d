use vstd::prelude::*;
use crate::commands::builtin::{builtin_from_name, BuiltinCommands};
use crate::commands::command::Command;
use crate::commands::executors::background::{
    execute_background, pipeline_text_spec, BackgroundAction, INTERNAL_PIPELINE_MARKER,
};
use crate::commands::executors::pipeline_transfer::spec_encode;
use crate::error::ShellError;
use crate::parser::parser::{ASTNode, ParsedCommand};

verus! {

/// What running one item of a command line takes.
pub enum NodeAction {
    /// Run this command in the foreground.
    Run(Command),
    /// Run these commands as a pipeline.
    RunPipeline(Vec<ParsedCommand>),
    /// Start a background job (or run a pipeline) as decided.
    Background(BackgroundAction),
}

/// Decides how to run one item of a command line. `executable_path` is
/// where the `PATH` search found the name of a simple command (alone or
/// backgrounded). `exit` is reported as `ExitOut`, which ends the shell.
pub fn ast_executor(ast_node: ASTNode, executable_path: Option<String>) -> (r: Result<NodeAction, ShellError>)
    requires
        ast_node matches ASTNode::Background(inner) ==> !(*inner is Background),
    ensures
        match ast_node {
            ASTNode::Simple(p) => if p.cmd@.len() == 0 {
                r matches Err(ShellError::SyntaxError(m)) && m@ == "empty command"@
            } else {
                match builtin_from_name(p.cmd@) {
                    Some(BuiltinCommands::Exit) => r matches Err(ShellError::ExitOut),
                    Some(b) => (r matches Ok(NodeAction::Run(Command::Builtin(b2, q))) && b2 == b && q == p),
                    None => match executable_path {
                        Some(path) => (r matches Ok(NodeAction::Run(Command::External(e))) && e.path == path
                            && e.parsed_cmd == p),
                        None => (r matches Err(ShellError::CommandNotFound(c)) && c@ == p.cmd@),
                    },
                }
            },
            ASTNode::Pipeline(cs) => (r matches Ok(NodeAction::RunPipeline(ds)) && ds == cs),
            ASTNode::Background(inner) => match *inner {
                ASTNode::Simple(p) => if p.cmd@.len() == 0 {
                    r matches Err(ShellError::SyntaxError(m)) && m@ == "empty command"@
                } else {
                    match builtin_from_name(p.cmd@) {
                        Some(BuiltinCommands::Exit) => r matches Err(ShellError::ExitOut),
                        Some(_) => (r matches Ok(NodeAction::Background(BackgroundAction::SpawnBuiltin(q))) && q == p),
                        None => match executable_path {
                            Some(path) => (r matches Ok(NodeAction::Background(BackgroundAction::SpawnExternal(e)))
                                && e.path == path && e.parsed_cmd == p),
                            None => (r matches Err(ShellError::CommandNotFound(c)) && c@ == p.cmd@),
                        },
                    }
                },
                ASTNode::Pipeline(cs) => (r matches Ok(
                    NodeAction::Background(BackgroundAction::SpawnPipeline(argv, text)),
                ) && argv.deep_view() == seq![INTERNAL_PIPELINE_MARKER@, spec_encode(cs.deep_view())]
                    && text@ == pipeline_text_spec(cs.deep_view())),
                ASTNode::Background(_) => false,
            },
        },
{
    match ast_node {
        ASTNode::Simple(parsed_cmd) => {
            let cmd = match Command::resolve(parsed_cmd, executable_path) {
                Ok(c) => c,
                Err(e) => return Err(e),
            };
            if let Command::Builtin(BuiltinCommands::Exit, _) = cmd {
                return Err(ShellError::ExitOut);
            }
            Ok(NodeAction::Run(cmd))
        },
        ASTNode::Pipeline(cmds) => Ok(NodeAction::RunPipeline(cmds)),
        ASTNode::Background(inner) => {
            match execute_background(*inner, executable_path) {
                Ok(action) => Ok(NodeAction::Background(action)),
                Err(e) => Err(e),
            }
        },
    }
}


/// What a shell started to run one builtin is asked to do.
pub enum InternalBuiltin {
    /// No builtin was named.
    NoCommand,
    /// The name is not a builtin's.
    NotBuiltin(String),
    /// Run this builtin command, which has no redirections.
    Run(Command),
}

/// Reads the arguments that follow `INTERNAL_BUILTIN_MARKER`: the builtin's
/// name, then its arguments.
pub fn run_internal_builtin(args: &Vec<String>) -> (r: InternalBuiltin)
    ensures
        args.len() == 0 ==> r is NoCommand,
        args.len() > 0 ==> match builtin_from_name(args@[0]@) {
            Some(b) => (r matches InternalBuiltin::Run(Command::Builtin(b2, p)) && b2 == b && p.cmd@ == args@[0]@
                && p.args.deep_view() == args.deep_view().skip(1) && p.redirects.len() == 0),
            None => (r matches InternalBuiltin::NotBuiltin(n) && n@ == args@[0]@),
        },
{
    if args.len() == 0 {
        return InternalBuiltin::NoCommand;
    }
    let name = &args[0];
    match BuiltinCommands::from_name(name.as_str()) {
        Some(builtin) => {
            let mut rest: Vec<String> = Vec::new();
            let mut i: usize = 1;
            while i < args.len()
                invariant
                    1 <= i <= args.len(),
                    rest.deep_view() == args.deep_view().subrange(1, i as int),
                decreases args.len() - i,
            {
                let ghost before = rest.deep_view();
                rest.push(args[i].clone());
                assert(rest.deep_view() =~= before.push(args@[i as int]@));
                assert(args.deep_view().subrange(1, i + 1) =~= args.deep_view().subrange(1, i as int).push(args@[i as int]@));
                i = i + 1;
            }
            assert(args.deep_view().subrange(1, args.len() as int) =~= args.deep_view().skip(1));
            let parsed_cmd = ParsedCommand { cmd: name.clone(), args: rest, redirects: Vec::new() };
            InternalBuiltin::Run(Command::Builtin(builtin, parsed_cmd))
        },
        None => InternalBuiltin::NotBuiltin(name.clone()),
    }
}

} // verus!
