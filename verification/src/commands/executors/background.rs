use vstd::prelude::*;
use crate::commands::builtin::{builtin_from_name, BuiltinCommands};
use crate::commands::command::Command;
use crate::commands::external::ExternalCommand;
use crate::commands::executors::pipeline_transfer::{
    command_fits, command_roundtrips, encode_pipeline, lemma_decode_encode_roundtrip, spec_decode,
    spec_encode,
};
use vstd::utf8::encode_utf8;
use crate::error::ShellError;
use crate::parser::lexer::{descriptor_prefix, prefix_of};
use crate::parser::parser::{ASTNode, ParsedCommand, SpecCommand};
use crate::utils::redirection::{RedirectionType, SpecRedirection};

verus! {

/// The argument that makes the shell run one builtin and exit instead of
/// reading commands; it is how a builtin runs as a background job.
pub const INTERNAL_BUILTIN_MARKER: &'static str = "--__shell-internal-run-builtin";

/// The argument that makes the shell run one encoded pipeline and exit.
pub const INTERNAL_PIPELINE_MARKER: &'static str = "--__shell-internal-run-pipeline";

/// How a redirection operator is written.
pub open spec fn operator_text(t: RedirectionType) -> Seq<char> {
    match t {
        RedirectionType::Input => "<"@,
        RedirectionType::Output => ">"@,
        RedirectionType::Append => ">>"@,
    }
}

/// How a redirection is written in a job listing, e.g. `2>err.txt`.
pub open spec fn redirect_text(r: SpecRedirection) -> Seq<char> {
    descriptor_prefix(r.descriptor) + operator_text(r.redirection_type) + r.file
}

/// The text of some redirections, each preceded by a space.
pub open spec fn redirects_text(rs: Seq<SpecRedirection>) -> Seq<char>
    decreases rs.len(),
{
    if rs.len() == 0 {
        seq![]
    } else {
        redirects_text(rs.drop_last()) + " "@ + redirect_text(rs.last())
    }
}

/// The words of some arguments, each preceded by a space.
pub open spec fn args_text(args: Seq<Seq<char>>) -> Seq<char>
    decreases args.len(),
{
    if args.len() == 0 {
        seq![]
    } else {
        args_text(args.drop_last()) + " "@ + args.last()
    }
}

/// How a command is shown in a job listing: its name, its arguments and its
/// redirections, separated by spaces.
pub open spec fn command_text_spec(c: SpecCommand) -> Seq<char> {
    c.cmd + args_text(c.args) + redirects_text(c.redirects)
}

/// The text a job listing shows for `parsed_cmd`.
pub fn command_text(parsed_cmd: &ParsedCommand) -> (s: String)
    ensures
        s@ == command_text_spec(parsed_cmd.deep_view()),
{
    let ghost args = parsed_cmd.args.deep_view();
    let ghost rs = parsed_cmd.redirects.deep_view();
    let mut out = String::from_str(parsed_cmd.cmd.as_str());
    let mut i: usize = 0;
    assert(args.take(0) =~= Seq::<Seq<char>>::empty());
    while i < parsed_cmd.args.len()
        invariant
            args == parsed_cmd.args.deep_view(),
            i <= args.len(),
            out@ == parsed_cmd.cmd@ + args_text(args.take(i as int)),
        decreases args.len() - i,
    {
        out.append(" ");
        out.append(parsed_cmd.args[i].as_str());
        assert(args.take(i + 1).drop_last() =~= args.take(i as int));
        assert(args.take(i + 1).last() == parsed_cmd.args@[i as int]@);
        assert(out@ =~= parsed_cmd.cmd@ + args_text(args.take(i + 1)));
        i = i + 1;
    }
    assert(args.take(args.len() as int) =~= args);
    let ghost head = out@;
    let mut j: usize = 0;
    assert(rs.take(0) =~= Seq::<SpecRedirection>::empty());
    assert(head + redirects_text(rs.take(0)) =~= head);
    while j < parsed_cmd.redirects.len()
        invariant
            rs == parsed_cmd.redirects.deep_view(),
            j <= rs.len(),
            out@ == head + redirects_text(rs.take(j as int)),
        decreases rs.len() - j,
    {
        let r = &parsed_cmd.redirects[j];
        out.append(" ");
        out.append(prefix_of(&r.descriptor).as_str());
        match r.redirection_type {
            RedirectionType::Input => out.append("<"),
            RedirectionType::Output => out.append(">"),
            RedirectionType::Append => out.append(">>"),
        }
        out.append(r.file.as_str());
        assert(rs.take(j + 1).drop_last() =~= rs.take(j as int));
        assert(rs.take(j + 1).last() == r.deep_view());
        assert(out@ =~= head + redirects_text(rs.take(j + 1)));
        j = j + 1;
    }
    assert(rs.take(rs.len() as int) =~= rs);
    out
}

/// The arguments the shell is started with to run `parsed_cmd` (a builtin)
/// as a background job: the marker, the builtin's name, its arguments. Its
/// redirections are not passed: the caller opens them for the new process.
pub fn builtin_job_argv(parsed_cmd: &ParsedCommand) -> (v: Vec<String>)
    ensures
        v.deep_view() == seq![INTERNAL_BUILTIN_MARKER@, parsed_cmd.cmd@] + parsed_cmd.args.deep_view(),
{
    let mut v: Vec<String> = Vec::new();
    v.push(String::from_str(INTERNAL_BUILTIN_MARKER));
    v.push(parsed_cmd.cmd.clone());
    let mut i: usize = 0;
    while i < parsed_cmd.args.len()
        invariant
            i <= parsed_cmd.args.len(),
            v.deep_view() == seq![INTERNAL_BUILTIN_MARKER@, parsed_cmd.cmd@] + parsed_cmd.args.deep_view().take(i as int),
        decreases parsed_cmd.args.len() - i,
    {
        let ghost before = v.deep_view();
        v.push(parsed_cmd.args[i].clone());
        assert(v.deep_view() =~= before.push(parsed_cmd.args@[i as int]@));
        assert(parsed_cmd.args.deep_view().take(i + 1) =~= parsed_cmd.args.deep_view().take(i as int).push(parsed_cmd.args@[i as int]@));
        assert(v.deep_view() =~= seq![INTERNAL_BUILTIN_MARKER@, parsed_cmd.cmd@] + parsed_cmd.args.deep_view().take(i + 1));
        i = i + 1;
    }
    assert(parsed_cmd.args.deep_view().take(parsed_cmd.args.len() as int) =~= parsed_cmd.args.deep_view());
    v
}

/// What backgrounding an item takes.
#[derive(Debug)]
pub enum BackgroundAction {
    /// Start the program as a background job.
    SpawnExternal(ExternalCommand),
    /// Start the shell itself with `builtin_job_argv` of this command, as a
    /// background job that runs the builtin.
    SpawnBuiltin(ParsedCommand),
    /// Start the shell itself with these arguments (the pipeline marker and
    /// the encoded pipeline) as one background job that runs the whole
    /// pipeline; the text is how the job is listed.
    SpawnPipeline(Vec<String>, String),
}

/// How a pipeline is shown in a job listing: its commands separated by
/// ` | `.
pub open spec fn pipeline_text_spec(cs: Seq<SpecCommand>) -> Seq<char>
    decreases cs.len(),
{
    if cs.len() == 0 {
        seq![]
    } else if cs.len() == 1 {
        command_text_spec(cs[0])
    } else {
        pipeline_text_spec(cs.drop_last()) + " | "@ + command_text_spec(cs.last())
    }
}

/// The text a job listing shows for a pipeline.
pub fn pipeline_text(cmds: &Vec<ParsedCommand>) -> (s: String)
    ensures
        s@ == pipeline_text_spec(cmds.deep_view()),
{
    let ghost cs = cmds.deep_view();
    let mut out = String::new();
    let mut i: usize = 0;
    assert(cs.take(0) =~= Seq::<SpecCommand>::empty());
    while i < cmds.len()
        invariant
            cs == cmds.deep_view(),
            i <= cs.len(),
            out@ == pipeline_text_spec(cs.take(i as int)),
        decreases cs.len() - i,
    {
        if i > 0 {
            out.append(" | ");
        }
        let t = command_text(&cmds[i]);
        out.append(t.as_str());
        assert(cs.take(i + 1).drop_last() =~= cs.take(i as int));
        assert(cs.take(i + 1).last() == cmds@[i as int].deep_view());
        proof {
            if i == 0 {
                assert(cs.take(1)[0] == cmds@[0].deep_view());
                assert(out@ =~= pipeline_text_spec(cs.take(1)));
            } else {
                assert(out@ =~= pipeline_text_spec(cs.take(i + 1)));
            }
        }
        i = i + 1;
    }
    assert(cs.take(cs.len() as int) =~= cs);
    out
}

/// The arguments the shell is started with to run a pipeline as one
/// background job: the pipeline marker, then the encoded pipeline.
pub fn pipeline_job_argv(cmds: &Vec<ParsedCommand>) -> (v: Vec<String>)
    ensures
        v.deep_view() == seq![INTERNAL_PIPELINE_MARKER@, spec_encode(cmds.deep_view())],
        spec_decode(encode_utf8(v.deep_view()[1])) == Some(cmds.deep_view()),
{
    let payload = encode_pipeline(cmds.as_slice());
    proof {
        let cs = cmds.deep_view();
        assert forall|i: int| 0 <= i < cs.len() implies command_roundtrips(#[trigger] cs[i]) by {
            assert(cs[i] == cmds@[i].deep_view());
            assert(cs[i].args.len() == cmds@[i].args.len());
            assert(cs[i].redirects.len() == cmds@[i].redirects.len());
            assert(command_fits(cs[i]));
        }
        assert(cs.len() == cmds.len());
        lemma_decode_encode_roundtrip(cs);
    }
    let mut v: Vec<String> = Vec::new();
    v.push(String::from_str(INTERNAL_PIPELINE_MARKER));
    v.push(payload);
    assert(v.deep_view() =~= seq![INTERNAL_PIPELINE_MARKER@, spec_encode(cmds.deep_view())]);
    v
}

/// Decides how to run `ast` in the background. `executable_path` is where
/// the `PATH` search found the name of a simple command. `exit` in the
/// background leaves the shell, as it does in the foreground.
pub fn execute_background(ast: ASTNode, executable_path: Option<String>) -> (r: Result<BackgroundAction, ShellError>)
    requires
        !(ast is Background),
    ensures
        match ast {
            ASTNode::Simple(p) => if p.cmd@.len() == 0 {
                r matches Err(ShellError::SyntaxError(m)) && m@ == "empty command"@
            } else {
                match builtin_from_name(p.cmd@) {
                    Some(BuiltinCommands::Exit) => r matches Err(ShellError::ExitOut),
                    Some(_) => (r matches Ok(BackgroundAction::SpawnBuiltin(q)) && q == p),
                    None => match executable_path {
                        Some(path) => (r matches Ok(BackgroundAction::SpawnExternal(e)) && e.path == path
                            && e.parsed_cmd == p),
                        None => (r matches Err(ShellError::CommandNotFound(c)) && c@ == p.cmd@),
                    },
                }
            },
            ASTNode::Pipeline(cs) => (r matches Ok(BackgroundAction::SpawnPipeline(argv, text))
                && argv.deep_view() == seq![INTERNAL_PIPELINE_MARKER@, spec_encode(cs.deep_view())]
                && text@ == pipeline_text_spec(cs.deep_view())),
            ASTNode::Background(_) => false,
        },
{
    match ast {
        ASTNode::Simple(parsed_cmd) => {
            let cmd = Command::resolve(parsed_cmd, executable_path)?;
            match cmd {
                Command::Builtin(BuiltinCommands::Exit, _) => Err(ShellError::ExitOut),
                Command::External(external_cmd) => Ok(BackgroundAction::SpawnExternal(external_cmd)),
                Command::Builtin(_, parsed_cmd) => Ok(BackgroundAction::SpawnBuiltin(parsed_cmd)),
            }
        },
        ASTNode::Pipeline(cmds) => {
            let argv = pipeline_job_argv(&cmds);
            let text = pipeline_text(&cmds);
            Ok(BackgroundAction::SpawnPipeline(argv, text))
        },
        ASTNode::Background(_) => Err(ShellError::ExitOut),
    }
}

} // verus!
