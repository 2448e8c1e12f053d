use codecrafters_shell::commands::executors::background::{builtin_job_argv, command_text, execute_background, BackgroundAction};
use codecrafters_shell::commands::executors::cd::execute_cd;
use codecrafters_shell::commands::executors::command_type::execute_type;
use codecrafters_shell::commands::executors::echo::execute_echo;
use codecrafters_shell::commands::executors::help::execute_help;
use codecrafters_shell::commands::executors::history::execute_history;
use codecrafters_shell::commands::executors::jobs::execute_jobs;
use codecrafters_shell::commands::{
    ast_executor, run_internal_builtin, BuiltinCommands, Command, Effect, ExternalCommand, InternalBuiltin,
    NodeAction, Routing, StreamTarget, INTERNAL_BUILTIN_MARKER, INTERNAL_PIPELINE_MARKER,
};
use codecrafters_shell::commands::executors::pipeline_transfer::decode_pipeline;
use codecrafters_shell::error::ShellError;
use codecrafters_shell::parser::{ASTNode, ParsedCommand};
use codecrafters_shell::state::ShellState;
use codecrafters_shell::utils::{Descriptor, Redirection, RedirectionType};

fn cmd(name: &str, args: &[&str]) -> ParsedCommand {
    ParsedCommand {
        cmd: name.to_string(),
        args: args.iter().map(|a| a.to_string()).collect(),
        redirects: vec![],
    }
}

fn run(parsed: ParsedCommand, state: &mut ShellState) -> (Result<Effect, ShellError>, String) {
    let c = Command::resolve(parsed, None).unwrap();
    let mut out = String::new();
    let (_, r) = c.execute(state, Some("/home/me"), &vec![], false, false, &mut out);
    (r, out)
}

#[test]
fn resolve_prefers_builtins() {
    match Command::resolve(cmd("echo", &["hi"]), Some("/bin/echo".to_string())) {
        Ok(Command::Builtin(BuiltinCommands::Echo, p)) => assert_eq!(p.args, vec!["hi".to_string()]),
        _ => panic!("expected the echo builtin"),
    }
}

#[test]
fn resolve_uses_the_path_search_for_other_names() {
    match Command::resolve(cmd("ls", &["-l"]), Some("/bin/ls".to_string())) {
        Ok(Command::External(e)) => {
            assert_eq!(e.path, "/bin/ls");
            assert_eq!(e.parsed_cmd.cmd, "ls");
            assert_eq!(e.argv(), vec!["ls".to_string(), "-l".to_string()]);
        }
        _ => panic!("expected an external command"),
    }
}

#[test]
fn resolve_reports_unknown_and_empty_commands() {
    match Command::resolve(cmd("nosuch", &[]), None) {
        Err(e) => assert_eq!(e.to_string(), "nosuch: not found"),
        Ok(_) => panic!("expected an error"),
    }
    match Command::resolve(cmd("", &[]), None) {
        Err(e) => assert_eq!(e.to_string(), "syntax error: empty command"),
        Ok(_) => panic!("expected an error"),
    }
}

#[test]
fn try_resolve_needs_a_path() {
    assert!(ExternalCommand::try_resolve(cmd("x", &[]), None).is_none());
    let e = ExternalCommand::try_resolve(cmd("x", &[]), Some("/opt/x".to_string())).unwrap();
    assert_eq!(e.path, "/opt/x");
}

#[test]
fn echo_joins_arguments_with_single_spaces() {
    let mut out = String::from(">");
    execute_echo(&cmd("echo", &["a", "b  c", "d"]), &mut out);
    assert_eq!(out, ">a b  c d\n");
    let mut out = String::new();
    execute_echo(&cmd("echo", &[]), &mut out);
    assert_eq!(out, "\n");
}

#[test]
fn help_lists_every_builtin() {
    let mut out = String::new();
    execute_help(&mut out);
    assert!(out.starts_with("Available builtin commands:\n"));
    for b in BuiltinCommands::iter() {
        assert!(out.contains(&format!("  {}", b.to_string())));
    }
    assert!(out.contains("  history  - Show command history\n"));
    assert_eq!(out.lines().count(), 10);
}

#[test]
fn type_reports_builtins_paths_and_the_first_missing_name() {
    let mut out = String::new();
    let r = execute_type(
        &cmd("type", &["echo", "ls", "nosuch", "cd"]),
        &vec![None, Some("/bin/ls".to_string()), None, None],
        &mut out,
    );
    assert_eq!(out, "echo is a shell builtin\nls is /bin/ls\n");
    match r {
        Err(ShellError::CommandNotFound(n)) => assert_eq!(n, "nosuch"),
        _ => panic!("expected CommandNotFound"),
    }
    let mut out = String::new();
    match execute_type(&cmd("type", &[]), &vec![], &mut out) {
        Err(e) => assert_eq!(e.to_string(), "syntax error: type: missing argument"),
        Ok(_) => panic!("expected an error"),
    }
    assert_eq!(out, "");
}

fn args(a: &[&str]) -> Vec<String> {
    a.iter().map(|s| s.to_string()).collect()
}

#[test]
fn history_numbers_entries_right_aligned() {
    let mut state = ShellState::new();
    state.history.add_history("echo a".to_string());
    state.history.add_history("ls".to_string());
    let mut out = String::new();
    assert!(matches!(execute_history(&state, &args(&[]), &mut out), Ok(Effect::Done)));
    assert_eq!(out, "    1  echo a\n    2  ls\n");
}

#[test]
fn history_with_a_count_lists_the_last_entries_with_their_numbers() {
    let mut state = ShellState::new();
    for e in ["echo one", "echo two", "echo three", "history 2"] {
        state.history.add_history(e.to_string());
    }
    let mut out = String::new();
    assert!(matches!(execute_history(&state, &args(&["2"]), &mut out), Ok(Effect::Done)));
    assert_eq!(out, "    3  echo three\n    4  history 2\n");
    let mut out = String::new();
    execute_history(&state, &args(&["10"]), &mut out).unwrap();
    assert_eq!(out.lines().count(), 4);
    let mut out = String::new();
    execute_history(&state, &args(&["0"]), &mut out).unwrap();
    assert_eq!(out, "");
}

#[test]
fn history_file_options_are_handed_to_the_caller() {
    let state = ShellState::new();
    let mut out = String::new();
    match execute_history(&state, &args(&["-r", "f.txt"]), &mut out) {
        Ok(Effect::ReadHistory(f)) => assert_eq!(f, "f.txt"),
        other => panic!("expected a read, got {:?}", other),
    }
    match execute_history(&state, &args(&["-w", "f.txt"]), &mut out) {
        Ok(Effect::WriteHistory(f)) => assert_eq!(f, "f.txt"),
        other => panic!("expected a write, got {:?}", other),
    }
    match execute_history(&state, &args(&["-a", "f.txt"]), &mut out) {
        Ok(Effect::AppendHistory(f)) => assert_eq!(f, "f.txt"),
        other => panic!("expected an append, got {:?}", other),
    }
    assert_eq!(out, "");
}

#[test]
fn history_rejects_bad_arguments() {
    let state = ShellState::new();
    let mut out = String::new();
    match execute_history(&state, &args(&["-w"]), &mut out) {
        Err(e) => assert_eq!(e.to_string(), "fc: invalid argument: -w"),
        Ok(_) => panic!("expected an error"),
    }
    match execute_history(&state, &args(&["abc"]), &mut out) {
        Err(e) => assert_eq!(e.to_string(), "fc: invalid argument: abc"),
        Ok(_) => panic!("expected an error"),
    }
    match execute_history(&state, &args(&["99999999999999999999999"]), &mut out) {
        Err(ShellError::InvalidArgument(_)) => {}
        _ => panic!("expected an invalid argument"),
    }
    match execute_history(&state, &args(&["1", "2"]), &mut out) {
        Err(e) => assert_eq!(e.to_string(), "fc: too many arguments"),
        Ok(_) => panic!("expected an error"),
    }
    match execute_history(&state, &args(&["-a", "x", "y"]), &mut out) {
        Err(ShellError::TooManyArguments) => {}
        _ => panic!("expected too many arguments"),
    }
    assert_eq!(out, "");
}

#[test]
fn redirections_take_precedence_over_the_callers_streams() {
    let mut p = cmd("echo", &["fresh"]);
    p.redirects.push(Redirection {
        descriptor: Descriptor::Stdout,
        file: "out.txt".to_string(),
        redirection_type: RedirectionType::Output,
    });
    let c = Command::resolve(p, None).unwrap();
    let mut state = ShellState::new();
    let mut out = String::new();
    let (routing, r) = c.execute(&mut state, None, &vec![], true, true, &mut out);
    assert!(matches!(r, Ok(Effect::Done)));
    assert_eq!(out, "fresh\n");
    assert_eq!(
        routing,
        Routing { stdin: StreamTarget::Caller, stdout: StreamTarget::Redirect(0), stderr: StreamTarget::Inherit }
    );
    let plain = Command::resolve(cmd("echo", &[]), None).unwrap();
    assert_eq!(plain.routing(false, true).stdout, StreamTarget::Caller);
    assert_eq!(plain.routing(false, false).stdout, StreamTarget::Inherit);
    let mut q = cmd("cat", &[]);
    q.redirects.push(Redirection {
        descriptor: Descriptor::Stdin,
        file: "in.txt".to_string(),
        redirection_type: RedirectionType::Input,
    });
    let ext = Command::resolve(q, Some("/bin/cat".to_string())).unwrap();
    assert_eq!(ext.routing(true, false).stdin, StreamTarget::Redirect(0));
}

#[test]
fn cd_expands_the_home_directory() {
    assert_eq!(execute_cd(&cmd("cd", &[]), Some("/home/me")), "/home/me");
    assert_eq!(execute_cd(&cmd("cd", &["~"]), Some("/home/me")), "/home/me");
    assert_eq!(execute_cd(&cmd("cd", &["~/docs"]), Some("/home/me")), "/home/me/docs");
    assert_eq!(execute_cd(&cmd("cd", &["~"]), None), "/");
    assert_eq!(execute_cd(&cmd("cd", &["~/docs"]), None), "~/docs");
    assert_eq!(execute_cd(&cmd("cd", &["~x"]), Some("/home/me")), "~x");
    assert_eq!(execute_cd(&cmd("cd", &["/tmp", "extra"]), Some("/home/me")), "/tmp");
}

#[test]
fn execute_runs_builtin_logic_and_hands_back_the_rest() {
    let mut state = ShellState::new();
    let (r, out) = run(cmd("echo", &["hi"]), &mut state);
    assert!(matches!(r, Ok(Effect::Done)));
    assert_eq!(out, "hi\n");
    let (r, out) = run(cmd("cd", &["~/src"]), &mut state);
    match r {
        Ok(Effect::ChangeDirectory(d)) => assert_eq!(d, "/home/me/src"),
        _ => panic!("expected a directory change"),
    }
    assert_eq!(out, "");
    assert!(matches!(run(cmd("pwd", &[]), &mut state).0, Ok(Effect::PrintWorkingDirectory)));
    assert!(matches!(run(cmd("clear", &[]), &mut state).0, Ok(Effect::ClearScreen)));
    assert!(matches!(run(cmd("exit", &[]), &mut state).0, Ok(Effect::Done)));
    let ext = Command::resolve(cmd("ls", &[]), Some("/bin/ls".to_string())).unwrap();
    let mut out = String::new();
    assert!(matches!(ext.execute(&mut state, None, &vec![], false, false, &mut out).1, Ok(Effect::RunExternal)));
}

#[test]
fn execute_jobs_lists_and_forgets_finished_jobs() {
    let mut state = ShellState::new();
    let id = state.jobs.push_job(50, "sleep 9".to_string());
    state.jobs.update_job_status(id, codecrafters_shell::state::JobStatus::Done);
    let mut out = String::new();
    execute_jobs(&mut state, &mut out);
    assert_eq!(out, "[1]  +/- done    sleep 9\n\n");
    let mut out = String::new();
    execute_jobs(&mut state, &mut out);
    assert_eq!(out, "");
}

#[test]
fn background_builtins_rerun_the_shell_with_the_marker() {
    let p = cmd("echo", &["a", "b"]);
    assert_eq!(
        builtin_job_argv(&p),
        vec![INTERNAL_BUILTIN_MARKER.to_string(), "echo".to_string(), "a".to_string(), "b".to_string()]
    );
    match execute_background(ASTNode::Simple(p), None) {
        Ok(BackgroundAction::SpawnBuiltin(q)) => assert_eq!(q.cmd, "echo"),
        _ => panic!("expected a builtin job"),
    }
    match execute_background(ASTNode::Simple(cmd("exit", &[])), None) {
        Err(ShellError::ExitOut) => {}
        _ => panic!("expected exit"),
    }
    match execute_background(ASTNode::Simple(cmd("sleep", &["1"])), Some("/bin/sleep".to_string())) {
        Ok(BackgroundAction::SpawnExternal(e)) => assert_eq!(e.path, "/bin/sleep"),
        _ => panic!("expected an external job"),
    }
    match execute_background(ASTNode::Pipeline(vec![cmd("a", &["x y"]), cmd("b", &[])]), None) {
        Ok(BackgroundAction::SpawnPipeline(argv, text)) => {
            assert_eq!(argv.len(), 2);
            assert_eq!(argv[0], INTERNAL_PIPELINE_MARKER);
            let decoded = decode_pipeline(&argv[1]).unwrap();
            assert_eq!(decoded.len(), 2);
            assert_eq!(decoded[0].cmd, "a");
            assert_eq!(decoded[0].args, vec!["x y".to_string()]);
            assert_eq!(decoded[1].cmd, "b");
            assert_eq!(text, "a x y | b");
        }
        _ => panic!("expected a pipeline job"),
    }
}

#[test]
fn job_text_shows_arguments_and_redirections() {
    let mut p = cmd("echo", &["redirected"]);
    p.redirects.push(Redirection {
        descriptor: Descriptor::Stdout,
        file: "out.txt".to_string(),
        redirection_type: RedirectionType::Output,
    });
    p.redirects.push(Redirection {
        descriptor: Descriptor::Stderr,
        file: "err.txt".to_string(),
        redirection_type: RedirectionType::Append,
    });
    assert_eq!(command_text(&p), "echo redirected >out.txt 2>>err.txt");
    assert_eq!(command_text(&cmd("ls", &[])), "ls");
}

#[test]
fn ast_items_are_dispatched() {
    match ast_executor(ASTNode::Simple(cmd("exit", &[])), None) {
        Err(ShellError::ExitOut) => {}
        _ => panic!("expected exit"),
    }
    match ast_executor(ASTNode::Simple(cmd("help", &[])), None) {
        Ok(NodeAction::Run(Command::Builtin(BuiltinCommands::Help, _))) => {}
        _ => panic!("expected help"),
    }
    match ast_executor(ASTNode::Simple(cmd("nosuch", &[])), None) {
        Err(ShellError::CommandNotFound(n)) => assert_eq!(n, "nosuch"),
        _ => panic!("expected not found"),
    }
    match ast_executor(ASTNode::Background(Box::new(ASTNode::Simple(cmd("jobs", &[])))), None) {
        Ok(NodeAction::Background(BackgroundAction::SpawnBuiltin(p))) => assert_eq!(p.cmd, "jobs"),
        _ => panic!("expected a background builtin"),
    }
}

#[test]
fn internal_builtin_arguments_are_read() {
    match run_internal_builtin(&vec!["echo".to_string(), "x".to_string()]) {
        InternalBuiltin::Run(Command::Builtin(BuiltinCommands::Echo, p)) => {
            assert_eq!(p.cmd, "echo");
            assert_eq!(p.args, vec!["x".to_string()]);
            assert!(p.redirects.is_empty());
        }
        _ => panic!("expected echo"),
    }
    match run_internal_builtin(&vec!["ls".to_string()]) {
        InternalBuiltin::NotBuiltin(n) => assert_eq!(n, "ls"),
        _ => panic!("expected not a builtin"),
    }
    assert!(matches!(run_internal_builtin(&vec![]), InternalBuiltin::NoCommand));
}

#[test]
fn error_messages() {
    assert_eq!(ShellError::CdError("/x".to_string()).to_string(), "cd: /x: No such file or directory");
    assert_eq!(ShellError::ExitOut.to_string(), "exit");
    assert_eq!(ShellError::WaitError("ls".to_string()).to_string(), "failed to wait for command 'ls'");
    assert_eq!(ShellError::IoError("boom".to_string()).to_string(), "io error: boom");
    assert_eq!(ShellError::TooManyArguments.to_string(), "fc: too many arguments");
}
