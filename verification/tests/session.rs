//! Command lines run through the library alone, as the shell runs builtins:
//! lex, parse, decide, execute; errors are reported on a separate stream.

use codecrafters_shell::commands::executors::pipeline::{plan_pipeline, StageOutput};
use codecrafters_shell::commands::{ast_executor, BuiltinCommands, Command, NodeAction};
use codecrafters_shell::error::ShellError;
use codecrafters_shell::parser::{Lexer, Parser};
use codecrafters_shell::state::ShellState;

struct Output {
    stdout: String,
    stderr: String,
}

fn run_builtin(cmd: &Command, state: &mut ShellState, out: &mut String) -> Result<(), ShellError> {
    let type_paths: Vec<Option<String>> = match cmd {
        Command::Builtin(BuiltinCommands::Type, p) => p.args.iter().map(|_| None).collect(),
        _ => vec![],
    };
    cmd.execute(state, Some("/home/user"), &type_paths, false, false, out).1.map(|_| ())
}

fn run_line(line: &str, state: &mut ShellState, out: &mut Output) -> Result<(), ShellError> {
    let tokens = Lexer::tokenizer(line)?;
    let ast = Parser::parser(tokens)?;
    for node in ast {
        match ast_executor(node, None)? {
            NodeAction::Run(cmd) => run_builtin(&cmd, state, &mut out.stdout)?,
            NodeAction::RunPipeline(cmds) => {
                let kinds: Vec<bool> = cmds.iter().map(|c| BuiltinCommands::is_builtin_command(&c.cmd)).collect();
                let plans = plan_pipeline(&kinds);
                for (parsed, plan) in cmds.into_iter().zip(plans) {
                    let cmd = Command::resolve(parsed, None)?;
                    let mut captured = String::new();
                    run_builtin(&cmd, state, &mut captured)?;
                    if plan.output == StageOutput::Terminal {
                        out.stdout.push_str(&captured);
                    }
                }
            }
            NodeAction::Background(_) => panic!("no background jobs in these sessions"),
        }
    }
    Ok(())
}

fn run(script: &str) -> Output {
    let mut state = ShellState::new();
    let mut out = Output { stdout: String::new(), stderr: String::new() };
    for raw in script.lines() {
        let line = raw.trim();
        if line.is_empty() {
            continue;
        }
        state.add_history(line.to_string());
        match run_line(line, &mut state, &mut out) {
            Ok(()) => {}
            Err(ShellError::ExitOut) => break,
            Err(e) => {
                out.stderr.push_str(&e.to_string());
                out.stderr.push('\n');
            }
        }
    }
    out
}

#[test]
fn echo_with_no_args_prints_a_blank_line() {
    assert_eq!(run("echo\n").stdout, "\n");
}

#[test]
fn echo_joins_args_with_single_spaces() {
    assert_eq!(run("echo hello   world\n").stdout, "hello world\n");
}

#[test]
fn echo_preserves_quoted_internal_spacing() {
    assert_eq!(run("echo \"hello   world\"\n").stdout, "hello   world\n");
}

#[test]
fn type_reports_shell_builtins() {
    assert_eq!(run("type echo\n").stdout, "echo is a shell builtin\n");
}

#[test]
fn type_reports_jobs_as_a_shell_builtin() {
    assert_eq!(run("type jobs\n").stdout, "jobs is a shell builtin\n");
}

#[test]
fn type_reports_not_found_for_unknown_commands() {
    assert!(run("type nosuchcommand\n").stderr.contains("nosuchcommand: not found"));
}

#[test]
fn help_lists_all_builtins() {
    let text = run("help\n").stdout;
    assert!(text.starts_with("Available builtin commands:\n"));
    for name in ["exit", "echo", "help", "type", "pwd", "cd", "clear", "history"] {
        assert!(text.contains(name), "expected help output to mention `{name}`, got:\n{text}");
    }
}

#[test]
fn unknown_command_reports_not_found_and_shell_keeps_running() {
    let out = run("nosuchcommand\necho still-alive\n");
    assert!(out.stderr.contains("nosuchcommand: not found"));
    assert!(out.stdout.contains("still-alive"));
}

#[test]
fn exit_stops_the_shell_before_later_lines_run() {
    let text = run("echo before\nexit\necho after\n").stdout;
    assert!(text.contains("before"));
    assert!(!text.contains("after"));
}

#[test]
fn unclosed_single_quote_is_reported_as_a_syntax_error() {
    let out = run("echo 'unterminated\necho still-alive\n");
    assert!(out.stderr.contains("unclosed single quote"));
    assert!(out.stdout.contains("still-alive"));
}

#[test]
fn unclosed_double_quote_is_reported_as_a_syntax_error() {
    let out = run("echo \"unterminated\necho still-alive\n");
    assert!(out.stderr.contains("unclosed double quote"));
    assert!(out.stdout.contains("still-alive"));
}

#[test]
fn cli_lexer_syntax_trailing_pipe_is_a_syntax_error() {
    let out = run("echo hi |\necho still-alive\n");
    assert!(out.stderr.contains("syntax error"));
    assert!(out.stdout.contains("still-alive"));
}

#[test]
fn jobs_with_no_background_jobs_produces_no_output() {
    let out = run("jobs\n");
    assert_eq!(out.stdout, "");
    assert_eq!(out.stderr, "");
}

#[test]
fn jobs_returns_to_the_prompt_and_shell_keeps_running() {
    assert_eq!(run("jobs\necho still-alive\n").stdout, "still-alive\n");
}

#[test]
fn builtin_to_builtin_pipeline_only_the_last_stage_writes_to_real_stdout() {
    assert_eq!(run("echo a | echo b | echo c\n").stdout, "c\n");
}

#[test]
fn history_with_no_args_shows_up_to_last_ten_entries_numbered() {
    let text = run("echo one\necho two\necho three\nhistory\n").stdout;
    assert!(text.contains("    1  echo one\n"));
    assert!(text.contains("    2  echo two\n"));
    assert!(text.contains("    3  echo three\n"));
    assert!(text.contains("    4  history\n"));
}

#[test]
fn history_with_numeric_arg_limits_to_last_n_entries() {
    let text = run("echo one\necho two\necho three\nhistory 2\n").stdout;
    assert!(!text.contains("echo one"));
    assert!(!text.contains("echo two"));
    assert!(text.contains("echo three"));
    assert!(text.contains("history 2"));
}
