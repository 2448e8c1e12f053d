use codecrafters_shell::error::ShellError;
use codecrafters_shell::parser::{ASTNode, Lexer, Parser};
use codecrafters_shell::utils::{Descriptor, RedirectionType};

fn parse(input: &str) -> Result<Vec<ASTNode>, ShellError> {
    let tokens = Lexer::tokenizer(input).expect("lexing should succeed");
    Parser::parser(tokens)
}

fn parse_one(input: &str) -> ASTNode {
    let mut nodes = parse(input).unwrap();
    assert_eq!(nodes.len(), 1, "expected exactly one top-level node, got {:?}", nodes);
    nodes.pop().unwrap()
}

#[test]
fn parses_simple_command_with_args() {
    match parse_one("echo hello world") {
        ASTNode::Simple(cmd) => {
            assert_eq!(cmd.cmd, "echo");
            assert_eq!(cmd.args, vec!["hello".to_string(), "world".to_string()]);
            assert!(cmd.redirects.is_empty());
        }
        other => panic!("expected Simple, got {:?}", other),
    }
}

#[test]
fn parses_pipeline_into_multiple_commands() {
    match parse_one("echo hi | tr a-z A-Z | wc -l") {
        ASTNode::Pipeline(cmds) => {
            assert_eq!(cmds.len(), 3);
            assert_eq!(cmds[0].cmd, "echo");
            assert_eq!(cmds[1].cmd, "tr");
            assert_eq!(cmds[1].args, vec!["a-z".to_string(), "A-Z".to_string()]);
            assert_eq!(cmds[2].cmd, "wc");
            assert_eq!(cmds[2].args, vec!["-l".to_string()]);
        }
        other => panic!("expected Pipeline, got {:?}", other),
    }
}

#[test]
fn parses_output_redirection() {
    match parse_one("echo hi > out.txt") {
        ASTNode::Simple(cmd) => {
            assert_eq!(cmd.redirects.len(), 1);
            assert_eq!(cmd.redirects[0].file, "out.txt");
            assert_eq!(cmd.redirects[0].descriptor, Descriptor::Stdout);
            assert_eq!(cmd.redirects[0].redirection_type, RedirectionType::Output);
        }
        other => panic!("expected Simple, got {:?}", other),
    }
}

#[test]
fn parses_append_and_input_and_stderr_redirection_together() {
    match parse_one("cmd 0< in.txt >> out.txt 2> err.txt") {
        ASTNode::Simple(cmd) => {
            assert_eq!(cmd.redirects.len(), 3);
            assert_eq!(cmd.redirects[0].redirection_type, RedirectionType::Input);
            assert_eq!(cmd.redirects[0].descriptor, Descriptor::Stdin);
            assert_eq!(cmd.redirects[1].redirection_type, RedirectionType::Append);
            assert_eq!(cmd.redirects[1].descriptor, Descriptor::Stdout);
            assert_eq!(cmd.redirects[2].redirection_type, RedirectionType::Output);
            assert_eq!(cmd.redirects[2].descriptor, Descriptor::Stderr);
        }
        other => panic!("expected Simple, got {:?}", other),
    }
}

#[test]
fn empty_command_is_a_syntax_error() {
    assert!(parse("").is_err());
}

#[test]
fn parser_trailing_pipe_is_a_syntax_error() {
    let err = parse("echo hi |").unwrap_err();
    assert!(err.to_string().contains("unexpected empty command"));
}

#[test]
fn leading_pipe_is_a_syntax_error() {
    assert!(parse("| echo hi").is_err());
}

#[test]
fn redirect_missing_filename_is_a_syntax_error() {
    let err = parse("echo hi >").unwrap_err();
    assert!(err.to_string().contains("expected file name after >"));
}

#[test]
fn and_or_operators_still_silently_truncate_the_command() {
    match parse_one("echo a && echo b") {
        ASTNode::Simple(cmd) => {
            assert_eq!(cmd.cmd, "echo");
            assert_eq!(cmd.args, vec!["a".to_string()]);
        }
        other => panic!("expected Simple, got {:?}", other),
    }
}

#[test]
fn single_trailing_background_wraps_command_in_background_node() {
    match parse_one("sleep 10 &") {
        ASTNode::Background(inner) => match *inner {
            ASTNode::Simple(cmd) => {
                assert_eq!(cmd.cmd, "sleep");
                assert_eq!(cmd.args, vec!["10".to_string()]);
            }
            other => panic!("expected Simple inside Background, got {:?}", other),
        },
        other => panic!("expected Background, got {:?}", other),
    }
}

#[test]
fn background_wraps_the_whole_preceding_pipeline_not_just_its_last_stage() {
    match parse_one("echo hi | tr a-z A-Z &") {
        ASTNode::Background(inner) => match *inner {
            ASTNode::Pipeline(cmds) => {
                assert_eq!(cmds.len(), 2);
                assert_eq!(cmds[0].cmd, "echo");
                assert_eq!(cmds[1].cmd, "tr");
            }
            other => panic!("expected Pipeline inside Background, got {:?}", other),
        },
        other => panic!("expected Background, got {:?}", other),
    }
}

#[test]
fn only_the_command_before_the_ampersand_is_backgrounded() {
    let mut nodes = parse("sleep 2 & sleep 3").unwrap();
    assert_eq!(nodes.len(), 2);
    let second = nodes.pop().unwrap();
    let first = nodes.pop().unwrap();

    match first {
        ASTNode::Background(inner) => match *inner {
            ASTNode::Simple(cmd) => assert_eq!(cmd.args, vec!["2".to_string()]),
            other => panic!("expected Simple inside Background, got {:?}", other),
        },
        other => panic!("expected first item to be Background, got {:?}", other),
    }
    match second {
        ASTNode::Simple(cmd) => assert_eq!(cmd.args, vec!["3".to_string()]),
        other => panic!("expected second item to be plain Simple, got {:?}", other),
    }
}

#[test]
fn trailing_ampersand_backgrounds_every_item_including_the_last() {
    let mut nodes = parse("sleep 2 & sleep 3 &").unwrap();
    assert_eq!(nodes.len(), 2);
    let second = nodes.pop().unwrap();
    let first = nodes.pop().unwrap();

    assert!(matches!(first, ASTNode::Background(_)));
    assert!(matches!(second, ASTNode::Background(_)));
}

#[test]
fn leading_ampersand_is_a_syntax_error() {
    assert!(parse("& echo hi").is_err());
}

#[test]
fn empty_item_between_two_ampersands_is_a_syntax_error() {
    let err = parse("sleep 2 & & sleep 3").unwrap_err();
    assert!(err
        .to_string()
        .contains("syntax error near unexpected token `&`"));
}

#[test]
fn empty_command_reports_unexpected_empty_command() {
    let err = parse("").unwrap_err();
    assert_eq!(err.to_string(), "syntax error: unexpected empty command");
}

#[test]
fn redirect_followed_by_an_operator_names_the_operator() {
    let err = parse("echo hi 2>> | cat").unwrap_err();
    assert_eq!(err.to_string(), "syntax error: expected file name after >>");
    let err = parse("cat 0<").unwrap_err();
    assert_eq!(err.to_string(), "syntax error: expected file name after <");
}

#[test]
fn later_redirects_keep_their_order() {
    match parse_one("echo a > one.txt > two.txt") {
        ASTNode::Simple(cmd) => {
            assert_eq!(cmd.args, vec!["a".to_string()]);
            assert_eq!(cmd.redirects.len(), 2);
            assert_eq!(cmd.redirects[0].file, "one.txt");
            assert_eq!(cmd.redirects[1].file, "two.txt");
        }
        other => panic!("expected Simple, got {:?}", other),
    }
}
