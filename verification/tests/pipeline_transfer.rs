use codecrafters_shell::commands::executors::pipeline_transfer::{decode_pipeline, encode_pipeline};
use codecrafters_shell::parser::ParsedCommand;
use codecrafters_shell::utils::{Descriptor, Redirection, RedirectionType};

#[test]
fn round_trips_a_multi_stage_pipeline_with_redirects() {
    let cmds = vec![
        ParsedCommand {
            cmd: "echo".to_string(),
            args: vec!["hi there".to_string(), "a:b;c".to_string()],
            redirects: vec![Redirection {
                descriptor: Descriptor::Stdin,
                redirection_type: RedirectionType::Input,
                file: "in.txt".to_string(),
            }],
        },
        ParsedCommand {
            cmd: "grep".to_string(),
            args: vec!["|weird|arg|".to_string()],
            redirects: vec![Redirection {
                descriptor: Descriptor::Stdout,
                redirection_type: RedirectionType::Append,
                file: "out.txt".to_string(),
            }],
        },
    ];

    let encoded = encode_pipeline(&cmds);
    let decoded = decode_pipeline(&encoded).expect("should decode cleanly");

    assert_eq!(decoded.len(), cmds.len());
    for (d, c) in decoded.iter().zip(cmds.iter()) {
        assert_eq!(d.cmd, c.cmd);
        assert_eq!(d.args, c.args);
        assert_eq!(d.redirects, c.redirects);
    }
}

#[test]
fn round_trips_an_empty_pipeline() {
    let encoded = encode_pipeline(&[]);
    let decoded = decode_pipeline(&encoded).expect("should decode cleanly");
    assert!(decoded.is_empty());
}

#[test]
fn rejects_garbage_payloads() {
    assert!(decode_pipeline("not a valid payload").is_err());
}

#[test]
fn round_trips_non_ascii_and_empty_words() {
    let cmds = vec![ParsedCommand {
        cmd: "échø".to_string(),
        args: vec!["".to_string(), "日本語 ü".to_string()],
        redirects: vec![Redirection {
            descriptor: Descriptor::Stderr,
            redirection_type: RedirectionType::Output,
            file: "ërr.txt".to_string(),
        }],
    }];
    let decoded = decode_pipeline(&encode_pipeline(&cmds)).expect("should decode cleanly");
    assert_eq!(decoded.len(), 1);
    assert_eq!(decoded[0].cmd, cmds[0].cmd);
    assert_eq!(decoded[0].args, cmds[0].args);
    assert_eq!(decoded[0].redirects, cmds[0].redirects);
}

#[test]
fn rejects_truncated_payloads() {
    let cmds = vec![ParsedCommand {
        cmd: "echo".to_string(),
        args: vec!["hello".to_string()],
        redirects: vec![],
    }];
    let encoded = encode_pipeline(&cmds);
    let cut = &encoded[..encoded.len() - 1];
    assert!(decode_pipeline(cut).is_err());
    let err = decode_pipeline("x").unwrap_err();
    assert!(err.to_string().starts_with("syntax error: "));
}
