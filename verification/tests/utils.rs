use codecrafters_shell::commands::executors::pipeline::{plan_pipeline, plan_stage, PipeSource, StageInput, StageOutput};
use codecrafters_shell::parser::ParsedCommand;
use codecrafters_shell::utils::order::{sorted_unique, str_lt};
use codecrafters_shell::utils::path::{
    get_executable_names, get_executable_path, get_os_paths, is_file_executable, join_path, split_paths,
};
use codecrafters_shell::utils::redirection::RedirectTargets;
use codecrafters_shell::utils::{Descriptor, Redirection, RedirectionType};

fn redirect(d: Descriptor, file: &str, t: RedirectionType) -> Redirection {
    Redirection { descriptor: d, file: file.to_string(), redirection_type: t }
}

#[test]
fn no_redirects_resolves_to_all_none() {
    let resolved = RedirectTargets::resolve(&ParsedCommand {
        cmd: "cmd".to_string(),
        args: vec![],
        redirects: vec![],
    });
    assert!(resolved.stdout.is_none());
    assert!(resolved.stderr.is_none());
    assert!(resolved.stdin.is_none());
}

#[test]
fn multiple_redirects_resolve_independently() {
    let resolved = RedirectTargets::resolve(&ParsedCommand {
        cmd: "cmd".to_string(),
        args: vec![],
        redirects: vec![
            redirect(Descriptor::Stdout, "out.txt", RedirectionType::Output),
            redirect(Descriptor::Stderr, "err.txt", RedirectionType::Output),
        ],
    });
    assert!(resolved.stdout.is_some());
    assert!(resolved.stderr.is_some());
    assert!(resolved.stdin.is_none());
}

#[test]
fn the_last_redirect_of_a_stream_wins() {
    let p = ParsedCommand {
        cmd: "cmd".to_string(),
        args: vec![],
        redirects: vec![
            redirect(Descriptor::Stdout, "a", RedirectionType::Output),
            redirect(Descriptor::Stderr, "e", RedirectionType::Output),
            redirect(Descriptor::Stdout, "b", RedirectionType::Append),
            redirect(Descriptor::Stdin, "i", RedirectionType::Input),
        ],
    };
    let t = RedirectTargets::resolve(&p);
    assert_eq!(t.stdout, Some(2));
    assert_eq!(t.stderr, Some(1));
    assert_eq!(t.stdin, Some(3));
}

#[test]
fn open_modes_follow_the_operator() {
    let m = RedirectionType::Output.open_mode();
    assert!(m.write && m.create && m.truncate && !m.append && !m.read);
    let m = RedirectionType::Append.open_mode();
    assert!(m.write && m.create && m.append && !m.truncate && !m.read);
    let m = RedirectionType::Input.open_mode();
    assert!(m.read && !m.write && !m.create);
}

#[test]
fn is_file_executable_detects_the_executable_bit() {
    assert!(is_file_executable(true, Some(0o755)));
    assert!(is_file_executable(true, Some(0o100)));
    assert!(is_file_executable(true, Some(0o001)));
    assert!(!is_file_executable(true, Some(0o644)));
    assert!(!is_file_executable(false, Some(0o755)));
    assert!(!is_file_executable(true, None));
}

#[test]
fn get_executable_path_finds_first_match_in_path_order() {
    let dirs = vec!["/a".to_string(), "/b/".to_string(), "/c".to_string()];
    assert_eq!(get_executable_path(&dirs, "tool", &vec![false, true, true]), Some("/b/tool".to_string()));
    assert_eq!(get_executable_path(&dirs, "tool", &vec![true, true, false]), Some("/a/tool".to_string()));
    assert_eq!(get_executable_path(&dirs, "tool", &vec![false, false, false]), None);
}

#[test]
fn joining_paths() {
    assert_eq!(join_path("/usr/bin", "ls"), "/usr/bin/ls");
    assert_eq!(join_path("/usr/bin/", "ls"), "/usr/bin/ls");
    assert_eq!(join_path("", "ls"), "ls");
    assert_eq!(join_path("/usr/bin", "/bin/ls"), "/bin/ls");
}

#[test]
fn splitting_path_values() {
    assert_eq!(split_paths("/bin:/usr/bin"), vec!["/bin".to_string(), "/usr/bin".to_string()]);
    assert_eq!(split_paths(""), vec!["".to_string()]);
    assert_eq!(split_paths("a::b:"), vec!["a".to_string(), "".to_string(), "b".to_string(), "".to_string()]);
    assert_eq!(get_os_paths(None), None);
    assert_eq!(get_os_paths(Some("x")), Some(vec!["x".to_string()]));
}

#[test]
fn get_executable_names_deduplicates_and_sorts() {
    let names = vec!["zzz".to_string(), "aaa".to_string(), "aaa".to_string(), "mmm".to_string()];
    assert_eq!(
        get_executable_names(names),
        vec!["aaa".to_string(), "mmm".to_string(), "zzz".to_string()]
    );
    assert_eq!(get_executable_names(vec![]), Vec::<String>::new());
}

#[test]
fn string_order_is_byte_order() {
    assert!(str_lt("a", "b"));
    assert!(str_lt("ab", "abc"));
    assert!(!str_lt("abc", "ab"));
    assert!(!str_lt("same", "same"));
    assert!(str_lt("Z", "a"));
    assert!(str_lt("z", "é"));
    let v = vec!["é".to_string(), "e".to_string(), "E".to_string(), "e".to_string()];
    assert_eq!(sorted_unique(v), vec!["E".to_string(), "e".to_string(), "é".to_string()]);
}

#[test]
fn only_the_last_stage_writes_to_the_terminal() {
    let plans = plan_pipeline(&vec![true, false, false, true]);
    assert_eq!(plans.len(), 4);
    assert_eq!(plans[0].output, StageOutput::Capture);
    assert_eq!(plans[1].input, StageInput::Buffer);
    assert_eq!(plans[1].output, StageOutput::Pipe);
    assert_eq!(plans[2].input, StageInput::PreviousProcess);
    assert_eq!(plans[2].output, StageOutput::Pipe);
    assert_eq!(plans[3].input, StageInput::Inherit);
    assert_eq!(plans[3].output, StageOutput::Terminal);
}

#[test]
fn a_single_stage_reads_and_writes_the_terminal() {
    let plans = plan_pipeline(&vec![false]);
    assert_eq!(plans[0].input, StageInput::Inherit);
    assert_eq!(plans[0].output, StageOutput::Terminal);
    let (plan, next) = plan_stage(PipeSource::Nothing, true, false);
    assert_eq!(plan.output, StageOutput::Capture);
    assert_eq!(next, PipeSource::Buffer);
}
