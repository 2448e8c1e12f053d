use codecrafters_shell::editor::helper::{path_target, Completion, DirEntry};
use codecrafters_shell::editor::{EditorHelper, Pair};

fn names(pairs: &[Pair]) -> Vec<String> {
    let mut v: Vec<String> = pairs.iter().map(|p| p.display.clone()).collect();
    v.sort();
    v
}

fn entry(name: &str, is_dir: bool) -> DirEntry {
    DirEntry { name: name.to_string(), is_dir }
}

#[test]
fn find_builtin_commands_matches_by_prefix() {
    let helper = EditorHelper::new();
    assert_eq!(names(&helper.find_builtin_commands("ec")), vec!["echo"]);
    assert_eq!(names(&helper.find_builtin_commands("")), {
        let mut all: Vec<String> = vec!["clear", "exit", "echo", "help", "type", "pwd", "cd", "history", "jobs"]
            .into_iter()
            .map(String::from)
            .collect();
        all.sort();
        all
    });
    assert!(helper.find_builtin_commands("zzz-nope").is_empty());
}

#[test]
fn find_external_commands_matches_only_whats_on_path() {
    let helper = EditorHelper::new();
    let on_path = vec!["myfakecmd".to_string(), "other".to_string()];
    assert_eq!(names(&helper.find_external_commands(&on_path, "myfake")), vec!["myfakecmd"]);
}

#[test]
fn find_path_completions_lists_files_and_marks_directories() {
    let helper = EditorHelper::new();
    let entries = vec![entry("file_a.txt", false), entry("subdir", true)];
    let c = helper.find_path_completions("", &entries);
    let file = c.iter().find(|p| p.display == "file_a.txt").unwrap();
    assert_eq!(file.replacement, "file_a.txt ");
    let dir = c.iter().find(|p| p.display == "subdir/").unwrap();
    assert_eq!(dir.replacement, "subdir/");
}

#[test]
fn find_path_completions_filters_by_prefix_within_a_directory() {
    let helper = EditorHelper::new();
    let t = path_target("/tmp/nested/a");
    assert_eq!(t.dir_to_scan, "/tmp/nested/");
    assert_eq!(t.file_prefix, "a");
    assert_eq!(t.scan_path, "/tmp/nested/");
    let entries = vec![entry("apple.txt", false), entry("banana.txt", false)];
    let c = helper.find_path_completions("/tmp/nested/a", &entries);
    assert_eq!(c.len(), 1);
    assert_eq!(c[0].display, "apple.txt");
    assert_eq!(c[0].replacement, "/tmp/nested/apple.txt ");
    assert_eq!(path_target("abc").scan_path, ".");
}

#[test]
fn a_single_command_match_completes_with_a_space() {
    let mut helper = EditorHelper::new();
    match helper.complete("ech", 3, &vec![], &vec![]) {
        Completion::Candidates(start, c) => {
            assert_eq!(start, 0);
            assert_eq!(c.len(), 1);
            assert_eq!(c[0].display, "echo");
            assert_eq!(c[0].replacement, "echo ");
        }
        other => panic!("expected candidates, got {:?}", other),
    }
}

#[test]
fn several_matches_ring_then_list_sorted_and_unique() {
    let mut helper = EditorHelper::new();
    let on_path = vec!["exit".to_string(), "expr".to_string(), "exa".to_string()];
    match helper.complete("ex", 2, &on_path, &vec![]) {
        Completion::Bell(start) => assert_eq!(start, 0),
        other => panic!("expected a bell, got {:?}", other),
    }
    match helper.complete("ex", 2, &on_path, &vec![]) {
        Completion::ListMatches(start, text) => {
            assert_eq!(start, 0);
            assert_eq!(text, "\nexa  exit  expr\n$ ex");
        }
        other => panic!("expected a listing, got {:?}", other),
    }
    match helper.complete("exp", 3, &on_path, &vec![]) {
        Completion::Candidates(_, c) => assert_eq!(c[0].replacement, "expr "),
        other => panic!("expected candidates, got {:?}", other),
    }
}

#[test]
fn later_words_complete_paths_from_the_word_start() {
    let mut helper = EditorHelper::new();
    let entries = vec![entry("notes.txt", false), entry("nested", true)];
    match helper.complete("cat no", 6, &vec![], &entries) {
        Completion::Candidates(start, c) => {
            assert_eq!(start, 4);
            assert_eq!(c.len(), 1);
            assert_eq!(c[0].replacement, "notes.txt ");
        }
        other => panic!("expected candidates, got {:?}", other),
    }
    match helper.complete("cat n", 5, &vec![], &entries) {
        Completion::Bell(start) => assert_eq!(start, 4),
        other => panic!("expected a bell, got {:?}", other),
    }
    match helper.complete("cat n", 5, &vec![], &entries) {
        Completion::ListMatches(_, text) => assert_eq!(text, "\nnested/  notes.txt\n$ cat n"),
        other => panic!("expected a listing, got {:?}", other),
    }
}

#[test]
fn byte_positions_count_utf8_bytes() {
    let mut helper = EditorHelper::new();
    let entries = vec![entry("über.txt", false)];
    match helper.complete("é ü", 5, &vec![], &entries) {
        Completion::Candidates(start, c) => {
            assert_eq!(start, 3);
            assert_eq!(c[0].replacement, "über.txt ");
        }
        other => panic!("expected candidates, got {:?}", other),
    }
}

#[test]
fn tester_example_partial_completes_then_bell_then_lists_all_three() {
    let mut helper = EditorHelper::new();
    let on_path = vec!["xyz_bee".to_string(), "xyz_bee_ant".to_string(), "xyz_bee_ant_dog".to_string()];
    match helper.complete("xyz_", 4, &on_path, &vec![]) {
        Completion::Candidates(start, c) => {
            assert_eq!(start, 0);
            assert_eq!(c.len(), 1);
            assert_eq!(c[0].replacement, "xyz_bee");
        }
        other => panic!("expected the common prefix, got {:?}", other),
    }
    match helper.complete("xyz_bee", 7, &on_path, &vec![]) {
        Completion::Bell(0) => {}
        other => panic!("expected a bell, got {:?}", other),
    }
    match helper.complete("xyz_bee", 7, &on_path, &vec![]) {
        Completion::ListMatches(_, text) => assert_eq!(text, "\nxyz_bee  xyz_bee_ant  xyz_bee_ant_dog\n$ xyz_bee"),
        other => panic!("expected a listing, got {:?}", other),
    }
}

#[test]
fn partial_completion_stops_exactly_where_matches_diverge() {
    let mut helper = EditorHelper::new();
    let on_path = vec!["kobdef".to_string(), "kobxyz".to_string()];
    match helper.complete("k", 1, &on_path, &vec![]) {
        Completion::Candidates(_, c) => assert_eq!(c[0].replacement, "kob"),
        other => panic!("expected the common prefix, got {:?}", other),
    }
    assert!(matches!(helper.complete("kob", 3, &on_path, &vec![]), Completion::Bell(_)));
}

#[test]
fn partial_completion_also_applies_to_filename_and_path_completion() {
    let mut helper = EditorHelper::new();
    let entries = vec![entry("report_alpha.txt", false), entry("report_beta.txt", false)];
    match helper.complete("stat rep", 8, &vec![], &entries) {
        Completion::Candidates(start, c) => {
            assert_eq!(start, 5);
            assert_eq!(c[0].replacement, "report_");
        }
        other => panic!("expected the common prefix, got {:?}", other),
    }
}

#[test]
fn no_common_prefix_beyond_typed_input_goes_straight_to_bell() {
    let mut helper = EditorHelper::new();
    let on_path = vec!["xyz_bee".to_string(), "xyz_cow".to_string()];
    assert!(matches!(helper.complete("xyz_", 4, &on_path, &vec![]), Completion::Bell(0)));
}
