use codecrafters_shell::commands::BuiltinCommands;

#[test]
fn recognizes_every_registered_builtin_name() {
    for cmd in BuiltinCommands::iter() {
        let name = cmd.to_string();
        assert_eq!(BuiltinCommands::from_name(&name).unwrap(), cmd);
        assert!(BuiltinCommands::is_builtin_command(&name));
    }
}

#[test]
fn unknown_command_is_not_a_builtin() {
    assert!(BuiltinCommands::from_name("not-a-real-command").is_none());
    assert!(!BuiltinCommands::is_builtin_command("ls"));
}

#[test]
fn display_round_trips_through_the_lookup_table() {
    for cmd in BuiltinCommands::iter() {
        let name = cmd.to_string();
        assert_eq!(BuiltinCommands::from_name(&name).unwrap(), cmd);
    }
}

#[test]
fn lookup_is_case_sensitive() {
    assert!(BuiltinCommands::from_name("ECHO").is_none());
    assert!(BuiltinCommands::from_name("Echo").is_none());
}

#[test]
fn every_builtin_is_listed_once_in_declaration_order() {
    let names: Vec<String> = BuiltinCommands::iter().iter().map(|b| b.to_string()).collect();
    assert_eq!(
        names,
        vec!["clear", "exit", "echo", "help", "type", "pwd", "cd", "history", "jobs"]
    );
}
