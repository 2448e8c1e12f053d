use vstd::prelude::*;

verus! {

/// The commands the shell runs itself instead of looking them up on `PATH`.
#[derive(Clone, Copy, PartialEq, Eq, Debug, Structural)]
pub enum BuiltinCommands {
    Clear,
    Exit,
    Echo,
    Help,
    Type,
    Pwd,
    Cd,
    History,
    Jobs,
}

/// The name a builtin is typed as.
pub open spec fn builtin_name(b: BuiltinCommands) -> Seq<char> {
    match b {
        BuiltinCommands::Clear => "clear"@,
        BuiltinCommands::Exit => "exit"@,
        BuiltinCommands::Echo => "echo"@,
        BuiltinCommands::Help => "help"@,
        BuiltinCommands::Type => "type"@,
        BuiltinCommands::Pwd => "pwd"@,
        BuiltinCommands::Cd => "cd"@,
        BuiltinCommands::History => "history"@,
        BuiltinCommands::Jobs => "jobs"@,
    }
}

/// The builtin whose name is exactly `s` (the lookup is case sensitive).
pub open spec fn builtin_from_name(s: Seq<char>) -> Option<BuiltinCommands> {
    if s == "clear"@ {
        Some(BuiltinCommands::Clear)
    } else if s == "exit"@ {
        Some(BuiltinCommands::Exit)
    } else if s == "echo"@ {
        Some(BuiltinCommands::Echo)
    } else if s == "help"@ {
        Some(BuiltinCommands::Help)
    } else if s == "type"@ {
        Some(BuiltinCommands::Type)
    } else if s == "pwd"@ {
        Some(BuiltinCommands::Pwd)
    } else if s == "cd"@ {
        Some(BuiltinCommands::Cd)
    } else if s == "history"@ {
        Some(BuiltinCommands::History)
    } else if s == "jobs"@ {
        Some(BuiltinCommands::Jobs)
    } else {
        None
    }
}

/// Every builtin, in declaration order.
pub open spec fn all_builtins() -> Seq<BuiltinCommands> {
    seq![
        BuiltinCommands::Clear,
        BuiltinCommands::Exit,
        BuiltinCommands::Echo,
        BuiltinCommands::Help,
        BuiltinCommands::Type,
        BuiltinCommands::Pwd,
        BuiltinCommands::Cd,
        BuiltinCommands::History,
        BuiltinCommands::Jobs,
    ]
}

impl BuiltinCommands {
    /// Looks a builtin up by its exact name.
    pub fn from_name(s: &str) -> (r: Option<BuiltinCommands>)
        ensures
            r == builtin_from_name(s@),
    {
        let owned: String = s.to_owned();
        if owned == String::from_str("clear") {
            Some(BuiltinCommands::Clear)
        } else if owned == String::from_str("exit") {
            Some(BuiltinCommands::Exit)
        } else if owned == String::from_str("echo") {
            Some(BuiltinCommands::Echo)
        } else if owned == String::from_str("help") {
            Some(BuiltinCommands::Help)
        } else if owned == String::from_str("type") {
            Some(BuiltinCommands::Type)
        } else if owned == String::from_str("pwd") {
            Some(BuiltinCommands::Pwd)
        } else if owned == String::from_str("cd") {
            Some(BuiltinCommands::Cd)
        } else if owned == String::from_str("history") {
            Some(BuiltinCommands::History)
        } else if owned == String::from_str("jobs") {
            Some(BuiltinCommands::Jobs)
        } else {
            None
        }
    }

    /// Whether `s` names a builtin.
    pub fn is_builtin_command(s: &str) -> (r: bool)
        ensures
            r == builtin_from_name(s@).is_some(),
    {
        Self::from_name(s).is_some()
    }

    /// Every builtin, in declaration order.
    pub fn iter() -> (v: Vec<BuiltinCommands>)
        ensures
            v@ == all_builtins(),
    {
        let v = vec![
            BuiltinCommands::Clear,
            BuiltinCommands::Exit,
            BuiltinCommands::Echo,
            BuiltinCommands::Help,
            BuiltinCommands::Type,
            BuiltinCommands::Pwd,
            BuiltinCommands::Cd,
            BuiltinCommands::History,
            BuiltinCommands::Jobs,
        ];
        assert(v@ =~= all_builtins());
        v
    }

    /// The name the builtin is typed as.
    pub fn to_string(&self) -> (s: String)
        ensures
            s@ == builtin_name(*self),
    {
        match self {
            BuiltinCommands::Clear => String::from_str("clear"),
            BuiltinCommands::Exit => String::from_str("exit"),
            BuiltinCommands::Echo => String::from_str("echo"),
            BuiltinCommands::Help => String::from_str("help"),
            BuiltinCommands::Type => String::from_str("type"),
            BuiltinCommands::Pwd => String::from_str("pwd"),
            BuiltinCommands::Cd => String::from_str("cd"),
            BuiltinCommands::History => String::from_str("history"),
            BuiltinCommands::Jobs => String::from_str("jobs"),
        }
    }
}

/// The name of every builtin looks that builtin up, and nothing else has a
/// name: names and builtins correspond one to one.
pub proof fn lemma_name_lookup_round_trip(b: BuiltinCommands)
    ensures
        builtin_from_name(builtin_name(b)) == Some(b),
{
    reveal_strlit("clear");
    reveal_strlit("exit");
    reveal_strlit("echo");
    reveal_strlit("help");
    reveal_strlit("type");
    reveal_strlit("pwd");
    reveal_strlit("cd");
    reveal_strlit("history");
    reveal_strlit("jobs");
    assert("clear"@.len() == 5 && "clear"@[0] == 'c' && "clear"@[1] == 'l');
    assert("exit"@.len() == 4 && "exit"@[0] == 'e' && "exit"@[1] == 'x');
    assert("echo"@.len() == 4 && "echo"@[0] == 'e' && "echo"@[1] == 'c');
    assert("help"@.len() == 4 && "help"@[0] == 'h' && "help"@[1] == 'e');
    assert("type"@.len() == 4 && "type"@[0] == 't' && "type"@[1] == 'y');
    assert("pwd"@.len() == 3 && "pwd"@[0] == 'p' && "pwd"@[1] == 'w');
    assert("cd"@.len() == 2 && "cd"@[0] == 'c' && "cd"@[1] == 'd');
    assert("history"@.len() == 7 && "history"@[0] == 'h' && "history"@[1] == 'i');
    assert("jobs"@.len() == 4 && "jobs"@[0] == 'j' && "jobs"@[1] == 'o');
}

/// A name that looks up a builtin is that builtin's name.
pub proof fn lemma_lookup_name_round_trip(s: Seq<char>)
    ensures
        builtin_from_name(s) matches Some(b) ==> builtin_name(b) == s,
{
}

} // verus!
