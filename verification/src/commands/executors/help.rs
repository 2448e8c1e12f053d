use vstd::prelude::*;
use crate::commands::builtin::BuiltinCommands;

verus! {

/// The help line of a builtin.
pub open spec fn command_help(cmd: BuiltinCommands) -> Seq<char> {
    match cmd {
        BuiltinCommands::Exit => "exit     - Exit the shell"@,
        BuiltinCommands::Echo => "echo     - Print text to stdout"@,
        BuiltinCommands::Help => "help     - Show this help message"@,
        BuiltinCommands::Type => "type     - Show information about a command"@,
        BuiltinCommands::Pwd => "pwd      - Print working directory"@,
        BuiltinCommands::Cd => "cd       - Change directory"@,
        BuiltinCommands::Clear => "clear    - Clear the screen"@,
        BuiltinCommands::History => "history  - Show command history"@,
        BuiltinCommands::Jobs => "jobs     - Show running jobs"@,
    }
}

/// The help lines of the given builtins, indented, one per line.
pub open spec fn help_lines(cmds: Seq<BuiltinCommands>) -> Seq<char>
    decreases cmds.len(),
{
    if cmds.len() == 0 {
        seq![]
    } else {
        help_lines(cmds.drop_last()) + "  "@ + command_help(cmds.last()) + "\n"@
    }
}

/// The help text: a heading, then the help line of every builtin.
pub open spec fn help_text() -> Seq<char> {
    "Available builtin commands:\n"@ + help_lines(crate::commands::builtin::all_builtins())
}

/// The help line of a builtin.
fn get_command_help(cmd: BuiltinCommands) -> (s: &'static str)
    ensures
        s@ == command_help(cmd),
{
    match cmd {
        BuiltinCommands::Exit => "exit     - Exit the shell",
        BuiltinCommands::Echo => "echo     - Print text to stdout",
        BuiltinCommands::Help => "help     - Show this help message",
        BuiltinCommands::Type => "type     - Show information about a command",
        BuiltinCommands::Pwd => "pwd      - Print working directory",
        BuiltinCommands::Cd => "cd       - Change directory",
        BuiltinCommands::Clear => "clear    - Clear the screen",
        BuiltinCommands::History => "history  - Show command history",
        BuiltinCommands::Jobs => "jobs     - Show running jobs",
    }
}

/// `help`: lists every builtin with a short description.
pub fn execute_help(stdout: &mut String)
    ensures
        final(stdout)@ == old(stdout)@ + help_text(),
{
    let ghost start = stdout@;
    stdout.append("Available builtin commands:\n");
    let cmds = BuiltinCommands::iter();
    let ghost all = crate::commands::builtin::all_builtins();
    let mut i: usize = 0;
    assert(all.take(0) =~= Seq::<BuiltinCommands>::empty());
    while i < cmds.len()
        invariant
            cmds@ == all,
            i <= cmds.len(),
            stdout@ == start + "Available builtin commands:\n"@ + help_lines(all.take(i as int)),
        decreases cmds.len() - i,
    {
        stdout.append("  ");
        stdout.append(get_command_help(cmds[i]));
        stdout.append("\n");
        assert(all.take(i + 1).drop_last() =~= all.take(i as int));
        assert(all.take(i + 1).last() == cmds@[i as int]);
        assert(stdout@ =~= start + "Available builtin commands:\n"@ + help_lines(all.take(i + 1)));
        i = i + 1;
    }
    assert(all.take(cmds.len() as int) =~= all);
}

} // verus!
