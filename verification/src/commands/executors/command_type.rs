use vstd::prelude::*;
use crate::commands::builtin::{builtin_from_name, BuiltinCommands};
use crate::error::ShellError;
use crate::parser::parser::ParsedCommand;

verus! {

/// An optional string as a mathematical value.
pub open spec fn opt_view(o: Option<String>) -> Option<Seq<char>> {
    match o {
        Some(s) => Some(s@),
        None => None,
    }
}

/// What `type` writes for the names `args`, where `paths[i]` is where the
/// `PATH` search found `args[i]`: one line per name, in order, up to the
/// first name that is neither a builtin nor found, which is returned.
pub open spec fn type_report(args: Seq<Seq<char>>, paths: Seq<Option<Seq<char>>>) -> (Seq<char>, Option<Seq<char>>)
    decreases args.len(),
{
    if args.len() == 0 {
        (seq![], None)
    } else {
        let (text, missing) = type_report(args.drop_last(), paths.drop_last());
        let a = args.last();
        if missing is Some {
            (text, missing)
        } else if builtin_from_name(a) is Some {
            (text + a + " is a shell builtin\n"@, None)
        } else {
            match paths[args.len() - 1] {
                Some(p) => (text + a + " is "@ + p + "\n"@, None),
                None => (text, Some(a)),
            }
        }
    }
}

/// `type`: tells for each argument whether it is a builtin or where on
/// `PATH` it is; `paths[i]` is the result of the `PATH` search for
/// `args[i]`. Stops with `CommandNotFound` at the first name that is
/// neither, after writing the lines for the names before it.
pub fn execute_type(parsed_cmd: &ParsedCommand, paths: &Vec<Option<String>>, stdout: &mut String) -> (r: Result<(), ShellError>)
    requires
        paths.len() == parsed_cmd.args.len(),
    ensures
        parsed_cmd.args.len() == 0 ==> final(stdout)@ == old(stdout)@ && (r matches Err(
            ShellError::SyntaxError(m),
        ) && m@ == "type: missing argument"@),
        parsed_cmd.args.len() > 0 ==> {
            let (text, missing) = type_report(parsed_cmd.args.deep_view(), paths@.map_values(|o: Option<String>| opt_view(o)));
            &&& final(stdout)@ == old(stdout)@ + text
            &&& match missing {
                Some(a) => (r matches Err(ShellError::CommandNotFound(c)) && c@ == a),
                None => r is Ok,
            }
        },
{
    if parsed_cmd.args.len() == 0 {
        return Err(ShellError::SyntaxError(String::from_str("type: missing argument")));
    }
    let ghost args = parsed_cmd.args.deep_view();
    let ghost ps = paths@.map_values(|o: Option<String>| opt_view(o));
    let ghost start = stdout@;
    let mut i: usize = 0;
    assert(args.take(0) =~= Seq::<Seq<char>>::empty());
    while i < parsed_cmd.args.len()
        invariant
            args == parsed_cmd.args.deep_view(),
            ps == paths@.map_values(|o: Option<String>| opt_view(o)),
            paths.len() == args.len(),
            start == old(stdout)@,
            args.len() > 0,
            i <= args.len(),
            type_report(args.take(i as int), ps.take(i as int)).1 is None,
            stdout@ == start + type_report(args.take(i as int), ps.take(i as int)).0,
        decreases args.len() - i,
    {
        let arg = &parsed_cmd.args[i];
        let ghost before = stdout@;
        assert(args.take(i + 1).drop_last() =~= args.take(i as int));
        assert(ps.take(i + 1).drop_last() =~= ps.take(i as int));
        assert(args.take(i + 1).last() == arg@);
        assert(ps.take(i + 1)[i as int] == opt_view(paths@[i as int]));
        if BuiltinCommands::is_builtin_command(arg.as_str()) {
            stdout.append(arg.as_str());
            stdout.append(" is a shell builtin\n");
            assert(stdout@ =~= start + type_report(args.take(i + 1), ps.take(i + 1)).0);
        } else {
            match &paths[i] {
                Some(p) => {
                    stdout.append(arg.as_str());
                    stdout.append(" is ");
                    stdout.append(p.as_str());
                    stdout.append("\n");
                    assert(stdout@ =~= start + type_report(args.take(i + 1), ps.take(i + 1)).0);
                },
                None => {
                    proof {
                        let k = (i + 1) as int;
                        assert(type_report(args.take(k), ps.take(k)) == (type_report(args.take(i as int), ps.take(i as int)).0, Some(arg@)));
                        assert forall|n: int| k <= n <= args.len() implies type_report(args.take(n), ps.take(n))
                            == type_report(args.take(k), ps.take(k)) by {
                            lemma_type_report_stops(args, ps, k, n);
                        }
                        assert(args.take(args.len() as int) =~= args);
                        assert(ps.take(args.len() as int) =~= ps);
                        assert(type_report(args, ps) == type_report(args.take(k), ps.take(k)));
                    }
                    return Err(ShellError::CommandNotFound(arg.clone()));
                },
            }
        }
        i = i + 1;
    }
    assert(args.take(args.len() as int) =~= args);
    assert(ps.take(args.len() as int) =~= ps);
    Ok(())
}

/// Once a name is missing, later names change neither the text nor the
/// missing name.
proof fn lemma_type_report_stops(args: Seq<Seq<char>>, ps: Seq<Option<Seq<char>>>, k: int, n: int)
    requires
        0 <= k <= n <= args.len(),
        args.len() == ps.len(),
        type_report(args.take(k), ps.take(k)).1 is Some,
    ensures
        type_report(args.take(n), ps.take(n)) == type_report(args.take(k), ps.take(k)),
    decreases n - k,
{
    if n > k {
        lemma_type_report_stops(args, ps, k, n - 1);
        assert(args.take(n).drop_last() =~= args.take(n - 1));
        assert(ps.take(n).drop_last() =~= ps.take(n - 1));
    }
}

} // verus!
