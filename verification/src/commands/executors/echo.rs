use vstd::prelude::*;
use crate::parser::parser::ParsedCommand;

verus! {

/// Words joined by single spaces.
pub open spec fn join_words(ws: Seq<Seq<char>>) -> Seq<char>
    decreases ws.len(),
{
    if ws.len() == 0 {
        seq![]
    } else if ws.len() == 1 {
        ws[0]
    } else {
        join_words(ws.drop_last()) + " "@ + ws.last()
    }
}

/// `echo`: writes the arguments separated by single spaces, and a newline.
pub fn execute_echo(parsed_cmd: &ParsedCommand, stdout: &mut String)
    ensures
        final(stdout)@ == old(stdout)@ + join_words(parsed_cmd.args.deep_view()) + "\n"@,
{
    let ghost args = parsed_cmd.args.deep_view();
    let ghost start = stdout@;
    let mut i: usize = 0;
    assert(args.take(0) =~= Seq::<Seq<char>>::empty());
    while i < parsed_cmd.args.len()
        invariant
            args == parsed_cmd.args.deep_view(),
            i <= parsed_cmd.args.len(),
            stdout@ == start + join_words(args.take(i as int)),
        decreases parsed_cmd.args.len() - i,
    {
        let ghost before = stdout@;
        if i > 0 {
            stdout.append(" ");
        }
        stdout.append(parsed_cmd.args[i].as_str());
        assert(args.take(i + 1).drop_last() =~= args.take(i as int));
        assert(args.take(i + 1).last() == parsed_cmd.args@[i as int]@);
        proof {
            if i == 0 {
                assert(args.take(1)[0] == parsed_cmd.args@[0]@);
                assert(before + parsed_cmd.args@[0]@ =~= start + join_words(args.take(1)));
            } else {
                assert(stdout@ =~= start + (join_words(args.take(i as int)) + " "@ + parsed_cmd.args@[i as int]@));
            }
        }
        i = i + 1;
    }
    assert(args.take(parsed_cmd.args.len() as int) =~= args);
    stdout.append("\n");
    assert(stdout@ =~= start + join_words(args) + "\n"@);
}

} // verus!
