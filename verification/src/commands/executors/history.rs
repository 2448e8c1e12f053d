use vstd::prelude::*;
use crate::commands::command::Effect;
use crate::error::ShellError;
use crate::state::shell::ShellState;
use crate::utils::text::{chars_of, decimal, pad_left, usize_padded};

verus! {

/// One line of the `history` listing: the entry's number, right-aligned in
/// five columns, two spaces, the command.
pub open spec fn history_line(number: nat, entry: Seq<char>) -> Seq<char> {
    pad_left(decimal(number), 5) + "  "@ + entry + "\n"@
}

/// The listing lines of entries `lo..hi` of `es`, each with its own number
/// (its position counted from 1).
pub open spec fn numbered_lines(es: Seq<Seq<char>>, lo: int, hi: int) -> Seq<char>
    decreases hi - lo,
{
    if hi <= lo {
        seq![]
    } else {
        numbered_lines(es, lo, hi - 1) + history_line(hi as nat, es[hi - 1])
    }
}

/// The `history` listing of every entry, numbered from 1.
pub open spec fn history_listing(entries: Seq<Seq<char>>) -> Seq<char> {
    numbered_lines(entries, 0, entries.len() as int)
}

/// The value of a decimal numeral.
pub open spec fn decimal_value(s: Seq<char>) -> nat
    decreases s.len(),
{
    if s.len() == 0 {
        0
    } else {
        decimal_value(s.drop_last()) * 10 + ((s.last() as nat) - 48) as nat
    }
}

/// The count a `history` argument gives: a non-empty run of decimal digits.
pub open spec fn count_of(s: Seq<char>) -> Option<nat> {
    if s.len() > 0 && forall|i: int| 0 <= i < s.len() ==> '0' <= #[trigger] s[i] <= '9' {
        Some(decimal_value(s))
    } else {
        None
    }
}

/// The options of `history` that name a file: `-r` reads it into the
/// history, `-w` writes the whole history to it, `-a` appends the entries
/// not yet appended.
pub open spec fn history_flag(a: Seq<char>) -> bool {
    a == "-r"@ || a == "-w"@ || a == "-a"@
}

/// What `history` with arguments `args` does, over entries `es`, output
/// `before` and `after` and result `r`:
/// - no argument lists every entry;
/// - a count `n` lists the last `n` entries, with their own numbers;
/// - `-r`, `-w`, `-a` with one file name leave reading, writing or
///   appending that file to the caller;
/// - a missing file name or an argument that is not a count is an invalid
///   argument, and more arguments are too many.
pub open spec fn history_outcome(
    args: Seq<Seq<char>>,
    es: Seq<Seq<char>>,
    before: Seq<char>,
    after: Seq<char>,
    r: Result<Effect, ShellError>,
) -> bool {
    if args.len() == 0 {
        after == before + numbered_lines(es, 0, es.len() as int) && r matches Ok(Effect::Done)
    } else if history_flag(args[0]) {
        &&& after == before
        &&& if args.len() == 1 {
            r matches Err(ShellError::InvalidArgument(a)) && a@ == args[0]
        } else if args.len() == 2 {
            if args[0] == "-r"@ {
                r matches Ok(Effect::ReadHistory(f)) && f@ == args[1]
            } else if args[0] == "-w"@ {
                r matches Ok(Effect::WriteHistory(f)) && f@ == args[1]
            } else {
                r matches Ok(Effect::AppendHistory(f)) && f@ == args[1]
            }
        } else {
            r matches Err(ShellError::TooManyArguments)
        }
    } else if args.len() > 1 {
        after == before && r matches Err(ShellError::TooManyArguments)
    } else {
        match count_of(args[0]) {
            Some(n) => if n <= usize::MAX {
                &&& r matches Ok(Effect::Done)
                &&& after == before + numbered_lines(
                    es,
                    if n >= es.len() {
                        0
                    } else {
                        es.len() - n
                    },
                    es.len() as int,
                )
            } else {
                after == before && (r matches Err(ShellError::InvalidArgument(a)) && a@ == args[0])
            },
            None => after == before && (r matches Err(ShellError::InvalidArgument(a)) && a@ == args[0]),
        }
    }
}

/// The count `s` gives, when it is one that a `usize` holds.
fn parse_count(s: &str) -> (r: Option<usize>)
    ensures
        match count_of(s@) {
            Some(n) => if n <= usize::MAX {
                r == Some(n as usize)
            } else {
                r is None
            },
            None => r is None,
        },
{
    let cs = chars_of(s);
    if cs.len() == 0 {
        return None;
    }
    let mut value: usize = 0;
    let mut i: usize = 0;
    while i < cs.len()
        invariant
            cs@ == s@,
            i <= cs.len(),
            cs.len() > 0,
            forall|k: int| 0 <= k < i ==> '0' <= #[trigger] cs@[k] <= '9',
            value as nat == decimal_value(cs@.take(i as int)),
        decreases cs.len() - i,
    {
        let c = cs[i];
        assert(cs@.take(i + 1).drop_last() =~= cs@.take(i as int));
        assert(cs@.take(i + 1).last() == c);
        if c < '0' || c > '9' {
            assert(count_of(s@) is None);
            return None;
        }
        let d = (c as u32 - 48) as usize;
        if value > (usize::MAX - d) / 10 {
            proof {
                assert(decimal_value(cs@.take(i + 1)) == value * 10 + d);
                assert(decimal_value(cs@.take(i + 1)) > usize::MAX) by (nonlinear_arith)
                    requires
                        value > (usize::MAX - d) / 10,
                        decimal_value(cs@.take(i + 1)) == value * 10 + d,
                        d <= 9,
                ;
                if count_of(s@) is Some {
                    lemma_decimal_value_monotone(cs@, i + 1);
                }
            }
            return None;
        }
        value = value * 10 + d;
        assert(decimal_value(cs@.take(i + 1)) == value);
        i = i + 1;
    }
    assert(cs@.take(cs.len() as int) =~= cs@);
    Some(value)
}

/// A digit string's value is at least that of each of its prefixes.
proof fn lemma_decimal_value_monotone(s: Seq<char>, j: int)
    requires
        0 <= j <= s.len(),
        forall|i: int| 0 <= i < s.len() ==> '0' <= #[trigger] s[i] <= '9',
    ensures
        decimal_value(s.take(j)) <= decimal_value(s),
    decreases s.len() - j,
{
    if j == s.len() {
        assert(s.take(j) =~= s);
    } else {
        lemma_decimal_value_monotone(s, j + 1);
        assert(s.take(j + 1).drop_last() =~= s.take(j));
        assert(s.take(j + 1).last() == s[j]);
    }
}

/// `history`: lists the history, or hands a history file operation to the
/// caller (see `history_outcome`).
pub fn execute_history(state: &ShellState, args: &Vec<String>, stdout: &mut String) -> (r: Result<Effect, ShellError>)
    ensures
        history_outcome(args.deep_view(), state.history.entries.deep_view(), old(stdout)@, final(stdout)@, r),
{
    proof {
        reveal_strlit("-r");
        reveal_strlit("-w");
        reveal_strlit("-a");
    }
    let es = &state.history.entries;
    let n = es.len();
    if args.len() == 0 {
        list_entries(es, 0, stdout);
        return Ok(Effect::Done);
    }
    let first = args[0].as_str();
    let is_r = args[0] == String::from_str("-r");
    let is_w = args[0] == String::from_str("-w");
    let is_a = args[0] == String::from_str("-a");
    if is_r || is_w || is_a {
        if args.len() == 1 {
            return Err(ShellError::InvalidArgument(args[0].clone()));
        }
        if args.len() > 2 {
            return Err(ShellError::TooManyArguments);
        }
        let file = args[1].clone();
        return if is_r {
            Ok(Effect::ReadHistory(file))
        } else if is_w {
            Ok(Effect::WriteHistory(file))
        } else {
            Ok(Effect::AppendHistory(file))
        };
    }
    if args.len() > 1 {
        return Err(ShellError::TooManyArguments);
    }
    match parse_count(first) {
        Some(count) => {
            let lo = if count >= n {
                0
            } else {
                n - count
            };
            list_entries(es, lo, stdout);
            Ok(Effect::Done)
        },
        None => Err(ShellError::InvalidArgument(args[0].clone())),
    }
}

/// Writes the listing lines of entries `lo..` of `es`.
fn list_entries(es: &Vec<String>, lo: usize, stdout: &mut String)
    requires
        lo <= es.len(),
    ensures
        final(stdout)@ == old(stdout)@ + numbered_lines(es.deep_view(), lo as int, es.len() as int),
{
    let ghost v = es.deep_view();
    let ghost start = stdout@;
    let mut i: usize = lo;
    while i < es.len()
        invariant
            v == es.deep_view(),
            lo <= i <= es.len(),
            stdout@ == start + numbered_lines(v, lo as int, i as int),
        decreases es.len() - i,
    {
        let ghost before = stdout@;
        let number = usize_padded(i + 1, 5);
        stdout.append(number.as_str());
        stdout.append("  ");
        stdout.append(es[i].as_str());
        stdout.append("\n");
        assert(v[i as int] == es@[i as int]@);
        assert(stdout@ =~= before + history_line((i + 1) as nat, v[i as int]));
        i = i + 1;
    }
}

} // verus!
