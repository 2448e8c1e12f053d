use vstd::prelude::*;
use crate::parser::parser::ParsedCommand;
use crate::utils::text::{chars_of, string_from_range};

verus! {

/// The directory `cd` changes to: its first argument (`~` when there is
/// none), with a leading `~` standing for the home directory. `~` alone
/// without a home directory is `/`; `~/...` without one is left as written.
pub open spec fn cd_target(args: Seq<Seq<char>>, home: Option<Seq<char>>) -> Seq<char> {
    let raw = if args.len() > 0 {
        args[0]
    } else {
        "~"@
    };
    if raw == "~"@ {
        match home {
            Some(h) => h,
            None => "/"@,
        }
    } else if raw.len() >= 2 && raw[0] == '~' && raw[1] == '/' {
        match home {
            Some(h) => h + raw.skip(1),
            None => raw,
        }
    } else {
        raw
    }
}

/// `cd`: the directory to change to, given the home directory (`HOME`).
/// Changing to it is left to the caller, which reports a `CdError` with this
/// path when it does not exist or is not a directory.
pub fn execute_cd(parsed_cmd: &ParsedCommand, home: Option<&str>) -> (target: String)
    ensures
        target@ == cd_target(
            parsed_cmd.args.deep_view(),
            match home {
                Some(h) => Some(h@),
                None => None,
            },
        ),
{
    proof {
        reveal_strlit("~");
        reveal_strlit("/");
    }
    let raw: String = if parsed_cmd.args.len() > 0 {
        parsed_cmd.args[0].clone()
    } else {
        String::from_str("~")
    };
    let ghost rv = raw@;
    assert(rv == if parsed_cmd.args.deep_view().len() > 0 {
        parsed_cmd.args.deep_view()[0]
    } else {
        "~"@
    });
    let cs = chars_of(raw.as_str());
    if cs.len() == 1 && cs[0] == '~' {
        assert(rv =~= "~"@);
        return match home {
            Some(h) => h.to_owned(),
            None => String::from_str("/"),
        };
    }
    assert(rv != "~"@) by {
        if rv == "~"@ {
            assert(rv.len() == 1 && rv[0] == '~');
        }
    }
    if cs.len() >= 2 && cs[0] == '~' && cs[1] == '/' {
        match home {
            Some(h) => {
                let rest = string_from_range(&cs, 1, cs.len());
                assert(rest@ =~= rv.skip(1));
                String::from_str(h).concat(rest.as_str())
            },
            None => raw,
        }
    } else {
        raw
    }
}

} // verus!
