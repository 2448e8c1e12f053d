use vstd::prelude::*;
use crate::parser::parser::ParsedCommand;

verus! {

/// A command found as an executable file on `PATH`.
#[derive(Debug)]
pub struct ExternalCommand {
    pub path: String,
    pub parsed_cmd: ParsedCommand,
}

impl ExternalCommand {
    /// The external command for `parsed`, given where the `PATH` search found
    /// its name (`None` when it found nothing).
    pub fn try_resolve(parsed: ParsedCommand, path: Option<String>) -> (r: Option<ExternalCommand>)
        ensures
            match path {
                Some(p) => (r matches Some(e) && e.path == p && e.parsed_cmd == parsed),
                None => r is None,
            },
    {
        match path {
            Some(p) => Some(ExternalCommand { path: p, parsed_cmd: parsed }),
            None => None,
        }
    }

    /// The argument list the program is started with: the command name as
    /// typed (not the path it was found at), then its arguments.
    pub fn argv(&self) -> (v: Vec<String>)
        ensures
            v.deep_view() == seq![self.parsed_cmd.cmd@] + self.parsed_cmd.args.deep_view(),
    {
        let mut v: Vec<String> = Vec::new();
        v.push(self.parsed_cmd.cmd.clone());
        let mut i: usize = 0;
        while i < self.parsed_cmd.args.len()
            invariant
                i <= self.parsed_cmd.args.len(),
                v.deep_view() == seq![self.parsed_cmd.cmd@] + self.parsed_cmd.args.deep_view().take(i as int),
            decreases self.parsed_cmd.args.len() - i,
        {
            let ghost before = v.deep_view();
            v.push(self.parsed_cmd.args[i].clone());
            assert(v.deep_view() =~= before.push(self.parsed_cmd.args@[i as int]@));
            assert(self.parsed_cmd.args.deep_view().take(i + 1) =~= self.parsed_cmd.args.deep_view().take(i as int).push(self.parsed_cmd.args@[i as int]@));
            assert(v.deep_view() =~= seq![self.parsed_cmd.cmd@] + self.parsed_cmd.args.deep_view().take(i + 1));
            i = i + 1;
        }
        assert(self.parsed_cmd.args.deep_view().take(self.parsed_cmd.args.len() as int) =~= self.parsed_cmd.args.deep_view());
        v
    }
}

} // verus!
