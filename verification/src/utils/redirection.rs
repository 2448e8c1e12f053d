use vstd::prelude::*;
use crate::parser::parser::ParsedCommand;

verus! {

/// A standard stream that a redirection rebinds.
#[derive(Clone, Copy, PartialEq, Eq, Debug, Structural)]
pub enum Descriptor {
    Stdin,
    Stdout,
    Stderr,
}

/// The descriptor that a digit written before `<` or `>` names.
pub open spec fn descriptor_of_digit(c: char) -> Descriptor
    recommends
        c == '0' || c == '1' || c == '2',
{
    if c == '0' {
        Descriptor::Stdin
    } else if c == '1' {
        Descriptor::Stdout
    } else {
        Descriptor::Stderr
    }
}

impl Descriptor {
    /// The descriptor named by one of the digits `0`, `1`, `2`.
    pub fn from_char(c: char) -> (d: Descriptor)
        requires
            c == '0' || c == '1' || c == '2',
        ensures
            d == descriptor_of_digit(c),
    {
        if c == '0' {
            Descriptor::Stdin
        } else if c == '1' {
            Descriptor::Stdout
        } else {
            Descriptor::Stderr
        }
    }
}

/// How a redirection's file is opened.
#[derive(Clone, Copy, PartialEq, Eq, Debug, Structural)]
pub enum RedirectionType {
    Input,
    Output,
    Append,
}

/// One `<`, `>` or `>>` with the file it names.
#[derive(Clone, Debug, PartialEq)]
pub struct Redirection {
    pub descriptor: Descriptor,
    pub file: String,
    pub redirection_type: RedirectionType,
}

/// A redirection as a mathematical value.
pub struct SpecRedirection {
    pub descriptor: Descriptor,
    pub file: Seq<char>,
    pub redirection_type: RedirectionType,
}

impl DeepView for Redirection {
    type V = SpecRedirection;

    open spec fn deep_view(&self) -> SpecRedirection {
        SpecRedirection {
            descriptor: self.descriptor,
            file: self.file@,
            redirection_type: self.redirection_type,
        }
    }
}


/// How a redirection's file is opened.
#[derive(Clone, Copy, PartialEq, Eq, Debug, Structural)]
pub struct OpenMode {
    pub read: bool,
    pub write: bool,
    pub create: bool,
    pub truncate: bool,
    pub append: bool,
}

/// `<` reads an existing file; `>` creates or truncates it for writing; `>>`
/// creates it or writes at its end.
pub open spec fn open_mode_spec(t: RedirectionType) -> OpenMode {
    match t {
        RedirectionType::Input => OpenMode { read: true, write: false, create: false, truncate: false, append: false },
        RedirectionType::Output => OpenMode { read: false, write: true, create: true, truncate: true, append: false },
        RedirectionType::Append => OpenMode { read: false, write: true, create: true, truncate: false, append: true },
    }
}

impl RedirectionType {
    /// How a file redirected this way is opened.
    pub fn open_mode(&self) -> (m: OpenMode)
        ensures
            m == open_mode_spec(*self),
    {
        match self {
            RedirectionType::Input => OpenMode { read: true, write: false, create: false, truncate: false, append: false },
            RedirectionType::Output => OpenMode { read: false, write: true, create: true, truncate: true, append: false },
            RedirectionType::Append => OpenMode { read: false, write: true, create: true, truncate: false, append: true },
        }
    }
}

/// The position of the last redirection of stream `d` among `rs`.
pub open spec fn last_redirect_of(rs: Seq<SpecRedirection>, d: Descriptor) -> Option<int>
    decreases rs.len(),
{
    if rs.len() == 0 {
        None
    } else if rs.last().descriptor == d {
        Some(rs.len() - 1)
    } else {
        last_redirect_of(rs.drop_last(), d)
    }
}

/// An optional position as a mathematical value.
pub open spec fn index_view(o: Option<usize>) -> Option<int> {
    match o {
        Some(i) => Some(i as int),
        None => None,
    }
}

/// For each standard stream, which of a command's redirections it ends up
/// bound to. Every redirection's file is still opened, in order; a later one
/// of the same stream replaces an earlier one.
#[derive(Clone, Copy, Debug)]
pub struct RedirectTargets {
    pub stdin: Option<usize>,
    pub stdout: Option<usize>,
    pub stderr: Option<usize>,
}

impl RedirectTargets {
    /// The stream bindings of `parsed_cmd`'s redirections: the last one of
    /// each stream wins.
    pub fn resolve(parsed_cmd: &ParsedCommand) -> (t: RedirectTargets)
        ensures
            index_view(t.stdin) == last_redirect_of(parsed_cmd.redirects.deep_view(), Descriptor::Stdin),
            index_view(t.stdout) == last_redirect_of(parsed_cmd.redirects.deep_view(), Descriptor::Stdout),
            index_view(t.stderr) == last_redirect_of(parsed_cmd.redirects.deep_view(), Descriptor::Stderr),
    {
        let ghost rs = parsed_cmd.redirects.deep_view();
        let mut t = RedirectTargets { stdin: None, stdout: None, stderr: None };
        let mut i: usize = 0;
        while i < parsed_cmd.redirects.len()
            invariant
                rs == parsed_cmd.redirects.deep_view(),
                i <= rs.len(),
                index_view(t.stdin) == last_redirect_of(rs.take(i as int), Descriptor::Stdin),
                index_view(t.stdout) == last_redirect_of(rs.take(i as int), Descriptor::Stdout),
                index_view(t.stderr) == last_redirect_of(rs.take(i as int), Descriptor::Stderr),
            decreases rs.len() - i,
        {
            let ghost next = rs.take(i + 1);
            assert(next.drop_last() =~= rs.take(i as int));
            assert(next.last() == parsed_cmd.redirects@[i as int].deep_view());
            match parsed_cmd.redirects[i].descriptor {
                Descriptor::Stdin => t.stdin = Some(i),
                Descriptor::Stdout => t.stdout = Some(i),
                Descriptor::Stderr => t.stderr = Some(i),
            }
            i = i + 1;
        }
        assert(rs.take(rs.len() as int) =~= rs);
        t
    }
}

} // verus!
