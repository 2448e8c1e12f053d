use vstd::prelude::*;
use crate::utils::order::{sorted_set, sorted_unique, strictly_sorted};
use crate::utils::text::{chars_of, split_on, split_on_spec};

verus! {

/// The pieces of a `PATH` value between its `:` separators, in order; an
/// empty piece stays (an empty value is one empty piece).
pub open spec fn split_paths_spec(s: Seq<char>) -> Seq<Seq<char>> {
    split_on_spec(s, ':')
}

/// The path `name` names relative to directory `dir`, as `Path::join` forms
/// it: an absolute `name` stands alone, otherwise a `/` separates the two
/// unless `dir` is empty or already ends with one.
pub open spec fn join_path_spec(dir: Seq<char>, name: Seq<char>) -> Seq<char> {
    if name.len() > 0 && name[0] == '/' {
        name
    } else if dir.len() == 0 || dir.last() == '/' {
        dir + name
    } else {
        dir + "/"@ + name
    }
}

/// A file is executable when it is a regular file whose permission bits give
/// execute permission to someone (owner, group or others).
pub open spec fn executable_spec(is_file: bool, mode: Option<u32>) -> bool {
    is_file && (mode matches Some(m) && m & 0o111u32 != 0)
}

/// The index of the first `true` flag, if any.
pub open spec fn first_true(flags: Seq<bool>) -> Option<int> {
    if exists|i: int| 0 <= i < flags.len() && #[trigger] flags[i] {
        Some(choose|i: int| 0 <= i < flags.len() && flags[i] && forall|j: int| 0 <= j < i ==> !#[trigger] flags[j])
    } else {
        None
    }
}

/// Splits the value of `PATH` into its directories.
pub fn split_paths(path_var: &str) -> (r: Vec<String>)
    ensures
        r.deep_view() == split_paths_spec(path_var@),
{
    split_on(path_var, ':')
}

/// The directories of `PATH`, when it is set.
pub fn get_os_paths(path_var: Option<&str>) -> (r: Option<Vec<String>>)
    ensures
        match path_var {
            Some(v) => r matches Some(ds) && ds.deep_view() == split_paths_spec(v@),
            None => r is None,
        },
{
    match path_var {
        Some(v) => Some(split_paths(v)),
        None => None,
    }
}

/// The path of `name` inside `dir`.
pub fn join_path(dir: &str, name: &str) -> (r: String)
    ensures
        r@ == join_path_spec(dir@, name@),
{
    let n = chars_of(name);
    let d = chars_of(dir);
    if n.len() > 0 && n[0] == '/' {
        return name.to_owned();
    }
    if d.len() == 0 || d[d.len() - 1] == '/' {
        String::from_str(dir).concat(name)
    } else {
        String::from_str(dir).concat("/").concat(name)
    }
}

/// Whether a file with these attributes counts as executable: `is_file` says
/// it is a regular file and `mode` holds its permission bits when they could
/// be read.
pub fn is_file_executable(is_file: bool, mode: Option<u32>) -> (r: bool)
    ensures
        r == executable_spec(is_file, mode),
{
    if !is_file {
        return false;
    }
    match mode {
        Some(m) => m & 0o111 != 0,
        None => false,
    }
}

/// The first candidate `dir/name` over the `PATH` directories that is an
/// executable file; `executable[i]` tells whether the candidate in `dirs[i]` is.
pub fn get_executable_path(dirs: &Vec<String>, cmd_name: &str, executable: &Vec<bool>) -> (r: Option<String>)
    requires
        executable.len() == dirs.len(),
    ensures
        match first_true(executable@) {
            Some(i) => r matches Some(p) && p@ == join_path_spec(dirs@[i]@, cmd_name@),
            None => r is None,
        },
{
    let mut i: usize = 0;
    while i < dirs.len()
        invariant
            executable.len() == dirs.len(),
            i <= dirs.len(),
            forall|j: int| 0 <= j < i ==> !#[trigger] executable@[j],
        decreases dirs.len() - i,
    {
        if executable[i] {
            let p = join_path(dirs[i].as_str(), cmd_name);
            proof {
                let w = first_true(executable@);
                assert(executable@[i as int]);
                let c = choose|k: int| 0 <= k < executable@.len() && executable@[k] && forall|j: int| 0 <= j < k ==> !#[trigger] executable@[j];
                assert(w == Some(c));
                if c < i {
                    assert(!executable@[c]);
                }
                if c > i {
                    assert(!executable@[i as int]);
                }
                assert(c == i);
            }
            return Some(p);
        }
        i = i + 1;
    }
    None
}

/// The names of the executables found on `PATH`, sorted, each once.
pub fn get_executable_names(names: Vec<String>) -> (r: Vec<String>)
    ensures
        r.deep_view() == sorted_set(names.deep_view()),
        strictly_sorted(r.deep_view()),
        forall|s: Seq<char>| #[trigger] r.deep_view().contains(s) <==> names.deep_view().contains(s),
{
    sorted_unique(names)
}

} // verus!
