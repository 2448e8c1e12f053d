use vstd::prelude::*;
use crate::commands::builtin::{all_builtins, builtin_name, BuiltinCommands};
use crate::utils::order::{sorted_set, sorted_unique, strictly_sorted};
use crate::utils::offsets::{
    byte_offset, byte_offset_of, char_index_at, char_index_of_byte, is_char_boundary_of,
    lemma_offset_increasing,
};
use crate::utils::text::{chars_of, push_char, starts_with, string_from_chars, string_from_range};

verus! {

/// A completion candidate: what is listed, and what replaces the word.
#[derive(Debug)]
pub struct Pair {
    pub display: String,
    pub replacement: String,
}

/// A candidate as a mathematical value.
pub struct SpecPair {
    pub display: Seq<char>,
    pub replacement: Seq<char>,
}

impl DeepView for Pair {
    type V = SpecPair;

    open spec fn deep_view(&self) -> SpecPair {
        SpecPair { display: self.display@, replacement: self.replacement@ }
    }
}

/// A candidate that lists and inserts the same text.
pub open spec fn same_pair(n: Seq<char>) -> SpecPair {
    SpecPair { display: n, replacement: n }
}

/// The names among `names` that start with `input`, as candidates, in order.
pub open spec fn name_candidates(names: Seq<Seq<char>>, input: Seq<char>) -> Seq<SpecPair>
    decreases names.len(),
{
    if names.len() == 0 {
        seq![]
    } else {
        let r = name_candidates(names.drop_last(), input);
        if input.is_prefix_of(names.last()) {
            r.push(same_pair(names.last()))
        } else {
            r
        }
    }
}

/// The names of the builtins, in declaration order.
pub open spec fn builtin_names() -> Seq<Seq<char>> {
    all_builtins().map_values(|b: BuiltinCommands| builtin_name(b))
}

/// The candidate for a directory entry `name` (a directory when `is_dir`)
/// found in `dir`: a directory is listed with a trailing `/` and completed
/// with one; a file is completed with a trailing space.
pub open spec fn entry_candidate(dir: Seq<char>, name: Seq<char>, is_dir: bool) -> SpecPair {
    SpecPair {
        display: name + (if is_dir { "/"@ } else { ""@ }),
        replacement: dir + name + (if is_dir { "/"@ } else { " "@ }),
    }
}

/// The candidates for the entries of `dir` whose names start with `prefix`.
pub open spec fn path_candidates(entries: Seq<(Seq<char>, bool)>, dir: Seq<char>, prefix: Seq<char>) -> Seq<SpecPair>
    decreases entries.len(),
{
    if entries.len() == 0 {
        seq![]
    } else {
        let r = path_candidates(entries.drop_last(), dir, prefix);
        let (name, is_dir) = entries.last();
        if prefix.is_prefix_of(name) {
            r.push(entry_candidate(dir, name, is_dir))
        } else {
            r
        }
    }
}

/// The displays of some candidates.
pub open spec fn displays(ps: Seq<SpecPair>) -> Seq<Seq<char>> {
    ps.map_values(|p: SpecPair| p.display)
}

/// The first candidate among `ps` whose display is `d`.
pub open spec fn first_with_display(ps: Seq<SpecPair>, d: Seq<char>) -> SpecPair
    decreases ps.len(),
{
    if ps.len() == 0 {
        SpecPair { display: d, replacement: d }
    } else if ps[0].display == d {
        ps[0]
    } else {
        first_with_display(ps.drop_first(), d)
    }
}

/// The candidates sorted by display, keeping of equal displays only the
/// first (a stable sort followed by removing repeats).
pub open spec fn sort_dedup(ps: Seq<SpecPair>) -> Seq<SpecPair> {
    sorted_set(displays(ps)).map_values(|d: Seq<char>| first_with_display(ps, d))
}

/// A copy of a candidate.
fn copy_pair(p: &Pair) -> (r: Pair)
    ensures
        r.deep_view() == p.deep_view(),
{
    Pair { display: p.display.clone(), replacement: p.replacement.clone() }
}

/// Sorts candidates by display and drops those whose display an earlier
/// one already has.
pub fn sort_dedup_pairs(items: &Vec<Pair>) -> (r: Vec<Pair>)
    ensures
        r.deep_view() == sort_dedup(items.deep_view()),
        forall|i: int| 0 <= i < r.len() ==> items.deep_view().contains(#[trigger] r.deep_view()[i]),
{
    let ghost input = items.deep_view();
    let mut keys: Vec<String> = Vec::new();
    let mut i: usize = 0;
    while i < items.len()
        invariant
            input == items.deep_view(),
            i <= items.len(),
            keys.deep_view() == displays(input).take(i as int),
        decreases items.len() - i,
    {
        let ghost before = keys.deep_view();
        keys.push(items[i].display.clone());
        assert(keys.deep_view() =~= before.push(items@[i as int].display@));
        assert(displays(input).take(i + 1) =~= displays(input).take(i as int).push(input[i as int].display));
        i = i + 1;
    }
    assert(displays(input).take(items.len() as int) =~= displays(input));
    let sorted = sorted_unique(keys);
    let ghost ds = sorted.deep_view();
    let mut out: Vec<Pair> = Vec::new();
    let mut j: usize = 0;
    while j < sorted.len()
        invariant
            input == items.deep_view(),
            ds == sorted.deep_view(),
            ds == sorted_set(displays(input)),
            forall|s: Seq<char>| #[trigger] ds.contains(s) <==> displays(input).contains(s),
            j <= sorted.len(),
            out.deep_view() == ds.take(j as int).map_values(|d: Seq<char>| first_with_display(input, d)),
            forall|i: int| 0 <= i < out.len() ==> input.contains(#[trigger] out.deep_view()[i]),
        decreases sorted.len() - j,
    {
        let d = &sorted[j];
        let ghost dv = d@;
        assert(ds[j as int] == dv);
        assert(ds.contains(dv));
        assert(displays(input).contains(dv));
        let mut m: usize = 0;
        assert(input.skip(0) =~= input);
        while m < items.len()
            invariant
                input == items.deep_view(),
                dv == d@,
                displays(input).contains(dv),
                m <= items.len(),
                forall|k: int| 0 <= k < m ==> (#[trigger] input[k]).display != dv,
                first_with_display(input, dv) == first_with_display(input.skip(m as int), dv),
            ensures
                input == items.deep_view(),
                dv == d@,
                displays(input).contains(dv),
                m <= items.len(),
                forall|k: int| 0 <= k < m ==> (#[trigger] input[k]).display != dv,
                first_with_display(input, dv) == first_with_display(input.skip(m as int), dv),
                m < items.len() ==> input[m as int].display == dv,
            decreases items.len() - m,
        {
            if items[m].display == *d {
                break;
            }
            assert(input.skip(m as int).drop_first() =~= input.skip(m + 1));
            m = m + 1;
        }
        if m == items.len() {
            proof {
                let k = choose|k: int| 0 <= k < displays(input).len() && displays(input)[k] == dv;
                assert(input[k].display == dv);
            }
        }
        assert(m < items.len());
        assert(input.skip(m as int)[0] == input[m as int]);
        let ghost before = out.deep_view();
        out.push(copy_pair(&items[m]));
        assert(out.deep_view() =~= before.push(first_with_display(input, dv)));
        assert forall|i: int| 0 <= i < out.len() implies input.contains(#[trigger] out.deep_view()[i]) by {
            if i < before.len() {
                assert(out.deep_view()[i] == before[i]);
            } else {
                assert(out.deep_view()[i] == input[m as int]);
            }
        }
        assert(ds.take(j + 1) =~= ds.take(j as int).push(dv));
        assert(ds.take(j + 1).map_values(|d: Seq<char>| first_with_display(input, d)) =~= ds.take(
            j as int,
        ).map_values(|d: Seq<char>| first_with_display(input, d)).push(first_with_display(input, dv)));
        j = j + 1;
    }
    assert(ds.take(sorted.len() as int) =~= ds);
    out
}


/// An entry of a directory: its name, and whether it is a directory.
#[derive(Debug)]
pub struct DirEntry {
    pub name: String,
    pub is_dir: bool,
}

impl DeepView for DirEntry {
    type V = (Seq<char>, bool);

    open spec fn deep_view(&self) -> (Seq<char>, bool) {
        (self.name@, self.is_dir)
    }
}

/// The position of the last `/` of `w`.
pub open spec fn last_slash(w: Seq<char>) -> Option<int>
    decreases w.len(),
{
    if w.len() == 0 {
        None
    } else if w.last() == '/' {
        Some(w.len() - 1)
    } else {
        last_slash(w.drop_last())
    }
}

/// The directory part of a path being typed: up to and including its last
/// `/` (empty when it has none).
pub open spec fn dir_part(w: Seq<char>) -> Seq<char> {
    match last_slash(w) {
        Some(i) => w.take(i + 1),
        None => seq![],
    }
}

/// The start of a file name being typed: what follows the last `/`.
pub open spec fn file_part(w: Seq<char>) -> Seq<char> {
    match last_slash(w) {
        Some(i) => w.skip(i + 1),
        None => w,
    }
}

/// The directory whose entries complete a path being typed (`.` when no
/// directory is typed).
pub open spec fn scan_dir(w: Seq<char>) -> Seq<char> {
    if dir_part(w).len() == 0 {
        "."@
    } else {
        dir_part(w)
    }
}

/// Remembers the last TAB press, to tell a second TAB on the same input.
pub struct EditorHelper {
    pub last_tab_state: Option<(String, usize)>,
}

/// A path being typed, split for completion: the directory typed, the
/// start of the file name, and the directory to list.
pub struct PathTarget {
    pub dir_to_scan: String,
    pub file_prefix: String,
    pub scan_path: String,
}

/// Splits a path being typed for completion.
pub fn path_target(input: &str) -> (t: PathTarget)
    ensures
        t.dir_to_scan@ == dir_part(input@),
        t.file_prefix@ == file_part(input@),
        t.scan_path@ == scan_dir(input@),
{
    proof {
        reveal_strlit(".");
    }
    let cs = chars_of(input);
    let mut i: usize = cs.len();
    assert(input@.take(cs.len() as int) =~= input@);
    while i > 0 && cs[i - 1] != '/'
        invariant
            cs@ == input@,
            i <= cs.len(),
            last_slash(input@) == last_slash(input@.take(i as int)),
        decreases i,
    {
        assert(input@.take(i as int).drop_last() =~= input@.take(i - 1));
        i = i - 1;
    }
    assert(input@.take(cs.len() as int) =~= input@);
    if i == 0 {
        assert(input@.take(0) =~= Seq::<char>::empty());
        let d = String::new();
        let f = input.to_owned();
        PathTarget { dir_to_scan: d, file_prefix: f, scan_path: String::from_str(".") }
    } else {
        assert(input@.take(i as int).last() == cs@[i - 1]);
        let d = string_from_range(&cs, 0, i);
        let f = string_from_range(&cs, i, cs.len());
        assert(d@ =~= input@.take(i as int));
        assert(f@ =~= input@.skip(i as int));
        let sp = string_from_range(&cs, 0, i);
        PathTarget { dir_to_scan: d, file_prefix: f, scan_path: sp }
    }
}

impl EditorHelper {
    /// A helper that has seen no TAB yet.
    pub fn new() -> (h: EditorHelper)
        ensures
            h.last_tab_state is None,
    {
        EditorHelper { last_tab_state: None }
    }

    /// The builtins whose names start with `input`, in declaration order.
    pub fn find_builtin_commands(&self, input: &str) -> (r: Vec<Pair>)
        ensures
            r.deep_view() == name_candidates(builtin_names(), input@),
    {
        let all = BuiltinCommands::iter();
        let mut names: Vec<String> = Vec::new();
        let mut i: usize = 0;
        while i < all.len()
            invariant
                all@ == all_builtins(),
                i <= all.len(),
                names.deep_view() == builtin_names().take(i as int),
            decreases all.len() - i,
        {
            let ghost before = names.deep_view();
            names.push(all[i].to_string());
            assert(builtin_names()[i as int] == builtin_name(all@[i as int]));
            assert(names.deep_view() =~= before.push(builtin_name(all@[i as int])));
            assert(builtin_names().take(i + 1) =~= builtin_names().take(i as int).push(builtin_names()[i as int]));
            assert(names.deep_view() =~= builtin_names().take(i + 1));
            i = i + 1;
        }
        assert(builtin_names().take(all.len() as int) =~= builtin_names());
        self.find_external_commands(&names, input)
    }

    /// The names among `names` (the executables on `PATH`) that start with
    /// `input`, in order.
    pub fn find_external_commands(&self, names: &Vec<String>, input: &str) -> (r: Vec<Pair>)
        ensures
            r.deep_view() == name_candidates(names.deep_view(), input@),
    {
        let ghost ns = names.deep_view();
        let mut out: Vec<Pair> = Vec::new();
        let mut i: usize = 0;
        assert(ns.take(0) =~= Seq::<Seq<char>>::empty());
        while i < names.len()
            invariant
                ns == names.deep_view(),
                i <= names.len(),
                out.deep_view() == name_candidates(ns.take(i as int), input@),
            decreases names.len() - i,
        {
            let ghost before = out.deep_view();
            assert(ns.take(i + 1).drop_last() =~= ns.take(i as int));
            assert(ns.take(i + 1).last() == names@[i as int]@);
            if starts_with(names[i].as_str(), input) {
                out.push(Pair { display: names[i].clone(), replacement: names[i].clone() });
                assert(out.deep_view() =~= before.push(same_pair(names@[i as int]@)));
            }
            i = i + 1;
        }
        assert(ns.take(names.len() as int) =~= ns);
        out
    }

    /// The entries of the directory of the path being typed (`entries`,
    /// listed from `path_target(input).scan_path`) that complete it.
    pub fn find_path_completions(&self, input: &str, entries: &Vec<DirEntry>) -> (r: Vec<Pair>)
        ensures
            r.deep_view() == path_candidates(entries.deep_view(), dir_part(input@), file_part(input@)),
    {
        let target = path_target(input);
        let ghost es = entries.deep_view();
        let ghost dir = dir_part(input@);
        let ghost fp = file_part(input@);
        let mut out: Vec<Pair> = Vec::new();
        let mut i: usize = 0;
        assert(es.take(0) =~= Seq::<(Seq<char>, bool)>::empty());
        while i < entries.len()
            invariant
                es == entries.deep_view(),
                target.dir_to_scan@ == dir,
                target.file_prefix@ == fp,
                i <= entries.len(),
                out.deep_view() == path_candidates(es.take(i as int), dir, fp),
            decreases entries.len() - i,
        {
            let e = &entries[i];
            let ghost before = out.deep_view();
            assert(es.take(i + 1).drop_last() =~= es.take(i as int));
            assert(es.take(i + 1).last() == e.deep_view());
            if starts_with(e.name.as_str(), target.file_prefix.as_str()) {
                let display = if e.is_dir {
                    String::from_str(e.name.as_str()).concat("/")
                } else {
                    String::from_str(e.name.as_str())
                };
                let replacement = if e.is_dir {
                    String::from_str(target.dir_to_scan.as_str()).concat(e.name.as_str()).concat("/")
                } else {
                    String::from_str(target.dir_to_scan.as_str()).concat(e.name.as_str()).concat(" ")
                };
                proof {
                    reveal_strlit("");
                }
                assert(display@ =~= entry_candidate(dir, e.name@, e.is_dir).display);
                assert(replacement@ =~= entry_candidate(dir, e.name@, e.is_dir).replacement);
                out.push(Pair { display, replacement });
                assert(out.deep_view() =~= before.push(entry_candidate(dir, e.name@, e.is_dir)));
            }
            i = i + 1;
        }
        assert(es.take(entries.len() as int) =~= es);
        out
    }
}


/// The text of a line up to the cursor at byte position `pos`.
pub open spec fn cursor_prefix(line: Seq<char>, pos: int) -> Seq<char> {
    line.take(char_index_at(line, pos))
}

/// Where the word that `p` ends with starts: after its last space.
pub open spec fn word_start(p: Seq<char>) -> int
    decreases p.len(),
{
    if p.len() == 0 {
        0
    } else if p.last() == ' ' {
        p.len() as int
    } else {
        word_start(p.drop_last())
    }
}

/// Words separated by two spaces.
pub open spec fn join_listing(ws: Seq<Seq<char>>) -> Seq<char>
    decreases ws.len(),
{
    if ws.len() == 0 {
        seq![]
    } else if ws.len() == 1 {
        ws[0]
    } else {
        join_listing(ws.drop_last()) + "  "@ + ws.last()
    }
}

/// The completions of `word`: for the first word of the line, the builtins
/// and then the programs on `PATH` (`names`) that it starts, sorted, each
/// name once, and a lone match completed with a space; for a later word,
/// the entries of its directory (`entries`) that complete it, sorted.
pub open spec fn completion_candidates(
    first_word: bool,
    word: Seq<char>,
    names: Seq<Seq<char>>,
    entries: Seq<(Seq<char>, bool)>,
) -> Seq<SpecPair> {
    if first_word {
        let s = sort_dedup(name_candidates(builtin_names(), word) + name_candidates(names, word));
        if s.len() == 1 {
            seq![SpecPair { display: s[0].display, replacement: s[0].replacement + " "@ }]
        } else {
            s
        }
    } else {
        sort_dedup(path_candidates(entries, dir_part(word), file_part(word)))
    }
}

/// What a TAB press does.
#[derive(Debug)]
pub enum Completion {
    /// Let the line editor complete from these candidates, replacing the
    /// text from this byte position to the cursor.
    Candidates(usize, Vec<Pair>),
    /// Second TAB on several matches: print this text (the matches, then the
    /// prompt and the line again) and complete nothing.
    ListMatches(usize, String),
    /// First TAB on several matches: ring the bell and complete nothing.
    Bell(usize),
}

/// The line up to the cursor, where its last word starts (in bytes), and
/// that word.
pub fn current_word(line: &str, pos: usize) -> (r: (String, usize, String))
    requires
        is_char_boundary_of(line@, pos as int),
    ensures
        r.0@ == cursor_prefix(line@, pos as int),
        r.1 == byte_offset(line@, word_start(cursor_prefix(line@, pos as int))),
        r.2@ == cursor_prefix(line@, pos as int).skip(word_start(cursor_prefix(line@, pos as int))),
        (r.1 == 0) == (word_start(cursor_prefix(line@, pos as int)) == 0),
{
    let cs = chars_of(line);
    let k = char_index_of_byte(&cs, pos);
    let ghost p = cs@.take(k as int);
    let mut i: usize = k;
    assert(p.take(k as int) =~= p);
    while i > 0 && cs[i - 1] != ' '
        invariant
            cs@ == line@,
            p == cs@.take(k as int),
            k <= cs.len(),
            i <= k,
            word_start(p) == word_start(p.take(i as int)),
        decreases i,
    {
        assert(p.take(i as int).drop_last() =~= p.take(i - 1));
        i = i - 1;
    }
    proof {
        if i > 0 {
            assert(p.take(i as int).last() == cs@[i - 1]);
        }
        if i < k {
            lemma_offset_increasing(cs@, i as int, k as int);
        }
        if i > 0 {
            lemma_offset_increasing(cs@, 0, i as int);
        }
        assert(cs@.take(0) =~= Seq::<char>::empty());
        assert(vstd::utf8::encode_utf8(Seq::<char>::empty()) =~= Seq::<u8>::empty());
    }
    let start = byte_offset_of(&cs, i);
    let prefix = string_from_range(&cs, 0, k);
    let word = string_from_range(&cs, i, k);
    assert(prefix@ =~= p);
    assert(word@ =~= p.skip(i as int));
    (prefix, start, word)
}

/// The displays of candidates, two spaces apart.
fn listing_text(cands: &Vec<Pair>) -> (s: String)
    ensures
        s@ == join_listing(displays(cands.deep_view())),
{
    let ghost ds = displays(cands.deep_view());
    let mut s = String::new();
    let mut i: usize = 0;
    assert(ds.take(0) =~= Seq::<Seq<char>>::empty());
    while i < cands.len()
        invariant
            ds == displays(cands.deep_view()),
            i <= cands.len(),
            s@ == join_listing(ds.take(i as int)),
        decreases cands.len() - i,
    {
        if i > 0 {
            s.append("  ");
        }
        s.append(cands[i].display.as_str());
        assert(ds.take(i + 1).drop_last() =~= ds.take(i as int));
        assert(ds.take(i + 1).last() == cands@[i as int].display@);
        proof {
            if i == 0 {
                assert(ds.take(1)[0] == cands@[0].display@);
                assert(s@ =~= join_listing(ds.take(1)));
            } else {
                assert(s@ =~= join_listing(ds.take(i + 1)));
            }
        }
        i = i + 1;
    }
    assert(ds.take(cands.len() as int) =~= ds);
    s
}

/// The replacements of some candidates.
pub open spec fn replacements(ps: Seq<SpecPair>) -> Seq<Seq<char>> {
    ps.map_values(|p: SpecPair| p.replacement)
}

/// The longest common prefix of two texts.
pub open spec fn common_prefix2(a: Seq<char>, b: Seq<char>) -> Seq<char>
    decreases a.len(),
{
    if a.len() == 0 || b.len() == 0 || a[0] != b[0] {
        seq![]
    } else {
        seq![a[0]] + common_prefix2(a.drop_first(), b.drop_first())
    }
}

/// The longest prefix that all the texts share.
pub open spec fn common_prefix(ss: Seq<Seq<char>>) -> Seq<char>
    decreases ss.len(),
{
    if ss.len() == 0 {
        seq![]
    } else if ss.len() == 1 {
        ss[0]
    } else {
        common_prefix2(common_prefix(ss.drop_last()), ss.last())
    }
}

/// Two texts agreeing on their first `k` characters, and not beyond, have
/// those `k` characters as their common prefix.
proof fn lemma_common_prefix2(a: Seq<char>, b: Seq<char>, k: int)
    requires
        0 <= k <= a.len(),
        k <= b.len(),
        a.take(k) == b.take(k),
        k == a.len() || k == b.len() || a[k] != b[k],
    ensures
        common_prefix2(a, b) == a.take(k),
    decreases k,
{
    if k == 0 {
        assert(a.take(0) =~= Seq::<char>::empty());
        if a.len() > 0 && b.len() > 0 {
            assert(a[0] != b[0]);
        }
    } else {
        assert(a[0] == a.take(k)[0]);
        assert(b[0] == b.take(k)[0]);
        assert(a.drop_first().take(k - 1) =~= a.take(k).drop_first());
        assert(b.drop_first().take(k - 1) =~= b.take(k).drop_first());
        if k < a.len() && k < b.len() {
            assert(a.drop_first()[k - 1] == a[k]);
            assert(b.drop_first()[k - 1] == b[k]);
        }
        lemma_common_prefix2(a.drop_first(), b.drop_first(), k - 1);
        assert(seq![a[0]] + a.drop_first().take(k - 1) =~= a.take(k));
    }
}

/// Every candidate's replacement starts with `w`: completing only ever
/// extends what is typed.
pub open spec fn all_extend(w: Seq<char>, ps: Seq<SpecPair>) -> bool {
    forall|i: int| 0 <= i < ps.len() ==> w.is_prefix_of(#[trigger] ps[i].replacement)
}

proof fn lemma_prefix_elems(w: Seq<char>, s: Seq<char>)
    ensures
        w.is_prefix_of(s) <==> (w.len() <= s.len() && forall|k: int| 0 <= k < w.len() ==> w[k] == s[k]),
{
    if w.len() <= s.len() && forall|k: int| 0 <= k < w.len() ==> w[k] == s[k] {
        assert(w =~= s.subrange(0, w.len() as int));
    }
    if w.is_prefix_of(s) {
        assert forall|k: int| 0 <= k < w.len() implies w[k] == s[k] by {
            assert(s.subrange(0, w.len() as int)[k] == s[k]);
        }
    }
}

proof fn lemma_prefix_trans(a: Seq<char>, b: Seq<char>, c: Seq<char>)
    requires
        a.is_prefix_of(b),
        b.is_prefix_of(c),
    ensures
        a.is_prefix_of(c),
{
    lemma_prefix_elems(a, b);
    lemma_prefix_elems(b, c);
    lemma_prefix_elems(a, c);
}

proof fn lemma_prefix_append(w: Seq<char>, s: Seq<char>, t: Seq<char>)
    requires
        w.is_prefix_of(s),
    ensures
        w.is_prefix_of(s + t),
{
    lemma_prefix_elems(w, s);
    lemma_prefix_elems(w, s + t);
}

/// The directory part of a typed word starts it.
proof fn lemma_dir_part_prefix(w: Seq<char>)
    ensures
        dir_part(w).is_prefix_of(w),
{
    lemma_word_parts(w);
    lemma_prefix_elems(dir_part(w), w);
}

/// The typed word is its directory part followed by its file part.
proof fn lemma_word_parts(w: Seq<char>)
    ensures
        dir_part(w) + file_part(w) == w,
{
    match last_slash(w) {
        Some(i) => {
            lemma_last_slash_range(w);
            assert(w.take(i + 1) + w.skip(i + 1) =~= w);
        },
        None => {
            assert(Seq::<char>::empty() + w =~= w);
        },
    }
}

proof fn lemma_last_slash_range(w: Seq<char>)
    ensures
        last_slash(w) matches Some(i) ==> 0 <= i < w.len(),
    decreases w.len(),
{
    if w.len() > 0 {
        lemma_last_slash_range(w.drop_last());
    }
}

/// Name candidates extend the typed input.
proof fn lemma_name_candidates_extend(names: Seq<Seq<char>>, input: Seq<char>)
    ensures
        all_extend(input, name_candidates(names, input)),
    decreases names.len(),
{
    if names.len() > 0 {
        lemma_name_candidates_extend(names.drop_last(), input);
    }
}

/// Candidates taken from ones that extend `w` extend `w` too.
proof fn lemma_all_extend_from(w: Seq<char>, ps: Seq<SpecPair>, qs: Seq<SpecPair>)
    requires
        all_extend(w, ps),
        forall|i: int| 0 <= i < qs.len() ==> ps.contains(#[trigger] qs[i]),
    ensures
        all_extend(w, qs),
{
    assert forall|i: int| 0 <= i < qs.len() implies w.is_prefix_of(#[trigger] qs[i].replacement) by {
        assert(ps.contains(qs[i]));
        let k = choose|k: int| 0 <= k < ps.len() && ps[k] == qs[i];
        assert(w.is_prefix_of(ps[k].replacement));
    }
}

/// Path candidates extend the typed path, directory included.
proof fn lemma_path_candidates_extend(entries: Seq<(Seq<char>, bool)>, dir: Seq<char>, prefix: Seq<char>)
    ensures
        all_extend(dir + prefix, path_candidates(entries, dir, prefix)),
    decreases entries.len(),
{
    if entries.len() > 0 {
        lemma_path_candidates_extend(entries.drop_last(), dir, prefix);
        let (name, is_dir) = entries.last();
        if prefix.is_prefix_of(name) {
            let c = entry_candidate(dir, name, is_dir);
            lemma_prefix_elems(prefix, name);
            lemma_prefix_elems(dir + prefix, dir + name);
            lemma_prefix_append(dir + prefix, dir + name, if is_dir { "/"@ } else { " "@ });
            assert(c.replacement == dir + name + (if is_dir { "/"@ } else { " "@ }));
        }
    }
}

/// The common prefix of two texts is a prefix of both.
proof fn lemma_common_prefix2_of_both(a: Seq<char>, b: Seq<char>)
    ensures
        common_prefix2(a, b).is_prefix_of(a),
        common_prefix2(a, b).is_prefix_of(b),
    decreases a.len(),
{
    let c = common_prefix2(a, b);
    if a.len() == 0 || b.len() == 0 || a[0] != b[0] {
        lemma_prefix_elems(c, a);
        lemma_prefix_elems(c, b);
    } else {
        lemma_common_prefix2_of_both(a.drop_first(), b.drop_first());
        let t = common_prefix2(a.drop_first(), b.drop_first());
        lemma_prefix_elems(t, a.drop_first());
        lemma_prefix_elems(t, b.drop_first());
        assert forall|k: int| 0 <= k < c.len() implies c[k] == a[k] && c[k] == b[k] by {
            if k > 0 {
                assert(c[k] == t[k - 1]);
            }
        }
        lemma_prefix_elems(c, a);
        lemma_prefix_elems(c, b);
    }
}

/// Whatever both texts start with, their common prefix starts with too.
proof fn lemma_common_prefix2_greatest(a: Seq<char>, b: Seq<char>, w: Seq<char>)
    requires
        w.is_prefix_of(a),
        w.is_prefix_of(b),
    ensures
        w.is_prefix_of(common_prefix2(a, b)),
    decreases a.len(),
{
    let c = common_prefix2(a, b);
    lemma_prefix_elems(w, a);
    lemma_prefix_elems(w, b);
    if w.len() == 0 {
        lemma_prefix_elems(w, c);
    } else {
        assert(a[0] == w[0] && b[0] == w[0]);
        let w2 = w.drop_first();
        lemma_prefix_elems(w2, a.drop_first());
        lemma_prefix_elems(w2, b.drop_first());
        lemma_common_prefix2_greatest(a.drop_first(), b.drop_first(), w2);
        let t = common_prefix2(a.drop_first(), b.drop_first());
        lemma_prefix_elems(w2, t);
        assert forall|k: int| 0 <= k < w.len() implies w[k] == c[k] by {
            if k > 0 {
                assert(w[k] == w2[k - 1]);
                assert(c[k] == t[k - 1]);
            }
        }
        lemma_prefix_elems(w, c);
    }
}

/// The common prefix of several texts is a prefix of each of them.
proof fn lemma_common_prefix_of_each(ss: Seq<Seq<char>>, i: int)
    requires
        0 <= i < ss.len(),
    ensures
        common_prefix(ss).is_prefix_of(ss[i]),
    decreases ss.len(),
{
    if ss.len() == 1 {
        lemma_prefix_elems(ss[0], ss[0]);
    } else {
        let init = ss.drop_last();
        lemma_common_prefix2_of_both(common_prefix(init), ss.last());
        if i < ss.len() - 1 {
            lemma_common_prefix_of_each(init, i);
            assert(init[i] == ss[i]);
            lemma_prefix_trans(common_prefix(ss), common_prefix(init), ss[i]);
        }
    }
}

/// Whatever all the texts start with, their common prefix starts with too.
proof fn lemma_common_prefix_greatest(ss: Seq<Seq<char>>, w: Seq<char>)
    requires
        ss.len() >= 1,
        forall|i: int| 0 <= i < ss.len() ==> w.is_prefix_of(#[trigger] ss[i]),
    ensures
        w.is_prefix_of(common_prefix(ss)),
    decreases ss.len(),
{
    if ss.len() == 1 {
        assert(w.is_prefix_of(ss[0]));
    } else {
        let init = ss.drop_last();
        assert forall|i: int| 0 <= i < init.len() implies w.is_prefix_of(#[trigger] init[i]) by {
            assert(init[i] == ss[i]);
        }
        lemma_common_prefix_greatest(init, w);
        assert(w.is_prefix_of(ss[ss.len() - 1]));
        lemma_common_prefix2_greatest(common_prefix(init), ss.last(), w);
    }
}

/// A partial completion only extends the typed word: when all candidates
/// extend `w`, their common prefix extends `w` and is a prefix of every
/// candidate's replacement.
pub proof fn lemma_partial_completion_extends(w: Seq<char>, cands: Seq<SpecPair>)
    requires
        cands.len() >= 1,
        all_extend(w, cands),
    ensures
        w.is_prefix_of(common_prefix(replacements(cands))),
        forall|i: int| 0 <= i < cands.len() ==> common_prefix(replacements(cands)).is_prefix_of(
            #[trigger] cands[i].replacement,
        ),
{
    let rs = replacements(cands);
    assert forall|i: int| 0 <= i < rs.len() implies w.is_prefix_of(#[trigger] rs[i]) by {
        assert(rs[i] == cands[i].replacement);
    }
    lemma_common_prefix_greatest(rs, w);
    assert forall|i: int| 0 <= i < cands.len() implies common_prefix(rs).is_prefix_of(#[trigger] cands[i].replacement) by {
        lemma_common_prefix_of_each(rs, i);
        assert(rs[i] == cands[i].replacement);
    }
}

/// The longest prefix that the replacements of all the candidates share.
fn common_replacement_prefix(cands: &Vec<Pair>) -> (s: String)
    requires
        cands.len() >= 1,
    ensures
        s@ == common_prefix(replacements(cands.deep_view())),
        forall|i: int| 0 <= i < cands.len() ==> s@.is_prefix_of(#[trigger] cands.deep_view()[i].replacement),
        forall|w: Seq<char>|
            (forall|i: int| 0 <= i < cands.len() ==> w.is_prefix_of(#[trigger] cands.deep_view()[i].replacement))
                ==> #[trigger] w.is_prefix_of(s@),
{
    let ghost rs = replacements(cands.deep_view());
    let mut acc = chars_of(cands[0].replacement.as_str());
    assert(rs.take(1) =~= seq![rs[0]]);
    let mut i: usize = 1;
    while i < cands.len()
        invariant
            rs == replacements(cands.deep_view()),
            1 <= i <= cands.len(),
            acc@ == common_prefix(rs.take(i as int)),
        decreases cands.len() - i,
    {
        let b = chars_of(cands[i].replacement.as_str());
        assert(b@ == rs[i as int]);
        let mut k: usize = 0;
        while k < acc.len() && k < b.len() && acc[k] == b[k]
            invariant
                k <= acc.len(),
                k <= b.len(),
                acc@.take(k as int) == b@.take(k as int),
            decreases acc.len() - k,
        {
            assert(acc@.take(k + 1) =~= acc@.take(k as int).push(acc@[k as int]));
            assert(b@.take(k + 1) =~= b@.take(k as int).push(b@[k as int]));
            k = k + 1;
        }
        proof {
            lemma_common_prefix2(acc@, b@, k as int);
            assert(rs.take(i + 1).drop_last() =~= rs.take(i as int));
            assert(rs.take(i + 1).last() == rs[i as int]);
        }
        acc.truncate(k);
        assert(acc@ =~= common_prefix(rs.take(i + 1)));
        i = i + 1;
    }
    assert(rs.take(cands.len() as int) =~= rs);
    proof {
        assert forall|i: int| 0 <= i < cands.len() implies acc@.is_prefix_of(#[trigger] cands.deep_view()[i].replacement) by {
            lemma_common_prefix_of_each(rs, i);
        }
        assert forall|w: Seq<char>|
            (forall|i: int| 0 <= i < cands.len() ==> w.is_prefix_of(#[trigger] cands.deep_view()[i].replacement))
                implies #[trigger] w.is_prefix_of(acc@) by {
            assert forall|i: int| 0 <= i < rs.len() implies w.is_prefix_of(#[trigger] rs[i]) by {
                assert(rs[i] == cands.deep_view()[i].replacement);
            }
            lemma_common_prefix_greatest(rs, w);
        }
    }
    string_from_chars(&acc)
}

impl EditorHelper {
    /// Completes the word before the cursor (at byte position `pos` of
    /// `line`). `external_names` are the programs on `PATH` (used for the
    /// first word) and `entries` the entries of `path_target(word).scan_path`
    /// (used for later words). Several matches whose common prefix is longer
    /// than the word extend the word to that prefix; otherwise they ring the
    /// bell on the first TAB and are listed on a second TAB at the same place.
    pub fn complete(&mut self, line: &str, pos: usize, external_names: &Vec<String>, entries: &Vec<DirEntry>) -> (r: Completion)
        requires
            is_char_boundary_of(line@, pos as int),
        ensures
            ({
                let p = cursor_prefix(line@, pos as int);
                let ws = word_start(p);
                let start = byte_offset(line@, ws);
                let cands = completion_candidates(
                    ws == 0,
                    p.skip(ws),
                    external_names.deep_view(),
                    entries.deep_view(),
                );
                let double = old(self).last_tab_state matches Some((s, q)) && s@ == p && q == pos;
                let common = common_prefix(replacements(cands));
                &&& final(self).last_tab_state matches Some((s, q)) && s@ == p && q == pos
                &&& if cands.len() <= 1 {
                    r matches Completion::Candidates(st, v) && st == start && v.deep_view() == cands
                } else if common.len() > p.skip(ws).len() {
                    r matches Completion::Candidates(st, v) && st == start && v.deep_view() == seq![
                        SpecPair { display: common, replacement: common },
                    ]
                } else if double {
                    r matches Completion::ListMatches(st, text) && st == start && text@ == "\n"@
                        + join_listing(displays(cands)) + "\n$ "@ + line@
                } else {
                    r matches Completion::Bell(st) && st == start
                }
                &&& r matches Completion::Candidates(_, v) ==> all_extend(p.skip(ws), v.deep_view())
                &&& ws != 0 ==> (r matches Completion::Candidates(_, v) ==> all_extend(
                    dir_part(p.skip(ws)),
                    v.deep_view(),
                ))
                &&& cands.len() > 1 ==> (r matches Completion::Candidates(_, v) ==> v.len() == 1 && forall|i: int|
                    0 <= i < cands.len() ==> v.deep_view()[0].replacement.is_prefix_of(
                        #[trigger] cands[i].replacement,
                    ))
            }),
    {
        let (prefix, start, word) = current_word(line, pos);
        let ghost w = word@;
        let is_double_tab = match &self.last_tab_state {
            Some((s, q)) => *q == pos && *s == prefix,
            None => false,
        };
        self.last_tab_state = Some((prefix, pos));
        let candidates = if start == 0 {
            let mut cmds = self.find_builtin_commands(word.as_str());
            let mut ext = self.find_external_commands(external_names, word.as_str());
            let ghost b = cmds.deep_view();
            let ghost e = ext.deep_view();
            cmds.append(&mut ext);
            assert(cmds.deep_view() =~= b + e);
            proof {
                lemma_name_candidates_extend(builtin_names(), w);
                lemma_name_candidates_extend(external_names.deep_view(), w);
                assert forall|i: int| 0 <= i < (b + e).len() implies w.is_prefix_of(#[trigger] (b + e)[i].replacement) by {
                    if i < b.len() {
                        assert((b + e)[i] == b[i]);
                    } else {
                        assert((b + e)[i] == e[i - b.len()]);
                    }
                }
            }
            let mut sorted = sort_dedup_pairs(&cmds);
            proof {
                lemma_all_extend_from(w, b + e, sorted.deep_view());
            }
            if sorted.len() == 1 {
                let ghost only = sorted.deep_view()[0];
                let ghost whole = sorted.deep_view();
                let mut p = sorted.pop().unwrap();
                assert(p.deep_view() == whole.last());
                assert(sorted.len() == 0);
                proof {
                    reveal_strlit(" ");
                }
                push_char(&mut p.replacement, ' ');
                assert(p.replacement@ =~= only.replacement + " "@);
                let ghost empty = sorted.deep_view();
                sorted.push(p);
                assert(sorted.deep_view() =~= empty.push(p.deep_view()));
                assert(sorted.deep_view() =~= seq![SpecPair { display: only.display, replacement: only.replacement + " "@ }]);
                proof {
                    assert(w.is_prefix_of(whole[0].replacement));
                    lemma_prefix_append(w, only.replacement, " "@);
                }
            }
            sorted
        } else {
            let paths = self.find_path_completions(word.as_str(), entries);
            let sorted = sort_dedup_pairs(&paths);
            proof {
                lemma_path_candidates_extend(entries.deep_view(), dir_part(w), file_part(w));
                lemma_word_parts(w);
                lemma_all_extend_from(w, paths.deep_view(), sorted.deep_view());
            }
            sorted
        };
        proof {
            lemma_dir_part_prefix(w);
            if start != 0 {
                assert forall|i: int| 0 <= i < candidates.len() implies dir_part(w).is_prefix_of(
                    #[trigger] candidates.deep_view()[i].replacement,
                ) by {
                    lemma_prefix_trans(dir_part(w), w, candidates.deep_view()[i].replacement);
                }
            }
        }
        if candidates.len() <= 1 {
            return Completion::Candidates(start, candidates);
        }
        let common = common_replacement_prefix(&candidates);
        if chars_of(common.as_str()).len() > chars_of(word.as_str()).len() {
            let extension = Pair { display: common.clone(), replacement: common };
            let v = vec![extension];
            assert(v.deep_view() =~= seq![v@[0].deep_view()]);
            proof {
                assert(w.is_prefix_of(v.deep_view()[0].replacement));
                lemma_dir_part_prefix(w);
                lemma_prefix_trans(dir_part(w), w, v.deep_view()[0].replacement);
            }
            return Completion::Candidates(start, v);
        }
        if is_double_tab {
            let listing = listing_text(&candidates);
            let text = String::from_str("\n").concat(listing.as_str()).concat("\n$ ").concat(line);
            Completion::ListMatches(start, text)
        } else {
            Completion::Bell(start)
        }
    }
}

} // verus!
