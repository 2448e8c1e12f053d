use vstd::prelude::*;
use crate::utils::text::{
    chars_of, lemma_split_append_piece, lemma_trimmed_last, split_on, split_on_spec, spec_is_whitespace,
    spec_trim, string_from_range, trim,
};

verus! {

/// The commands entered so far, and how many of them a history file already
/// holds from earlier appends.
pub struct HistoryState {
    pub entries: Vec<String>,
    pub last_appended_index: usize,
}

/// Each line of a history file that is not blank, trimmed, in order.
pub open spec fn loaded_entries(lines: Seq<Seq<char>>) -> Seq<Seq<char>>
    decreases lines.len(),
{
    if lines.len() == 0 {
        seq![]
    } else {
        let t = crate::utils::text::spec_trim(lines.last());
        if t.len() > 0 {
            loaded_entries(lines.drop_last()).push(t)
        } else {
            loaded_entries(lines.drop_last())
        }
    }
}

/// The text of history lines: each one followed by a newline.
pub open spec fn history_text(entries: Seq<Seq<char>>) -> Seq<char>
    decreases entries.len(),
{
    if entries.len() == 0 {
        seq![]
    } else {
        history_text(entries.drop_last()) + entries.last() + seq!['\n']
    }
}

/// Writing the history in pieces gives the same text as writing it at
/// once: appending after each batch of commands builds the same file as
/// writing the whole history.
pub proof fn lemma_history_text_concat(a: Seq<Seq<char>>, b: Seq<Seq<char>>)
    ensures
        history_text(a + b) == history_text(a) + history_text(b),
    decreases b.len(),
{
    if b.len() == 0 {
        assert(a + b =~= a);
        assert(history_text(a) + history_text(b) =~= history_text(a));
    } else {
        lemma_history_text_concat(a, b.drop_last());
        assert((a + b).drop_last() =~= a + b.drop_last());
        assert((a + b).last() == b.last());
        assert(history_text(a + b) =~= history_text(a) + history_text(b));
    }
}

/// After an append has marked the whole history, the next append writes
/// exactly the commands added since.
pub proof fn lemma_append_writes_only_new_entries(old_entries: Seq<Seq<char>>, added: Seq<Seq<char>>)
    ensures
        history_text((old_entries + added).skip(old_entries.len() as int)) == history_text(added),
{
    assert((old_entries + added).skip(old_entries.len() as int) =~= added);
}

/// Lines that are already trimmed and not blank load back unchanged, so a
/// history of such commands survives a write followed by a load.
pub proof fn lemma_load_trimmed_lines(lines: Seq<Seq<char>>)
    requires
        forall|i: int|
            0 <= i < lines.len() ==> (#[trigger] lines[i]).len() > 0
                && crate::utils::text::spec_trim(lines[i]) == lines[i],
    ensures
        loaded_entries(lines) == lines,
    decreases lines.len(),
{
    if lines.len() > 0 {
        let l = lines.drop_last();
        assert forall|i: int|
            0 <= i < l.len() implies (#[trigger] l[i]).len() > 0
                && crate::utils::text::spec_trim(l[i]) == l[i] by {
            assert(l[i] == lines[i]);
        }
        lemma_load_trimmed_lines(l);
        assert(lines[lines.len() - 1] == lines.last());
        assert(l.push(lines.last()) =~= lines);
    }
}

/// `l` without one trailing carriage return.
pub open spec fn strip_cr(l: Seq<char>) -> Seq<char> {
    if l.len() > 0 && l.last() == '\r' {
        l.drop_last()
    } else {
        l
    }
}

/// The lines of a text as reading it line by line gives them: the pieces
/// between newlines, each without a carriage return before its newline, and
/// no empty line after a final newline.
pub open spec fn text_lines(t: Seq<char>) -> Seq<Seq<char>> {
    let p = split_on_spec(t, '\n');
    let q = if p.last().len() == 0 {
        p.drop_last()
    } else {
        p
    };
    q.map_values(|l: Seq<char>| strip_cr(l))
}

/// The lines of `text`.
pub fn lines_of(text: &str) -> (v: Vec<String>)
    ensures
        v.deep_view() == text_lines(text@),
{
    let mut pieces = split_on(text, '\n');
    proof {
        crate::utils::text::lemma_split_nonempty(text@, '\n');
    }
    let ghost p = pieces.deep_view();
    let last_empty = pieces[pieces.len() - 1].as_str().is_empty();
    if last_empty {
        pieces.pop();
    }
    let ghost q = pieces.deep_view();
    assert(q == if p.last().len() == 0 {
        p.drop_last()
    } else {
        p
    });
    let mut out: Vec<String> = Vec::new();
    let mut i: usize = 0;
    while i < pieces.len()
        invariant
            q == pieces.deep_view(),
            i <= pieces.len(),
            out.deep_view() == q.take(i as int).map_values(|l: Seq<char>| strip_cr(l)),
        decreases pieces.len() - i,
    {
        let cs = chars_of(pieces[i].as_str());
        let line = if cs.len() > 0 && cs[cs.len() - 1] == '\r' {
            string_from_range(&cs, 0, cs.len() - 1)
        } else {
            string_from_range(&cs, 0, cs.len())
        };
        assert(line@ =~= strip_cr(q[i as int]));
        let ghost before = out.deep_view();
        out.push(line);
        assert(out.deep_view() =~= before.push(strip_cr(q[i as int])));
        assert(q.take(i + 1).map_values(|l: Seq<char>| strip_cr(l)) =~= q.take(i as int).map_values(
            |l: Seq<char>| strip_cr(l),
        ).push(strip_cr(q[i as int])));
        i = i + 1;
    }
    assert(q.take(pieces.len() as int) =~= q);
    out
}

/// An entry that a history file can hold and give back unchanged: not
/// empty, already trimmed, on one line. The shell only records such entries.
pub open spec fn storable_entry(e: Seq<char>) -> bool {
    &&& e.len() > 0
    &&& spec_trim(e) == e
    &&& !e.contains('\n')
}

proof fn lemma_split_history(es: Seq<Seq<char>>)
    requires
        forall|i: int| 0 <= i < es.len() ==> storable_entry(#[trigger] es[i]),
    ensures
        split_on_spec(history_text(es), '\n') == es.push(seq![]),
    decreases es.len(),
{
    if es.len() == 0 {
        assert(split_on_spec(history_text(es), '\n') =~= es.push(seq![]));
    } else {
        let init = es.drop_last();
        let e = es.last();
        assert(storable_entry(es[es.len() - 1]));
        assert forall|i: int| 0 <= i < init.len() implies storable_entry(#[trigger] init[i]) by {
            assert(init[i] == es[i]);
        }
        lemma_split_history(init);
        let t = history_text(init) + e;
        lemma_split_append_piece(history_text(init), e, '\n');
        let p = init.push(seq![]);
        assert(p.update(p.len() - 1, p.last() + e) =~= es) by {
            assert(p.last() + e =~= e);
        }
        assert(history_text(es) =~= t.push('\n'));
        assert(t.push('\n').drop_last() =~= t);
        assert(split_on_spec(history_text(es), '\n') == split_on_spec(t, '\n').push(seq![]));
    }
}

proof fn lemma_load_storable(es: Seq<Seq<char>>)
    requires
        forall|i: int| 0 <= i < es.len() ==> storable_entry(#[trigger] es[i]),
    ensures
        loaded_entries(es) == es,
    decreases es.len(),
{
    if es.len() > 0 {
        let init = es.drop_last();
        assert(storable_entry(es[es.len() - 1]));
        assert forall|i: int| 0 <= i < init.len() implies storable_entry(#[trigger] init[i]) by {
            assert(init[i] == es[i]);
        }
        lemma_load_storable(init);
        assert(init.push(es.last()) =~= es);
    }
}

/// Reading back a history file gives the history that was written: what
/// `history_file_text` writes, `load_history_text` loads unchanged.
pub proof fn lemma_history_file_round_trip(entries: Seq<Seq<char>>)
    requires
        forall|i: int| 0 <= i < entries.len() ==> storable_entry(#[trigger] entries[i]),
    ensures
        loaded_entries(text_lines(history_text(entries))) == entries,
{
    lemma_split_history(entries);
    let p = entries.push(seq![]);
    assert(p.last().len() == 0);
    assert(p.drop_last() =~= entries);
    assert forall|i: int| 0 <= i < entries.len() implies #[trigger] strip_cr(entries[i]) == entries[i] by {
        assert(storable_entry(entries[i]));
        lemma_trimmed_last(entries[i]);
        assert(spec_is_whitespace('\r'));
    }
    assert(entries.map_values(|l: Seq<char>| strip_cr(l)) =~= entries);
    lemma_load_storable(entries);
}

impl Default for HistoryState {
    fn default() -> (s: HistoryState)
        ensures
            s.entries@.len() == 0,
            s.last_appended_index == 0,
    {
        HistoryState::new()
    }
}

impl HistoryState {
    /// An empty history.
    pub fn new() -> (s: HistoryState)
        ensures
            s.entries@.len() == 0,
            s.last_appended_index == 0,
    {
        HistoryState { entries: Vec::new(), last_appended_index: 0 }
    }

    /// Adds a command at the end.
    pub fn add_history(&mut self, cmd: String)
        ensures
            final(self).entries@ == old(self).entries@.push(cmd),
            final(self).last_appended_index == old(self).last_appended_index,
    {
        self.entries.push(cmd);
    }

    /// Adds the lines read from a history file: each is trimmed, and blank
    /// ones are skipped.
    pub fn load_lines(&mut self, lines: &Vec<String>)
        ensures
            final(self).entries.deep_view() == old(self).entries.deep_view() + loaded_entries(
                lines.deep_view(),
            ),
            final(self).last_appended_index == old(self).last_appended_index,
    {
        let ghost start = self.entries.deep_view();
        let ghost ls = lines.deep_view();
        let mut i: usize = 0;
        assert(ls.take(0) =~= Seq::<Seq<char>>::empty());
        assert(start + loaded_entries(ls.take(0)) =~= start);
        while i < lines.len()
            invariant
                ls == lines.deep_view(),
                i <= lines.len(),
                self.entries.deep_view() == start + loaded_entries(ls.take(i as int)),
                self.last_appended_index == old(self).last_appended_index,
            decreases lines.len() - i,
        {
            let ghost before = self.entries.deep_view();
            let trimmed = trim(lines[i].as_str());
            assert(ls.take(i + 1).drop_last() =~= ls.take(i as int));
            assert(ls.take(i + 1).last() == lines@[i as int]@);
            if !trimmed.as_str().is_empty() {
                self.entries.push(trimmed);
                assert(self.entries.deep_view() =~= before.push(trimmed@));
                assert(start + loaded_entries(ls.take(i + 1)) =~= (start + loaded_entries(
                    ls.take(i as int),
                )).push(trimmed@));
            }
            i = i + 1;
        }
        assert(ls.take(lines.len() as int) =~= ls);
    }

    /// Adds the lines of a history file's text, as `load_lines` does.
    pub fn load_history_text(&mut self, text: &str)
        ensures
            final(self).entries.deep_view() == old(self).entries.deep_view() + loaded_entries(text_lines(text@)),
            final(self).last_appended_index == old(self).last_appended_index,
    {
        let lines = lines_of(text);
        self.load_lines(&lines);
    }

    /// The text of the whole history, as a history file holds it.
    pub fn history_file_text(&self) -> (s: String)
        ensures
            s@ == history_text(self.entries.deep_view()),
    {
        assert(self.entries.deep_view().skip(0) =~= self.entries.deep_view());
        lines_text(&self.entries, 0)
    }

    /// The text of the entries added since the last append (none when the
    /// mark is past the end).
    pub fn unappended_text(&self) -> (s: String)
        ensures
            s@ == history_text(
                self.entries.deep_view().skip(
                    if self.last_appended_index <= self.entries.len() {
                        self.last_appended_index as int
                    } else {
                        self.entries.len() as int
                    },
                ),
            ),
    {
        let from = if self.last_appended_index <= self.entries.len() {
            self.last_appended_index
        } else {
            self.entries.len()
        };
        lines_text(&self.entries, from)
    }

    /// Records that every entry is now in the history file.
    pub fn mark_all_appended(&mut self)
        ensures
            final(self).entries == old(self).entries,
            final(self).last_appended_index == old(self).entries.len(),
    {
        self.last_appended_index = self.entries.len();
    }
}

/// The text of `entries[from..]`, each followed by a newline.
fn lines_text(entries: &Vec<String>, from: usize) -> (s: String)
    requires
        from <= entries.len(),
    ensures
        s@ == history_text(entries.deep_view().skip(from as int)),
{
    let ghost es = entries.deep_view().skip(from as int);
    let mut out = String::new();
    let mut i = from;
    assert(es.take(0) =~= Seq::<Seq<char>>::empty());
    while i < entries.len()
        invariant
            from <= i <= entries.len(),
            es == entries.deep_view().skip(from as int),
            out@ == history_text(es.take(i - from)),
        decreases entries.len() - i,
    {
        out.append(entries[i].as_str());
        out.append("\n");
        proof {
            reveal_strlit("\n");
        }
        assert(es.take(i + 1 - from).drop_last() =~= es.take(i - from));
        assert(es.take(i + 1 - from).last() == entries@[i as int]@);
        i = i + 1;
    }
    assert(es.take(entries.len() - from) =~= es);
    out
}

} // verus!
