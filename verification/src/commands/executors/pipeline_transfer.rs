//! A whole pipeline (each stage with its own redirections) written as one
//! string, so that it can travel as a single argument to another process.
//!
//! Every string is written with its length in bytes in front
//! (`<byte-len>:<bytes>`), and every count as `<n>;`. An explicit length can
//! never collide with the content, whatever characters the content holds.
use vstd::prelude::*;
use vstd::utf8::*;
use crate::error::ShellError;
use crate::parser::parser::{ParsedCommand, SpecCommand};
use crate::utils::redirection::{Descriptor, Redirection, RedirectionType, SpecRedirection};
use crate::utils::text::{push_char, usize_to_decimal};

verus! {

/// The length of `s` in bytes, in UTF-8.
pub open spec fn byte_len(s: Seq<char>) -> nat {
    encode_utf8(s).len()
}

/// A count: its decimal numeral and `;`.
pub open spec fn enc_usize(n: nat) -> Seq<char> {
    crate::utils::text::decimal(n) + seq![';']
}

/// A string: the decimal numeral of its byte length, `:` and the string.
pub open spec fn enc_str(s: Seq<char>) -> Seq<char> {
    crate::utils::text::decimal(byte_len(s)) + seq![':'] + s
}

/// Several strings, one after the other.
pub open spec fn enc_strs(ss: Seq<Seq<char>>) -> Seq<char>
    decreases ss.len(),
{
    if ss.len() == 0 {
        seq![]
    } else {
        enc_strs(ss.drop_last()) + enc_str(ss.last())
    }
}

/// The code a descriptor is written with.
pub open spec fn spec_descriptor_code(d: Descriptor) -> Seq<char> {
    match d {
        Descriptor::Stdin => "0"@,
        Descriptor::Stdout => "1"@,
        Descriptor::Stderr => "2"@,
    }
}

/// The descriptor a code names.
pub open spec fn spec_descriptor_from_code(s: Seq<char>) -> Option<Descriptor> {
    if s == "0"@ {
        Some(Descriptor::Stdin)
    } else if s == "1"@ {
        Some(Descriptor::Stdout)
    } else if s == "2"@ {
        Some(Descriptor::Stderr)
    } else {
        None
    }
}

/// The name a redirection type is written with.
pub open spec fn spec_type_code(t: RedirectionType) -> Seq<char> {
    match t {
        RedirectionType::Input => "Input"@,
        RedirectionType::Output => "Output"@,
        RedirectionType::Append => "Append"@,
    }
}

/// The redirection type a name names.
pub open spec fn spec_type_from_code(s: Seq<char>) -> Option<RedirectionType> {
    if s == "Input"@ {
        Some(RedirectionType::Input)
    } else if s == "Output"@ {
        Some(RedirectionType::Output)
    } else if s == "Append"@ {
        Some(RedirectionType::Append)
    } else {
        None
    }
}

/// A redirection: its descriptor's code, its type's name and its file.
pub open spec fn enc_redirect(r: SpecRedirection) -> Seq<char> {
    enc_str(spec_descriptor_code(r.descriptor)) + enc_str(spec_type_code(r.redirection_type))
        + enc_str(r.file)
}

/// Several redirections, one after the other.
pub open spec fn enc_redirects(rs: Seq<SpecRedirection>) -> Seq<char>
    decreases rs.len(),
{
    if rs.len() == 0 {
        seq![]
    } else {
        enc_redirects(rs.drop_last()) + enc_redirect(rs.last())
    }
}

/// A command: its name, the count of its arguments and the arguments, the
/// count of its redirections and the redirections.
pub open spec fn enc_command(c: SpecCommand) -> Seq<char> {
    enc_str(c.cmd) + enc_usize(c.args.len()) + enc_strs(c.args) + enc_usize(c.redirects.len())
        + enc_redirects(c.redirects)
}

/// Several commands, one after the other.
pub open spec fn enc_commands(cs: Seq<SpecCommand>) -> Seq<char>
    decreases cs.len(),
{
    if cs.len() == 0 {
        seq![]
    } else {
        enc_commands(cs.drop_last()) + enc_command(cs.last())
    }
}

/// A pipeline: the count of its stages, then the stages.
pub open spec fn spec_encode(cs: Seq<SpecCommand>) -> Seq<char> {
    enc_usize(cs.len()) + enc_commands(cs)
}

/// The index of the first byte `x` at or after `p`.
pub open spec fn first_index_of(b: Seq<u8>, p: int, x: u8) -> Option<int>
    decreases b.len() - p,
{
    if p < 0 || p >= b.len() {
        None
    } else if b[p] == x {
        Some(p)
    } else {
        first_index_of(b, p + 1, x)
    }
}

/// Whether a byte is an ASCII decimal digit.
pub open spec fn is_digit_byte(x: u8) -> bool {
    48 <= x <= 57
}

/// The value of a run of decimal digits.
pub open spec fn digits_value(ds: Seq<u8>) -> nat
    decreases ds.len(),
{
    if ds.len() == 0 {
        0
    } else {
        digits_value(ds.drop_last()) * 10 + (ds.last() - 48) as nat
    }
}

/// The digits of a numeral that may start with `+`.
pub open spec fn unsigned_digits(d: Seq<u8>) -> Seq<u8> {
    if d.len() > 0 && d[0] == 43 {
        d.drop_first()
    } else {
        d
    }
}

/// A `usize` written in decimal, as `str::parse` reads it: an optional `+`,
/// then one or more digits, for a value no larger than `usize::MAX`.
pub open spec fn parse_usize(d: Seq<u8>) -> Option<nat> {
    let ds = unsigned_digits(d);
    if ds.len() > 0 && (forall|i: int| 0 <= i < ds.len() ==> is_digit_byte(#[trigger] ds[i]))
        && digits_value(ds) <= usize::MAX {
        Some(digits_value(ds))
    } else {
        None
    }
}

/// A count read at byte `p`, and where reading goes on.
pub open spec fn read_usize_at(b: Seq<u8>, p: int) -> Option<(nat, int)> {
    match first_index_of(b, p, 59) {
        Some(k) => match parse_usize(b.subrange(p, k)) {
            Some(n) => Some((n, k + 1)),
            None => None,
        },
        None => None,
    }
}

/// A string read at byte `p`, and where reading goes on. Its bytes must
/// begin and end on character boundaries.
pub open spec fn read_str_at(b: Seq<u8>, p: int) -> Option<(Seq<char>, int)> {
    match first_index_of(b, p, 58) {
        Some(k) => match parse_usize(b.subrange(p, k)) {
            Some(n) => {
                let start = k + 1;
                let end = start + n;
                if end <= b.len() && is_char_boundary(b, start) && is_char_boundary(b, end) {
                    Some((decode_utf8(b.subrange(start, end)), end))
                } else {
                    None
                }
            },
            None => None,
        },
        None => None,
    }
}

/// `count` more strings read at byte `p` after those in `acc`.
pub open spec fn read_strs_at(b: Seq<u8>, p: int, count: nat, acc: Seq<Seq<char>>) -> Option<(Seq<Seq<char>>, int)>
    decreases count,
{
    if count == 0 {
        Some((acc, p))
    } else {
        match read_str_at(b, p) {
            Some((s, q)) => read_strs_at(b, q, (count - 1) as nat, acc.push(s)),
            None => None,
        }
    }
}

/// A redirection read at byte `p`.
pub open spec fn read_redirect_at(b: Seq<u8>, p: int) -> Option<(SpecRedirection, int)> {
    match read_str_at(b, p) {
        Some((d, p1)) => match read_str_at(b, p1) {
            Some((t, p2)) => match read_str_at(b, p2) {
                Some((f, p3)) => match (spec_descriptor_from_code(d), spec_type_from_code(t)) {
                    (Some(desc), Some(ty)) => Some(
                        (SpecRedirection { descriptor: desc, file: f, redirection_type: ty }, p3),
                    ),
                    _ => None,
                },
                None => None,
            },
            None => None,
        },
        None => None,
    }
}

/// `count` more redirections read at byte `p` after those in `acc`.
pub open spec fn read_redirects_at(b: Seq<u8>, p: int, count: nat, acc: Seq<SpecRedirection>) -> Option<(Seq<SpecRedirection>, int)>
    decreases count,
{
    if count == 0 {
        Some((acc, p))
    } else {
        match read_redirect_at(b, p) {
            Some((r, q)) => read_redirects_at(b, q, (count - 1) as nat, acc.push(r)),
            None => None,
        }
    }
}

/// A command read at byte `p`.
pub open spec fn read_command_at(b: Seq<u8>, p: int) -> Option<(SpecCommand, int)> {
    match read_str_at(b, p) {
        Some((cmd, p1)) => match read_usize_at(b, p1) {
            Some((argc, p2)) => match read_strs_at(b, p2, argc, seq![]) {
                Some((args, p3)) => match read_usize_at(b, p3) {
                    Some((rc, p4)) => match read_redirects_at(b, p4, rc, seq![]) {
                        Some((redirects, p5)) => Some((SpecCommand { cmd, args, redirects }, p5)),
                        None => None,
                    },
                    None => None,
                },
                None => None,
            },
            None => None,
        },
        None => None,
    }
}

/// `count` more commands read at byte `p` after those in `acc`.
pub open spec fn read_commands_at(b: Seq<u8>, p: int, count: nat, acc: Seq<SpecCommand>) -> Option<Seq<SpecCommand>>
    decreases count,
{
    if count == 0 {
        Some(acc)
    } else {
        match read_command_at(b, p) {
            Some((c, q)) => read_commands_at(b, q, (count - 1) as nat, acc.push(c)),
            None => None,
        }
    }
}

/// The pipeline a payload holds: the count of stages, then the stages.
/// Bytes after the last stage are ignored.
pub open spec fn spec_decode(b: Seq<u8>) -> Option<Seq<SpecCommand>> {
    match read_usize_at(b, 0) {
        Some((n, p)) => read_commands_at(b, p, n, seq![]),
        None => None,
    }
}

/// Each string of a command has a byte length that a `usize` can count.
pub open spec fn command_fits(c: SpecCommand) -> bool {
    &&& byte_len(c.cmd) <= usize::MAX
    &&& forall|i: int| 0 <= i < c.args.len() ==> byte_len(#[trigger] c.args[i]) <= usize::MAX
    &&& forall|i: int|
        0 <= i < c.redirects.len() ==> byte_len(#[trigger] c.redirects[i].file) <= usize::MAX
}

/// Each string of a pipeline has a byte length that a `usize` can count.
pub open spec fn pipeline_fits(cs: Seq<SpecCommand>) -> bool {
    forall|i: int| 0 <= i < cs.len() ==> command_fits(#[trigger] cs[i])
}

/// Each character takes at most four bytes.
pub proof fn lemma_byte_len_bound(s: Seq<char>)
    ensures
        byte_len(s) <= 4 * s.len(),
    decreases s.len(),
{
    if s.len() > 0 {
        lemma_byte_len_bound(s.drop_first());
    }
}

/// The code a descriptor is written with in a payload.
fn descriptor_code(d: &Descriptor) -> (s: &'static str)
    ensures
        s@ == spec_descriptor_code(*d),
        byte_len(s@) <= 4,
{
    proof {
        reveal_strlit("0");
        reveal_strlit("1");
        reveal_strlit("2");
        lemma_byte_len_bound("0"@);
        lemma_byte_len_bound("1"@);
        lemma_byte_len_bound("2"@);
    }
    match d {
        Descriptor::Stdin => "0",
        Descriptor::Stdout => "1",
        Descriptor::Stderr => "2",
    }
}

/// The descriptor a code names, if it is one of `0`, `1`, `2`.
fn descriptor_from_code(s: &str) -> (d: Option<Descriptor>)
    ensures
        d == spec_descriptor_from_code(s@),
{
    let owned = s.to_owned();
    if owned == String::from_str("0") {
        Some(Descriptor::Stdin)
    } else if owned == String::from_str("1") {
        Some(Descriptor::Stdout)
    } else if owned == String::from_str("2") {
        Some(Descriptor::Stderr)
    } else {
        None
    }
}

/// The name a redirection type is written with in a payload.
fn redirection_type_code(t: &RedirectionType) -> (s: &'static str)
    ensures
        s@ == spec_type_code(*t),
        byte_len(s@) <= 24,
{
    proof {
        reveal_strlit("Input");
        reveal_strlit("Output");
        reveal_strlit("Append");
        lemma_byte_len_bound("Input"@);
        lemma_byte_len_bound("Output"@);
        lemma_byte_len_bound("Append"@);
    }
    match t {
        RedirectionType::Input => "Input",
        RedirectionType::Output => "Output",
        RedirectionType::Append => "Append",
    }
}

/// The redirection type a name names, if it is one of the three.
fn redirection_type_from_code(s: &str) -> (t: Option<RedirectionType>)
    ensures
        t == spec_type_from_code(s@),
{
    let owned = s.to_owned();
    if owned == String::from_str("Input") {
        Some(RedirectionType::Input)
    } else if owned == String::from_str("Output") {
        Some(RedirectionType::Output)
    } else if owned == String::from_str("Append") {
        Some(RedirectionType::Append)
    } else {
        None
    }
}

/// The error for a payload that cannot be read.
fn malformed() -> (e: ShellError)
    ensures
        e matches ShellError::SyntaxError(m) && m@ == "malformed internal pipeline payload"@,
{
    ShellError::SyntaxError(String::from_str("malformed internal pipeline payload"))
}

/// Appends `s` with its byte length in front.
fn write_str(out: &mut String, s: &str)
    ensures
        final(out)@ == old(out)@ + enc_str(s@),
        byte_len(s@) <= usize::MAX,
{
    let n = s.as_bytes().len();
    out.append(usize_to_decimal(n).as_str());
    push_char(out, ':');
    out.append(s);
}

/// Appends a count.
fn write_usize(out: &mut String, n: usize)
    ensures
        final(out)@ == old(out)@ + enc_usize(n as nat),
{
    out.append(usize_to_decimal(n).as_str());
    push_char(out, ';');
}

/// Appends one command.
fn write_command(out: &mut String, cmd: &ParsedCommand)
    ensures
        final(out)@ == old(out)@ + enc_command(cmd.deep_view()),
        command_fits(cmd.deep_view()),
{
    let ghost c = cmd.deep_view();
    let ghost before = out@;
    write_str(out, cmd.cmd.as_str());
    write_usize(out, cmd.args.len());
    let mut j: usize = 0;
    while j < cmd.args.len()
        invariant
            c == cmd.deep_view(),
            byte_len(c.cmd) <= usize::MAX,
            forall|k: int| 0 <= k < j ==> byte_len(#[trigger] c.args[k]) <= usize::MAX,
            j <= cmd.args.len(),
            out@ == before + enc_str(c.cmd) + enc_usize(c.args.len()) + enc_strs(
                c.args.take(j as int),
            ),
        decreases cmd.args.len() - j,
    {
        assert(c.args[j as int] == cmd.args@[j as int]@);
        write_str(out, cmd.args[j].as_str());
        assert(c.args.take(j + 1).drop_last() =~= c.args.take(j as int));
        j = j + 1;
    }
    assert(c.args.take(cmd.args.len() as int) =~= c.args);
    write_usize(out, cmd.redirects.len());
    let mut k: usize = 0;
    while k < cmd.redirects.len()
        invariant
            c == cmd.deep_view(),
            byte_len(c.cmd) <= usize::MAX,
            forall|i: int| 0 <= i < c.args.len() ==> byte_len(#[trigger] c.args[i]) <= usize::MAX,
            forall|i: int| 0 <= i < k ==> byte_len(#[trigger] c.redirects[i].file) <= usize::MAX,
            k <= cmd.redirects.len(),
            out@ == before + enc_str(c.cmd) + enc_usize(c.args.len()) + enc_strs(c.args)
                + enc_usize(c.redirects.len()) + enc_redirects(c.redirects.take(k as int)),
        decreases cmd.redirects.len() - k,
    {
        let r = &cmd.redirects[k];
        assert(c.redirects[k as int] == r.deep_view());
        write_str(out, descriptor_code(&r.descriptor));
        write_str(out, redirection_type_code(&r.redirection_type));
        write_str(out, r.file.as_str());
        assert(c.redirects.take(k + 1).drop_last() =~= c.redirects.take(k as int));
        k = k + 1;
    }
    assert(c.redirects.take(cmd.redirects.len() as int) =~= c.redirects);
}

/// Writes a pipeline as one string.
pub fn encode_pipeline(cmds: &[ParsedCommand]) -> (out: String)
    ensures
        out@ == spec_encode(cmds.deep_view()),
        pipeline_fits(cmds.deep_view()),
{
    let ghost cs = cmds.deep_view();
    let mut out = String::new();
    write_usize(&mut out, cmds.len());
    let mut i: usize = 0;
    while i < cmds.len()
        invariant
            cs == cmds.deep_view(),
            forall|k: int| 0 <= k < i ==> command_fits(#[trigger] cs[k]),
            i <= cmds.len(),
            out@ == enc_usize(cs.len()) + enc_commands(cs.take(i as int)),
        decreases cmds.len() - i,
    {
        write_command(&mut out, &cmds[i]);
        assert(cmds@[i as int].deep_view() == cs[i as int]);
        assert(cs.take(i + 1).drop_last() =~= cs.take(i as int));
        i = i + 1;
    }
    assert(cs.take(cmds.len() as int) =~= cs);
    out
}

/// The first `x` at or after `p` is at or after `p` and inside `b`.
proof fn lemma_first_index_of(b: Seq<u8>, p: int, x: u8)
    ensures
        first_index_of(b, p, x) matches Some(k) ==> p <= k < b.len() && b[k] == x,
    decreases b.len() - p,
{
    if 0 <= p < b.len() && b[p] != x {
        lemma_first_index_of(b, p + 1, x);
    }
}

/// The index of the first byte `x` at or after `p`.
fn find_byte(b: &[u8], p: usize, x: u8) -> (r: Option<usize>)
    ensures
        r matches Some(k) ==> first_index_of(b@, p as int, x) == Some(k as int) && p <= k < b.len(),
        r is None ==> first_index_of(b@, p as int, x) is None,
{
    proof {
        lemma_first_index_of(b@, p as int, x);
    }
    let mut i = p;
    while i < b.len()
        invariant
            p <= i,
            first_index_of(b@, p as int, x) == first_index_of(b@, i as int, x),
        decreases b.len() - i,
    {
        if b[i] == x {
            return Some(i);
        }
        i = i + 1;
    }
    None
}

/// A run of digits is worth at least as much as any of its prefixes.
proof fn lemma_digits_value_prefix(ds: Seq<u8>, j: int)
    requires
        0 <= j <= ds.len(),
        forall|i: int| 0 <= i < ds.len() ==> is_digit_byte(#[trigger] ds[i]),
    ensures
        digits_value(ds.take(j)) <= digits_value(ds),
    decreases ds.len(),
{
    if j < ds.len() {
        let d = ds.drop_last();
        assert(d.take(j) =~= ds.take(j));
        lemma_digits_value_prefix(d, j);
    } else {
        assert(ds.take(j) =~= ds);
    }
}

/// Reads the `usize` written in `b[from..to]`, as `str::parse` does.
fn parse_usize_bytes(b: &[u8], from: usize, to: usize) -> (r: Option<usize>)
    requires
        from <= to <= b.len(),
    ensures
        match parse_usize(b@.subrange(from as int, to as int)) {
            Some(n) => r == Some(n as usize),
            None => r is None,
        },
{
    let ghost d = b@.subrange(from as int, to as int);
    let mut i = from;
    if i < to && b[i] == 43u8 {
        i = i + 1;
    }
    let start = i;
    let ghost ds = b@.subrange(start as int, to as int);
    assert(ds =~= unsigned_digits(d));
    if start == to {
        return None;
    }
    let mut value: usize = 0;
    while i < to
        invariant
            start <= i <= to <= b.len(),
            start < to,
            ds == b@.subrange(start as int, to as int),
            d == b@.subrange(from as int, to as int),
            ds == unsigned_digits(d),
            forall|k: int| 0 <= k < i - start ==> is_digit_byte(#[trigger] ds[k]),
            value as nat == digits_value(ds.take(i - start)),
        decreases to - i,
    {
        let x = b[i];
        if x < 48u8 || x > 57u8 {
            assert(!is_digit_byte(ds[i - start]));
            return None;
        }
        assert(ds.take(i - start + 1).drop_last() =~= ds.take(i - start));
        let next = match value.checked_mul(10) {
            Some(v) => v.checked_add((x - 48u8) as usize),
            None => None,
        };
        match next {
            Some(v) => {
                value = v;
            },
            None => {
                proof {
                    if forall|k: int| 0 <= k < ds.len() ==> is_digit_byte(#[trigger] ds[k]) {
                        lemma_digits_value_prefix(ds, i - start + 1);
                    }
                }
                return None;
            },
        }
        i = i + 1;
    }
    assert(ds.take(to - start) =~= ds);
    Some(value)
}

/// Reads a count at `*pos` and moves past its `;`.
fn read_usize(data: &str, pos: &mut usize) -> (r: Option<usize>)
    ensures
        match read_usize_at(encode_utf8(data@), *old(pos) as int) {
            Some((n, q)) => r == Some(n as usize) && *final(pos) as int == q,
            None => r is None,
        },
{
    let b = data.as_bytes();
    assert(b@ == encode_utf8(data@));
    let semi = match find_byte(b, *pos, 59u8) {
        Some(k) => k,
        None => return None,
    };
    if semi < *pos {
        return None;
    }
    let n = match parse_usize_bytes(b, *pos, semi) {
        Some(n) => n,
        None => return None,
    };
    *pos = semi + 1;
    Some(n)
}

/// In valid UTF-8, a boundary before `end` is still one in the bytes up to
/// `end`.
proof fn lemma_boundary_in_prefix(b: Seq<u8>, start: int, end: int)
    requires
        valid_utf8(b),
        0 <= start <= end <= b.len(),
        is_char_boundary(b, start),
        is_char_boundary(b, end),
    ensures
        is_char_boundary(b.subrange(0, end), start),
{
    let h = b.subrange(0, end);
    valid_utf8_split(b, end);
    is_char_boundary_start_end_of_seq(h);
    if start < end {
        is_char_boundary_iff_not_is_continuation_byte(b, start);
        is_char_boundary_iff_not_is_continuation_byte(h, start);
    }
}

/// Reads a string at `*pos` and moves past it.
fn read_str(data: &str, pos: &mut usize) -> (r: Option<String>)
    ensures
        match read_str_at(encode_utf8(data@), *old(pos) as int) {
            Some((s, q)) => r matches Some(t) && t@ == s && *final(pos) as int == q,
            None => r is None,
        },
{
    let b = data.as_bytes();
    let ghost bs = encode_utf8(data@);
    let colon = match find_byte(b, *pos, 58u8) {
        Some(k) => k,
        None => return None,
    };
    if colon < *pos {
        return None;
    }
    let len = match parse_usize_bytes(b, *pos, colon) {
        Some(n) => n,
        None => return None,
    };
    let start = colon + 1;
    if len > b.len() - start {
        return None;
    }
    let end = start + len;
    if !data.is_char_boundary(start) || !data.is_char_boundary(end) {
        return None;
    }
    proof {
        encode_utf8_valid_utf8(data@);
        lemma_boundary_in_prefix(bs, start as int, end as int);
    }
    let (head, _) = data.split_at(end);
    let (_, field) = head.split_at(start);
    assert(encode_utf8(field@) =~= bs.subrange(start as int, end as int));
    proof {
        encode_utf8_decode_utf8(field@);
    }
    let s = field.to_owned();
    *pos = end;
    Some(s)
}

/// Reads `count` strings at `*pos`.
fn read_strs(data: &str, pos: &mut usize, count: usize) -> (r: Option<Vec<String>>)
    ensures
        match read_strs_at(encode_utf8(data@), *old(pos) as int, count as nat, seq![]) {
            Some((ss, q)) => r matches Some(v) && v.deep_view() == ss && *final(pos) as int == q,
            None => r is None,
        },
{
    let ghost b = encode_utf8(data@);
    let ghost goal = read_strs_at(b, *pos as int, count as nat, seq![]);
    let mut out: Vec<String> = Vec::new();
    let mut j: usize = 0;
    proof {
        assert(out.deep_view() =~= Seq::<Seq<char>>::empty());
    }
    while j < count
        invariant
            b == encode_utf8(data@),
            j <= count,
            read_strs_at(b, *pos as int, (count - j) as nat, out.deep_view()) == goal,
            goal == read_strs_at(b, *old(pos) as int, count as nat, seq![]),
        decreases count - j,
    {
        let ghost before = out.deep_view();
        let s = match read_str(data, pos) {
            Some(s) => s,
            None => return None,
        };
        out.push(s);
        assert(out.deep_view() =~= before.push(s@));
        j = j + 1;
    }
    Some(out)
}

/// Reads one redirection at `*pos`.
fn read_redirect(data: &str, pos: &mut usize) -> (r: Option<Redirection>)
    ensures
        match read_redirect_at(encode_utf8(data@), *old(pos) as int) {
            Some((red, q)) => r matches Some(x) && x.deep_view() == red && *final(pos) as int == q,
            None => r is None,
        },
{
    let descriptor = match read_str(data, pos) {
        Some(s) => s,
        None => return None,
    };
    let redirection_type = match read_str(data, pos) {
        Some(s) => s,
        None => return None,
    };
    let file = match read_str(data, pos) {
        Some(s) => s,
        None => return None,
    };
    let descriptor = match descriptor_from_code(descriptor.as_str()) {
        Some(d) => d,
        None => return None,
    };
    let redirection_type = match redirection_type_from_code(redirection_type.as_str()) {
        Some(t) => t,
        None => return None,
    };
    Some(Redirection { descriptor, redirection_type, file })
}

/// Reads `count` redirections at `*pos`.
fn read_redirects(data: &str, pos: &mut usize, count: usize) -> (r: Option<Vec<Redirection>>)
    ensures
        match read_redirects_at(encode_utf8(data@), *old(pos) as int, count as nat, seq![]) {
            Some((rs, q)) => r matches Some(v) && v.deep_view() == rs && *final(pos) as int == q,
            None => r is None,
        },
{
    let ghost b = encode_utf8(data@);
    let ghost goal = read_redirects_at(b, *pos as int, count as nat, seq![]);
    let mut out: Vec<Redirection> = Vec::new();
    let mut k: usize = 0;
    proof {
        assert(out.deep_view() =~= Seq::<SpecRedirection>::empty());
    }
    while k < count
        invariant
            b == encode_utf8(data@),
            k <= count,
            read_redirects_at(b, *pos as int, (count - k) as nat, out.deep_view()) == goal,
            goal == read_redirects_at(b, *old(pos) as int, count as nat, seq![]),
        decreases count - k,
    {
        let ghost before = out.deep_view();
        let red = match read_redirect(data, pos) {
            Some(x) => x,
            None => return None,
        };
        out.push(red);
        assert(out.deep_view() =~= before.push(red.deep_view()));
        k = k + 1;
    }
    Some(out)
}

/// Reads one command at `*pos`.
fn read_command(data: &str, pos: &mut usize) -> (r: Option<ParsedCommand>)
    ensures
        match read_command_at(encode_utf8(data@), *old(pos) as int) {
            Some((c, q)) => r matches Some(x) && x.deep_view() == c && *final(pos) as int == q,
            None => r is None,
        },
{
    let cmd = match read_str(data, pos) {
        Some(s) => s,
        None => return None,
    };
    let arg_count = match read_usize(data, pos) {
        Some(n) => n,
        None => return None,
    };
    let args = match read_strs(data, pos, arg_count) {
        Some(v) => v,
        None => return None,
    };
    let redirect_count = match read_usize(data, pos) {
        Some(n) => n,
        None => return None,
    };
    let redirects = match read_redirects(data, pos, redirect_count) {
        Some(v) => v,
        None => return None,
    };
    Some(ParsedCommand { cmd, args, redirects })
}

/// Reads a pipeline written by [`encode_pipeline`]; fails on anything that
/// is not such a payload.
pub fn decode_pipeline(data: &str) -> (r: Result<Vec<ParsedCommand>, ShellError>)
    ensures
        match spec_decode(encode_utf8(data@)) {
            Some(cs) => r matches Ok(v) && v.deep_view() == cs,
            None => r matches Err(e) && (e matches ShellError::SyntaxError(m) && m@
                == "malformed internal pipeline payload"@),
        },
{
    let ghost b = encode_utf8(data@);
    let ghost goal = spec_decode(b);
    let mut pos: usize = 0;
    let cmd_count = match read_usize(data, &mut pos) {
        Some(n) => n,
        None => return Err(malformed()),
    };
    let mut cmds: Vec<ParsedCommand> = Vec::new();
    let mut i: usize = 0;
    proof {
        assert(cmds.deep_view() =~= Seq::<SpecCommand>::empty());
    }
    while i < cmd_count
        invariant
            b == encode_utf8(data@),
            i <= cmd_count,
            read_commands_at(b, pos as int, (cmd_count - i) as nat, cmds.deep_view()) == goal,
            goal == spec_decode(b),
        decreases cmd_count - i,
    {
        let ghost before = cmds.deep_view();
        let c = match read_command(data, &mut pos) {
            Some(c) => c,
            None => return Err(malformed()),
        };
        cmds.push(c);
        assert(cmds.deep_view() =~= before.push(c.deep_view()));
        i = i + 1;
    }
    Ok(cmds)
}

/// UTF-8 encodes a concatenation piece by piece.
pub proof fn lemma_encode_append(a: Seq<char>, b: Seq<char>)
    ensures
        encode_utf8(a + b) == encode_utf8(a) + encode_utf8(b),
    decreases a.len(),
{
    if a.len() == 0 {
        assert(a + b =~= b);
        assert(encode_utf8(a) + encode_utf8(b) =~= encode_utf8(b));
    } else {
        assert((a + b).drop_first() =~= a.drop_first() + b);
        assert((a + b)[0] == a[0]);
        lemma_encode_append(a.drop_first(), b);
        assert(encode_utf8(a + b) =~= encode_scalar(a[0] as u32) + (encode_utf8(a.drop_first())
            + encode_utf8(b)));
    }
}

/// The bytes of a decimal numeral: its ASCII digits, worth the number.
proof fn lemma_decimal_bytes(n: nat)
    ensures
        encode_utf8(crate::utils::text::decimal(n)).len() == crate::utils::text::decimal(n).len(),
        crate::utils::text::decimal(n).len() >= 1,
        forall|i: int|
            0 <= i < crate::utils::text::decimal(n).len() ==> is_digit_byte(#[trigger] encode_utf8(crate::utils::text::decimal(n))[i]),
        digits_value(encode_utf8(crate::utils::text::decimal(n))) == n,
    decreases n,
{
    let d = crate::utils::text::digit_char(n % 10);
    let v: u32 = d as u32;
    assert(v == n % 10 + 48);
    assert(v & 0x7F == v) by (bit_vector)
        requires
            v < 58u32,
    ;
    assert(encode_utf8(seq![d]) =~= seq![(n % 10 + 48) as u8]) by {
        assert(seq![d].drop_first() =~= Seq::<char>::empty());
        assert(seq![d][0] == d);
        assert(encode_utf8(Seq::<char>::empty()) =~= Seq::<u8>::empty());
        assert(encode_scalar(v) == seq![leading_byte_width_1(v)]);
        assert(encode_utf8(seq![d]) == encode_scalar(v) + encode_utf8(seq![d].drop_first()));
    }
    if n < 10 {
        assert(crate::utils::text::decimal(n) == seq![d]);
        let e = encode_utf8(crate::utils::text::decimal(n));
        assert(e.drop_last() =~= Seq::<u8>::empty());
        assert(digits_value(e.drop_last()) == 0);
        assert(e.last() == (n + 48) as u8);
        assert(digits_value(e) == digits_value(e.drop_last()) * 10 + (e.last() - 48) as nat);
    } else {
        lemma_decimal_bytes(n / 10);
        let q = crate::utils::text::decimal(n / 10);
        assert(crate::utils::text::decimal(n) == q + seq![d]);
        lemma_encode_append(q, seq![d]);
        let e = encode_utf8(crate::utils::text::decimal(n));
        assert(e.drop_last() =~= encode_utf8(q));
        assert(forall|i: int|
            0 <= i < q.len() ==> #[trigger] e[i] == encode_utf8(q)[i]);
        assert(e.last() == (n % 10 + 48) as u8);
        assert(digits_value(e) == digits_value(e.drop_last()) * 10 + (e.last() - 48) as nat);
        assert(digits_value(e) == (n / 10) * 10 + n % 10);
    }
}

/// The first `x` at or after `p` is at `k` when `b[k]` is `x` and nothing
/// between `p` and `k` is.
proof fn lemma_first_index_at(b: Seq<u8>, p: int, x: u8, k: int)
    requires
        0 <= p <= k < b.len(),
        b[k] == x,
        forall|i: int| p <= i < k ==> b[i] != x,
    ensures
        first_index_of(b, p, x) == Some(k),
    decreases k - p,
{
    if p < k {
        lemma_first_index_at(b, p + 1, x, k);
    }
}

/// In the UTF-8 encoding of `x + y`, the end of `x` is a character boundary.
proof fn lemma_boundary_after(x: Seq<char>, y: Seq<char>)
    ensures
        valid_utf8(encode_utf8(x + y)),
        is_char_boundary(encode_utf8(x + y), byte_len(x) as int),
    decreases x.len(),
{
    encode_utf8_valid_utf8(x + y);
    if x.len() > 0 {
        let xy = x + y;
        let b = encode_utf8(xy);
        encode_utf8_first_scalar(xy);
        assert(xy.drop_first() =~= x.drop_first() + y);
        assert(pop_first_scalar(b) =~= encode_utf8(xy.drop_first()));
        lemma_boundary_after(x.drop_first(), y);
        assert(xy[0] == x[0]);
        assert(byte_len(x) == encode_scalar(x[0] as u32).len() + byte_len(x.drop_first()));
        lemma_encode_append(x, y);
    }
}

/// An ASCII character is encoded as its own code.
proof fn lemma_encode_ascii_char(c: char)
    requires
        (c as u32) < 128,
    ensures
        encode_utf8(seq![c]) == seq![(c as u32) as u8],
{
    let v: u32 = c as u32;
    assert(v & 0x7F == v) by (bit_vector)
        requires
            v < 128u32,
    ;
    assert(seq![c].drop_first() =~= Seq::<char>::empty());
    assert(seq![c][0] == c);
    assert(encode_utf8(Seq::<char>::empty()) =~= Seq::<u8>::empty());
    assert(encode_scalar(v) == seq![leading_byte_width_1(v)]);
    assert(encode_utf8(seq![c]) == encode_scalar(v) + encode_utf8(seq![c].drop_first()));
    assert(encode_utf8(seq![c]) =~= seq![v as u8]);
}

/// A count written after `pre` reads back, and reading goes on right after it.
proof fn lemma_read_usize(pre: Seq<char>, n: nat, post: Seq<char>)
    requires
        n <= usize::MAX,
    ensures
        read_usize_at(encode_utf8(pre + enc_usize(n) + post), byte_len(pre) as int) == Some(
            (n, byte_len(pre + enc_usize(n)) as int),
        ),
{
    let d = crate::utils::text::decimal(n);
    let e = encode_utf8(d);
    lemma_decimal_bytes(n);
    lemma_encode_ascii_char(';');
    lemma_encode_append(d, seq![';']);
    lemma_encode_append(pre, enc_usize(n));
    lemma_encode_append(pre + enc_usize(n), post);
    let b = encode_utf8(pre + enc_usize(n) + post);
    let p = byte_len(pre) as int;
    let k = p + e.len();
    assert(encode_utf8(enc_usize(n)) =~= e + seq![59u8]);
    assert(b =~= encode_utf8(pre) + e + seq![59u8] + encode_utf8(post));
    assert forall|i: int| p <= i < k implies b[i] != 59u8 by {
        assert(b[i] == e[i - p]);
        assert(is_digit_byte(e[i - p]));
    }
    lemma_first_index_at(b, p, 59u8, k);
    assert(b.subrange(p, k) =~= e);
    assert(is_digit_byte(e[0]));
    assert(unsigned_digits(e) == e);
}

/// A string written after `pre` reads back, and reading goes on right after
/// it.
proof fn lemma_read_str(pre: Seq<char>, s: Seq<char>, post: Seq<char>)
    requires
        byte_len(s) <= usize::MAX,
    ensures
        read_str_at(encode_utf8(pre + enc_str(s) + post), byte_len(pre) as int) == Some(
            (s, byte_len(pre + enc_str(s)) as int),
        ),
{
    let m = byte_len(s);
    let d = crate::utils::text::decimal(m);
    let e = encode_utf8(d);
    lemma_decimal_bytes(m);
    lemma_encode_ascii_char(':');
    let x = pre + d + seq![':'];
    let whole = pre + enc_str(s) + post;
    assert(whole =~= x + (s + post));
    assert(whole =~= (x + s) + post);
    assert(x + s =~= pre + enc_str(s));
    lemma_encode_append(pre, d);
    lemma_encode_append(pre + d, seq![':']);
    lemma_encode_append(x, s + post);
    lemma_encode_append(s, post);
    lemma_encode_append(x, s);
    lemma_boundary_after(x, s + post);
    lemma_boundary_after(x + s, post);
    encode_utf8_decode_utf8(s);
    let b = encode_utf8(whole);
    let p = byte_len(pre) as int;
    let k = p + e.len();
    assert(encode_utf8(x) =~= encode_utf8(pre) + e + seq![58u8]);
    assert(b =~= encode_utf8(pre) + e + seq![58u8] + encode_utf8(s) + encode_utf8(post));
    assert forall|i: int| p <= i < k implies b[i] != 58u8 by {
        assert(b[i] == e[i - p]);
        assert(is_digit_byte(e[i - p]));
    }
    lemma_first_index_at(b, p, 58u8, k);
    assert(b.subrange(p, k) =~= e);
    assert(is_digit_byte(e[0]));
    assert(unsigned_digits(e) == e);
    assert(b.subrange(k + 1, k + 1 + m) =~= encode_utf8(s));
}

proof fn lemma_enc_strs_first(ss: Seq<Seq<char>>)
    requires
        ss.len() > 0,
    ensures
        enc_strs(ss) == enc_str(ss[0]) + enc_strs(ss.drop_first()),
    decreases ss.len(),
{
    if ss.len() == 1 {
        assert(ss.drop_last() =~= Seq::<Seq<char>>::empty());
        assert(ss.drop_first() =~= Seq::<Seq<char>>::empty());
        assert(enc_strs(ss) =~= enc_str(ss[0]) + enc_strs(ss.drop_first()));
    } else {
        lemma_enc_strs_first(ss.drop_last());
        assert(ss.drop_last().drop_first() =~= ss.drop_first().drop_last());
        assert(ss.drop_last()[0] == ss[0]);
        assert(ss.drop_first().last() == ss.last());
        assert(enc_strs(ss) =~= enc_str(ss[0]) + enc_strs(ss.drop_first()));
    }
}

proof fn lemma_enc_redirects_first(rs: Seq<SpecRedirection>)
    requires
        rs.len() > 0,
    ensures
        enc_redirects(rs) == enc_redirect(rs[0]) + enc_redirects(rs.drop_first()),
    decreases rs.len(),
{
    if rs.len() == 1 {
        assert(rs.drop_last() =~= Seq::<SpecRedirection>::empty());
        assert(rs.drop_first() =~= Seq::<SpecRedirection>::empty());
        assert(enc_redirects(rs) =~= enc_redirect(rs[0]) + enc_redirects(rs.drop_first()));
    } else {
        lemma_enc_redirects_first(rs.drop_last());
        assert(rs.drop_last().drop_first() =~= rs.drop_first().drop_last());
        assert(rs.drop_last()[0] == rs[0]);
        assert(rs.drop_first().last() == rs.last());
        assert(enc_redirects(rs) =~= enc_redirect(rs[0]) + enc_redirects(rs.drop_first()));
    }
}

proof fn lemma_enc_commands_first(cs: Seq<SpecCommand>)
    requires
        cs.len() > 0,
    ensures
        enc_commands(cs) == enc_command(cs[0]) + enc_commands(cs.drop_first()),
    decreases cs.len(),
{
    if cs.len() == 1 {
        assert(cs.drop_last() =~= Seq::<SpecCommand>::empty());
        assert(cs.drop_first() =~= Seq::<SpecCommand>::empty());
        assert(enc_commands(cs) =~= enc_command(cs[0]) + enc_commands(cs.drop_first()));
    } else {
        lemma_enc_commands_first(cs.drop_last());
        assert(cs.drop_last().drop_first() =~= cs.drop_first().drop_last());
        assert(cs.drop_last()[0] == cs[0]);
        assert(cs.drop_first().last() == cs.last());
        assert(enc_commands(cs) =~= enc_command(cs[0]) + enc_commands(cs.drop_first()));
    }
}

/// Strings written one after the other after `pre` read back in order.
proof fn lemma_read_strs(pre: Seq<char>, ss: Seq<Seq<char>>, post: Seq<char>, acc: Seq<Seq<char>>)
    requires
        forall|i: int| 0 <= i < ss.len() ==> byte_len(#[trigger] ss[i]) <= usize::MAX,
    ensures
        read_strs_at(
            encode_utf8(pre + enc_strs(ss) + post),
            byte_len(pre) as int,
            ss.len(),
            acc,
        ) == Some((acc + ss, byte_len(pre + enc_strs(ss)) as int)),
    decreases ss.len(),
{
    if ss.len() == 0 {
        assert(pre + enc_strs(ss) =~= pre);
        assert(acc + ss =~= acc);
    } else {
        lemma_enc_strs_first(ss);
        let rest = ss.drop_first();
        let pre2 = pre + enc_str(ss[0]);
        assert(pre + enc_strs(ss) + post =~= pre + enc_str(ss[0]) + (enc_strs(rest) + post));
        assert(pre + enc_strs(ss) + post =~= pre2 + enc_strs(rest) + post);
        assert(pre + enc_strs(ss) =~= pre2 + enc_strs(rest));
        assert(byte_len(ss[0]) <= usize::MAX);
        lemma_read_str(pre, ss[0], enc_strs(rest) + post);
        assert forall|i: int| 0 <= i < rest.len() implies byte_len(#[trigger] rest[i]) <= usize::MAX by {
            assert(rest[i] == ss[i + 1]);
        }
        lemma_read_strs(pre2, rest, post, acc.push(ss[0]));
        assert(acc.push(ss[0]) + rest =~= acc + ss);
    }
}

/// The codes of descriptors and types are short and name them back.
proof fn lemma_codes(d: Descriptor, t: RedirectionType)
    ensures
        byte_len(spec_descriptor_code(d)) <= 4,
        byte_len(spec_type_code(t)) <= 24,
        spec_descriptor_from_code(spec_descriptor_code(d)) == Some(d),
        spec_type_from_code(spec_type_code(t)) == Some(t),
{
    reveal_strlit("0");
    reveal_strlit("1");
    reveal_strlit("2");
    reveal_strlit("Input");
    reveal_strlit("Output");
    reveal_strlit("Append");
    lemma_byte_len_bound(spec_descriptor_code(d));
    lemma_byte_len_bound(spec_type_code(t));
}

/// A redirection written after `pre` reads back.
proof fn lemma_read_redirect(pre: Seq<char>, r: SpecRedirection, post: Seq<char>)
    requires
        byte_len(r.file) <= usize::MAX,
    ensures
        read_redirect_at(encode_utf8(pre + enc_redirect(r) + post), byte_len(pre) as int)
            == Some((r, byte_len(pre + enc_redirect(r)) as int)),
{
    let dc = spec_descriptor_code(r.descriptor);
    let tc = spec_type_code(r.redirection_type);
    lemma_codes(r.descriptor, r.redirection_type);
    let whole = pre + enc_redirect(r) + post;
    let p1 = pre + enc_str(dc);
    let p2 = p1 + enc_str(tc);
    let p3 = p2 + enc_str(r.file);
    assert(whole =~= pre + enc_str(dc) + (enc_str(tc) + enc_str(r.file) + post));
    assert(whole =~= p1 + enc_str(tc) + (enc_str(r.file) + post));
    assert(whole =~= p2 + enc_str(r.file) + post);
    assert(p3 =~= pre + enc_redirect(r));
    lemma_read_str(pre, dc, enc_str(tc) + enc_str(r.file) + post);
    lemma_read_str(p1, tc, enc_str(r.file) + post);
    lemma_read_str(p2, r.file, post);
}

/// Redirections written one after the other after `pre` read back in order.
proof fn lemma_read_redirects(pre: Seq<char>, rs: Seq<SpecRedirection>, post: Seq<char>, acc: Seq<SpecRedirection>)
    requires
        forall|i: int| 0 <= i < rs.len() ==> byte_len(#[trigger] rs[i].file) <= usize::MAX,
    ensures
        read_redirects_at(
            encode_utf8(pre + enc_redirects(rs) + post),
            byte_len(pre) as int,
            rs.len(),
            acc,
        ) == Some((acc + rs, byte_len(pre + enc_redirects(rs)) as int)),
    decreases rs.len(),
{
    if rs.len() == 0 {
        assert(pre + enc_redirects(rs) =~= pre);
        assert(acc + rs =~= acc);
    } else {
        lemma_enc_redirects_first(rs);
        let rest = rs.drop_first();
        let pre2 = pre + enc_redirect(rs[0]);
        assert(pre + enc_redirects(rs) + post =~= pre + enc_redirect(rs[0]) + (enc_redirects(rest) + post));
        assert(pre + enc_redirects(rs) + post =~= pre2 + enc_redirects(rest) + post);
        assert(pre + enc_redirects(rs) =~= pre2 + enc_redirects(rest));
        assert(byte_len(rs[0].file) <= usize::MAX);
        lemma_read_redirect(pre, rs[0], enc_redirects(rest) + post);
        assert forall|i: int| 0 <= i < rest.len() implies byte_len(#[trigger] rest[i].file) <= usize::MAX by {
            assert(rest[i] == rs[i + 1]);
        }
        lemma_read_redirects(pre2, rest, post, acc.push(rs[0]));
        assert(acc.push(rs[0]) + rest =~= acc + rs);
    }
}

/// Each string of a command fits, and so do its counts.
pub open spec fn command_roundtrips(c: SpecCommand) -> bool {
    &&& command_fits(c)
    &&& c.args.len() <= usize::MAX
    &&& c.redirects.len() <= usize::MAX
}

/// A command written after `pre` reads back.
proof fn lemma_read_command(pre: Seq<char>, c: SpecCommand, post: Seq<char>)
    requires
        command_roundtrips(c),
    ensures
        read_command_at(encode_utf8(pre + enc_command(c) + post), byte_len(pre) as int) == Some(
            (c, byte_len(pre + enc_command(c)) as int),
        ),
{
    let whole = pre + enc_command(c) + post;
    let p1 = pre + enc_str(c.cmd);
    let p2 = p1 + enc_usize(c.args.len());
    let p3 = p2 + enc_strs(c.args);
    let p4 = p3 + enc_usize(c.redirects.len());
    let p5 = p4 + enc_redirects(c.redirects);
    assert(p5 =~= pre + enc_command(c));
    assert(whole =~= pre + enc_str(c.cmd) + (enc_usize(c.args.len()) + enc_strs(c.args) + enc_usize(c.redirects.len()) + enc_redirects(c.redirects) + post));
    assert(whole =~= p1 + enc_usize(c.args.len()) + (enc_strs(c.args) + enc_usize(c.redirects.len()) + enc_redirects(c.redirects) + post));
    assert(whole =~= p2 + enc_strs(c.args) + (enc_usize(c.redirects.len()) + enc_redirects(c.redirects) + post));
    assert(whole =~= p3 + enc_usize(c.redirects.len()) + (enc_redirects(c.redirects) + post));
    assert(whole =~= p4 + enc_redirects(c.redirects) + post);
    lemma_read_str(pre, c.cmd, enc_usize(c.args.len()) + enc_strs(c.args) + enc_usize(c.redirects.len()) + enc_redirects(c.redirects) + post);
    lemma_read_usize(p1, c.args.len(), enc_strs(c.args) + enc_usize(c.redirects.len()) + enc_redirects(c.redirects) + post);
    lemma_read_strs(p2, c.args, enc_usize(c.redirects.len()) + enc_redirects(c.redirects) + post, seq![]);
    lemma_read_usize(p3, c.redirects.len(), enc_redirects(c.redirects) + post);
    lemma_read_redirects(p4, c.redirects, post, seq![]);
    assert(Seq::<Seq<char>>::empty() + c.args =~= c.args);
    assert(Seq::<SpecRedirection>::empty() + c.redirects =~= c.redirects);
}

/// Commands written one after the other after `pre` read back in order.
proof fn lemma_read_commands(pre: Seq<char>, cs: Seq<SpecCommand>, acc: Seq<SpecCommand>)
    requires
        forall|i: int| 0 <= i < cs.len() ==> command_roundtrips(#[trigger] cs[i]),
    ensures
        read_commands_at(encode_utf8(pre + enc_commands(cs)), byte_len(pre) as int, cs.len(), acc)
            == Some(acc + cs),
    decreases cs.len(),
{
    if cs.len() == 0 {
        assert(acc + cs =~= acc);
    } else {
        lemma_enc_commands_first(cs);
        let rest = cs.drop_first();
        let pre2 = pre + enc_command(cs[0]);
        assert(pre + enc_commands(cs) =~= pre + enc_command(cs[0]) + enc_commands(rest));
        assert(pre + enc_commands(cs) =~= pre2 + enc_commands(rest));
        assert(command_roundtrips(cs[0]));
        lemma_read_command(pre, cs[0], enc_commands(rest));
        assert forall|i: int| 0 <= i < rest.len() implies command_roundtrips(#[trigger] rest[i]) by {
            assert(rest[i] == cs[i + 1]);
        }
        lemma_read_commands(pre2, rest, acc.push(cs[0]));
        assert(acc.push(cs[0]) + rest =~= acc + cs);
    }
}

/// Decoding what [`encode_pipeline`] wrote gives back the same pipeline:
/// every command name, argument (whatever characters it holds, `|`, `:` and
/// `;` included) and redirection, in order.
pub proof fn lemma_decode_encode_roundtrip(cs: Seq<SpecCommand>)
    requires
        cs.len() <= usize::MAX,
        forall|i: int| 0 <= i < cs.len() ==> command_roundtrips(#[trigger] cs[i]),
    ensures
        spec_decode(encode_utf8(spec_encode(cs))) == Some(cs),
{
    let e = spec_encode(cs);
    let empty = Seq::<char>::empty();
    assert(e =~= empty + enc_usize(cs.len()) + enc_commands(cs));
    assert(byte_len(empty) == 0);
    lemma_read_usize(empty, cs.len(), enc_commands(cs));
    assert(empty + enc_usize(cs.len()) =~= enc_usize(cs.len()));
    lemma_read_commands(enc_usize(cs.len()), cs, seq![]);
    assert(Seq::<SpecCommand>::empty() + cs =~= cs);
}

} // verus!
