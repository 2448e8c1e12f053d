use vstd::prelude::*;
use vstd::utf8::*;

verus! {

broadcast use vstd::utf8::char_is_scalar;

/// The number of bytes of the UTF-8 encoding of the first `k` characters of
/// `s`: the byte position at which character `k` starts.
pub open spec fn byte_offset(s: Seq<char>, k: int) -> nat {
    encode_utf8(s.take(k)).len()
}

/// `pos` is the byte position at which some character of `s` starts (or the
/// end of `s`).
pub open spec fn is_char_boundary_of(s: Seq<char>, pos: int) -> bool {
    exists|k: int| 0 <= k <= s.len() && #[trigger] byte_offset(s, k) == pos
}

/// The index of the character that starts at byte position `pos`.
pub open spec fn char_index_at(s: Seq<char>, pos: int) -> int {
    choose|k: int| 0 <= k <= s.len() && #[trigger] byte_offset(s, k) == pos
}

/// Encoding one more character appends its encoding.
pub proof fn lemma_encode_push(s: Seq<char>, c: char)
    ensures
        encode_utf8(s.push(c)) == encode_utf8(s) + encode_scalar(c as u32),
    decreases s.len(),
{
    if s.len() == 0 {
        assert(s.push(c).drop_first() =~= Seq::<char>::empty());
        assert(encode_utf8(Seq::<char>::empty()) =~= Seq::<u8>::empty());
        assert(encode_utf8(s.push(c)) =~= encode_scalar(c as u32));
        assert(encode_utf8(s) =~= Seq::<u8>::empty());
        assert(encode_utf8(s) + encode_scalar(c as u32) =~= encode_scalar(c as u32));
    } else {
        lemma_encode_push(s.drop_first(), c);
        assert(s.push(c).drop_first() =~= s.drop_first().push(c));
        assert(encode_utf8(s.push(c)) =~= encode_scalar(s[0] as u32) + encode_utf8(s.drop_first().push(c)));
    }
}

/// Every character takes between one and four bytes.
pub proof fn lemma_scalar_width(c: char)
    ensures
        1 <= encode_scalar(c as u32).len() <= 4,
{
}

/// The byte position of character `k + 1` is that of character `k` plus the
/// width of character `k`.
pub proof fn lemma_offset_step(s: Seq<char>, k: int)
    requires
        0 <= k < s.len(),
    ensures
        byte_offset(s, k + 1) == byte_offset(s, k) + encode_scalar(s[k] as u32).len(),
{
    assert(s.take(k + 1) =~= s.take(k).push(s[k]));
    lemma_encode_push(s.take(k), s[k]);
}

/// Byte positions strictly increase with character positions.
pub proof fn lemma_offset_increasing(s: Seq<char>, i: int, j: int)
    requires
        0 <= i < j <= s.len(),
    ensures
        byte_offset(s, i) < byte_offset(s, j),
    decreases j - i,
{
    lemma_offset_step(s, j - 1);
    lemma_scalar_width(s[j - 1]);
    if i < j - 1 {
        lemma_offset_increasing(s, i, j - 1);
    }
}

/// The number of bytes `c` takes in UTF-8.
pub fn char_width(c: char) -> (w: usize)
    ensures
        w == encode_scalar(c as u32).len(),
        1 <= w <= 4,
{
    let u = c as u32;
    if u <= 0x7F {
        1
    } else if u <= 0x7FF {
        2
    } else if u <= 0xFFFF {
        3
    } else {
        4
    }
}

/// The index of the character of `chars` that starts at byte position `pos`.
pub fn char_index_of_byte(chars: &Vec<char>, pos: usize) -> (k: usize)
    requires
        is_char_boundary_of(chars@, pos as int),
    ensures
        k == char_index_at(chars@, pos as int),
        k <= chars.len(),
        byte_offset(chars@, k as int) == pos,
{
    let ghost s = chars@;
    let ghost target = char_index_at(s, pos as int);
    let mut i: usize = 0;
    let mut offset: usize = 0;
    assert(s.take(0) =~= Seq::<char>::empty());
    assert(encode_utf8(Seq::<char>::empty()) =~= Seq::<u8>::empty());
    while offset < pos
        invariant
            s == chars@,
            0 <= target <= s.len(),
            byte_offset(s, target) == pos,
            i <= target,
            offset as int == byte_offset(s, i as int),
            offset <= pos,
        decreases pos - offset,
    {
        proof {
            assert(i != target);
            assert(i < target);
            assert(target <= chars.len());
            lemma_offset_step(s, i as int);
            if i + 1 < target {
                lemma_offset_increasing(s, i + 1, target);
            }
        }
        offset = offset + char_width(chars[i]);
        i = i + 1;
    }
    proof {
        if i < target {
            lemma_offset_increasing(s, i as int, target);
        }
    }
    i
}

/// The byte position at which character `k` of `chars` starts.
pub fn byte_offset_of(chars: &Vec<char>, k: usize) -> (pos: usize)
    requires
        k <= chars.len(),
        byte_offset(chars@, k as int) <= usize::MAX,
    ensures
        pos == byte_offset(chars@, k as int),
{
    let ghost s = chars@;
    let mut i: usize = 0;
    let mut offset: usize = 0;
    assert(s.take(0) =~= Seq::<char>::empty());
    assert(encode_utf8(Seq::<char>::empty()) =~= Seq::<u8>::empty());
    while i < k
        invariant
            s == chars@,
            k <= s.len(),
            byte_offset(s, k as int) <= usize::MAX,
            i <= k,
            offset as int == byte_offset(s, i as int),
        decreases k - i,
    {
        proof {
            lemma_offset_step(s, i as int);
            if i + 1 < k {
                lemma_offset_increasing(s, i + 1, k as int);
            }
        }
        offset = offset + char_width(chars[i]);
        i = i + 1;
    }
    offset
}

} // verus!
