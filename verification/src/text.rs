//! Byte positions in UTF-8 text.
//!
//! A `str` holds the UTF-8 encoding of its characters; cursor positions in the
//! editor are byte offsets into that encoding.  This module relates byte
//! offsets to character indices: `byte_offset(s, k)` is where character `k`
//! starts, a *boundary* is such an offset (or the end of the text), and
//! `char_index_at(s, p)` is the character that holds byte `p`.
use vstd::prelude::*;
use vstd::utf8::*;

verus! {

broadcast use vstd::utf8::encode_utf8_valid_utf8, vstd::utf8::encode_utf8_decode_utf8;

/// Length in bytes of the UTF-8 encoding of `s`.
pub open spec fn byte_len(s: Seq<char>) -> nat {
    encode_utf8(s).len()
}

/// Byte offset at which character `k` of `s` starts (the length of the
/// encoding of the first `k` characters).
pub open spec fn byte_offset(s: Seq<char>, k: int) -> nat {
    encode_utf8(s.take(k)).len()
}

/// Number of bytes that `c` takes in UTF-8.
pub open spec fn char_width(c: char) -> nat {
    encode_scalar(c as u32).len()
}

/// Byte position `p` is a character boundary of `s`: the start of a
/// character, or the end of the text.
pub open spec fn is_boundary(s: Seq<char>, p: int) -> bool {
    exists|k: int| 0 <= k <= s.len() && #[trigger] byte_offset(s, k) == p
}

/// The index of the character of `s` that holds byte `p`: the largest `k`
/// whose start offset is at most `p` (the character count when `p` is at or
/// past the end).
pub open spec fn char_index_at(s: Seq<char>, p: int) -> int
    decreases s.len(),
{
    if s.len() == 0 {
        0
    } else if byte_len(s) <= p {
        s.len() as int
    } else {
        char_index_at(s.drop_last(), p)
    }
}

/// Width of a character, read off the leading byte of its UTF-8 encoding.
pub open spec fn lead_width(b: u8) -> nat {
    if b < 0x80 {
        1
    } else if b < 0xe0 {
        2
    } else if b < 0xf0 {
        3
    } else {
        4
    }
}

/// Encoding distributes over concatenation.
pub proof fn lemma_encode_add(a: Seq<char>, b: Seq<char>)
    ensures
        encode_utf8(a + b) == encode_utf8(a) + encode_utf8(b),
    decreases a.len(),
{
    if a.len() == 0 {
        assert(a + b =~= b);
        assert(encode_utf8(a) =~= Seq::<u8>::empty());
        assert(encode_utf8(a) + encode_utf8(b) =~= encode_utf8(b));
    } else {
        lemma_encode_add(a.drop_first(), b);
        assert((a + b).drop_first() =~= a.drop_first() + b);
        assert((a + b)[0] == a[0]);
        assert(encode_utf8(a + b) =~= encode_utf8(a) + encode_utf8(b));
    }
}

/// The encoding of one character is its scalar encoding.
pub proof fn lemma_encode_single(c: char)
    ensures
        encode_utf8(seq![c]) == encode_scalar(c as u32),
{
    let s = seq![c];
    assert(s.drop_first() =~= Seq::<char>::empty());
    assert(encode_utf8(s.drop_first()) =~= Seq::<u8>::empty());
    assert(encode_utf8(s) =~= encode_scalar(c as u32));
}

/// A character takes between one and four bytes.
pub proof fn lemma_char_width_bounds(c: char)
    ensures
        1 <= char_width(c) <= 4,
{
}

/// The offset of the next character is the current offset plus its width.
pub proof fn lemma_offset_step(s: Seq<char>, k: int)
    requires
        0 <= k < s.len(),
    ensures
        byte_offset(s, k + 1) == byte_offset(s, k) + char_width(s[k]),
{
    assert(s.take(k + 1) =~= s.take(k) + seq![s[k]]);
    lemma_encode_add(s.take(k), seq![s[k]]);
    lemma_encode_single(s[k]);
}

/// Offsets grow by at least one per character.
pub proof fn lemma_offset_mono(s: Seq<char>, i: int, j: int)
    requires
        0 <= i <= j <= s.len(),
    ensures
        byte_offset(s, i) + (j - i) <= byte_offset(s, j),
    decreases j - i,
{
    if i < j {
        lemma_offset_mono(s, i, j - 1);
        lemma_offset_step(s, j - 1);
        lemma_char_width_bounds(s[j - 1]);
    }
}

/// The first offset is zero and the last is the byte length.
pub proof fn lemma_offset_ends(s: Seq<char>)
    ensures
        byte_offset(s, 0) == 0,
        byte_offset(s, s.len() as int) == byte_len(s),
{
    assert(s.take(0) =~= Seq::<char>::empty());
    assert(encode_utf8(s.take(0)) =~= Seq::<u8>::empty());
    assert(s.take(s.len() as int) =~= s);
}

/// Every offset lies within the text, and offsets of distinct characters differ.
pub proof fn lemma_offset_range(s: Seq<char>, k: int)
    requires
        0 <= k <= s.len(),
    ensures
        k <= byte_offset(s, k) <= byte_len(s),
        k < s.len() ==> byte_offset(s, k) < byte_len(s),
{
    lemma_offset_ends(s);
    lemma_offset_mono(s, 0, k);
    lemma_offset_mono(s, k, s.len() as int);
}

/// The encoding splits at a character offset.
pub proof fn lemma_split(s: Seq<char>, k: int)
    requires
        0 <= k <= s.len(),
    ensures
        encode_utf8(s) == encode_utf8(s.take(k)) + encode_utf8(s.skip(k)),
{
    assert(s =~= s.take(k) + s.skip(k));
    lemma_encode_add(s.take(k), s.skip(k));
}

/// The byte at the start of character `k` tells its width, and it is a
/// newline byte exactly when the character is a newline.
pub proof fn lemma_lead_byte(s: Seq<char>, k: int)
    requires
        0 <= k < s.len(),
    ensures
        byte_offset(s, k) < byte_len(s),
        lead_width(encode_utf8(s)[byte_offset(s, k) as int]) == char_width(s[k]),
        (encode_utf8(s)[byte_offset(s, k) as int] == 10u8) == (s[k] == '\n'),
{
    lemma_offset_range(s, k);
    lemma_split(s, k);
    let t = s.skip(k);
    assert(t[0] == s[k]);
    encode_utf8_first_scalar(t);
    let bt = encode_utf8(t);
    let b0 = bt[0];
    assert(encode_utf8(s)[byte_offset(s, k) as int] == b0);
    if s[k] == '\n' {
        let v: u32 = 10;
        assert('\n' as u32 == v);
        assert(leading_byte_width_1(v) == 10u8) by (bit_vector)
            requires v == 10u32;
        assert(b0 == 10u8);
    }
    if b0 == 10u8 {
        assert(codepoint_width_1(b0) == 10u32) by (bit_vector)
            requires b0 == 10u8;
        assert(t[0] as u32 == 10u32);
        char_u32_cast(t[0], 10u32);
        char_u32_cast('\n', 10u32);
    }
}

/// Offsets in `s` and in `s` without its last character agree.
proof fn lemma_offset_drop_last(s: Seq<char>, k: int)
    requires
        s.len() > 0,
        0 <= k < s.len(),
    ensures
        byte_offset(s.drop_last(), k) == byte_offset(s, k),
{
    assert(s.drop_last().take(k) =~= s.take(k));
}

/// Offsets in `s` and in `s` without its first character differ by the width
/// of that character.
proof fn lemma_offset_drop_first(s: Seq<char>, k: int)
    requires
        s.len() > 0,
        0 <= k < s.len(),
    ensures
        byte_offset(s, k + 1) == char_width(s[0]) + byte_offset(s.drop_first(), k),
{
    assert(s.take(k + 1) =~= seq![s[0]] + s.drop_first().take(k));
    lemma_encode_add(seq![s[0]], s.drop_first().take(k));
    lemma_encode_single(s[0]);
}

/// Boundaries in the sense of `vstd`'s UTF-8 library are exactly the
/// character offsets.
pub proof fn lemma_boundary_link(s: Seq<char>, p: int)
    ensures
        is_char_boundary(encode_utf8(s), p) <==> is_boundary(s, p),
    decreases s.len(),
{
    let b = encode_utf8(s);
    lemma_offset_ends(s);
    if p == 0 {
        assert(byte_offset(s, 0) == p);
    } else if p < 0 || b.len() < p {
        if is_boundary(s, p) {
            let k = choose|k: int| 0 <= k <= s.len() && #[trigger] byte_offset(s, k) == p;
            lemma_offset_range(s, k);
        }
    } else {
        // 0 < p <= b.len(), so the text is not empty
        assert(s.len() > 0);
        let t = s.drop_first();
        encode_utf8_first_scalar(s);
        let w = length_of_first_scalar(b);
        assert(pop_first_scalar(b) =~= encode_utf8(t)) by {
            lemma_split(s, 1);
            assert(s.skip(1) =~= t);
            assert(s.take(1) =~= seq![s[0]]);
            lemma_encode_single(s[0]);
        }
        lemma_boundary_link(t, p - w);
        assert(w == char_width(s[0]));
        if is_boundary(s, p) {
            let k = choose|k: int| 0 <= k <= s.len() && #[trigger] byte_offset(s, k) == p;
            assert(k != 0);
            lemma_offset_drop_first(s, k - 1);
            assert(byte_offset(t, k - 1) == p - w);
            assert(is_boundary(t, p - w));
        }
        if is_boundary(t, p - w) {
            let j = choose|j: int| 0 <= j <= t.len() && #[trigger] byte_offset(t, j) == p - w;
            lemma_offset_drop_first(s, j);
            assert(byte_offset(s, j + 1) == p);
        }
    }
}

/// The character that holds byte `p` starts at or before `p`, and the next
/// one starts after `p`.
pub proof fn lemma_char_index_at(s: Seq<char>, p: int)
    requires
        p >= 0,
    ensures
        0 <= char_index_at(s, p) <= s.len(),
        byte_offset(s, char_index_at(s, p)) <= p,
        char_index_at(s, p) < s.len() ==> p < byte_offset(s, char_index_at(s, p) + 1),
    decreases s.len(),
{
    lemma_offset_ends(s);
    if s.len() == 0 {
    } else if byte_len(s) <= p {
    } else {
        let t = s.drop_last();
        lemma_char_index_at(t, p);
        let k = char_index_at(t, p);
        assert(k == char_index_at(s, p));
        if k < t.len() {
            lemma_offset_drop_last(s, k);
            lemma_offset_drop_last(s, k + 1);
        } else {
            assert(t.take(k) =~= s.take(k));
        }
    }
}

/// A character index that starts at or before `p`, followed by one that
/// starts after `p`, is the character that holds `p`.
pub proof fn lemma_char_index_unique(s: Seq<char>, p: int, k: int)
    requires
        0 <= k <= s.len(),
        byte_offset(s, k) <= p,
        k < s.len() ==> p < byte_offset(s, k + 1),
    ensures
        char_index_at(s, p) == k,
{
    lemma_offset_ends(s);
    lemma_char_index_at(s, p);
    let j = char_index_at(s, p);
    if j < k {
        lemma_offset_mono(s, j + 1, k);
    }
    if k < j {
        lemma_offset_mono(s, k + 1, j);
    }
}

/// Every character offset is the start of that character.
pub proof fn lemma_char_index_of_offset(s: Seq<char>, k: int)
    requires
        0 <= k <= s.len(),
    ensures
        char_index_at(s, byte_offset(s, k) as int) == k,
{
    if k < s.len() {
        lemma_offset_step(s, k);
        lemma_char_width_bounds(s[k]);
    }
    lemma_char_index_unique(s, byte_offset(s, k) as int, k);
}

/// Width of the character whose leading byte is `b`.
pub fn lead_byte_width(b: u8) -> (w: usize)
    ensures
        w == lead_width(b),
{
    if b < 0x80 {
        1
    } else if b < 0xe0 {
        2
    } else if b < 0xf0 {
        3
    } else {
        4
    }
}

/// Number of bytes that `c` takes in UTF-8.
pub fn utf8_width(c: char) -> (w: usize)
    ensures
        w == char_width(c),
{
    let v = c as u32;
    proof {
        char_is_scalar(c);
    }
    if v < 0x80 {
        1
    } else if v < 0x800 {
        2
    } else if v < 0x10000 {
        3
    } else {
        4
    }
}

/// Start of the character after the one that starts at byte `p`.
pub(crate) fn next_char_start(bytes: &[u8], p: usize, Ghost(s): Ghost<Seq<char>>, Ghost(k): Ghost<int>) -> (q: usize)
    requires
        bytes@ == encode_utf8(s),
        0 <= k < s.len(),
        p == byte_offset(s, k),
    ensures
        q == byte_offset(s, k + 1),
        q <= bytes@.len(),
{
    proof {
        lemma_lead_byte(s, k);
        lemma_offset_step(s, k);
        lemma_offset_range(s, k + 1);
    }
    let w = lead_byte_width(bytes[p]);
    p + w
}

/// Whether the character that starts at byte `p` is a newline.
pub(crate) fn newline_at(bytes: &[u8], p: usize, Ghost(s): Ghost<Seq<char>>, Ghost(k): Ghost<int>) -> (b: bool)
    requires
        bytes@ == encode_utf8(s),
        0 <= k < s.len(),
        p == byte_offset(s, k),
    ensures
        b == (s[k] == '\n'),
{
    proof {
        lemma_lead_byte(s, k);
    }
    bytes[p] == 10u8
}

} // verus!
