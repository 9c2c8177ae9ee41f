//! Cursor movement and editing in a text buffer.
//!
//! The cursor is a byte offset into the buffer's UTF-8 encoding.  A cursor
//! that does not fall on a character boundary is read as the character that
//! holds it (see `char_index_at`).
use vstd::prelude::*;
use vstd::math::min;
use vstd::utf8::*;
use crate::text::{
    byte_len, byte_offset, char_index_at, char_width, is_boundary, lemma_boundary_link,
    lemma_char_index_at, lemma_char_index_of_offset, lemma_char_index_unique, lemma_encode_add,
    lemma_encode_single, lemma_offset_ends, lemma_offset_mono, lemma_offset_range, newline_at,
    lemma_char_width_bounds,
    next_char_start, utf8_width,
};

verus! {

broadcast use vstd::utf8::encode_utf8_valid_utf8, vstd::utf8::encode_utf8_decode_utf8;

/// Number of newlines among the first `k` characters of `s`: the line that
/// character `k` is on, counting from zero.
pub open spec fn newlines_before(s: Seq<char>, k: int) -> nat
    decreases k,
{
    if k <= 0 {
        0
    } else {
        newlines_before(s, k - 1) + if s[k - 1] == '\n' {
            1nat
        } else {
            0nat
        }
    }
}

/// Index of the first character of the line that holds character `k`.
pub open spec fn line_begin(s: Seq<char>, k: int) -> int
    decreases k,
{
    if k <= 0 {
        0
    } else if s[k - 1] == '\n' {
        k
    } else {
        line_begin(s, k - 1)
    }
}

/// Index of the first newline at or after character `k` (the character count
/// when there is none): where the line that holds `k` ends.
pub open spec fn next_newline(s: Seq<char>, k: int) -> int
    decreases s.len() - k,
{
    if k >= s.len() {
        s.len() as int
    } else if s[k] == '\n' {
        k
    } else {
        next_newline(s, k + 1)
    }
}

/// Column of character `k`: how many characters precede it on its line.
pub open spec fn column(s: Seq<char>, k: int) -> int {
    k - line_begin(s, k)
}

/// Where the cursor lands on the line above: the same column, or the end of
/// that line when it is shorter; the start of the text on the first line.
pub open spec fn up_target(s: Seq<char>, k: int) -> int {
    let b = line_begin(s, k);
    if b == 0 {
        0
    } else {
        let pb = line_begin(s, b - 1);
        pb + min(column(s, k), b - 1 - pb)
    }
}

/// Where the cursor lands on the line below: the same column, or the end of
/// that line when it is shorter; the end of the text on the last line.
pub open spec fn down_target(s: Seq<char>, k: int) -> int {
    let e = next_newline(s, k);
    if e >= s.len() {
        s.len() as int
    } else {
        let ns = e + 1;
        ns + min(column(s, k), next_newline(s, ns) - ns)
    }
}

/// Where `cursor_left` puts a cursor at byte `p`.
pub open spec fn left_of(s: Seq<char>, p: int) -> int {
    if p <= 0 {
        0
    } else {
        byte_offset(s, char_index_at(s, p - 1)) as int
    }
}

/// Where `cursor_right` puts a cursor at byte `p`.
pub open spec fn right_of(s: Seq<char>, p: int) -> int {
    if p >= byte_len(s) {
        byte_len(s) as int
    } else {
        byte_offset(s, char_index_at(s, p) + 1) as int
    }
}

/// Where `line_start` puts a cursor at byte `p`.
pub open spec fn home_of(s: Seq<char>, p: int) -> int {
    byte_offset(s, line_begin(s, char_index_at(s, p))) as int
}

/// Where `line_end` puts a cursor at byte `p`.
pub open spec fn end_of(s: Seq<char>, p: int) -> int {
    byte_offset(s, next_newline(s, char_index_at(s, p))) as int
}

/// Where `cursor_up` puts a cursor at byte `p`.
pub open spec fn up_of(s: Seq<char>, p: int) -> int {
    byte_offset(s, up_target(s, char_index_at(s, p))) as int
}

/// Where `cursor_down` puts a cursor at byte `p`.
pub open spec fn down_of(s: Seq<char>, p: int) -> int {
    byte_offset(s, down_target(s, char_index_at(s, p))) as int
}

/// The cursor sits on a boundary, or at or past the end of the text: where
/// `line_start` and `line_end` accept it.
pub open spec fn cursor_ok(s: Seq<char>, p: int) -> bool {
    p >= byte_len(s) || is_boundary(s, p)
}

/// The text after `insert_char` puts `c` at byte `p`.
pub open spec fn text_after_insert(s: Seq<char>, p: int, c: char) -> Seq<char> {
    s.insert(char_index_at(s, p), c)
}

/// The text after `backspace` at byte `p`.
pub open spec fn text_after_backspace(s: Seq<char>, p: int) -> Seq<char> {
    if p <= 0 {
        s
    } else {
        s.remove(char_index_at(s, p - 1))
    }
}

/// The text after `delete_char` at byte `p`.
pub open spec fn text_after_delete(s: Seq<char>, p: int) -> Seq<char> {
    if p < byte_len(s) && is_boundary(s, p) {
        s.remove(char_index_at(s, p))
    } else {
        s
    }
}

/// A line begins at or before the character, right after a newline (or at
/// the start), and holds no newline before the character.
pub proof fn lemma_line_begin(s: Seq<char>, k: int)
    requires
        0 <= k <= s.len(),
    ensures
        0 <= line_begin(s, k) <= k,
        line_begin(s, k) > 0 ==> s[line_begin(s, k) - 1] == '\n',
        forall|i: int| line_begin(s, k) <= i < k ==> s[i] != '\n',
    decreases k,
{
    if k > 0 {
        lemma_line_begin(s, k - 1);
    }
}

/// The line that holds `k` continues to the first newline at or after it.
pub proof fn lemma_next_newline(s: Seq<char>, k: int)
    requires
        0 <= k <= s.len(),
    ensures
        k <= next_newline(s, k) <= s.len(),
        next_newline(s, k) < s.len() ==> s[next_newline(s, k)] == '\n',
        forall|i: int| k <= i < next_newline(s, k) ==> s[i] != '\n',
    decreases s.len() - k,
{
    if k < s.len() && s[k] != '\n' {
        lemma_next_newline(s, k + 1);
    }
}

/// Characters without a newline between `a` and `b` share the same line end.
pub proof fn lemma_next_newline_skip(s: Seq<char>, a: int, b: int)
    requires
        0 <= a <= b <= s.len(),
        forall|i: int| a <= i < b ==> s[i] != '\n',
    ensures
        next_newline(s, a) == next_newline(s, b),
    decreases b - a,
{
    if a < b {
        lemma_next_newline_skip(s, a + 1, b);
    }
}

/// The first line is the one without a newline before the character.
pub proof fn lemma_first_line(s: Seq<char>, k: int)
    requires
        0 <= k <= s.len(),
    ensures
        (line_begin(s, k) == 0) == (newlines_before(s, k) == 0),
    decreases k,
{
    if k > 0 {
        lemma_first_line(s, k - 1);
    }
}

/// Every cursor motion lands on a character boundary.
pub proof fn lemma_moves_land_on_boundaries(s: Seq<char>, p: int)
    requires
        p >= 0,
    ensures
        is_boundary(s, left_of(s, p)),
        is_boundary(s, right_of(s, p)),
        is_boundary(s, home_of(s, p)),
        is_boundary(s, end_of(s, p)),
        is_boundary(s, up_of(s, p)),
        is_boundary(s, down_of(s, p)),
{
    lemma_offset_ends(s);
    assert(is_boundary(s, byte_offset(s, 0) as int));
    assert(is_boundary(s, byte_offset(s, s.len() as int) as int));
    let k = char_index_at(s, p);
    lemma_char_index_at(s, p);
    if p > 0 {
        lemma_char_index_at(s, p - 1);
        assert(is_boundary(s, byte_offset(s, char_index_at(s, p - 1)) as int));
    }
    if p < byte_len(s) {
        if k == s.len() {
            assert(false);
        }
        assert(is_boundary(s, byte_offset(s, k + 1) as int));
    }
    lemma_line_begin(s, k);
    let b = line_begin(s, k);
    assert(is_boundary(s, byte_offset(s, b) as int));
    lemma_next_newline(s, k);
    assert(is_boundary(s, byte_offset(s, next_newline(s, k)) as int));
    if b > 0 {
        lemma_line_begin(s, b - 1);
        let pb = line_begin(s, b - 1);
        let t = up_target(s, k);
        assert(0 <= t <= s.len());
        assert(is_boundary(s, byte_offset(s, t) as int));
    }
    let e = next_newline(s, k);
    if e < s.len() {
        lemma_next_newline(s, e + 1);
        let t = down_target(s, k);
        assert(0 <= t <= s.len());
        assert(is_boundary(s, byte_offset(s, t) as int));
    }
}

/// Offsets of the characters before an edit do not change.
proof fn lemma_offset_prefix(s: Seq<char>, t: Seq<char>, k: int)
    requires
        0 <= k <= s.len(),
        k <= t.len(),
        s.take(k) == t.take(k),
    ensures
        byte_offset(s, k) == byte_offset(t, k),
{
}

/// Inserting a character leaves the cursor on a boundary just after it;
/// deleting before or at the cursor leaves it on a boundary.
pub proof fn lemma_edits_keep_boundary(s: Seq<char>, p: int, c: char)
    requires
        is_boundary(s, p),
    ensures
        is_boundary(text_after_insert(s, p, c), p + char_width(c)),
        p + char_width(c) == byte_offset(text_after_insert(s, p, c), char_index_at(s, p) + 1),
        is_boundary(text_after_backspace(s, p), left_of(s, p)),
        is_boundary(text_after_delete(s, p), p),
        p <= byte_len(s),
{
    let j = choose|j: int| 0 <= j <= s.len() && #[trigger] byte_offset(s, j) == p;
    lemma_char_index_of_offset(s, j);
    lemma_offset_range(s, j);
    let k = j;
    // insertion
    let t = s.insert(k, c);
    assert(t.take(k + 1) =~= s.take(k) + seq![c]);
    lemma_encode_add(s.take(k), seq![c]);
    lemma_encode_single(c);
    assert(byte_offset(t, k + 1) == p + char_width(c));
    assert(is_boundary(t, byte_offset(t, k + 1) as int));
    // backspace
    if p > 0 {
        lemma_char_index_at(s, p - 1);
        let i = char_index_at(s, p - 1);
        lemma_offset_ends(s);
        if i == s.len() {
            assert(false);
        }
        let u = s.remove(i);
        assert(u.take(i) =~= s.take(i));
        lemma_offset_prefix(s, u, i);
        assert(is_boundary(u, byte_offset(u, i) as int));
    } else {
        lemma_offset_ends(s);
        assert(is_boundary(s, byte_offset(s, 0) as int));
    }
    // delete
    if p < byte_len(s) {
        lemma_offset_ends(s);
        assert(k < s.len());
        let u = s.remove(k);
        assert(u.take(k) =~= s.take(k));
        lemma_offset_prefix(s, u, k);
        assert(is_boundary(u, byte_offset(u, k) as int));
    }
}

/// What a scan from the start of the text up to a byte position learns.
pub(crate) struct LineScan {
    /// Start of the character that holds the position.
    pub end: usize,
    /// Line of that character.
    pub line: usize,
    /// Column of that character.
    pub col: usize,
    /// Start of its line.
    pub start: usize,
    /// Start of the line before (when there is one).
    pub prev_start: usize,
}

/// Scans the text character by character up to byte `pos`.
pub(crate) fn scan_to(bytes: &[u8], pos: usize, Ghost(s): Ghost<Seq<char>>) -> (r: LineScan)
    requires
        bytes@ == encode_utf8(s),
    ensures
        ({
            let k = char_index_at(s, pos as int);
            let b = line_begin(s, k);
            &&& r.end == byte_offset(s, k)
            &&& r.line == newlines_before(s, k)
            &&& r.col == k - b
            &&& r.start == byte_offset(s, b)
            &&& b > 0 ==> r.prev_start == byte_offset(s, line_begin(s, b - 1))
        }),
{
    let n = bytes.len();
    let mut p: usize = 0;
    let ghost mut k: int = 0;
    let mut line: usize = 0;
    let mut col: usize = 0;
    let mut start: usize = 0;
    let mut prev_start: usize = 0;
    proof {
        lemma_offset_ends(s);
    }
    while p < n
        invariant
            bytes@ == encode_utf8(s),
            n == bytes@.len(),
            0 <= k <= s.len(),
            p == byte_offset(s, k),
            p <= pos,
            k <= p,
            line <= k,
            col <= k,
            k == s.len() || p < n,
            line == newlines_before(s, k),
            col == k - line_begin(s, k),
            start == byte_offset(s, line_begin(s, k)),
            line_begin(s, k) > 0 ==> prev_start == byte_offset(
                s,
                line_begin(s, line_begin(s, k) - 1),
            ),
        ensures
            k == s.len() || pos < byte_offset(s, k + 1),
        decreases n - p,
    {
        proof {
            lemma_offset_ends(s);
            if k == s.len() {
                assert(false);
            }
        }
        let q = next_char_start(bytes, p, Ghost(s), Ghost(k));
        if q > pos {
            break;
        }
        proof {
            lemma_offset_mono(s, k, k + 1);
        }
        let nl = newline_at(bytes, p, Ghost(s), Ghost(k));
        if nl {
            prev_start = start;
            start = q;
            line = line + 1;
            col = 0;
        } else {
            col = col + 1;
        }
        p = q;
        proof {
            k = k + 1;
            lemma_offset_range(s, k);
        }
    }
    proof {
        lemma_offset_range(s, k);
        lemma_char_index_unique(s, pos as int, k);
    }
    LineScan { end: p, line, col, start, prev_start }
}

/// Line and column of the cursor, both counted from zero; the column counts
/// characters.  A cursor inside a character counts as that character; one
/// past the end counts as the end.
pub fn pos_to_line_col(buf: &str, pos: usize) -> (r: (usize, usize))
    ensures
        r.0 == newlines_before(buf@, char_index_at(buf@, pos as int)),
        r.1 == column(buf@, char_index_at(buf@, pos as int)),
{
    let scan = scan_to(buf.as_bytes(), pos, Ghost(buf@));
    (scan.line, scan.col)
}

/// The boundary before the cursor: the start of the character that holds
/// byte `pos - 1` (zero at the start).
pub fn cursor_left(buf: &str, pos: usize) -> (r: usize)
    ensures
        r == left_of(buf@, pos as int),
{
    if pos == 0 {
        return 0;
    }
    let ghost s = buf@;
    let mut p: usize = pos - 1;
    proof {
        lemma_offset_ends(s);
        lemma_boundary_link(s, 0);
    }
    while !buf.is_char_boundary(p)
        invariant
            s == buf@,
            p < pos,
            forall|q: int| p < q < pos ==> !is_boundary(s, q),
            is_boundary(s, 0),
        decreases p,
    {
        proof {
            lemma_boundary_link(s, p as int);
        }
        p = p - 1;
    }
    proof {
        lemma_boundary_link(s, p as int);
        let k = choose|k: int| 0 <= k <= s.len() && #[trigger] byte_offset(s, k) == p;
        if k < s.len() {
            lemma_offset_mono(s, k, k + 1);
            assert(is_boundary(s, byte_offset(s, k + 1) as int));
        }
        lemma_char_index_unique(s, pos - 1, k);
    }
    p
}

/// The boundary after the cursor: the start of the next character (the end
/// of the text when the cursor is at or past it).
pub fn cursor_right(buf: &str, pos: usize) -> (r: usize)
    ensures
        r == right_of(buf@, pos as int),
{
    let ghost s = buf@;
    let n = buf.as_bytes().len();
    if pos >= n {
        return n;
    }
    proof {
        lemma_offset_ends(s);
        lemma_boundary_link(s, n as int);
        assert(is_boundary(s, n as int));
    }
    let mut p: usize = pos + 1;
    while p <= n && !buf.is_char_boundary(p)
        invariant
            s == buf@,
            n == byte_len(s),
            pos < p <= n,
            forall|q: int| pos < q < p ==> !is_boundary(s, q),
            is_boundary(s, n as int),
        decreases n - p,
    {
        proof {
            lemma_boundary_link(s, p as int);
        }
        p = p + 1;
    }
    proof {
        lemma_boundary_link(s, p as int);
        let j = choose|j: int| 0 <= j <= s.len() && #[trigger] byte_offset(s, j) == p;
        lemma_char_index_at(s, pos as int);
        let k = char_index_at(s, pos as int);
        if k == s.len() {
            assert(false);
        }
        lemma_offset_range(s, k + 1);
        assert(is_boundary(s, byte_offset(s, k + 1) as int));
        if j < k + 1 {
            lemma_offset_mono(s, j, k);
        }
        if j > k + 1 {
            lemma_offset_mono(s, k + 1, j);
        }
    }
    if p < n {
        p
    } else {
        n
    }
}

/// Start of the cursor's line.  The cursor must lie on a character boundary
/// or at or past the end.
pub fn line_start(buf: &str, pos: usize) -> (r: usize)
    requires
        cursor_ok(buf@, pos as int),
    ensures
        r == home_of(buf@, pos as int),
{
    let scan = scan_to(buf.as_bytes(), pos, Ghost(buf@));
    scan.start
}

/// Establishes the character index of a cursor that lies on a boundary or
/// at or past the end, clamped to the text.
proof fn lemma_clamped_cursor(s: Seq<char>, pos: int, p: int)
    requires
        pos >= 0,
        pos >= byte_len(s) || is_boundary(s, pos),
        p == if pos < byte_len(s) { pos } else { byte_len(s) as int },
    ensures
        0 <= char_index_at(s, pos) <= s.len(),
        p == byte_offset(s, char_index_at(s, pos)),
{
    lemma_offset_ends(s);
    if pos >= byte_len(s) {
        lemma_char_index_unique(s, pos, s.len() as int);
    } else {
        let j = choose|j: int| 0 <= j <= s.len() && #[trigger] byte_offset(s, j) == pos;
        lemma_char_index_of_offset(s, j);
    }
}

/// End of the cursor's line: the position of the next newline, or the end of
/// the text.  The cursor must lie on a character boundary or at or past the
/// end.
pub fn line_end(buf: &str, pos: usize) -> (r: usize)
    requires
        cursor_ok(buf@, pos as int),
    ensures
        r == end_of(buf@, pos as int),
{
    let ghost s = buf@;
    let bytes = buf.as_bytes();
    let n = bytes.len();
    let mut p: usize = if pos < n {
        pos
    } else {
        n
    };
    let ghost k0 = char_index_at(s, pos as int);
    let ghost mut k = k0;
    proof {
        lemma_clamped_cursor(s, pos as int, p as int);
        lemma_offset_ends(s);
    }
    loop
        invariant
            bytes@ == encode_utf8(s),
            n == bytes@.len(),
            0 <= k <= s.len(),
            p == byte_offset(s, k),
            next_newline(s, k) == next_newline(s, k0),
        ensures
            p == byte_offset(s, next_newline(s, k0)),
        decreases n - p,
    {
        if p >= n {
            proof {
                lemma_offset_range(s, k);
            }
            break;
        }
        proof {
            lemma_offset_ends(s);
            if k == s.len() {
                assert(false);
            }
        }
        if newline_at(bytes, p, Ghost(s), Ghost(k)) {
            break;
        }
        proof {
            lemma_offset_mono(s, k, k + 1);
        }
        p = next_char_start(bytes, p, Ghost(s), Ghost(k));
        proof {
            k = k + 1;
        }
    }
    p
}

/// Walks from the start of a line over at most `col` characters, stopping at
/// the line's end.
fn walk_columns(bytes: &[u8], start: usize, col: usize, Ghost(s): Ghost<Seq<char>>, Ghost(b): Ghost<int>) -> (r: usize)
    requires
        bytes@ == encode_utf8(s),
        0 <= b <= s.len(),
        start == byte_offset(s, b),
    ensures
        r == byte_offset(s, b + min(col as int, next_newline(s, b) - b)),
{
    let n = bytes.len();
    let mut p: usize = start;
    let mut c: usize = 0;
    let ghost mut j: int = b;
    proof {
        lemma_next_newline(s, b);
        lemma_offset_ends(s);
    }
    loop
        invariant
            bytes@ == encode_utf8(s),
            n == bytes@.len(),
            0 <= b <= s.len(),
            walk_stays_on_line(s, b, j),
            j == b + c,
            c <= col,
            p == byte_offset(s, j),
        ensures
            j == b + min(col as int, next_newline(s, b) - b),
            p == byte_offset(s, j),
        decreases n - p,
    {
        proof {
            lemma_next_newline(s, b);
        }
        if c >= col {
            break;
        }
        if p >= n {
            proof {
                lemma_offset_range(s, j);
            }
            break;
        }
        proof {
            if j >= s.len() {
                lemma_offset_ends(s);
                assert(false);
            }
        }
        if newline_at(bytes, p, Ghost(s), Ghost(j)) {
            break;
        }
        proof {
            lemma_offset_mono(s, j, j + 1);
        }
        p = next_char_start(bytes, p, Ghost(s), Ghost(j));
        c = c + 1;
        proof {
            j = j + 1;
        }
    }
    p
}

/// Loop invariant of `walk_columns`: the walk stays on the line.
spec fn walk_stays_on_line(s: Seq<char>, b: int, j: int) -> bool {
    b <= j <= next_newline(s, b) && next_newline(s, b) <= s.len()
}

/// Cursor one line up, in the same column or at the end of that line when it
/// is shorter; on the first line, the start of the text.
pub fn cursor_up(buf: &str, pos: usize) -> (r: usize)
    ensures
        r == up_of(buf@, pos as int),
{
    let ghost s = buf@;
    let bytes = buf.as_bytes();
    let scan = scan_to(bytes, pos, Ghost(s));
    let ghost k = char_index_at(s, pos as int);
    let ghost b = line_begin(s, k);
    proof {
        lemma_char_index_at(s, pos as int);
        lemma_line_begin(s, k);
        lemma_offset_range(s, b);
    }
    if scan.start == 0 {
        proof {
            lemma_offset_ends(s);
        }
        return 0;
    }
    proof {
        let pb = line_begin(s, b - 1);
        lemma_line_begin(s, b - 1);
        assert forall|i: int| pb <= i < b - 1 implies s[i] != '\n' by {}
        lemma_next_newline_skip(s, pb, b - 1);
    }
    walk_columns(bytes, scan.prev_start, scan.col, Ghost(s), Ghost(line_begin(s, b - 1)))
}

/// Cursor one line down, in the same column or at the end of that line when
/// it is shorter; on the last line, the end of the text.
pub fn cursor_down(buf: &str, pos: usize) -> (r: usize)
    ensures
        r == down_of(buf@, pos as int),
{
    let ghost s = buf@;
    let bytes = buf.as_bytes();
    let n = bytes.len();
    let scan = scan_to(bytes, pos, Ghost(s));
    let ghost k = char_index_at(s, pos as int);
    proof {
        lemma_char_index_at(s, pos as int);
        lemma_offset_ends(s);
    }
    let mut p: usize = scan.end;
    let ghost mut j: int = k;
    loop
        invariant
            bytes@ == encode_utf8(s),
            n == bytes@.len(),
            0 <= k <= j <= s.len(),
            p == byte_offset(s, j),
            next_newline(s, j) == next_newline(s, k),
        ensures
            j == next_newline(s, k),
            p == byte_offset(s, j),
        decreases n - p,
    {
        if p >= n {
            proof {
                lemma_offset_range(s, j);
            }
            break;
        }
        proof {
            lemma_offset_ends(s);
            if j == s.len() {
                assert(false);
            }
        }
        if newline_at(bytes, p, Ghost(s), Ghost(j)) {
            break;
        }
        proof {
            lemma_offset_mono(s, j, j + 1);
        }
        p = next_char_start(bytes, p, Ghost(s), Ghost(j));
        proof {
            j = j + 1;
        }
    }
    if p >= n {
        proof {
            lemma_offset_range(s, j);
        }
        return n;
    }
    proof {
        lemma_offset_range(s, j);
        if j == s.len() {
            assert(false);
        }
        lemma_offset_range(s, j + 1);
    }
    let ns = next_char_start(bytes, p, Ghost(s), Ghost(j));
    walk_columns(bytes, ns, scan.col, Ghost(s), Ghost(j + 1))
}

/// `String::insert`: std documents that it inserts `ch` into the string at
/// byte position `idx`, and that it panics when `idx` is not a character
/// boundary.  The contract states the result in characters: `ch` enters at
/// the character index that starts at `idx`.
#[verifier::external_body]
fn string_insert(s: &mut String, idx: usize, ch: char)
    requires
        is_boundary(old(s)@, idx as int),
    ensures
        final(s)@ == old(s)@.insert(char_index_at(old(s)@, idx as int), ch),
{
    s.insert(idx, ch)
}

/// `String::remove`: std documents that it removes the character at byte
/// position `idx` and returns it, and that it panics when `idx` is at or past
/// the end or not on a character boundary.  The contract states the result
/// in characters.
#[verifier::external_body]
fn string_remove(s: &mut String, idx: usize) -> (ch: char)
    requires
        is_boundary(old(s)@, idx as int),
        idx < byte_len(old(s)@),
    ensures
        ch == old(s)@[char_index_at(old(s)@, idx as int)],
        final(s)@ == old(s)@.remove(char_index_at(old(s)@, idx as int)),
{
    s.remove(idx)
}

/// Inserts `c` at the cursor and moves the cursor past it.  The cursor must
/// lie on a character boundary.
pub fn insert_char(buf: &mut String, pos: &mut usize, c: char)
    requires
        is_boundary(old(buf)@, *old(pos) as int),
    ensures
        final(buf)@ == text_after_insert(old(buf)@, *old(pos) as int, c),
        *final(pos) == *old(pos) + char_width(c),
        *final(pos) == byte_offset(final(buf)@, char_index_at(old(buf)@, *old(pos) as int) + 1),
{
    let ghost s = buf@;
    let ghost k = char_index_at(s, *pos as int);
    proof {
        let j = choose|j: int| 0 <= j <= s.len() && #[trigger] byte_offset(s, j) == *pos;
        lemma_char_index_of_offset(s, j);
    }
    string_insert(buf, *pos, c);
    let n = buf.as_str().as_bytes().len();
    proof {
        let t = buf@;
        assert(t =~= s.take(k) + seq![c] + s.skip(k));
        assert(t.take(k + 1) =~= s.take(k) + seq![c]);
        lemma_encode_add(s.take(k), seq![c]);
        lemma_encode_add(s.take(k) + seq![c], s.skip(k));
        lemma_encode_single(c);
    }
    let w = utf8_width(c);
    *pos = *pos + w;
}

/// Deletes the character before the cursor and moves the cursor to where it
/// started; nothing happens at the start of the text.  The cursor must not
/// lie past the end.
pub fn backspace(buf: &mut String, pos: &mut usize)
    requires
        *old(pos) <= byte_len(old(buf)@),
    ensures
        final(buf)@ == text_after_backspace(old(buf)@, *old(pos) as int),
        *final(pos) == left_of(old(buf)@, *old(pos) as int),
{
    if *pos == 0 {
        return;
    }
    let ghost s = buf@;
    let prev = cursor_left(buf.as_str(), *pos);
    proof {
        let k = char_index_at(s, *pos - 1);
        lemma_char_index_at(s, *pos - 1);
        lemma_offset_ends(s);
        lemma_offset_range(s, k);
        lemma_char_index_of_offset(s, k);
    }
    string_remove(buf, prev);
    *pos = prev;
}

/// Deletes the character that starts at the cursor; nothing happens when the
/// cursor is at or past the end or inside a character.
pub fn delete_char(buf: &mut String, pos: usize)
    ensures
        final(buf)@ == text_after_delete(old(buf)@, pos as int),
{
    let n = buf.as_str().as_bytes().len();
    if pos < n && buf.as_str().is_char_boundary(pos) {
        proof {
            lemma_boundary_link(buf@, pos as int);
        }
        string_remove(buf, pos);
    } else {
        proof {
            lemma_boundary_link(buf@, pos as int);
        }
    }
}

/// No newline between `a` and `b` means both are on the same line.
pub proof fn lemma_same_line(s: Seq<char>, a: int, b: int)
    requires
        0 <= a <= b <= s.len(),
        forall|i: int| a <= i < b ==> s[i] != '\n',
    ensures
        newlines_before(s, a) == newlines_before(s, b),
        (a == 0 || s[a - 1] == '\n') ==> line_begin(s, b) == a,
    decreases b - a,
{
    if a < b {
        lemma_same_line(s, a, b - 1);
    }
}

/// Backspace right after typing a character takes it out again and puts the
/// cursor back where it was.
pub proof fn lemma_backspace_undoes_insert(s: Seq<char>, p: int, c: char)
    requires
        is_boundary(s, p),
    ensures
        text_after_backspace(text_after_insert(s, p, c), p + char_width(c)) == s,
        left_of(text_after_insert(s, p, c), p + char_width(c)) == p,
{
    lemma_edits_keep_boundary(s, p, c);
    let j = choose|j: int| 0 <= j <= s.len() && #[trigger] byte_offset(s, j) == p;
    lemma_char_index_of_offset(s, j);
    let k = j;
    let t = s.insert(k, c);
    assert(t.take(k) =~= s.take(k));
    lemma_offset_prefix(s, t, k);
    lemma_char_width_bounds(c);
    lemma_char_index_unique(t, p + char_width(c) - 1, k);
    assert(t.remove(k) =~= s);
}

/// Typing back the character that Delete took out restores the text.
pub proof fn lemma_insert_undoes_delete(s: Seq<char>, p: int)
    requires
        is_boundary(s, p),
        p < byte_len(s),
    ensures
        ({
            let k = char_index_at(s, p);
            &&& 0 <= k < s.len()
            &&& text_after_insert(text_after_delete(s, p), p, s[k]) == s
        }),
{
    let j = choose|j: int| 0 <= j <= s.len() && #[trigger] byte_offset(s, j) == p;
    lemma_char_index_of_offset(s, j);
    lemma_offset_ends(s);
    let k = j;
    assert(k < s.len());
    let d = s.remove(k);
    assert(d.take(k) =~= s.take(k));
    lemma_offset_prefix(s, d, k);
    if k < d.len() {
        lemma_offset_mono(d, k, k + 1);
    }
    lemma_char_index_unique(d, p, k);
    assert(d.insert(k, s[k]) =~= s);
}

/// Left undoes Right, and Right undoes Left, on boundaries inside the text.
pub proof fn lemma_left_right_inverse(s: Seq<char>, p: int)
    requires
        is_boundary(s, p),
    ensures
        p < byte_len(s) ==> left_of(s, right_of(s, p)) == p,
        p > 0 ==> right_of(s, left_of(s, p)) == p,
{
    let k = choose|k: int| 0 <= k <= s.len() && #[trigger] byte_offset(s, k) == p;
    lemma_char_index_of_offset(s, k);
    lemma_offset_ends(s);
    if p < byte_len(s) {
        assert(k < s.len());
        lemma_offset_mono(s, k, k + 1);
        lemma_char_index_unique(s, byte_offset(s, k + 1) - 1, k);
    }
    if p > 0 {
        assert(k > 0);
        lemma_offset_mono(s, k - 1, k);
        lemma_char_index_unique(s, p - 1, k - 1);
        lemma_offset_range(s, k - 1);
        lemma_char_index_of_offset(s, k - 1);
    }
}

/// Home goes to column zero of the same line; End stays on the line and
/// stops at its newline or at the end of the text.
pub proof fn lemma_home_end(s: Seq<char>, p: int)
    requires
        p >= 0,
    ensures
        ({
            let k = char_index_at(s, p);
            let h = char_index_at(s, home_of(s, p));
            let e = char_index_at(s, end_of(s, p));
            &&& newlines_before(s, h) == newlines_before(s, k)
            &&& column(s, h) == 0
            &&& newlines_before(s, e) == newlines_before(s, k)
            &&& (e == s.len() || s[e] == '\n')
        }),
{
    lemma_char_index_at(s, p);
    let k = char_index_at(s, p);
    lemma_line_begin(s, k);
    let b = line_begin(s, k);
    lemma_char_index_of_offset(s, b);
    lemma_same_line(s, b, k);
    lemma_same_line(s, b, b);
    lemma_next_newline(s, k);
    let e = next_newline(s, k);
    lemma_char_index_of_offset(s, e);
    lemma_same_line(s, k, e);
}

/// Up moves to the line above, keeping the column when that line is long
/// enough and going to its end otherwise.
pub proof fn lemma_up_changes_line(s: Seq<char>, p: int)
    requires
        p >= 0,
        newlines_before(s, char_index_at(s, p)) > 0,
    ensures
        ({
            let k = char_index_at(s, p);
            let b = line_begin(s, k);
            let u = char_index_at(s, up_of(s, p));
            &&& newlines_before(s, u) + 1 == newlines_before(s, k)
            &&& column(s, u) == min(column(s, k), column(s, b - 1))
        }),
{
    lemma_char_index_at(s, p);
    let k = char_index_at(s, p);
    lemma_line_begin(s, k);
    lemma_first_line(s, k);
    let b = line_begin(s, k);
    lemma_same_line(s, b, k);
    lemma_line_begin(s, b - 1);
    let pb = line_begin(s, b - 1);
    let t = up_target(s, k);
    lemma_char_index_of_offset(s, t);
    assert forall|i: int| pb <= i < t implies s[i] != '\n' by {}
    lemma_same_line(s, pb, t);
    lemma_same_line(s, pb, b - 1);
}

/// Down moves to the line below, keeping the column when that line is long
/// enough and going to its end otherwise; on the last line it goes to the
/// end of the text.
pub proof fn lemma_down_changes_line(s: Seq<char>, p: int)
    requires
        p >= 0,
    ensures
        ({
            let k = char_index_at(s, p);
            let e = next_newline(s, k);
            let d = char_index_at(s, down_of(s, p));
            &&& e < s.len() ==> newlines_before(s, d) == newlines_before(s, k) + 1
            &&& e < s.len() ==> column(s, d) == min(column(s, k), column(s, next_newline(s, e + 1)))
            &&& e >= s.len() ==> d == s.len()
        }),
{
    lemma_char_index_at(s, p);
    let k = char_index_at(s, p);
    lemma_line_begin(s, k);
    lemma_next_newline(s, k);
    let e = next_newline(s, k);
    if e < s.len() {
        let ns = e + 1;
        lemma_next_newline(s, ns);
        let nn = next_newline(s, ns);
        let t = down_target(s, k);
        lemma_char_index_of_offset(s, t);
        assert(newlines_before(s, ns) == newlines_before(s, e) + 1);
        lemma_same_line(s, k, e);
        assert forall|i: int| ns <= i < t implies s[i] != '\n' by {}
        lemma_same_line(s, ns, t);
        lemma_same_line(s, ns, nn);
    } else {
        lemma_char_index_of_offset(s, s.len() as int);
    }
}

} // verus!
