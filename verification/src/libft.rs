use vstd::prelude::*;
use crate::types::{Colors, color_code};

verus! {

/// Characters per row of the VGA text screen.
pub const VGA_WIDTH: usize = 80;
/// Rows of the VGA text screen.
pub const VGA_HEIGHT: usize = 25;
/// Cells of the VGA text screen.
pub const VGA_CELLS: usize = 2000;
/// Bytes of the VGA text buffer: each cell is a character byte followed by an
/// attribute byte.
pub const VGA_BYTES: usize = 4000;

/// What is on the screen: the text buffer, byte for byte as the VGA hardware
/// reads it, and the cursor.
pub ghost struct Screen {
    pub bytes: Seq<u8>,
    pub row: int,
    pub col: int,
}

impl Screen {
    /// A full buffer and a cursor on the screen.
    pub open spec fn valid(self) -> bool {
        &&& self.bytes.len() == VGA_BYTES
        &&& 0 <= self.row < VGA_HEIGHT
        &&& 0 <= self.col < VGA_WIDTH
    }

    /// The cell index of the cursor.
    pub open spec fn cursor_pos(self) -> int {
        self.row * VGA_WIDTH + self.col
    }

    /// The character byte of cell `pos`.
    pub open spec fn char_at(self, pos: int) -> u8 {
        self.bytes[2 * pos]
    }

    /// The attribute byte of cell `pos`.
    pub open spec fn attr_at(self, pos: int) -> u8 {
        self.bytes[2 * pos + 1]
    }
}

/// The buffer with cell `pos` holding character `c` in attribute `attr`.
pub open spec fn put_cell(bytes: Seq<u8>, pos: int, c: u8, attr: u8) -> Seq<u8> {
    bytes.update(2 * pos, c).update(2 * pos + 1, attr)
}

/// A blank buffer: every cell a space on black.
pub open spec fn blank_bytes() -> Seq<u8> {
    Seq::new(VGA_BYTES as nat, |i: int| if i % 2 == 0 { 32u8 } else { 0u8 })
}

/// The buffer moved up by one row, with a blank last row.
pub open spec fn scrolled(bytes: Seq<u8>) -> Seq<u8> {
    Seq::new(
        VGA_BYTES as nat,
        |i: int|
            if i < VGA_BYTES - 2 * VGA_WIDTH {
                bytes[i + 2 * VGA_WIDTH]
            } else if i % 2 == 0 {
                32u8
            } else {
                0u8
            },
    )
}

/// The screen after one character has been written at the cursor: a newline
/// moves to the start of the next row, any other byte fills the cursor's cell
/// and advances, wrapping at the end of a row; moving past the last row
/// scrolls and leaves the cursor at the start of the last row.
pub open spec fn char_step(s: Screen, c: u8, attr: u8) -> Screen {
    let moved = if c == 10 {
        Screen { bytes: s.bytes, row: s.row + 1, col: 0 }
    } else if s.col + 1 >= VGA_WIDTH {
        Screen { bytes: put_cell(s.bytes, s.cursor_pos(), c, attr), row: s.row + 1, col: 0 }
    } else {
        Screen { bytes: put_cell(s.bytes, s.cursor_pos(), c, attr), row: s.row, col: s.col + 1 }
    };
    if moved.row >= VGA_HEIGHT {
        Screen { bytes: scrolled(moved.bytes), row: VGA_HEIGHT - 1, col: 0 }
    } else {
        moved
    }
}

/// The screen after `text` has been written at the cursor, byte by byte.
pub open spec fn emit(s: Screen, text: Seq<u8>, attr: u8) -> Screen
    decreases text.len(),
{
    if text.len() == 0 {
        s
    } else {
        char_step(emit(s, text.drop_last(), attr), text.last(), attr)
    }
}

/// The screen after erasing the character before the cursor; at the top-left
/// corner nothing changes.
pub open spec fn backspace_step(s: Screen) -> Screen {
    if s.col > 0 {
        Screen { bytes: put_cell(s.bytes, s.row * VGA_WIDTH + s.col - 1, 32, 0), row: s.row, col: s.col - 1 }
    } else if s.row > 0 {
        Screen {
            bytes: put_cell(s.bytes, (s.row - 1) * VGA_WIDTH + VGA_WIDTH - 1, 32, 0),
            row: s.row - 1,
            col: VGA_WIDTH - 1,
        }
    } else {
        s
    }
}

/// A blank screen with the cursor at the top-left corner.
pub open spec fn blank_screen() -> Screen {
    Screen { bytes: blank_bytes(), row: 0, col: 0 }
}

pub proof fn lemma_char_step_valid(s: Screen, c: u8, attr: u8)
    requires
        s.valid(),
    ensures
        char_step(s, c, attr).valid(),
{
}

pub proof fn lemma_emit_valid(s: Screen, text: Seq<u8>, attr: u8)
    requires
        s.valid(),
    ensures
        emit(s, text, attr).valid(),
    decreases text.len(),
{
    if text.len() > 0 {
        lemma_emit_valid(s, text.drop_last(), attr);
    }
}

/// Writing one more byte is one more step.
pub proof fn lemma_emit_push(s: Screen, text: Seq<u8>, c: u8, attr: u8)
    ensures
        emit(s, text.push(c), attr) == char_step(emit(s, text, attr), c, attr),
{
    assert(text.push(c).drop_last() =~= text);
}

/// Writing two texts one after the other is writing their concatenation.
pub proof fn lemma_emit_concat(s: Screen, a: Seq<u8>, b: Seq<u8>, attr: u8)
    ensures
        emit(s, a + b, attr) == emit(emit(s, a, attr), b, attr),
    decreases b.len(),
{
    if b.len() == 0 {
        assert(a + b =~= a);
    } else {
        lemma_emit_concat(s, a, b.drop_last(), attr);
        assert((a + b).drop_last() =~= a + b.drop_last());
    }
}

/// The VGA text screen and its cursor.
pub struct Console {
    buffer: Vec<u8>,
    row: usize,
    col: usize,
}

impl View for Console {
    type V = Screen;

    closed spec fn view(&self) -> Screen {
        Screen { bytes: self.buffer@, row: self.row as int, col: self.col as int }
    }
}

impl Console {
    /// The buffer is whole and the cursor is on the screen.
    pub open spec fn wf(&self) -> bool {
        self@.valid()
    }

    /// A blank screen with the cursor in the top-left corner.
    pub fn new() -> (con: Console)
        ensures
            con.wf(),
            con@ == blank_screen(),
    {
        let mut buffer: Vec<u8> = Vec::new();
        let mut i: usize = 0;
        while i < VGA_BYTES
            invariant
                i <= VGA_BYTES,
                buffer@.len() == i,
                forall|j: int| 0 <= j < i ==> buffer@[j] == (if j % 2 == 0 { 32u8 } else { 0u8 }),
            decreases VGA_BYTES - i,
        {
            if i % 2 == 0 {
                buffer.push(32);
            } else {
                buffer.push(0);
            }
            i += 1;
        }
        let con = Console { buffer, row: 0, col: 0 };
        assert(con@.bytes =~= blank_bytes());
        con
    }

    /// The text buffer as the VGA hardware reads it.
    pub fn bytes(&self) -> (b: &[u8])
        ensures
            b@ == self@.bytes,
    {
        self.buffer.as_slice()
    }

    /// The cursor's row and column.
    pub fn cursor(&self) -> (rc: (usize, usize))
        ensures
            rc.0 == self@.row,
            rc.1 == self@.col,
    {
        (self.row, self.col)
    }

    /// The cursor's cell index split into the low and the high byte, in the
    /// order the CRT controller's cursor registers 0x0F and 0x0E take them.
    pub fn cursor_position_bytes(&self) -> (lh: (u8, u8))
        requires
            self.wf(),
        ensures
            lh.0 + 256 * lh.1 == self@.cursor_pos(),
    {
        let pos: u16 = (self.row * VGA_WIDTH + self.col) as u16;
        let low: u8 = (pos & 0xFF) as u8;
        let high: u8 = ((pos >> 8) & 0xFF) as u8;
        assert(low + 256 * high == pos) by (bit_vector)
            requires
                low == (pos & 0xFF) as u8,
                high == ((pos >> 8) & 0xFF) as u8,
        ;
        (low, high)
    }
}

/// Writes character `c` in `color` at cell `pos`.
pub fn putchar(con: &mut Console, c: u8, color: Colors, pos: usize)
    requires
        old(con).wf(),
        pos < VGA_CELLS,
    ensures
        final(con)@ == (Screen { bytes: put_cell(old(con)@.bytes, pos as int, c, color_code(color)), ..old(con)@ }),
        final(con).wf(),
{
    let attr = color.value();
    con.buffer.set(pos * 2, c);
    con.buffer.set(pos * 2 + 1, attr);
}

/// Moves the text up by one row, blanks the last row and puts the cursor at
/// the start of the last row.
fn scroll(con: &mut Console)
    requires
        old(con).buffer@.len() == VGA_BYTES,
    ensures
        final(con)@ == (Screen { bytes: scrolled(old(con)@.bytes), row: VGA_HEIGHT - 1, col: 0 }),
{
    let ghost start = con.buffer@;
    let mut k: usize = 0;
    while k < VGA_BYTES - 2 * VGA_WIDTH
        invariant
            k <= VGA_BYTES - 2 * VGA_WIDTH,
            con.buffer@.len() == VGA_BYTES,
            forall|i: int| 0 <= i < k ==> con.buffer@[i] == start[i + 2 * VGA_WIDTH],
            forall|i: int| k <= i < VGA_BYTES ==> con.buffer@[i] == start[i],
        decreases VGA_BYTES - 2 * VGA_WIDTH - k,
    {
        let v = con.buffer[k + 2 * VGA_WIDTH];
        con.buffer.set(k, v);
        k += 1;
    }
    let blank = Colors::Black.value();
    let mut col: usize = 0;
    while col < VGA_WIDTH
        invariant
            col <= VGA_WIDTH,
            blank == 0,
            con.buffer@.len() == VGA_BYTES,
            forall|i: int| 0 <= i < VGA_BYTES - 2 * VGA_WIDTH ==> con.buffer@[i] == start[i + 2 * VGA_WIDTH],
            forall|i: int|
                VGA_BYTES - 2 * VGA_WIDTH <= i < VGA_BYTES - 2 * VGA_WIDTH + 2 * col ==> con.buffer@[i] == (
                if i % 2 == 0 {
                    32u8
                } else {
                    0u8
                }),
        decreases VGA_WIDTH - col,
    {
        let pos = (VGA_HEIGHT - 1) * VGA_WIDTH + col;
        con.buffer.set(pos * 2, 32);
        con.buffer.set(pos * 2 + 1, blank);
        col += 1;
    }
    con.row = VGA_HEIGHT - 1;
    con.col = 0;
    assert(con.buffer@ =~= scrolled(start));
}

/// Writes one character at the cursor and moves the cursor on (see
/// `char_step`).
pub fn printk_char(con: &mut Console, c: u8, color: Colors)
    requires
        old(con).wf(),
    ensures
        final(con)@ == char_step(old(con)@, c, color_code(color)),
        final(con).wf(),
{
    if c == 10 {
        con.col = 0;
        con.row = con.row + 1;
    } else {
        let pos = con.row * VGA_WIDTH + con.col;
        putchar(con, c, color, pos);
        con.col = con.col + 1;
        if con.col >= VGA_WIDTH {
            con.col = 0;
            con.row = con.row + 1;
        }
    }
    if con.row >= VGA_HEIGHT {
        scroll(con);
    }
}

/// Puts the cursor in the top-left corner.
pub fn reset_cursor(con: &mut Console)
    requires
        old(con).wf(),
    ensures
        final(con)@ == (Screen { row: 0, col: 0, ..old(con)@ }),
        final(con).wf(),
{
    con.col = 0;
    con.row = 0;
}

/// Erases the character immediately before the cursor.
pub fn backspace(con: &mut Console)
    requires
        old(con).wf(),
    ensures
        final(con)@ == backspace_step(old(con)@),
        final(con).wf(),
{
    if con.col > 0 {
        con.col = con.col - 1;
    } else if con.row > 0 {
        con.row = con.row - 1;
        con.col = VGA_WIDTH - 1;
    } else {
        return ;
    }
    let pos = con.row * VGA_WIDTH + con.col;
    putchar(con, 32, Colors::Black, pos);
}

/// Blanks every cell and puts the cursor in the top-left corner.
pub fn clear_screen(con: &mut Console)
    requires
        old(con).wf(),
    ensures
        final(con)@ == blank_screen(),
        final(con).wf(),
{
    let ghost start = con@;
    let mut i: usize = 0;
    while i < VGA_CELLS
        invariant
            i <= VGA_CELLS,
            con.wf(),
            con@.row == start.row,
            con@.col == start.col,
            forall|j: int| 0 <= j < 2 * i ==> con@.bytes[j] == blank_bytes()[j],
        decreases VGA_CELLS - i,
    {
        putchar(con, 32, Colors::Black, i);
        i += 1;
    }
    assert(con@.bytes =~= blank_bytes());
    reset_cursor(con);
}


/// The length of the C string held in `s`: the index of its first NUL, or
/// the length of `s` if it holds none.
pub open spec fn c_strlen(s: Seq<u8>) -> nat
    decreases s.len(),
{
    if s.len() == 0 || s[0] == 0 {
        0
    } else {
        1 + c_strlen(s.drop_first())
    }
}

/// The bytes of `s` before its first NUL.
pub open spec fn c_str(s: Seq<u8>) -> Seq<u8> {
    s.take(c_strlen(s) as int)
}

/// `c_strlen` is the index of the first NUL, or the length if there is none.
pub proof fn lemma_c_strlen(s: Seq<u8>)
    ensures
        c_strlen(s) <= s.len(),
        forall|i: int| 0 <= i < c_strlen(s) ==> s[i] != 0,
        c_strlen(s) < s.len() ==> s[c_strlen(s) as int] == 0,
    decreases s.len(),
{
    if s.len() > 0 && s[0] != 0 {
        lemma_c_strlen(s.drop_first());
        assert forall|i: int| 0 <= i < c_strlen(s) implies s[i] != 0 by {
            if i > 0 {
                assert(s[i] == s.drop_first()[i - 1]);
            }
        }
    }
}

/// Any index with only non-NUL bytes before it, that is the length or holds a
/// NUL, is `c_strlen`.
pub proof fn lemma_c_strlen_unique(s: Seq<u8>, n: int)
    requires
        0 <= n <= s.len(),
        forall|i: int| 0 <= i < n ==> s[i] != 0,
        n < s.len() ==> s[n] == 0,
    ensures
        c_strlen(s) == n,
{
    lemma_c_strlen(s);
    if c_strlen(s) < n {
        assert(s[c_strlen(s) as int] == 0);
    }
    if n < c_strlen(s) {
        assert(s[n] != 0);
    }
}

/// Counts the bytes of `s` before its first NUL (all of them if it has none).
pub fn strlen(s: &[u8]) -> (len: usize)
    ensures
        len == c_strlen(s@),
        len <= s.len(),
        forall|i: int| 0 <= i < len ==> s[i] != 0u8,
        len < s.len() ==> s[len as int] == 0u8,
{
    let mut len: usize = 0;
    while len < s.len() && s[len] != 0
        invariant
            len <= s.len(),
            forall|i: int| 0 <= i < len ==> s[i] != 0u8,
        decreases s.len() - len,
    {
        len += 1;
    }
    proof {
        lemma_c_strlen_unique(s@, len as int);
    }
    len
}

/// The index at which a byte-by-byte comparison of `a` and `b` from index `i`
/// stops: the first index where they differ or where `a` holds a NUL, or the
/// end of the shorter one.
pub open spec fn compare_stop(a: Seq<u8>, b: Seq<u8>, i: int) -> int
    decreases a.len() - i,
{
    if i >= a.len() || i >= b.len() {
        i
    } else if a[i] != b[i] || a[i] == 0 {
        i
    } else {
        compare_stop(a, b, i + 1)
    }
}

/// The comparison of `a` and `b` stops inside both of them.
pub open spec fn compare_in_bounds(a: Seq<u8>, b: Seq<u8>) -> bool {
    compare_stop(a, b, 0) < a.len() && compare_stop(a, b, 0) < b.len()
}

/// The result of comparing `a` and `b` as C strings: the difference of the
/// bytes at the stopping index.
pub open spec fn c_str_difference(a: Seq<u8>, b: Seq<u8>) -> int {
    let k = compare_stop(a, b, 0);
    a[k] as int - b[k] as int
}

proof fn lemma_compare_stop(a: Seq<u8>, b: Seq<u8>, i: int)
    requires
        0 <= i,
    ensures
        i <= compare_stop(a, b, i),
        i >= a.len() || i >= b.len() || (compare_stop(a, b, i) <= a.len() && compare_stop(a, b, i) <= b.len()),
        forall|j: int| i <= j < compare_stop(a, b, i) ==> a[j] == b[j] && a[j] != 0,
        compare_stop(a, b, i) < a.len() && compare_stop(a, b, i) < b.len() ==> {
            let k = compare_stop(a, b, i);
            a[k] != b[k] || a[k] == 0
        },
    decreases a.len() - i,
{
    if i < a.len() && i < b.len() && !(a[i] != b[i] || a[i] == 0) {
        lemma_compare_stop(a, b, i + 1);
    }
}

/// `a - b`, widened so that it cannot overflow.
fn byte_difference(a: u8, b: u8) -> (d: i32)
    ensures
        d == a as int - b as int,
{
    (a as i32) - (b as i32)
}

/// The index at which the comparison of `s1` and `s2` stops.
fn compare_index(s1: &[u8], s2: &[u8]) -> (k: usize)
    requires
        compare_in_bounds(s1@, s2@),
    ensures
        k == compare_stop(s1@, s2@, 0),
{
    proof {
        lemma_compare_stop(s1@, s2@, 0);
    }
    let mut i: usize = 0;
    loop
        invariant
            i <= compare_stop(s1@, s2@, 0),
            compare_stop(s1@, s2@, i as int) == compare_stop(s1@, s2@, 0),
            compare_in_bounds(s1@, s2@),
        decreases compare_stop(s1@, s2@, 0) - i,
    {
        if s1[i] != s2[i] || s1[i] == 0 {
            return i;
        }
        proof {
            lemma_compare_stop(s1@, s2@, i + 1);
        }
        i += 1;
    }
}

/// Compares two C strings byte by byte: the difference of the first bytes
/// that differ, or 0 when both end together.
pub fn strcmp(s1: &[u8], s2: &[u8]) -> (r: i32)
    requires
        compare_in_bounds(s1@, s2@),
    ensures
        r == c_str_difference(s1@, s2@),
{
    let i = compare_index(s1, s2);
    byte_difference(s1[i], s2[i])
}

/// Comparing `b` with `a` gives the negation of comparing `a` with `b`.
pub proof fn lemma_compare_antisymmetric(a: Seq<u8>, b: Seq<u8>)
    requires
        compare_in_bounds(a, b),
    ensures
        compare_in_bounds(b, a),
        c_str_difference(b, a) == -c_str_difference(a, b),
{
    lemma_compare_stop_symmetric(a, b, 0);
}

proof fn lemma_compare_stop_symmetric(a: Seq<u8>, b: Seq<u8>, i: int)
    ensures
        compare_stop(a, b, i) == compare_stop(b, a, i),
    decreases a.len() - i,
{
    if i < a.len() && i < b.len() && !(a[i] != b[i] || a[i] == 0) {
        lemma_compare_stop_symmetric(a, b, i + 1);
    }
}

/// Two byte strings compare equal exactly when they hold the same C string.
pub proof fn lemma_compare_zero_iff_same_c_str(a: Seq<u8>, b: Seq<u8>)
    requires
        compare_in_bounds(a, b),
    ensures
        c_str_difference(a, b) == 0 <==> c_str(a) == c_str(b),
{
    lemma_compare_stop(a, b, 0);
    lemma_c_strlen(a);
    lemma_c_strlen(b);
    let k = compare_stop(a, b, 0);
    assert(forall|j: int| 0 <= j < k ==> a[j] == b[j] && a[j] != 0);
    if a[k] == b[k] {
        assert(a[k] == 0);
        lemma_c_strlen_unique(a, k);
        lemma_c_strlen_unique(b, k);
        assert(c_str(a) =~= c_str(b));
    } else {
        if c_str(a) == c_str(b) {
            if a[k] == 0 {
                lemma_c_strlen_unique(a, k);
                assert(c_str(a).len() == k);
                assert(c_strlen(b) > k);
                assert(false);
            } else if b[k] == 0 {
                lemma_c_strlen_unique(b, k);
                assert(c_str(b).len() == k);
                if c_strlen(a) <= k {
                    assert(a[c_strlen(a) as int] == 0);
                }
                assert(c_str(a).len() > k);
                assert(false);
            } else {
                assert(c_strlen(a) > k);
                assert(c_strlen(b) > k);
                assert(c_str(a)[k] == a[k]);
                assert(c_str(b)[k] == b[k]);
                assert(false);
            }
        }
    }
}

/// The ASCII character of decimal digit `d`.
pub open spec fn digit_char(d: int) -> u8 {
    (48 + d) as u8
}

/// The decimal digits of `n`, most significant first, without leading zeros.
pub open spec fn dec_text(n: nat) -> Seq<u8>
    decreases n,
{
    if n > 9 {
        dec_text(n / 10).push(digit_char((n % 10) as int))
    } else {
        seq![digit_char(n as int)]
    }
}

/// The decimal text of `n`: a minus sign before the digits when `n` is
/// negative.
pub open spec fn signed_dec_text(n: int) -> Seq<u8> {
    if n < 0 {
        seq![45u8] + dec_text((-n) as nat)
    } else {
        dec_text(n as nat)
    }
}

/// The ASCII character of hexadecimal digit `d`, in upper case.
pub open spec fn hex_digit(d: int) -> u8 {
    if d < 10 {
        (48 + d) as u8
    } else {
        (55 + d) as u8
    }
}

/// The `k`-th group of four bits of `n`, counted from the least significant.
pub open spec fn hex_nibble(n: u32, k: int) -> int {
    ((n >> ((4 * k) as u32)) & 0xF) as int
}

/// `0x` followed by the eight hexadecimal digits of `n`, most significant
/// first, leading zeros included.
pub open spec fn hex_text(n: u32) -> Seq<u8> {
    seq![48u8, 120u8] + Seq::new(8, |j: int| hex_digit(hex_nibble(n, 7 - j)))
}

/// Writes the bytes of `s` before its first NUL at the cursor.
pub fn printk_str(con: &mut Console, s: &[u8], color: Colors)
    requires
        old(con).wf(),
    ensures
        final(con)@ == emit(old(con)@, c_str(s@), color_code(color)),
        final(con).wf(),
{
    let ghost start = con@;
    let ghost attr = color_code(color);
    let mut i: usize = 0;
    while i < s.len() && s[i] != 0
        invariant
            i <= s.len(),
            forall|j: int| 0 <= j < i ==> s[j] != 0u8,
            con.wf(),
            attr == color_code(color),
            con@ == emit(start, s@.take(i as int), attr),
        decreases s.len() - i,
    {
        printk_char(con, s[i], color);
        proof {
            lemma_emit_push(start, s@.take(i as int), s[i as int], attr);
            assert(s@.take(i + 1) =~= s@.take(i as int).push(s[i as int]));
        }
        i += 1;
    }
    proof {
        lemma_c_strlen_unique(s@, i as int);
    }
}

/// Writes `n` in decimal at the cursor.
pub fn printk_nbr(con: &mut Console, n: isize, color: Colors)
    requires
        old(con).wf(),
        n != isize::MIN,
    ensures
        final(con)@ == emit(old(con)@, signed_dec_text(n as int), color_code(color)),
        final(con).wf(),
    decreases
            if n < 0 {
                2 * (-n) + 1
            } else {
                2 * n
            },
{
    let ghost start = con@;
    let ghost attr = color_code(color);
    if n < 0 {
        printk_char(con, 45, color);
        printk_nbr(con, -n, color);
        proof {
            lemma_emit_push(start, seq![], 45u8, attr);
            assert(seq![45u8] =~= Seq::<u8>::empty().push(45u8));
            lemma_emit_concat(start, seq![45u8], dec_text((-n) as nat), attr);
        }
    } else if n > 9 {
        printk_nbr(con, n / 10, color);
        printk_nbr(con, n % 10, color);
        proof {
            let d = digit_char((n % 10) as int);
            assert(signed_dec_text((n % 10) as int) == seq![d]);
            lemma_emit_concat(start, dec_text((n / 10) as nat), seq![d], attr);
            assert(dec_text((n / 10) as nat) + seq![d] =~= dec_text((n / 10) as nat).push(d));
        }
    } else {
        printk_char(con, 48 + n as u8, color);
        proof {
            lemma_emit_push(start, seq![], (48 + n) as u8, attr);
            assert(seq![(48 + n) as u8] =~= Seq::<u8>::empty().push((48 + n) as u8));
        }
    }
}

/// The hexadecimal digit characters, in order.
fn hex_digit_table() -> (t: &'static [u8])
    ensures
        t@.len() == 16,
        forall|d: int| 0 <= d < 16 ==> t@[d] == hex_digit(d),
{
    let s: &'static str = "0123456789ABCDEF";
    proof {
        reveal_strlit("0123456789ABCDEF");
        vstd::string::is_ascii_spec_bytes(s);
    }
    s.as_bytes()
}

/// Writes `0x` and the eight hexadecimal digits of `n` at the cursor.
pub fn printk_hex(con: &mut Console, n: u32, color: Colors)
    requires
        old(con).wf(),
    ensures
        final(con)@ == emit(old(con)@, hex_text(n), color_code(color)),
        final(con).wf(),
{
    let ghost start = con@;
    let ghost attr = color_code(color);
    let digits = hex_digit_table();
    printk_char(con, 48, color);
    printk_char(con, 120, color);
    proof {
        lemma_emit_push(start, seq![], 48u8, attr);
        lemma_emit_push(start, seq![48u8], 120u8, attr);
        assert(hex_text(n).take(1) =~= Seq::<u8>::empty().push(48u8));
        assert(hex_text(n).take(2) =~= seq![48u8].push(120u8));
    }
    let mut i: u32 = 8;
    while i > 0
        invariant
            i <= 8,
            con.wf(),
            attr == color_code(color),
            digits@.len() == 16,
            forall|d: int| 0 <= d < 16 ==> digits@[d] == hex_digit(d),
            con@ == emit(start, hex_text(n).take(10 - i), attr),
        decreases i,
    {
        i -= 1;
        let nibble: u32 = (n >> (i * 4)) & 0xF;
        assert(nibble < 16) by (bit_vector)
            requires
                nibble == (n >> (i * 4)) & 0xF,
        ;
        assert(nibble == hex_nibble(n, i as int));
        printk_char(con, digits[nibble as usize], color);
        proof {
            assert(hex_text(n)[9 - i] == hex_digit(hex_nibble(n, i as int)));
            lemma_emit_push(start, hex_text(n).take(9 - i), digits@[nibble as int], attr);
            assert(hex_text(n).take(10 - i) =~= hex_text(n).take(9 - i).push(digits@[nibble as int]));
        }
    }
    assert(hex_text(n).take(10) =~= hex_text(n));
}

/// An argument of `printk`: `%d` takes an `Int`, `%s` a `Str` and `%x` a
/// `Hex`.
pub enum PrintkArg {
    Int(i32),
    Str(&'static [u8]),
    Hex(u32),
}

/// The text a conversion `%d`, `%s` or `%x` (`conv` is `d`, `s` or `x`)
/// produces from argument `ai`: nothing when the argument is missing or of
/// another kind.
pub open spec fn arg_text(args: Seq<PrintkArg>, ai: int, conv: u8) -> Seq<u8> {
    if 0 <= ai < args.len() {
        match args[ai] {
            PrintkArg::Int(n) => if conv == 100 { signed_dec_text(n as int) } else { seq![] },
            PrintkArg::Str(t) => if conv == 115 { c_str(t@) } else { seq![] },
            PrintkArg::Hex(n) => if conv == 120 { hex_text(n) } else { seq![] },
        }
    } else {
        seq![]
    }
}

/// The text `printk` writes for the format `fmt` from byte `i` on, when the
/// next unused argument is `ai`.
pub open spec fn printk_from(fmt: Seq<u8>, args: Seq<PrintkArg>, i: int, ai: int) -> Seq<u8>
    decreases fmt.len() - i,
{
    if i >= fmt.len() {
        seq![]
    } else if fmt[i] == 37 && i + 1 < fmt.len() {
        let d = fmt[i + 1];
        if d == 100 || d == 115 || d == 120 {
            arg_text(args, ai, d) + printk_from(fmt, args, i + 2, ai + 1)
        } else if d == 37 {
            seq![37u8] + printk_from(fmt, args, i + 2, ai)
        } else {
            seq![37u8, d] + printk_from(fmt, args, i + 2, ai)
        }
    } else {
        seq![fmt[i]] + printk_from(fmt, args, i + 1, ai)
    }
}

/// Every `%d` of `fmt` from byte `i` on that takes an `Int` takes one whose
/// negation fits in an `isize` (on a 32-bit target `i32::MIN` does not).
pub open spec fn printk_accepts(fmt: Seq<u8>, args: Seq<PrintkArg>, i: int, ai: int) -> bool
    decreases fmt.len() - i,
{
    if i >= fmt.len() {
        true
    } else if fmt[i] == 37 && i + 1 < fmt.len() {
        let d = fmt[i + 1];
        if d == 100 || d == 115 || d == 120 {
            &&& (d == 100 && 0 <= ai < args.len() && args[ai] is Int ==> args[ai]->Int_0 > isize::MIN)
            &&& printk_accepts(fmt, args, i + 2, ai + 1)
        } else {
            printk_accepts(fmt, args, i + 2, ai)
        }
    } else {
        printk_accepts(fmt, args, i + 1, ai)
    }
}

/// The text `printk` writes for the format `fmt` and the arguments `args`.
pub open spec fn printk_text(fmt: Seq<u8>, args: Seq<PrintkArg>) -> Seq<u8> {
    printk_from(fmt, args, 0, 0)
}

/// Writes the format `fmt` at the cursor, replacing `%d`, `%s` and `%x` by
/// the next argument (nothing if it is missing or of another kind), `%%` by
/// `%`, and keeping any other `%` pair as it is.
pub fn printk(con: &mut Console, fmt: &[u8], color: Colors, args: &[PrintkArg])
    requires
        old(con).wf(),
        printk_accepts(fmt@, args@, 0, 0),
    ensures
        final(con)@ == emit(old(con)@, printk_text(fmt@, args@), color_code(color)),
        final(con).wf(),
{
    let ghost start = con@;
    let ghost attr = color_code(color);
    let mut arg_idx: usize = 0;
    let mut i: usize = 0;
    while i < fmt.len()
        invariant
            i <= fmt.len(),
            arg_idx <= i,
            con.wf(),
            printk_accepts(fmt@, args@, i as int, arg_idx as int),
            attr == color_code(color),
            emit(con@, printk_from(fmt@, args@, i as int, arg_idx as int), attr) == emit(
                start,
                printk_text(fmt@, args@),
                attr,
            ),
        decreases fmt.len() - i,
    {
        let ghost before = con@;
        let c = fmt[i];
        if c == 37 && i + 1 < fmt.len() {
            let d = fmt[i + 1];
            let ghost rest = printk_from(fmt@, args@, i + 2, arg_idx + 1);
            if d == 100 {
                if arg_idx < args.len() {
                    match &args[arg_idx] {
                        PrintkArg::Int(n) => {
                            printk_nbr(con, *n as isize, color);
                        },
                        _ => {},
                    }
                }
                arg_idx += 1;
            } else if d == 115 {
                if arg_idx < args.len() {
                    match &args[arg_idx] {
                        PrintkArg::Str(t) => {
                            printk_str(con, t, color);
                        },
                        _ => {},
                    }
                }
                arg_idx += 1;
            } else if d == 120 {
                if arg_idx < args.len() {
                    match &args[arg_idx] {
                        PrintkArg::Hex(n) => {
                            printk_hex(con, *n, color);
                        },
                        _ => {},
                    }
                }
                arg_idx += 1;
            } else if d == 37 {
                printk_char(con, 37, color);
                proof {
                    lemma_emit_push(before, seq![], 37u8, attr);
                    assert(seq![37u8] =~= Seq::<u8>::empty().push(37u8));
                }
            } else {
                printk_char(con, 37, color);
                printk_char(con, d, color);
                proof {
                    lemma_emit_push(before, seq![], 37u8, attr);
                    lemma_emit_push(before, seq![37u8], d, attr);
                    assert(seq![37u8] =~= Seq::<u8>::empty().push(37u8));
                    assert(seq![37u8, d] =~= seq![37u8].push(d));
                }
            }
            proof {
                let piece = if d == 100 || d == 115 || d == 120 {
                    arg_text(args@, arg_idx - 1, d)
                } else if d == 37 {
                    seq![37u8]
                } else {
                    seq![37u8, d]
                };
                assert(con@ == emit(before, piece, attr));
                lemma_emit_concat(before, piece, printk_from(fmt@, args@, i + 2, arg_idx as int), attr);
            }
            i += 2;
        } else {
            printk_char(con, c, color);
            proof {
                lemma_emit_push(before, seq![], c, attr);
                assert(seq![c] =~= Seq::<u8>::empty().push(c));
                lemma_emit_concat(before, seq![c], printk_from(fmt@, args@, i + 1, arg_idx as int), attr);
            }
            i += 1;
        }
    }
}

/// `s` holds no `%`.
pub open spec fn no_percent(s: Seq<u8>) -> bool {
    forall|j: int| 0 <= j < s.len() ==> s[j] != 37
}

/// The number of conversions (`%d`, `%s`, `%x`) `printk` meets in `fmt`
/// from byte `i` on; each takes one argument.
pub open spec fn conversions_from(fmt: Seq<u8>, i: int) -> nat
    decreases fmt.len() - i,
{
    if i >= fmt.len() {
        0
    } else if fmt[i] == 37 && i + 1 < fmt.len() {
        let d = fmt[i + 1];
        if d == 100 || d == 115 || d == 120 {
            1 + conversions_from(fmt, i + 2)
        } else {
            conversions_from(fmt, i + 2)
        }
    } else {
        conversions_from(fmt, i + 1)
    }
}

/// `printk` never reads an argument past those its format's conversions
/// take: with at least that many arguments, any further arguments change
/// neither what is written nor whether the format is accepted.
pub proof fn lemma_printk_extra_args_unused(
    fmt: Seq<u8>,
    args: Seq<PrintkArg>,
    extra: Seq<PrintkArg>,
    i: int,
    ai: int,
)
    requires
        0 <= ai,
        ai + conversions_from(fmt, i) <= args.len(),
    ensures
        printk_from(fmt, args + extra, i, ai) == printk_from(fmt, args, i, ai),
        printk_accepts(fmt, args + extra, i, ai) == printk_accepts(fmt, args, i, ai),
    decreases fmt.len() - i,
{
    if i < fmt.len() {
        if fmt[i] == 37 && i + 1 < fmt.len() {
            let d = fmt[i + 1];
            if d == 100 || d == 115 || d == 120 {
                assert((args + extra)[ai] == args[ai]);
                lemma_printk_extra_args_unused(fmt, args, extra, i + 2, ai + 1);
            } else {
                lemma_printk_extra_args_unused(fmt, args, extra, i + 2, ai);
            }
        } else {
            lemma_printk_extra_args_unused(fmt, args, extra, i + 1, ai);
        }
    }
}

/// A format with no `%` is written as it is, whatever the arguments.
pub proof fn lemma_printk_plain(fmt: Seq<u8>, args: Seq<PrintkArg>, i: int, ai: int)
    requires
        0 <= i <= fmt.len(),
        forall|j: int| 0 <= j < fmt.len() ==> fmt[j] != 37,
    ensures
        printk_from(fmt, args, i, ai) == fmt.skip(i),
        printk_accepts(fmt, args, i, ai),
    decreases fmt.len() - i,
{
    if i < fmt.len() {
        lemma_printk_plain(fmt, args, i + 1, ai);
        assert(fmt.skip(i) =~= seq![fmt[i]] + fmt.skip(i + 1));
    } else {
        assert(fmt.skip(i) =~= Seq::<u8>::empty());
    }
}

/// With no `Int` among the arguments, every format is accepted.
pub proof fn lemma_printk_accepts_without_int(fmt: Seq<u8>, args: Seq<PrintkArg>, i: int, ai: int)
    requires
        forall|k: int| 0 <= k < args.len() ==> !(args[k] is Int),
    ensures
        printk_accepts(fmt, args, i, ai),
    decreases fmt.len() - i,
{
    if i < fmt.len() {
        if fmt[i] == 37 && i + 1 < fmt.len() {
            let d = fmt[i + 1];
            if d == 100 || d == 115 || d == 120 {
                lemma_printk_accepts_without_int(fmt, args, i + 2, ai + 1);
            } else {
                lemma_printk_accepts_without_int(fmt, args, i + 2, ai);
            }
        } else {
            lemma_printk_accepts_without_int(fmt, args, i + 1, ai);
        }
    }
}

/// The buffer after `text` has been written into consecutive cells from
/// `pos` on, without moving the cursor.
pub open spec fn put_text(bytes: Seq<u8>, pos: int, text: Seq<u8>, attr: u8) -> Seq<u8>
    decreases text.len(),
{
    if text.len() == 0 {
        bytes
    } else {
        put_cell(put_text(bytes, pos, text.drop_last(), attr), pos + text.len() - 1, text.last(), attr)
    }
}

/// Writing one byte into consecutive cells is writing one cell.
proof fn lemma_put_text_one(bytes: Seq<u8>, pos: int, c: u8, attr: u8)
    ensures
        put_text(bytes, pos, seq![c], attr) == put_cell(bytes, pos, c, attr),
{
    assert(seq![c].drop_last() =~= Seq::<u8>::empty());
    assert(put_text(bytes, pos, Seq::<u8>::empty(), attr) == bytes);
}

/// Writing two texts into consecutive cells is writing their concatenation.
pub proof fn lemma_put_text_concat(bytes: Seq<u8>, pos: int, a: Seq<u8>, b: Seq<u8>, attr: u8)
    ensures
        put_text(bytes, pos, a + b, attr) == put_text(put_text(bytes, pos, a, attr), pos + a.len(), b, attr),
    decreases b.len(),
{
    if b.len() == 0 {
        assert(a + b =~= a);
    } else {
        lemma_put_text_concat(bytes, pos, a, b.drop_last(), attr);
        assert((a + b).drop_last() =~= a + b.drop_last());
    }
}

/// Writes `n` in decimal into consecutive cells from `pos` on and returns the
/// cell after the last digit; the cursor does not move.
pub fn putnbr(con: &mut Console, n: isize, color: Colors, pos: usize) -> (next: usize)
    requires
        old(con).wf(),
        n != isize::MIN,
        pos + signed_dec_text(n as int).len() <= VGA_CELLS,
    ensures
        final(con)@ == (Screen {
            bytes: put_text(old(con)@.bytes, pos as int, signed_dec_text(n as int), color_code(color)),
            ..old(con)@
        }),
        next == pos + signed_dec_text(n as int).len(),
        final(con).wf(),
    decreases
            if n < 0 {
                2 * (-n) + 1
            } else {
                2 * n
            },
{
    let ghost start = con@;
    let ghost attr = color_code(color);
    if n < 0 {
        putchar(con, 45, color, pos);
        proof {
            lemma_put_text_one(start.bytes, pos as int, 45u8, attr);
            lemma_put_text_concat(start.bytes, pos as int, seq![45u8], dec_text((-n) as nat), attr);
        }
        putnbr(con, -n, color, pos + 1)
    } else if n > 9 {
        let cur = putnbr(con, n / 10, color, pos);
        let next = putnbr(con, n % 10, color, cur);
        proof {
            let d = digit_char((n % 10) as int);
            assert(signed_dec_text((n % 10) as int) == seq![d]);
            lemma_put_text_concat(start.bytes, pos as int, dec_text((n / 10) as nat), seq![d], attr);
            assert(dec_text((n / 10) as nat) + seq![d] =~= dec_text((n / 10) as nat).push(d));
        }
        next
    } else {
        putchar(con, 48 + n as u8, color, pos);
        proof {
            lemma_put_text_one(start.bytes, pos as int, (48 + n) as u8, attr);
        }
        pos + 1
    }
}

/// The cell `putstr` reaches after `text`, starting at cell `pos`: a newline
/// jumps to the start of the next row, any other byte moves one cell on.
pub open spec fn putstr_pos(pos: int, text: Seq<u8>) -> int
    decreases text.len(),
{
    if text.len() == 0 {
        pos
    } else {
        let p = putstr_pos(pos, text.drop_last());
        if text.last() == 10 {
            (p / VGA_WIDTH as int + 1) * VGA_WIDTH
        } else {
            p + 1
        }
    }
}

/// The buffer after `putstr` has written `text` from cell `pos` on.
pub open spec fn putstr_bytes(bytes: Seq<u8>, pos: int, text: Seq<u8>, attr: u8) -> Seq<u8>
    decreases text.len(),
{
    if text.len() == 0 {
        bytes
    } else {
        let b = putstr_bytes(bytes, pos, text.drop_last(), attr);
        if text.last() == 10 {
            b
        } else {
            put_cell(b, putstr_pos(pos, text.drop_last()), text.last(), attr)
        }
    }
}

/// Every cell `putstr` writes `text` into, from cell `pos` on, is on the
/// screen, and every cell index it computes fits in a `usize`.
pub open spec fn putstr_fits(pos: int, text: Seq<u8>) -> bool {
    &&& forall|j: int| 0 <= j < text.len() && text[j] != 10 ==> putstr_pos(pos, #[trigger] text.take(j)) < VGA_CELLS
    &&& forall|j: int| 0 <= j <= text.len() ==> putstr_pos(pos, #[trigger] text.take(j)) <= usize::MAX
}

/// Writes the bytes of `s` before its first NUL into the cells from
/// `start_pos` on, a newline jumping to the start of the next row; the
/// cursor does not move.
pub fn putstr(con: &mut Console, s: &[u8], color: Colors, start_pos: usize)
    requires
        old(con).wf(),
        putstr_fits(start_pos as int, c_str(s@)),
    ensures
        final(con)@ == (Screen {
            bytes: putstr_bytes(old(con)@.bytes, start_pos as int, c_str(s@), color_code(color)),
            ..old(con)@
        }),
        final(con).wf(),
{
    let ghost start = con@;
    let ghost attr = color_code(color);
    let ghost text = c_str(s@);
    proof {
        lemma_c_strlen(s@);
    }
    let mut pos = start_pos;
    let mut i: usize = 0;
    while i < s.len() && s[i] != 0
        invariant
            i <= s.len(),
            forall|j: int| 0 <= j < i ==> s[j] != 0u8,
            con.wf(),
            con@.row == start.row,
            con@.col == start.col,
            attr == color_code(color),
            text == c_str(s@),
            c_strlen(s@) <= s.len(),
            forall|j: int| 0 <= j < c_strlen(s@) ==> s[j] != 0,
            c_strlen(s@) < s.len() ==> s[c_strlen(s@) as int] == 0,
            putstr_fits(start_pos as int, text),
            pos == putstr_pos(start_pos as int, s@.take(i as int)),
            con@.bytes == putstr_bytes(start.bytes, start_pos as int, s@.take(i as int), attr),
        decreases s.len() - i,
    {
        let c = s[i];
        proof {
            if c_strlen(s@) <= i {
                assert(s[c_strlen(s@) as int] == 0);
            }
            assert(text.take(i as int) =~= s@.take(i as int));
            assert(text[i as int] == c);
            assert(s@.take(i + 1).drop_last() =~= s@.take(i as int));
            assert(text.take(i + 1) =~= s@.take(i + 1));
            assert(putstr_pos(start_pos as int, text.take(i + 1)) <= usize::MAX);
        }
        if c == 10 {
            pos = (pos / VGA_WIDTH + 1) * VGA_WIDTH;
        } else {
            putchar(con, c, color, pos);
            pos += 1;
        }
        i += 1;
    }
    proof {
        lemma_c_strlen_unique(s@, i as int);
    }
}

/// The number a string of decimal digits stands for.
pub open spec fn dec_value(t: Seq<u8>) -> int
    decreases t.len(),
{
    if t.len() == 0 {
        0
    } else {
        dec_value(t.drop_last()) * 10 + (t.last() - 48)
    }
}

/// The number a decimal text with an optional leading minus sign stands for.
pub open spec fn signed_dec_value(t: Seq<u8>) -> int {
    if t.len() > 0 && t[0] == 45 {
        -dec_value(t.drop_first())
    } else {
        dec_value(t)
    }
}

/// Whether `c` is one of the ASCII digits `0` to `9`.
pub open spec fn is_dec_digit(c: u8) -> bool {
    48 <= c <= 57
}

/// The decimal digits of `n` are digits, the first is `0` only for zero, and
/// they stand for `n`.
pub proof fn lemma_dec_text(n: nat)
    ensures
        dec_text(n).len() >= 1,
        forall|i: int| 0 <= i < dec_text(n).len() ==> is_dec_digit(#[trigger] dec_text(n)[i]),
        dec_text(n)[0] == 48 ==> n == 0,
        dec_value(dec_text(n)) == n,
    decreases n,
{
    if n > 9 {
        lemma_dec_text(n / 10);
        let t = dec_text(n);
        assert(t.drop_last() =~= dec_text(n / 10));
        assert forall|i: int| 0 <= i < t.len() implies is_dec_digit(#[trigger] t[i]) by {
            if i < t.len() - 1 {
                assert(t[i] == dec_text(n / 10)[i]);
            }
        }
        assert(t[0] == dec_text(n / 10)[0]);
        assert(digit_char((n % 10) as int) == 48 + n % 10);
        assert(dec_value(t) == dec_value(dec_text(n / 10)) * 10 + n % 10);
    } else {
        let t = seq![digit_char(n as int)];
        assert(t.drop_last() =~= Seq::<u8>::empty());
        assert(digit_char(n as int) == 48 + n);
        assert(dec_value(t) == dec_value(Seq::<u8>::empty()) * 10 + n);
    }
}

/// What `printk_nbr` and `%d` write reads back as the number that was
/// written.
pub proof fn lemma_signed_dec_round_trip(n: int)
    ensures
        signed_dec_value(signed_dec_text(n)) == n,
{
    if n < 0 {
        lemma_dec_text((-n) as nat);
        let t = signed_dec_text(n);
        assert(t.drop_first() =~= dec_text((-n) as nat));
    } else {
        lemma_dec_text(n as nat);
        assert(is_dec_digit(dec_text(n as nat)[0]));
    }
}

/// The value of an upper-case hexadecimal digit character.
pub open spec fn hex_digit_value(c: u8) -> int {
    if c <= 57 {
        c - 48
    } else {
        c - 55
    }
}

/// The number a string of hexadecimal digits stands for.
pub open spec fn hex_value(t: Seq<u8>) -> int
    decreases t.len(),
{
    if t.len() == 0 {
        0
    } else {
        hex_value(t.drop_last()) * 16 + hex_digit_value(t.last())
    }
}

/// What `printk_hex` and `%x` write is `0x` and then ten characters in all,
/// whose digits read back as the number that was written.
pub proof fn lemma_hex_round_trip(n: u32)
    ensures
        hex_text(n).len() == 10,
        hex_text(n)[0] == 48 && hex_text(n)[1] == 120,
        hex_value(hex_text(n).skip(2)) == n,
{
    let d = |k: int| hex_nibble(n, k);
    assert(hex_nibble(n, 0) == ((n >> 0u32) & 0xF) as int);
    assert(hex_nibble(n, 1) == ((n >> 4u32) & 0xF) as int);
    assert(hex_nibble(n, 2) == ((n >> 8u32) & 0xF) as int);
    assert(hex_nibble(n, 3) == ((n >> 12u32) & 0xF) as int);
    assert(hex_nibble(n, 4) == ((n >> 16u32) & 0xF) as int);
    assert(hex_nibble(n, 5) == ((n >> 20u32) & 0xF) as int);
    assert(hex_nibble(n, 6) == ((n >> 24u32) & 0xF) as int);
    assert(hex_nibble(n, 7) == ((n >> 28u32) & 0xF) as int);
    assert(n == ((n >> 28u32) & 0xF) * 0x10000000 + ((n >> 24u32) & 0xF) * 0x1000000 + ((n >> 20u32) & 0xF)
        * 0x100000 + ((n >> 16u32) & 0xF) * 0x10000 + ((n >> 12u32) & 0xF) * 0x1000 + ((n >> 8u32) & 0xF)
        * 0x100 + ((n >> 4u32) & 0xF) * 0x10 + ((n >> 0u32) & 0xF)) by (bit_vector);
    assert forall|k: int| 0 <= k < 8 implies 0 <= #[trigger] hex_nibble(n, k) < 16 && hex_digit_value(
        hex_digit(hex_nibble(n, k)),
    ) == hex_nibble(n, k) by {
        let sh: u32 = (4 * k) as u32;
        assert((n >> sh) & 0xF < 16) by (bit_vector);
    }
    let t = hex_text(n).skip(2);
    let h = |k: int| hex_digit(hex_nibble(n, k));
    assert(t =~= seq![h(7), h(6), h(5), h(4), h(3), h(2), h(1), h(0)]);
    reveal_with_fuel(hex_value, 9);
    assert(hex_value(t) == ((((((hex_nibble(n, 7) * 16 + hex_nibble(n, 6)) * 16 + hex_nibble(n, 5)) * 16
        + hex_nibble(n, 4)) * 16 + hex_nibble(n, 3)) * 16 + hex_nibble(n, 2)) * 16 + hex_nibble(n, 1)) * 16
        + hex_nibble(n, 0));
}

/// Erasing right after writing a character puts the cursor back where it was
/// and leaves that cell blank, unless the character was written in the last
/// cell of the screen, which scrolls.
pub proof fn lemma_backspace_after_char(s: Screen, c: u8, attr: u8)
    requires
        s.valid(),
        c != 10,
        !(s.row == VGA_HEIGHT - 1 && s.col == VGA_WIDTH - 1),
    ensures
        backspace_step(char_step(s, c, attr)) == (Screen { bytes: put_cell(s.bytes, s.cursor_pos(), 32, 0), ..s }),
{
    let t = char_step(s, c, attr);
    let pos = s.cursor_pos();
    assert(backspace_step(t).bytes =~= put_cell(s.bytes, pos, 32, 0));
}

/// A newline above the last row moves the cursor to the start of the next row
/// and changes no cell; on the last row it scrolls.
pub proof fn lemma_newline(s: Screen, attr: u8)
    requires
        s.valid(),
    ensures
        s.row < VGA_HEIGHT - 1 ==> char_step(s, 10, attr) == (Screen { bytes: s.bytes, row: s.row + 1, col: 0 }),
        s.row == VGA_HEIGHT - 1 ==> char_step(s, 10, attr) == (Screen {
            bytes: scrolled(s.bytes),
            row: VGA_HEIGHT - 1,
            col: 0,
        }),
{
}

/// When output goes past the last row the screen scrolls: every cell takes
/// what the cell one row below it held (for a character written into the
/// last cell, with that character in place), the last row becomes blank and
/// the cursor goes to the start of the last row.
pub proof fn lemma_scroll_moves_rows_up(s: Screen, c: u8, attr: u8)
    requires
        s.valid(),
        s.row == VGA_HEIGHT - 1,
        c == 10 || s.col == VGA_WIDTH - 1,
    ensures
        ({
            let t = char_step(s, c, attr);
            &&& t.row == VGA_HEIGHT - 1 && t.col == 0
            &&& t.bytes.len() == VGA_BYTES
            &&& c == 10 ==> forall|i: int| 0 <= i < VGA_BYTES - 2 * VGA_WIDTH ==> #[trigger] t.bytes[i] == s.bytes[i + 2 * VGA_WIDTH]
            &&& c != 10 ==> forall|i: int|
                0 <= i < VGA_BYTES - 2 * VGA_WIDTH - 2 ==> #[trigger] t.bytes[i] == s.bytes[i + 2 * VGA_WIDTH]
            &&& c != 10 ==> t.bytes[VGA_BYTES - 2 * VGA_WIDTH - 2] == c && t.bytes[VGA_BYTES - 2 * VGA_WIDTH - 1] == attr
            &&& forall|i: int| VGA_BYTES - 2 * VGA_WIDTH <= i < VGA_BYTES ==> #[trigger] t.bytes[i] == (if i % 2 == 0 {
                32u8
            } else {
                0u8
            })
        }),
{
}

/// A character other than a newline, written anywhere but in the last cell,
/// lands in the cursor's cell with the given attribute, leaves every other
/// cell alone, and moves the cursor one cell on, to the next row's start at
/// the end of a row.
pub proof fn lemma_char_written_at_cursor(s: Screen, c: u8, attr: u8)
    requires
        s.valid(),
        c != 10,
        !(s.row == VGA_HEIGHT - 1 && s.col == VGA_WIDTH - 1),
    ensures
        ({
            let t = char_step(s, c, attr);
            let pos = s.row * VGA_WIDTH + s.col;
            &&& t.bytes.len() == VGA_BYTES
            &&& t.bytes[2 * pos] == c
            &&& t.bytes[2 * pos + 1] == attr
            &&& forall|i: int| 0 <= i < VGA_BYTES && i != 2 * pos && i != 2 * pos + 1 ==> #[trigger] t.bytes[i] == s.bytes[i]
            &&& s.col < VGA_WIDTH - 1 ==> t.row == s.row && t.col == s.col + 1
            &&& s.col == VGA_WIDTH - 1 ==> t.row == s.row + 1 && t.col == 0
        }),
{
}

/// Backspace moves the cursor back one cell (to the last column of the row
/// above from the first column; not at all from the top-left corner), blanks
/// the cell it moves to, and leaves every other cell alone.
pub proof fn lemma_backspace_positions(s: Screen)
    requires
        s.valid(),
    ensures
        ({
            let t = backspace_step(s);
            &&& t.valid()
            &&& s.row == 0 && s.col == 0 ==> t == s
            &&& s.col > 0 ==> t.row == s.row && t.col == s.col - 1
            &&& s.col == 0 && s.row > 0 ==> t.row == s.row - 1 && t.col == VGA_WIDTH - 1
            &&& !(s.row == 0 && s.col == 0) ==> {
                let pos = t.row * VGA_WIDTH + t.col;
                &&& pos == s.row * VGA_WIDTH + s.col - 1
                &&& t.bytes[2 * pos] == 32 && t.bytes[2 * pos + 1] == 0
                &&& forall|i: int|
                    0 <= i < VGA_BYTES && i != 2 * pos && i != 2 * pos + 1 ==> #[trigger] t.bytes[i] == s.bytes[i]
            }
        }),
{
}

/// What each conversion writes: `%d` the decimal text of its `Int`, `%x`
/// the hexadecimal text of its `Hex`, `%s` its `Str` up to the first NUL,
/// and nothing for an argument of another kind or a missing one; `%%`
/// writes one `%`, any other `%` pair and a final lone `%` are written as
/// they are.
pub proof fn lemma_printk_conversions(n: i32, h: u32, t: &'static [u8], d: u8)
    ensures
        printk_text(seq![37u8, 100], seq![PrintkArg::Int(n)]) == signed_dec_text(n as int),
        printk_text(seq![37u8, 120], seq![PrintkArg::Hex(h)]) == hex_text(h),
        printk_text(seq![37u8, 115], seq![PrintkArg::Str(t)]) == c_str(t@),
        printk_text(seq![37u8, 100], seq![PrintkArg::Hex(h)]) == Seq::<u8>::empty(),
        printk_text(seq![37u8, 120], Seq::<PrintkArg>::empty()) == Seq::<u8>::empty(),
        printk_text(seq![37u8, 37], Seq::<PrintkArg>::empty()) == seq![37u8],
        d != 100 && d != 115 && d != 120 && d != 37 ==> printk_text(seq![37u8, d], Seq::<PrintkArg>::empty())
            == seq![37u8, d],
        printk_text(seq![37u8], Seq::<PrintkArg>::empty()) == seq![37u8],
{
    reveal_with_fuel(printk_from, 3);
    assert(signed_dec_text(n as int) + Seq::<u8>::empty() =~= signed_dec_text(n as int));
    assert(hex_text(h) + Seq::<u8>::empty() =~= hex_text(h));
    assert(c_str(t@) + Seq::<u8>::empty() =~= c_str(t@));
    assert(Seq::<u8>::empty() + Seq::<u8>::empty() =~= Seq::<u8>::empty());
    assert(seq![37u8] + Seq::<u8>::empty() =~= seq![37u8]);
    assert(seq![37u8, d] + Seq::<u8>::empty() =~= seq![37u8, d]);
}

} // verus!
