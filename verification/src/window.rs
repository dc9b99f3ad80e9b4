//! The text buffer: an ordered sequence of character rows, a cursor, the
//! active mode, a dirty flag for the renderer, and a snapshot stack for undo.
//!
//! Every operation is total: requests outside the valid range are silently
//! clamped or ignored, never an error. Rows and row count are bounded by
//! what a 16-bit cursor coordinate can address.

use vstd::prelude::*;

use crate::editor::Mode;
use crate::rows::copy_lines;
use crate::rows::copy_row;
use crate::rows::cut_row;
use crate::rows::splice_row;
use vstd::pervasive::VecAdditionalExecFns;

verus! {

broadcast use crate::rows::lemma_vec_char_deep_view;

/// Zero-based (column, row) position, owned by exactly one `Window`.
pub struct Cursor {
    pub x: u16,
    pub y: u16,
}

/// A full copy of the buffer rows and cursor position, captured for undo.
pub struct Snapshot {
    pub lines: Vec<Vec<char>>,
    pub x: u16,
    pub y: u16,
}

/// The document being edited, with its cursor, mode and undo history.
pub struct Window {
    pub buffer: Vec<Vec<char>>,
    pub render_buffer: bool,
    pub cursor: Cursor,
    pub mode: Mode,
    pub file_path: String,
    pub undo_stack: Vec<Snapshot>,
}

/// Mathematical model of a snapshot: the rows and the cursor it captured.
#[verifier::ext_equal]
pub struct SnapView {
    pub lines: Seq<Seq<char>>,
    pub x: int,
    pub y: int,
}

/// Mathematical model of a window. Contracts of every buffer operation are
/// stated as a transformation of this value.
#[verifier::ext_equal]
pub struct WinView {
    pub lines: Seq<Seq<char>>,
    pub x: int,
    pub y: int,
    pub mode: Mode,
    pub dirty: bool,
    pub path: Seq<char>,
    pub snaps: Seq<SnapView>,
}

impl DeepView for Snapshot {
    type V = SnapView;

    open spec fn deep_view(&self) -> SnapView {
        SnapView { lines: self.lines.deep_view(), x: self.x as int, y: self.y as int }
    }
}

impl View for Window {
    type V = WinView;

    open spec fn view(&self) -> WinView {
        WinView {
            lines: self.buffer.deep_view(),
            x: self.cursor.x as int,
            y: self.cursor.y as int,
            mode: self.mode,
            dirty: self.render_buffer,
            path: self.file_path@,
            snaps: self.undo_stack.deep_view(),
        }
    }
}

/// Rows a 16-bit row coordinate can address, and a row length a 16-bit
/// column coordinate can sit one past the end of.
pub open spec fn lines_wf(lines: Seq<Seq<char>>) -> bool {
    &&& 1 <= lines.len() <= 65536
    &&& forall|i: int| 0 <= i < lines.len() ==> (#[trigger] lines[i]).len() <= 65535
}

impl SnapView {
    pub open spec fn wf(self) -> bool {
        &&& lines_wf(self.lines)
        &&& 0 <= self.y < self.lines.len()
        &&& 0 <= self.x <= self.lines[self.y].len()
    }
}

impl WinView {
    /// The buffer invariant: at least one row, every coordinate addressable,
    /// the cursor on an existing row and at most one past its last
    /// character, and every stored snapshot equally well formed.
    pub open spec fn wf(self) -> bool {
        &&& lines_wf(self.lines)
        &&& 0 <= self.y < self.lines.len()
        &&& 0 <= self.x <= self.lines[self.y].len()
        &&& forall|i: int| 0 <= i < self.snaps.len() ==> (#[trigger] self.snaps[i]).wf()
    }
}

/// Greatest column `move_cursor` may select on a row of length `len`: the
/// last character in Normal mode, one past the end in Insert mode on any
/// non-empty row, and column 0 on an empty row.
pub open spec fn max_col_spec(len: int, insert: bool) -> int {
    if len == 0 {
        0
    } else if insert {
        len
    } else {
        len - 1
    }
}

/// What `char::is_alphanumeric` returns: a function of the character alone
/// (membership in the Unicode letter and number categories).
pub uninterp spec fn is_alnum(c: char) -> bool;

/// Relies on `char::is_alphanumeric`: whether the character is in one of
/// the Unicode letter or number categories, determined by the character
/// alone.
pub assume_specification[ char::is_alphanumeric ](c: char) -> (r: bool)
    ensures
        r == is_alnum(c),
;

/// Where the word around column `x` begins: scan left from `x` while the
/// character just before the scan position is alphanumeric. On an empty
/// row the cursor column itself.
pub open spec fn word_start_at(line: Seq<char>, x: int) -> int
    decreases x,
{
    if line.len() == 0 {
        x
    } else if x <= 0 {
        x
    } else if is_alnum(line[x - 1]) {
        word_start_at(line, x - 1)
    } else {
        x
    }
}

/// Where the word around column `x` ends: scan right from `x` while the
/// character just after the scan position is alphanumeric. On a row of
/// length at most one, column 0; at or past the last character, `x` itself.
pub open spec fn word_end_at(line: Seq<char>, x: int) -> int
    decreases line.len() - x,
{
    if line.len() <= 1 {
        0
    } else if x >= line.len() - 1 {
        x
    } else if is_alnum(line[x + 1]) {
        word_end_at(line, x + 1)
    } else {
        x
    }
}

/// What `move_cursor` does: clamp the requested row into the buffer, then
/// clamp the requested column by the mode-dependent width of that row.
pub open spec fn move_cursor_view(v: WinView, x: int, y: int) -> WinView {
    let ymax = v.lines.len() - 1;
    let y2 = if y > ymax { ymax } else { y };
    let xmax = max_col_spec(v.lines[y2].len() as int, v.mode == Mode::Insert);
    let x2 = if x > xmax { xmax } else { x };
    WinView { x: x2, y: y2, ..v }
}

/// What `insert` does: splice the text into the cursor row at the cursor
/// column and advance the column past it, or change nothing but the dirty
/// flag when the row would outgrow what a 16-bit column can address.
pub open spec fn insert_view(v: WinView, s: Seq<char>) -> WinView {
    let line = v.lines[v.y];
    if line.len() + s.len() <= 65535 {
        WinView {
            lines: v.lines.update(v.y, line.take(v.x) + s + line.skip(v.x)),
            x: v.x + s.len(),
            dirty: true,
            ..v
        }
    } else {
        WinView { dirty: true, ..v }
    }
}

/// What `delete_under_cursor` does: remove the character under the cursor,
/// or nothing when the cursor sits at or past the end of the row.
pub open spec fn delete_under_cursor_view(v: WinView) -> WinView {
    let line = v.lines[v.y];
    if v.x < line.len() {
        WinView { lines: v.lines.update(v.y, line.remove(v.x)), dirty: true, ..v }
    } else {
        v
    }
}

/// What `delete_word` does: clear a row of length at most one and reset the
/// column; otherwise remove the inclusive range from the word start to the
/// word end around the cursor (clamped to the row end) and land on the word
/// start.
pub open spec fn delete_word_view(v: WinView) -> WinView {
    let line = v.lines[v.y];
    if line.len() <= 1 {
        WinView { lines: v.lines.update(v.y, Seq::empty()), x: 0, dirty: true, ..v }
    } else {
        let s = word_start_at(line, v.x);
        let e = word_end_at(line, v.x);
        let e2 = if e + 1 <= line.len() { e + 1 } else { line.len() as int };
        WinView { lines: v.lines.update(v.y, line.take(s) + line.skip(e2)), x: s, dirty: true, ..v }
    }
}

/// What `insert_line_below` does: add an empty row just below the cursor
/// row and land on its first column, or change nothing but the dirty flag
/// at the row-count bound.
pub open spec fn insert_line_below_view(v: WinView) -> WinView {
    if v.lines.len() < 65536 {
        WinView { lines: v.lines.insert(v.y + 1, Seq::empty()), x: 0, y: v.y + 1, dirty: true, ..v }
    } else {
        WinView { dirty: true, ..v }
    }
}

/// What `insert_line_above` does: add an empty row at the cursor row, which
/// then names the new row, and reset the column, or change nothing but the
/// dirty flag at the row-count bound.
pub open spec fn insert_line_above_view(v: WinView) -> WinView {
    if v.lines.len() < 65536 {
        WinView { lines: v.lines.insert(v.y, Seq::empty()), x: 0, dirty: true, ..v }
    } else {
        WinView { dirty: true, ..v }
    }
}

/// What `delete_line` does: remove the cursor row and re-clamp the cursor
/// onto the row that takes its place, or nothing when it is the only row
/// (the buffer never goes empty).
pub open spec fn delete_line_view(v: WinView) -> WinView {
    if v.lines.len() > 1 {
        let nl = v.lines.remove(v.y);
        let y2 = if v.y < nl.len() { v.y } else { nl.len() - 1 };
        let x2 = if v.x <= nl[y2].len() { v.x } else { nl[y2].len() as int };
        WinView { lines: nl, x: x2, y: y2, dirty: true, ..v }
    } else {
        v
    }
}

/// What `push_snapshot` does: capture the rows and the cursor on top of
/// the undo stack; nothing else changes.
pub open spec fn push_snapshot_view(v: WinView) -> WinView {
    WinView { snaps: v.snaps.push(SnapView { lines: v.lines, x: v.x, y: v.y }), ..v }
}

/// What `do_undo` does: replace rows and cursor with the most recent
/// snapshot and drop it from the stack; with an empty stack, nothing.
pub open spec fn undo_view(v: WinView) -> WinView {
    if v.snaps.len() == 0 {
        v
    } else {
        let s = v.snaps.last();
        WinView { lines: s.lines, x: s.x, y: s.y, snaps: v.snaps.drop_last(), dirty: true, ..v }
    }
}

/// Law: undo restores, row for row and cursor for cursor, exactly the
/// state that the immediately preceding snapshot captured, and leaves the
/// stack as it was before that snapshot; undo with an empty stack changes
/// nothing.
pub proof fn lemma_snapshot_then_undo(v: WinView)
    ensures
        undo_view(push_snapshot_view(v)).lines == v.lines,
        undo_view(push_snapshot_view(v)).x == v.x,
        undo_view(push_snapshot_view(v)).y == v.y,
        undo_view(push_snapshot_view(v)).snaps == v.snaps,
        v.snaps.len() == 0 ==> undo_view(v) == v,
{
    assert(push_snapshot_view(v).snaps.drop_last() =~= v.snaps);
}

/// Index of the first line break in `content`, or its length if none.
pub open spec fn line_break_at(content: Seq<char>) -> nat
    decreases content.len(),
{
    if content.len() == 0 {
        0
    } else if content[0] == '\n' {
        0
    } else {
        1 + line_break_at(content.drop_first())
    }
}

/// `line_break_at` finds the first `'\n'`: nothing before it is one, and
/// it points at one unless there is none at all.
pub proof fn lemma_line_break_at(s: Seq<char>)
    ensures
        0 <= line_break_at(s) <= s.len(),
        forall|j: int| 0 <= j < line_break_at(s) ==> s[j] != '\n',
        line_break_at(s) < s.len() ==> s[line_break_at(s) as int] == '\n',
    decreases s.len(),
{
    if s.len() == 0 {
    } else if s[0] == '\n' {
    } else {
        lemma_line_break_at(s.drop_first());
        assert forall|j: int| 0 <= j < line_break_at(s) implies s[j] != '\n' by {
            if j > 0 {
                assert(s.drop_first()[j - 1] == s[j]);
            }
        }
        if line_break_at(s) < s.len() {
            assert(s.drop_first()[line_break_at(s.drop_first()) as int] == s[line_break_at(
                s,
            ) as int]);
        }
    }
}

/// A carriage return just before a line break is part of the break: drop
/// it from the row it would otherwise end.
pub open spec fn strip_cr(line: Seq<char>) -> Seq<char> {
    if line.len() > 0 && line[line.len() - 1] == '\r' {
        line.drop_last()
    } else {
        line
    }
}

/// How file content becomes rows: split on each line break (a `'\n'`,
/// which absorbs a `'\r'` just before it); empty content is one empty row,
/// and a trailing line break yields a final empty row.
pub open spec fn split_lines(content: Seq<char>) -> Seq<Seq<char>>
    decreases content.len(),
{
    let i = line_break_at(content) as int;
    if i >= content.len() {
        seq![content]
    } else {
        seq![strip_cr(content.take(i))] + split_lines(content.skip(i + 1))
    }
}

/// How rows become file content: the rows joined with a `'\n'` between
/// each pair.
pub open spec fn join_lines(lines: Seq<Seq<char>>) -> Seq<char>
    decreases lines.len(),
{
    if lines.len() == 0 {
        Seq::empty()
    } else if lines.len() == 1 {
        lines[0]
    } else {
        lines[0] + seq!['\n'] + join_lines(lines.drop_first())
    }
}

/// Splitting at a known first line break peels off one row.
pub proof fn lemma_split_lines_step(s: Seq<char>, n: int)
    requires
        0 <= n < s.len(),
        s[n] == '\n',
        forall|j: int| 0 <= j < n ==> s[j] != '\n',
    ensures
        split_lines(s) == seq![strip_cr(s.take(n))] + split_lines(s.skip(n + 1)),
{
    lemma_line_break_at(s);
    let lb = line_break_at(s) as int;
    assert(lb >= n);
    assert(lb <= n) by {
        if lb > n {
            assert(s[n] != '\n');
        }
    }
}

/// Content without any line break splits into that single row.
pub proof fn lemma_split_lines_whole(s: Seq<char>)
    requires
        forall|j: int| 0 <= j < s.len() ==> s[j] != '\n',
    ensures
        split_lines(s) == seq![s],
{
    lemma_line_break_at(s);
    assert(line_break_at(s) >= s.len()) by {
        if line_break_at(s) < s.len() {
            assert(s[line_break_at(s) as int] != '\n');
        }
    }
}

/// Joining one more row appends a line break and that row.
pub proof fn lemma_join_lines_push(lines: Seq<Seq<char>>, k: int)
    requires
        1 <= k < lines.len(),
    ensures
        join_lines(lines.take(k + 1)) == join_lines(lines.take(k)) + seq!['\n'] + lines[k],
    decreases k,
{
    let t = lines.take(k + 1);
    if k == 1 {
        assert(t.drop_first() =~= lines.subrange(1, 2));
        assert(join_lines(t.drop_first()) == lines[1]);
        assert(join_lines(lines.take(1)) == lines[0]);
        assert(join_lines(t) =~= join_lines(lines.take(1)) + seq!['\n'] + lines[1]);
    } else {
        lemma_join_lines_push(lines.drop_first(), k - 1);
        assert(t.drop_first() =~= lines.drop_first().take(k));
        assert(lines.take(k).drop_first() =~= lines.drop_first().take(k - 1));
        assert(lines.drop_first().take(k)[k - 1] == lines[k]);
        assert(lines.drop_first().take(k - 1 + 1) == lines.drop_first().take(k));
        assert(join_lines(t) =~= join_lines(lines.take(k)) + seq!['\n'] + lines[k]);
    }
}

/// Law: saving and loading round-trip. Joining rows with line breaks and
/// splitting the result reproduces the row sequence exactly, provided no
/// row contains a line break and no row before the last ends in a
/// carriage return (such a row would merge with or shorten at the break).
pub proof fn lemma_save_then_load_round_trip(lines: Seq<Seq<char>>)
    requires
        lines.len() >= 1,
        forall|i: int| 0 <= i < lines.len() ==> !(#[trigger] lines[i]).contains('\n'),
        forall|i: int|
            0 <= i < lines.len() - 1 ==> ((#[trigger] lines[i]).len() > 0 ==> lines[i][lines[i].len()
                - 1] != '\r'),
    ensures
        split_lines(join_lines(lines)) == lines,
    decreases lines.len(),
{
    let j = join_lines(lines);
    if lines.len() == 1 {
        assert forall|p: int| 0 <= p < j.len() implies j[p] != '\n' by {
            assert(!lines[0].contains('\n'));
        }
        lemma_split_lines_whole(j);
        assert(seq![j] =~= lines);
    } else {
        let a = lines[0];
        let rest = lines.drop_first();
        assert(j == a + seq!['\n'] + join_lines(rest));
        assert forall|p: int| 0 <= p < a.len() implies j[p] != '\n' by {
            assert(j[p] == a[p]);
            assert(!a.contains('\n'));
        }
        assert(j[a.len() as int] == '\n');
        lemma_split_lines_step(j, a.len() as int);
        assert(j.take(a.len() as int) =~= a);
        assert(strip_cr(a) == a);
        assert(j.skip(a.len() as int + 1) =~= join_lines(rest));
        assert forall|i: int| 0 <= i < rest.len() implies !(#[trigger] rest[i]).contains('\n') by {
            assert(rest[i] == lines[i + 1]);
        }
        assert forall|i: int|
            0 <= i < rest.len() - 1 && (#[trigger] rest[i]).len() > 0 implies rest[i][rest[i].len()
            - 1] != '\r' by {
            assert(rest[i] == lines[i + 1]);
        }
        lemma_save_then_load_round_trip(rest);
        assert(split_lines(j) =~= lines);
    }
}

impl Window {
    pub open spec fn wf(self) -> bool {
        self@.wf()
    }

    /// Length of the row the cursor is on.
    pub fn width(&self) -> (r: u16)
        requires
            self.wf(),
        ensures
            r as int == self@.lines[self@.y].len(),
    {
        self.buffer[self.cursor.y as usize].len() as u16
    }

    /// A copy of the row the cursor is on.
    pub fn line_buffer(&self) -> (r: Vec<char>)
        requires
            self.wf(),
        ensures
            r@ == self@.lines[self@.y],
    {
        copy_row(&self.buffer[self.cursor.y as usize])
    }

    /// Clamp the requested position into the buffer and place the cursor
    /// there: the row into `[0, rows-1]`, then the column into
    /// `[0, max_col_spec]` for the row so chosen, under the current mode.
    /// Never fails; out-of-range requests are silently clamped.
    pub fn move_cursor(&mut self, x: u16, y: u16)
        requires
            old(self).wf(),
        ensures
            final(self).wf(),
            final(self)@ == move_cursor_view(old(self)@, x as int, y as int),
            0 <= final(self)@.y < final(self)@.lines.len(),
            0 <= final(self)@.x <= max_col_spec(
                final(self)@.lines[final(self)@.y].len() as int,
                final(self)@.mode == Mode::Insert,
            ),
    {
        let rows: usize = self.buffer.len();
        let ymax: u16 = (rows - 1) as u16;
        let y2: u16 = if y > ymax { ymax } else { y };
        self.cursor.y = y2;
        let len: usize = self.buffer[y2 as usize].len();
        let is_insert = match self.mode { Mode::Insert => true, Mode::Normal => false };
        let xmax: u16 = if len == 0 {
            0
        } else if is_insert {
            len as u16
        } else {
            (len - 1) as u16
        };
        let x2: u16 = if x > xmax { xmax } else { x };
        self.cursor.x = x2;
        proof {
            assert(self@ =~~= move_cursor_view(old(self)@, x as int, y as int));
        }
    }

    /// First column of the word around the cursor. On an empty row the
    /// cursor column itself, unchanged.
    pub fn find_word_start(&self) -> (r: usize)
        requires
            self.wf(),
        ensures
            ({
                let line = self@.lines[self@.y];
                &&& r as int == word_start_at(line, self@.x)
                &&& r as int <= self@.x
                &&& line.len() == 0 ==> r as int == self@.x
            }),
    {
        let y = self.cursor.y as usize;
        let mut i: usize = self.cursor.x as usize;
        if self.buffer[y].len() == 0 {
            return i;
        }
        while i > 0
            invariant
                self.wf(),
                y == self@.y,
                0 <= i <= self@.x,
                self@.lines[y as int].len() > 0,
                word_start_at(self@.lines[y as int], i as int) == word_start_at(
                    self@.lines[y as int],
                    self@.x,
                ),
            decreases i,
        {
            if self.buffer[y][i - 1].is_alphanumeric() {
                i = i - 1;
            } else {
                return i;
            }
        }
        i
    }

    /// Last column of the word around the cursor. On a row of length at
    /// most one, column 0; at or past the last character, the cursor
    /// column itself.
    pub fn find_word_end(&self) -> (r: usize)
        requires
            self.wf(),
        ensures
            ({
                let line = self@.lines[self@.y];
                &&& r as int == word_end_at(line, self@.x)
                &&& line.len() <= 1 ==> r == 0
                &&& line.len() > 1 ==> self@.x <= r as int <= line.len()
            }),
    {
        let y = self.cursor.y as usize;
        let len = self.buffer[y].len();
        let mut i: usize = self.cursor.x as usize;
        if len <= 1 {
            return 0;
        }
        if i >= len - 1 {
            return i;
        }
        while i < len - 1
            invariant
                self.wf(),
                y == self@.y,
                len == self@.lines[y as int].len(),
                len > 1,
                self@.x <= i <= len - 1,
                word_end_at(self@.lines[y as int], i as int) == word_end_at(
                    self@.lines[y as int],
                    self@.x,
                ),
            decreases len - i,
        {
            if self.buffer[y][i + 1].is_alphanumeric() {
                i = i + 1;
            } else {
                return i;
            }
        }
        i
    }

    /// Splice `c` into the cursor row at the cursor column, advancing the
    /// column by one per character; marks the buffer dirty. When the row
    /// would outgrow a 16-bit column, the text is not inserted.
    pub fn insert(&mut self, c: &Vec<char>)
        requires
            old(self).wf(),
        ensures
            final(self).wf(),
            final(self)@ == insert_view(old(self)@, c@),
    {
        let y = self.cursor.y as usize;
        let x = self.cursor.x as usize;
        let row_len = self.buffer[y].len();
        if c.len() <= 65535 && row_len + c.len() <= 65535 {
            let nr = splice_row(&self.buffer[y], x, c);
            self.buffer.set(y, nr);
            self.cursor.x = (x + c.len()) as u16;
        }
        self.render_buffer = true;
        proof {
            assert(self@ =~~= insert_view(old(self)@, c@));
        }
    }

    /// Remove the character under the cursor; silently does nothing when
    /// the cursor is at or past the end of the row.
    pub fn delete_under_cursor(&mut self)
        requires
            old(self).wf(),
        ensures
            final(self).wf(),
            final(self)@ == delete_under_cursor_view(old(self)@),
    {
        let y = self.cursor.y as usize;
        let x = self.cursor.x as usize;
        if x >= self.buffer[y].len() {
            return;
        }
        let nr = cut_row(&self.buffer[y], x, x + 1);
        self.buffer.set(y, nr);
        self.render_buffer = true;
        proof {
            let line = old(self)@.lines[old(self)@.y];
            assert(line.remove(x as int) =~= line.take(x as int) + line.skip(x as int + 1));
            assert(self@ =~~= delete_under_cursor_view(old(self)@));
        }
    }

    /// Remove the word around the cursor: a row of length at most one is
    /// cleared and the column reset to 0; otherwise the inclusive range
    /// from the word start to the word end (clamped to the row end) is
    /// removed and the cursor lands on the word start.
    pub fn delete_word(&mut self)
        requires
            old(self).wf(),
        ensures
            final(self).wf(),
            final(self)@ == delete_word_view(old(self)@),
            old(self)@.lines[old(self)@.y].len() <= 1 ==> final(self)@.lines[final(self)@.y].len()
                == 0 && final(self)@.x == 0,
    {
        let y = self.cursor.y as usize;
        let w = self.buffer[y].len();
        if w <= 1 {
            self.buffer.set(y, Vec::new());
            self.cursor.x = 0;
        } else {
            let s = self.find_word_start();
            let e = self.find_word_end();
            let e2 = if e + 1 <= w { e + 1 } else { w };
            proof {
                assert(s <= e2);
            }
            let nr = cut_row(&self.buffer[y], s, e2);
            self.buffer.set(y, nr);
            self.cursor.x = s as u16;
        }
        self.render_buffer = true;
        proof {
            assert(self@ =~~= delete_word_view(old(self)@));
        }
    }

    /// Add an empty row just below the cursor row; the cursor lands on its
    /// first column. At the row-count bound the row is not added.
    pub fn insert_line_below(&mut self)
        requires
            old(self).wf(),
        ensures
            final(self).wf(),
            final(self)@ == insert_line_below_view(old(self)@),
    {
        if self.buffer.len() < 65536 {
            let y = self.cursor.y as usize;
            self.buffer.insert(y + 1, Vec::new());
            self.cursor.y = self.cursor.y + 1;
            self.cursor.x = 0;
        }
        self.render_buffer = true;
        proof {
            assert(self@ =~~= insert_line_below_view(old(self)@));
        }
    }

    /// Add an empty row at the cursor row, which then names the new row;
    /// the column resets to 0. At the row-count bound the row is not added.
    pub fn insert_line_above(&mut self)
        requires
            old(self).wf(),
        ensures
            final(self).wf(),
            final(self)@ == insert_line_above_view(old(self)@),
    {
        if self.buffer.len() < 65536 {
            let y = self.cursor.y as usize;
            self.buffer.insert(y, Vec::new());
            self.cursor.x = 0;
        }
        self.render_buffer = true;
        proof {
            assert(self@ =~~= insert_line_above_view(old(self)@));
        }
    }

    /// Remove the cursor row and re-clamp the cursor onto the row that
    /// takes its place. The only row of a buffer is never removed: the
    /// buffer cannot go empty.
    pub fn delete_line(&mut self)
        requires
            old(self).wf(),
        ensures
            final(self).wf(),
            final(self)@ == delete_line_view(old(self)@),
    {
        if self.buffer.len() > 1 {
            let y = self.cursor.y as usize;
            self.buffer.remove(y);
            let n = self.buffer.len();
            if self.cursor.y as usize >= n {
                self.cursor.y = (n - 1) as u16;
            }
            let w = self.buffer[self.cursor.y as usize].len();
            if self.cursor.x as usize > w {
                self.cursor.x = w as u16;
            }
            self.render_buffer = true;
        }
        proof {
            assert(self@ =~~= delete_line_view(old(self)@));
        }
    }

    /// Capture the rows and the cursor on top of the undo stack.
    pub fn push_snapshot(&mut self)
        requires
            old(self).wf(),
        ensures
            final(self).wf(),
            final(self)@ == push_snapshot_view(old(self)@),
    {
        let lines = copy_lines(&self.buffer);
        let snap = Snapshot { lines, x: self.cursor.x, y: self.cursor.y };
        self.undo_stack.push(snap);
        proof {
            assert(self@ =~~= push_snapshot_view(old(self)@));
            assert forall|i: int| 0 <= i < self@.snaps.len() implies (
            #[trigger] self@.snaps[i]).wf() by {
                if i < old(self)@.snaps.len() {
                    assert(old(self)@.snaps[i].wf());
                }
            }
        }
    }

    /// Pop the most recent snapshot and restore its rows and cursor
    /// verbatim; with an empty stack this is a no-op.
    pub fn do_undo(&mut self)
        requires
            old(self).wf(),
        ensures
            final(self).wf(),
            final(self)@ == undo_view(old(self)@),
    {
        match self.undo_stack.pop() {
            None => {},
            Some(snap) => {
                self.buffer = snap.lines;
                self.cursor.x = snap.x;
                self.cursor.y = snap.y;
                self.render_buffer = true;
            },
        }
        proof {
            assert(self@ =~~= undo_view(old(self)@));
            if old(self)@.snaps.len() > 0 {
                assert(old(self)@.snaps.last().wf());
            }
        }
    }

    /// Build a window from file content: the content split into rows at
    /// line breaks, the cursor at the origin, Normal mode, an empty undo
    /// stack, and the buffer marked dirty for a first paint. The content
    /// bound is what a 16-bit cursor can address.
    pub fn new(content: &Vec<char>, path: String) -> (w: Window)
        requires
            content@.len() <= 65535,
        ensures
            w.wf(),
            w@.lines == split_lines(content@),
            w@.x == 0,
            w@.y == 0,
            w@.mode == Mode::Normal,
            w@.dirty,
            w@.path == path@,
            w@.snaps == Seq::<SnapView>::empty(),
    {
        let mut lines: Vec<Vec<char>> = Vec::new();
        let mut cur: Vec<char> = Vec::new();
        let mut i: usize = 0;
        let ghost mut seg_start: int = 0;
        proof {
            assert(content@.skip(0) =~= content@);
            assert(lines.deep_view() + split_lines(content@) =~= split_lines(content@));
        }
        while i < content.len()
            invariant
                0 <= seg_start <= i <= content@.len() <= 65535,
                cur@ == content@.subrange(seg_start, i as int),
                forall|j: int| seg_start <= j < i ==> content@[j] != '\n',
                split_lines(content@) == lines.deep_view() + split_lines(content@.skip(seg_start)),
                lines@.len() <= seg_start,
                forall|r: int| 0 <= r < lines@.len() ==> (#[trigger] lines@[r])@.len() <= 65535,
            decreases content@.len() - i,
        {
            let c = content[i];
            if c == '\n' {
                proof {
                    let s = content@.skip(seg_start);
                    let n = i - seg_start;
                    assert forall|j: int| 0 <= j < n implies s[j] != '\n' by {
                        assert(s[j] == content@[seg_start + j]);
                    }
                    assert(s[n] == content@[i as int]);
                    lemma_split_lines_step(s, n);
                    assert(s.take(n) =~= cur@);
                    assert(s.skip(n + 1) =~= content@.skip(i + 1));
                }
                if cur.len() > 0 && cur[cur.len() - 1] == '\r' {
                    cur.pop();
                    proof {
                        assert(cur@ =~= strip_cr(content@.subrange(seg_start, i as int)));
                    }
                } else {
                    proof {
                        assert(cur@ == strip_cr(content@.subrange(seg_start, i as int)));
                    }
                }
                lines.push(cur);
                cur = Vec::new();
                i = i + 1;
                proof {
                    seg_start = i as int;
                    assert(split_lines(content@) =~~= lines.deep_view() + split_lines(
                        content@.skip(seg_start),
                    ));
                    assert(cur@ =~= content@.subrange(seg_start, i as int));
                }
            } else {
                cur.push(c);
                i = i + 1;
                proof {
                    assert(cur@ =~= content@.subrange(seg_start, i as int));
                }
            }
        }
        proof {
            let s = content@.skip(seg_start);
            assert forall|j: int| 0 <= j < s.len() implies s[j] != '\n' by {
                assert(s[j] == content@[seg_start + j]);
            }
            lemma_split_lines_whole(s);
            assert(s =~= cur@);
        }
        lines.push(cur);
        let w = Window {
            buffer: lines,
            render_buffer: true,
            cursor: Cursor { x: 0, y: 0 },
            mode: Mode::Normal,
            file_path: path,
            undo_stack: Vec::new(),
        };
        proof {
            assert(w@.lines =~~= split_lines(content@));
            assert(w@.snaps =~= Seq::<SnapView>::empty());
        }
        w
    }

    /// The content that saving writes back: the rows joined with a line
    /// break between each pair.
    pub fn save_content(&self) -> (r: Vec<char>)
        requires
            self.wf(),
        ensures
            r@ == join_lines(self@.lines),
    {
        let mut r: Vec<char> = Vec::new();
        let mut i: usize = 0;
        while i < self.buffer.len()
            invariant
                self.wf(),
                0 <= i <= self@.lines.len(),
                i == 0 ==> r@ == Seq::<char>::empty(),
                i > 0 ==> r@ == join_lines(self@.lines.take(i as int)),
            decreases self@.lines.len() - i,
        {
            if i > 0 {
                proof {
                    lemma_join_lines_push(self@.lines, i as int);
                }
                r.push('\n');
            }
            let row = &self.buffer[i];
            let mut k: usize = 0;
            while k < row.len()
                invariant
                    0 <= k <= row@.len(),
                    i < self@.lines.len(),
                    row@ == self@.lines[i as int],
                    i == 0 ==> r@ == row@.take(k as int),
                    i > 0 ==> r@ == join_lines(self@.lines.take(i as int)) + seq!['\n']
                        + row@.take(k as int),
                decreases row@.len() - k,
            {
                r.push(row[k]);
                k = k + 1;
                proof {
                    if i == 0 {
                        assert(r@ =~= row@.take(k as int));
                    } else {
                        assert(r@ =~= join_lines(self@.lines.take(i as int)) + seq!['\n']
                            + row@.take(k as int));
                    }
                }
            }
            proof {
                assert(row@.take(row@.len() as int) =~= row@);
                if i == 0 {
                    assert(self@.lines.take(1)[0] == self@.lines[0]);
                    assert(r@ == join_lines(self@.lines.take(1)));
                }
            }
            i = i + 1;
        }
        proof {
            assert(self@.lines.take(self@.lines.len() as int) =~= self@.lines);
        }
        r
    }
}

} // verus!
