//! The editor of the terminal front end: a buffer of lines, a cursor, and what the keys do to
//! them.
//!
//! The cursor's column counts characters where a line is cut or a character is taken away,
//! and bytes of the line's UTF-8 encoding where a line is split or a character is put in. The
//! two agree on lines of ASCII. Where they do not, a column that is no boundary between two
//! characters cannot be split at.

use vstd::prelude::*;
use crate::chars::lines_scanned;
use crate::chars::split_lines;
use crate::chars::to_chars;
use crate::chars::to_string;
use crate::keys::Key;
use crate::keys::KeyCode;
use crate::keys::is_control;
use crate::keys::is_control_char;
use crate::tui::ensure_cursor_visible;
use crate::tui::line_views;
use crate::tui::scrolled;

verus! {

/// The largest number of lines, and of characters in a line, that the editor holds.
pub const EDIT_LIMIT: usize = usize::MAX - 16;

/// The number of lines that PageUp and PageDown move the cursor.
pub const PAGE_JUMP: usize = 10;

/// The editor's buffer and cursor.
pub struct Editor {
    /// The lines of the buffer; there is always at least one.
    pub buffer: Vec<String>,
    /// The line of the cursor.
    pub cursor_row: usize,
    /// The column of the cursor.
    pub cursor_col: usize,
    /// The first line that is shown.
    pub scroll_row: usize,
    /// The buffer has been changed.
    pub dirty: bool,
}

/// The editor as a mathematical object.
pub struct Sheet {
    pub lines: Seq<Seq<char>>,
    pub row: int,
    pub col: int,
    pub scroll: int,
    pub dirty: bool,
}

/// The number of bytes of a character in UTF-8.
pub open spec fn width(c: char) -> int {
    let u = c as u32;
    if u <= 0x7F {
        1
    } else if u <= 0x7FF {
        2
    } else if u <= 0xFFFF {
        3
    } else {
        4
    }
}

/// The number of bytes of the first `k` characters of a line in UTF-8.
pub open spec fn byte_offset(line: Seq<char>, k: int) -> int
    decreases k,
{
    if k <= 0 {
        0
    } else {
        byte_offset(line, k - 1) + width(line[k - 1])
    }
}

/// The number of bytes of a line in UTF-8.
pub open spec fn byte_len(line: Seq<char>) -> int {
    byte_offset(line, line.len() as int)
}

/// The byte index `col` lies between two characters of the line, or at one of its ends.
pub open spec fn is_boundary(line: Seq<char>, col: int) -> bool {
    exists|k: int| 0 <= k <= line.len() && byte_offset(line, k) == col
}

/// The number of characters in front of the byte index `col`, which is a boundary.
pub open spec fn chars_before(line: Seq<char>, col: int) -> int {
    choose|k: int| 0 <= k <= line.len() && byte_offset(line, k) == col
}

/// The smaller of two numbers.
pub open spec fn least(a: int, b: int) -> int {
    if a <= b {
        a
    } else {
        b
    }
}

/// The cursor brought back into the buffer: onto the last line if it stands below it, and to
/// the end of its line if it stands behind it.
pub open spec fn clamped(s: Sheet) -> Sheet {
    let row = least(s.row, s.lines.len() - 1);
    Sheet { row, col: least(s.col, s.lines[row].len() as int), ..s }
}

/// The cursor on line `row`, in its old column or at the end of the line's bytes, with the
/// pane scrolled to it.
pub open spec fn on_row(s: Sheet, row: int) -> Sheet {
    Sheet {
        row,
        col: least(s.col, byte_len(s.lines[row])),
        scroll: scrolled(row, s.scroll),
        ..s
    }
}

/// What a key does, before the cursor is brought back into the buffer.
pub open spec fn after_key(s: Sheet, key: Key) -> Sheet {
    let line = s.lines[s.row];
    let n = s.lines.len() as int;
    match key.code {
        KeyCode::Left => if s.col > 0 {
            Sheet { col: s.col - 1, ..s }
        } else if s.row > 0 {
            Sheet {
                row: s.row - 1,
                col: byte_len(s.lines[s.row - 1]),
                scroll: scrolled(s.row - 1, s.scroll),
                ..s
            }
        } else {
            s
        },
        KeyCode::Right => if s.col < byte_len(line) {
            Sheet { col: s.col + 1, ..s }
        } else if s.row + 1 < n {
            Sheet { row: s.row + 1, col: 0, scroll: scrolled(s.row + 1, s.scroll), ..s }
        } else {
            s
        },
        KeyCode::Up => if s.row > 0 {
            on_row(s, s.row - 1)
        } else {
            s
        },
        KeyCode::Down => if s.row + 1 < n {
            on_row(s, s.row + 1)
        } else {
            s
        },
        KeyCode::Home => Sheet { col: 0, ..s },
        KeyCode::End => Sheet { col: byte_len(line), ..s },
        KeyCode::PageUp => on_row(
            s,
            if s.row >= PAGE_JUMP {
                s.row - PAGE_JUMP
            } else {
                0
            },
        ),
        KeyCode::PageDown => on_row(s, least(s.row + PAGE_JUMP, n - 1)),
        KeyCode::Enter => {
            let k = chars_before(line, s.col);
            Sheet {
                lines: s.lines.update(s.row, line.take(k)).insert(s.row + 1, line.skip(k)),
                row: s.row + 1,
                col: 0,
                scroll: scrolled(s.row + 1, s.scroll),
                dirty: true,
            }
        },
        KeyCode::Backspace => if s.col > 0 {
            Sheet {
                lines: s.lines.update(s.row, line.remove(s.col - 1)),
                col: s.col - 1,
                dirty: true,
                ..s
            }
        } else if s.row > 0 {
            let above = s.lines[s.row - 1];
            Sheet {
                lines: s.lines.update(s.row - 1, above + line).remove(s.row),
                row: above.len() as int,
                scroll: scrolled(above.len() as int, s.scroll),
                dirty: true,
                ..s
            }
        } else {
            s
        },
        KeyCode::Delete => if s.col < line.len() {
            Sheet { lines: s.lines.update(s.row, line.remove(s.col)), dirty: true, ..s }
        } else if s.row + 1 < n {
            Sheet {
                lines: s.lines.update(s.row, line + s.lines[s.row + 1]).remove(s.row + 1),
                dirty: true,
                ..s
            }
        } else {
            s
        },
        KeyCode::Char(c) => if key.unmodified && !is_control(c) {
            let k = chars_before(line, s.col);
            Sheet {
                lines: s.lines.update(s.row, line.take(k).push(c) + line.skip(k)),
                col: s.col + 1,
                scroll: scrolled(s.row, s.scroll),
                dirty: true,
                ..s
            }
        } else {
            s
        },
        _ => s,
    }
}

/// The key can be carried out: a line is split, or a character put in, only at a boundary
/// between characters, and nothing grows beyond what the editor holds.
pub open spec fn allowed(s: Sheet, key: Key) -> bool {
    let line = s.lines[s.row];
    match key.code {
        KeyCode::Enter => is_boundary(line, s.col) && s.lines.len() < EDIT_LIMIT,
        KeyCode::Char(c) => key.unmodified && !is_control(c) ==> is_boundary(line, s.col)
            && line.len() < EDIT_LIMIT,
        KeyCode::Backspace => s.col == 0 && s.row > 0 ==> s.lines[s.row - 1].len() + line.len()
            <= EDIT_LIMIT,
        KeyCode::Delete => s.col >= line.len() && s.row + 1 < s.lines.len() ==> line.len()
            + s.lines[s.row + 1].len() <= EDIT_LIMIT,
        _ => true,
    }
}

/// The buffer has a line for the cursor, the cursor stands on or behind a character of its
/// line, and nothing is larger than the editor holds.
pub open spec fn sheet_wf(s: Sheet) -> bool {
    &&& 1 <= s.lines.len() <= EDIT_LIMIT
    &&& 0 <= s.row < s.lines.len()
    &&& 0 <= s.col <= s.lines[s.row].len()
    &&& 0 <= s.scroll <= EDIT_LIMIT
    &&& forall|i: int| 0 <= i < s.lines.len() ==> (#[trigger] s.lines[i]).len() <= EDIT_LIMIT
}

/// Every prefix of a line has at least as many bytes as characters, and a longer prefix has
/// more bytes.
proof fn lemma_byte_offset_grows(line: Seq<char>, j: int, k: int)
    requires
        0 <= j <= k,
    ensures
        byte_offset(line, j) + (k - j) <= byte_offset(line, k),
        byte_offset(line, k) <= byte_offset(line, j) + 4 * (k - j),
    decreases k - j,
{
    if j < k {
        lemma_byte_offset_grows(line, j, k - 1);
    }
}

/// A boundary has one number of characters in front of it.
proof fn lemma_chars_before(line: Seq<char>, k: int)
    requires
        0 <= k <= line.len(),
    ensures
        is_boundary(line, byte_offset(line, k)),
        chars_before(line, byte_offset(line, k)) == k,
{
    let col = byte_offset(line, k);
    let chosen = chars_before(line, col);
    if chosen < k {
        lemma_byte_offset_grows(line, chosen, k);
    } else if k < chosen {
        lemma_byte_offset_grows(line, k, chosen);
    }
}

fn utf8_width(c: char) -> (w: usize)
    ensures
        w == width(c),
        1 <= w <= 4,
{
    let u = c as u32;
    if u <= 0x7F {
        1
    } else if u <= 0x7FF {
        2
    } else if u <= 0xFFFF {
        3
    } else {
        4
    }
}

/// Whether the line has more bytes than `col`.
fn longer_than(line: &Vec<char>, col: usize) -> (r: bool)
    requires
        col <= line@.len(),
    ensures
        r == (col < byte_len(line@)),
{
    let n = line.len();
    proof {
        lemma_byte_offset_grows(line@, 0, n as int);
    }
    if col < n {
        return true;
    }
    let mut i: usize = 0;
    while i < n
        invariant
            i <= n,
            n == line@.len(),
            col == n,
            byte_offset(line@, i as int) == i,
        decreases n - i,
    {
        let w = utf8_width(line[i]);
        assert(byte_offset(line@, i + 1) == byte_offset(line@, i as int) + w);
        if w > 1 {
            proof {
                lemma_byte_offset_grows(line@, i + 1, n as int);
            }
            return true;
        }
        i = i + 1;
    }
    false
}

/// The number of characters in front of the byte index `col`, if it is a boundary.
fn boundary_at(line: &Vec<char>, col: usize) -> (res: Option<usize>)
    requires
        col <= line@.len() <= EDIT_LIMIT,
    ensures
        res is Some <==> is_boundary(line@, col as int),
        res matches Some(k) ==> k == chars_before(line@, col as int) && k <= line@.len(),
{
    let n = line.len();
    let mut k: usize = 0;
    let mut offset: usize = 0;
    while k < n && offset < col
        invariant
            k <= n,
            n == line@.len(),
            col <= n <= EDIT_LIMIT,
            offset == byte_offset(line@, k as int),
            offset < col + 4,
            forall|j: int| 0 <= j < k ==> byte_offset(line@, j) < col,
        decreases n - k,
    {
        offset = offset + utf8_width(line[k]);
        k = k + 1;
    }
    if offset == col {
        proof {
            lemma_chars_before(line@, k as int);
        }
        Some(k)
    } else {
        proof {
            assert forall|j: int| 0 <= j <= n implies byte_offset(line@, j) != col by {
                if j >= k {
                    lemma_byte_offset_grows(line@, k as int, j);
                    if offset < col {
                        lemma_byte_offset_grows(line@, 0, n as int);
                        lemma_byte_offset_grows(line@, j, n as int);
                    }
                }
            }
        }
        None
    }
}

/// The characters from `from` up to `to`.
fn piece(line: &Vec<char>, from: usize, to: usize) -> (out: Vec<char>)
    requires
        from <= to <= line@.len(),
    ensures
        out@ == line@.subrange(from as int, to as int),
{
    let mut out: Vec<char> = Vec::new();
    let mut i: usize = from;
    while i < to
        invariant
            from <= i <= to <= line@.len(),
            out@ == line@.subrange(from as int, i as int),
        decreases to - i,
    {
        out.push(line[i]);
        assert(line@.subrange(from as int, i + 1) =~= line@.subrange(from as int, i as int).push(
            line@[i as int],
        ));
        i = i + 1;
    }
    out
}

/// Two pieces of text in a row.
fn glued(first: &Vec<char>, second: &Vec<char>) -> (out: Vec<char>)
    ensures
        out@ == first@ + second@,
{
    let mut out: Vec<char> = Vec::new();
    let mut i: usize = 0;
    while i < first.len()
        invariant
            i <= first@.len(),
            out@ == first@.take(i as int),
        decreases first@.len() - i,
    {
        out.push(first[i]);
        assert(first@.take(i + 1) =~= first@.take(i as int).push(first@[i as int]));
        i = i + 1;
    }
    assert(first@.take(first@.len() as int) =~= first@);
    let mut j: usize = 0;
    while j < second.len()
        invariant
            j <= second@.len(),
            out@ == first@ + second@.take(j as int),
        decreases second@.len() - j,
    {
        out.push(second[j]);
        assert(first@ + second@.take(j + 1) =~= (first@ + second@.take(j as int)).push(
            second@[j as int],
        ));
        j = j + 1;
    }
    assert(second@.take(second@.len() as int) =~= second@);
    out
}

/// The pane never scrolls behind the cursor or behind where it stood.
proof fn lemma_scrolled_bounds(cursor_row: int, scroll_row: int)
    requires
        0 <= cursor_row,
        0 <= scroll_row,
    ensures
        0 <= scrolled(cursor_row, scroll_row),
        scrolled(cursor_row, scroll_row) <= cursor_row || scrolled(cursor_row, scroll_row)
            <= scroll_row,
{
}

impl Editor {
    /// The editor as a mathematical object.
    pub open spec fn view(&self) -> Sheet {
        Sheet {
            lines: line_views(self.buffer@),
            row: self.cursor_row as int,
            col: self.cursor_col as int,
            scroll: self.scroll_row as int,
            dirty: self.dirty,
        }
    }

    /// The editor is in order.
    pub open spec fn wf(&self) -> bool {
        sheet_wf(self@)
    }

    /// An editor with one empty line and the cursor in front of it.
    pub fn new() -> (editor: Self)
        ensures
            editor.wf(),
            editor@ == (Sheet {
                lines: seq![Seq::<char>::empty()],
                row: 0,
                col: 0,
                scroll: 0,
                dirty: false,
            }),
    {
        let mut buffer: Vec<String> = Vec::new();
        buffer.push(String::new());
        let editor = Editor { buffer, cursor_row: 0, cursor_col: 0, scroll_row: 0, dirty: false };
        assert(editor@.lines =~= seq![Seq::<char>::empty()]);
        editor
    }

    /// An editor on the text of a file: the lines are what stands between the line feeds of
    /// the text, the cursor is in front of the first line, and nothing counts as changed.
    pub fn open(content: &str) -> (editor: Self)
        ensures
            editor@ == (Sheet {
                lines: split_lines(content@),
                row: 0,
                col: 0,
                scroll: 0,
                dirty: false,
            }),
    {
        let chars = to_chars(content);
        let n = chars.len();
        let mut buffer: Vec<String> = Vec::new();
        let mut current: Vec<char> = Vec::new();
        let mut i: usize = 0;
        assert(line_views(buffer@) =~= lines_scanned(chars@, 0).0);
        while i < n
            invariant
                i <= n,
                n == chars@.len(),
                line_views(buffer@) == lines_scanned(chars@, i as int).0,
                current@ == lines_scanned(chars@, i as int).1,
            decreases n - i,
        {
            let c = chars[i];
            if c == '\n' {
                let ghost done = line_views(buffer@);
                let ghost line = current@;
                buffer.push(to_string(&current));
                current = Vec::new();
                assert(line_views(buffer@) =~= done.push(line));
            } else {
                current.push(c);
            }
            i = i + 1;
        }
        let ghost done = line_views(buffer@);
        let ghost line = current@;
        buffer.push(to_string(&current));
        assert(line_views(buffer@) =~= done.push(line));
        Editor { buffer, cursor_row: 0, cursor_col: 0, scroll_row: 0, dirty: false }
    }

    /// The characters of a line.
    fn line(&self, row: usize) -> (chars: Vec<char>)
        requires
            row < self.buffer@.len(),
        ensures
            chars@ == self@.lines[row as int],
    {
        to_chars(self.buffer[row].as_str())
    }

    /// The number of characters of a line.
    fn line_len(&self, row: usize) -> (count: usize)
        requires
            row < self.buffer@.len(),
        ensures
            count == self@.lines[row as int].len(),
    {
        self.buffer[row].as_str().unicode_len()
    }

    /// Puts `chars` in the place of a line.
    fn replace_line(&mut self, row: usize, chars: &Vec<char>)
        requires
            row < old(self).buffer@.len(),
        ensures
            final(self)@ == (Sheet {
                lines: old(self)@.lines.update(row as int, chars@),
                ..old(self)@
            }),
            final(self).buffer@.len() == old(self).buffer@.len(),
    {
        self.buffer.set(row, to_string(chars));
        assert(self@.lines =~= old(self)@.lines.update(row as int, chars@));
    }

    /// Scrolls the pane to the cursor.
    fn scroll_to_cursor(&mut self)
        requires
            old(self).cursor_row <= EDIT_LIMIT,
            old(self).scroll_row <= EDIT_LIMIT,
        ensures
            final(self)@ == (Sheet {
                scroll: scrolled(old(self).cursor_row as int, old(self).scroll_row as int),
                ..old(self)@
            }),
            final(self).buffer == old(self).buffer,
            final(self).scroll_row <= EDIT_LIMIT,
    {
        proof {
            lemma_scrolled_bounds(self.cursor_row as int, self.scroll_row as int);
        }
        self.scroll_row = ensure_cursor_visible(self.cursor_row, self.scroll_row);
    }

    /// Moves the cursor to a line, keeps its column as far as the line goes, and scrolls.
    fn go_to_row(&mut self, row: usize)
        requires
            old(self).wf(),
            row < old(self).buffer@.len(),
        ensures
            final(self)@ == clamped(on_row(old(self)@, row as int)),
            final(self).wf(),
    {
        proof {
            lemma_byte_offset_grows(self@.lines[row as int], 0, self@.lines[row as int].len() as int);
        }
        let count = self.line_len(row);
        self.cursor_row = row;
        if self.cursor_col > count {
            self.cursor_col = count;
        }
        self.scroll_to_cursor();
    }

    /// Left: one column back, or to the end of the line above.
    fn key_left(&mut self, key: Key)
        requires
            old(self).wf(),
            key.code == KeyCode::Left,
        ensures
            final(self)@ == clamped(after_key(old(self)@, key)),
            final(self).wf(),
    {
        let row = self.cursor_row;
        let col = self.cursor_col;
        if col > 0 {
            self.cursor_col = col - 1;
        } else if row > 0 {
            proof {
                let above = self@.lines[row - 1];
                lemma_byte_offset_grows(above, 0, above.len() as int);
            }
            self.cursor_row = row - 1;
            self.cursor_col = self.line_len(row - 1);
            self.scroll_to_cursor();
        }
    }

    /// Right: one column on while the line has bytes, else to the start of the line below.
    fn key_right(&mut self, key: Key)
        requires
            old(self).wf(),
            key.code == KeyCode::Right,
        ensures
            final(self)@ == clamped(after_key(old(self)@, key)),
            final(self).wf(),
    {
        let row = self.cursor_row;
        let col = self.cursor_col;
        let line = self.line(row);
        if longer_than(&line, col) {
            if col < line.len() {
                self.cursor_col = col + 1;
            }
        } else if row + 1 < self.buffer.len() {
            self.cursor_row = row + 1;
            self.cursor_col = 0;
            self.scroll_to_cursor();
        }
    }

    /// End: behind the last character of the line.
    fn key_end(&mut self, key: Key)
        requires
            old(self).wf(),
            key.code == KeyCode::End,
        ensures
            final(self)@ == clamped(after_key(old(self)@, key)),
            final(self).wf(),
    {
        proof {
            let line = self@.lines[self.cursor_row as int];
            lemma_byte_offset_grows(line, 0, line.len() as int);
        }
        self.cursor_col = self.line_len(self.cursor_row);
    }

    /// Enter: splits the line at the cursor.
    fn key_enter(&mut self, key: Key)
        requires
            old(self).wf(),
            key.code == KeyCode::Enter,
            allowed(old(self)@, key),
        ensures
            final(self)@ == clamped(after_key(old(self)@, key)),
            final(self).wf(),
    {
        let ghost s = self@;
        let row = self.cursor_row;
        let line = self.line(row);
        let k = boundary_at(&line, self.cursor_col).unwrap();
        let left = piece(&line, 0, k);
        let right = piece(&line, k, line.len());
        self.replace_line(row, &left);
        self.buffer.insert(row + 1, to_string(&right));
        proof {
            assert(line@.subrange(0, k as int) =~= line@.take(k as int));
            assert(line@.subrange(k as int, line@.len() as int) =~= line@.skip(k as int));
            assert(self@.lines =~= s.lines.update(row as int, line@.take(k as int)).insert(
                row + 1,
                line@.skip(k as int),
            ));
        }
        self.cursor_row = row + 1;
        self.cursor_col = 0;
        self.dirty = true;
        self.scroll_to_cursor();
    }

    /// Backspace: takes away the character in front of the cursor, or joins the line to the
    /// line above.
    fn key_backspace(&mut self, key: Key)
        requires
            old(self).wf(),
            key.code == KeyCode::Backspace,
            allowed(old(self)@, key),
        ensures
            final(self)@ == clamped(after_key(old(self)@, key)),
            final(self).wf(),
    {
        let ghost s = self@;
        let row = self.cursor_row;
        let col = self.cursor_col;
        if col > 0 {
            let line = self.line(row);
            let shorter = glued(&piece(&line, 0, col - 1), &piece(&line, col, line.len()));
            assert(shorter@ =~= line@.remove(col - 1));
            self.replace_line(row, &shorter);
            self.cursor_col = col - 1;
            self.dirty = true;
        } else if row > 0 {
            let above = self.line(row - 1);
            let line = self.line(row);
            let both = glued(&above, &line);
            self.replace_line(row - 1, &both);
            let removed = self.buffer.remove(row);
            proof {
                assert(self@.lines =~= s.lines.update(row - 1, above@ + line@).remove(row as int));
            }
            self.cursor_row = above.len();
            self.dirty = true;
            self.scroll_to_cursor();
            let last = self.buffer.len() - 1;
            if self.cursor_row > last {
                self.cursor_row = last;
            }
        }
    }

    /// Delete: takes away the character at the cursor, or joins the line below to the line.
    fn key_delete(&mut self, key: Key)
        requires
            old(self).wf(),
            key.code == KeyCode::Delete,
            allowed(old(self)@, key),
        ensures
            final(self)@ == clamped(after_key(old(self)@, key)),
            final(self).wf(),
    {
        let ghost s = self@;
        let row = self.cursor_row;
        let col = self.cursor_col;
        let line = self.line(row);
        if col < line.len() {
            let shorter = glued(&piece(&line, 0, col), &piece(&line, col + 1, line.len()));
            assert(shorter@ =~= line@.remove(col as int));
            self.replace_line(row, &shorter);
            self.dirty = true;
        } else if row + 1 < self.buffer.len() {
            let below = self.line(row + 1);
            let both = glued(&line, &below);
            self.replace_line(row, &both);
            let removed = self.buffer.remove(row + 1);
            proof {
                assert(self@.lines =~= s.lines.update(row as int, line@ + below@).remove(row + 1));
            }
            self.dirty = true;
        }
    }

    /// A character: puts it in at the cursor.
    fn key_char(&mut self, key: Key, c: char)
        requires
            old(self).wf(),
            key.code == KeyCode::Char(c),
            key.unmodified && !is_control(c),
            allowed(old(self)@, key),
        ensures
            final(self)@ == clamped(after_key(old(self)@, key)),
            final(self).wf(),
    {
        let row = self.cursor_row;
        let col = self.cursor_col;
        let line = self.line(row);
        let k = boundary_at(&line, col).unwrap();
        let mut left = piece(&line, 0, k);
        left.push(c);
        let longer = glued(&left, &piece(&line, k, line.len()));
        proof {
            assert(line@.subrange(0, k as int) =~= line@.take(k as int));
            assert(line@.subrange(k as int, line@.len() as int) =~= line@.skip(k as int));
        }
        self.replace_line(row, &longer);
        self.cursor_col = col + 1;
        self.dirty = true;
        self.scroll_to_cursor();
    }

    /// Carries out a key: moves the cursor, or changes the buffer at the cursor, and brings
    /// the cursor back into the buffer.
    pub fn handle_editor_key(&mut self, key: Key)
        requires
            old(self).wf(),
            allowed(old(self)@, key),
        ensures
            final(self)@ == clamped(after_key(old(self)@, key)),
            final(self).wf(),
    {
        let row = self.cursor_row;
        match key.code {
            KeyCode::Left => {
                self.key_left(key);
            },
            KeyCode::Right => {
                self.key_right(key);
            },
            KeyCode::Up => {
                if row > 0 {
                    self.go_to_row(row - 1);
                }
            },
            KeyCode::Down => {
                if row + 1 < self.buffer.len() {
                    self.go_to_row(row + 1);
                }
            },
            KeyCode::Home => {
                self.cursor_col = 0;
            },
            KeyCode::End => {
                self.key_end(key);
            },
            KeyCode::PageUp => {
                let target = if row >= PAGE_JUMP {
                    row - PAGE_JUMP
                } else {
                    0
                };
                self.go_to_row(target);
            },
            KeyCode::PageDown => {
                let last = self.buffer.len() - 1;
                let target = if row + PAGE_JUMP < last {
                    row + PAGE_JUMP
                } else {
                    last
                };
                self.go_to_row(target);
            },
            KeyCode::Enter => {
                self.key_enter(key);
            },
            KeyCode::Backspace => {
                self.key_backspace(key);
            },
            KeyCode::Delete => {
                self.key_delete(key);
            },
            KeyCode::Char(c) => {
                if key.unmodified && !is_control_char(c) {
                    self.key_char(key, c);
                }
            },
            _ => {},
        }
    }
}

} // verus!
