//! What the terminal front end computes: the window of the tape it shows, the text of the
//! editor, escaped output, and the partner of the bracket under the cursor.

use vstd::prelude::*;
use crate::chars::to_chars;
use crate::program::are_partners;
use crate::program::depth;
use crate::program::is_match;

verus! {

/// The number of cells that the tape pane shows.
pub const TAPE_PAGE: usize = 128;

/// The number of lines kept between the cursor and the edge of the editor pane.
pub const SCROLL_MARGIN: usize = 3;

/// The upper-case hexadecimal digit for a value below 16.
pub open spec fn hex_digit(d: int) -> char {
    if d == 0 {
        '0'
    } else if d == 1 {
        '1'
    } else if d == 2 {
        '2'
    } else if d == 3 {
        '3'
    } else if d == 4 {
        '4'
    } else if d == 5 {
        '5'
    } else if d == 6 {
        '6'
    } else if d == 7 {
        '7'
    } else if d == 8 {
        '8'
    } else if d == 9 {
        '9'
    } else if d == 10 {
        'A'
    } else if d == 11 {
        'B'
    } else if d == 12 {
        'C'
    } else if d == 13 {
        'D'
    } else if d == 14 {
        'E'
    } else {
        'F'
    }
}

/// A byte is shown as itself: printable ASCII, line feed, carriage return and tabulator.
pub open spec fn shown_plainly(b: u8) -> bool {
    (0x20 <= b <= 0x7E) || b == 0x0A || b == 0x0D || b == 0x09
}

/// A byte as it is shown in escaped output: as itself, or as `\xHH`.
pub open spec fn escaped_byte(b: u8) -> Seq<char> {
    if shown_plainly(b) {
        seq![b as char]
    } else {
        seq!['\\', 'x', hex_digit(b as int / 16), hex_digit(b as int % 16)]
    }
}

/// Bytes as they are shown in escaped output.
pub open spec fn escaped(bytes: Seq<u8>) -> Seq<char>
    decreases bytes.len(),
{
    if bytes.len() == 0 {
        Seq::empty()
    } else {
        escaped(bytes.drop_last()) + escaped_byte(bytes.last())
    }
}

fn hex_char(d: u8) -> (c: char)
    requires
        d < 16,
    ensures
        c == hex_digit(d as int),
{
    if d == 0 {
        '0'
    } else if d == 1 {
        '1'
    } else if d == 2 {
        '2'
    } else if d == 3 {
        '3'
    } else if d == 4 {
        '4'
    } else if d == 5 {
        '5'
    } else if d == 6 {
        '6'
    } else if d == 7 {
        '7'
    } else if d == 8 {
        '8'
    } else if d == 9 {
        '9'
    } else if d == 10 {
        'A'
    } else if d == 11 {
        'B'
    } else if d == 12 {
        'C'
    } else if d == 13 {
        'D'
    } else if d == 14 {
        'E'
    } else {
        'F'
    }
}

/// Convert bytes into their escaped form: printable ASCII as-is, others as `\xHH`.
pub fn bytes_to_escaped(bytes: &[u8]) -> (out: String)
    ensures
        out@ == escaped(bytes@),
{
    let n = bytes.len();
    let mut out = String::new();
    let mut i: usize = 0;
    while i < n
        invariant
            i <= n,
            n == bytes@.len(),
            out@ == escaped(bytes@.take(i as int)),
        decreases n - i,
    {
        let b = bytes[i];
        let ghost before = out@;
        if (0x20 <= b && b <= 0x7E) || b == 0x0A || b == 0x0D || b == 0x09 {
            out.push(b as char);
        } else {
            out.push('\\');
            out.push('x');
            out.push(hex_char(b / 16));
            out.push(hex_char(b % 16));
        }
        proof {
            assert(out@ =~= before + escaped_byte(b));
            assert(bytes@.take(i + 1).drop_last() =~= bytes@.take(i as int));
        }
        i = i + 1;
    }
    assert(bytes@.take(n as int) =~= bytes@);
    out
}

/// The end of the window that begins at `base`: 128 cells on, as far as indices go.
pub open spec fn page_end(base: usize) -> int {
    if base + TAPE_PAGE > usize::MAX {
        usize::MAX as int
    } else {
        base + TAPE_PAGE
    }
}

/// The value of the current cell if the pointer lies in the window that is shown.
pub fn current_cell_value(tape_ptr: usize, window_base: usize, window: &[u8; 128]) -> (value:
    Option<u8>)
    ensures
        value == if window_base <= tape_ptr < page_end(window_base) {
            Some(window@[tape_ptr - window_base])
        } else {
            None
        },
{
    let end = if window_base > usize::MAX - TAPE_PAGE {
        usize::MAX
    } else {
        window_base + TAPE_PAGE
    };
    if tape_ptr >= window_base && tape_ptr < end {
        let idx = tape_ptr - window_base;
        Some(window[idx])
    } else {
        None
    }
}

/// What a key does to the window of the tape pane.
#[derive(Debug, Clone, Copy, PartialEq, Eq, Structural)]
pub enum TapeMove {
    /// One page towards the start of the tape.
    Back,
    /// One page towards the end of the tape.
    Forward,
    /// To the page that holds the pointer.
    ToPointer,
}

/// The window base after a move, and whether the pane has to be drawn anew. Paging back stops
/// at the start of the tape and then changes nothing.
pub fn move_tape_window(window_base: usize, tape_ptr: usize, step: TapeMove) -> (res: (
    usize,
    bool,
))
    ensures
        res.0 == match step {
            TapeMove::Back => if window_base >= TAPE_PAGE {
                window_base - TAPE_PAGE
            } else {
                0
            },
            TapeMove::Forward => page_end(window_base),
            TapeMove::ToPointer => tape_ptr - tape_ptr % TAPE_PAGE,
        },
        res.1 == match step {
            TapeMove::Back => window_base != 0,
            _ => true,
        },
{
    match step {
        TapeMove::Back => {
            let new_base = if window_base >= TAPE_PAGE {
                window_base - TAPE_PAGE
            } else {
                0
            };
            (new_base, new_base != window_base)
        },
        TapeMove::Forward => {
            let new_base = if window_base > usize::MAX - TAPE_PAGE {
                usize::MAX
            } else {
                window_base + TAPE_PAGE
            };
            (new_base, true)
        },
        TapeMove::ToPointer => (tape_ptr - tape_ptr % TAPE_PAGE, true),
    }
}

/// The first line shown after the cursor has moved: the pane scrolls as little as keeps three
/// lines between the cursor and its upper edge, and it follows a cursor that has passed the
/// sixth line below that edge.
pub open spec fn scrolled(cursor_row: int, scroll_row: int) -> int {
    let lifted = lifted(cursor_row, scroll_row);
    if cursor_row > lifted + 2 * SCROLL_MARGIN {
        cursor_row - SCROLL_MARGIN
    } else {
        lifted
    }
}

/// The first line shown once the pane has been lifted to a cursor that stands less than three
/// lines below its upper edge.
pub open spec fn lifted(cursor_row: int, scroll_row: int) -> int {
    if cursor_row < scroll_row + SCROLL_MARGIN {
        if cursor_row >= SCROLL_MARGIN {
            cursor_row - SCROLL_MARGIN
        } else {
            0
        }
    } else {
        scroll_row
    }
}

/// Scrolls the editor pane so that the cursor stays in sight. The sixth line below the upper
/// edge must have a number that can be counted.
pub fn ensure_cursor_visible(cursor_row: usize, scroll_row: usize) -> (new_scroll: usize)
    requires
        lifted(cursor_row as int, scroll_row as int) + 2 * SCROLL_MARGIN <= usize::MAX,
    ensures
        new_scroll == scrolled(cursor_row as int, scroll_row as int),
{
    let margin = SCROLL_MARGIN;
    let mut scroll = scroll_row;
    if scroll > usize::MAX - margin || cursor_row < scroll + margin {
        scroll = if cursor_row >= margin {
            cursor_row - margin
        } else {
            0
        };
    }
    let end = scroll + margin * 2;
    if cursor_row > end {
        scroll = cursor_row - margin;
    }
    scroll
}

/// The lines of a buffer as one text, with a line feed between any two.
pub open spec fn joined(lines: Seq<Seq<char>>) -> Seq<char>
    decreases lines.len(),
{
    if lines.len() == 0 {
        Seq::empty()
    } else if lines.len() == 1 {
        lines[0]
    } else {
        joined(lines.drop_last()).push('\n') + lines.last()
    }
}

/// The views of the lines.
pub open spec fn line_views(lines: Seq<String>) -> Seq<Seq<char>> {
    Seq::new(lines.len(), |i: int| lines[i]@)
}

/// The editor buffer as a newline-joined string.
pub fn current_source(lines: &Vec<String>) -> (text: String)
    ensures
        text@ == joined(line_views(lines@)),
{
    let n = lines.len();
    let mut text = String::new();
    let mut i: usize = 0;
    let ghost all = line_views(lines@);
    assert(all.take(0) =~= Seq::<Seq<char>>::empty());
    while i < n
        invariant
            i <= n,
            n == lines@.len(),
            all == line_views(lines@),
            text@ == joined(all.take(i as int)),
        decreases n - i,
    {
        let ghost before = text@;
        if i > 0 {
            text.push('\n');
        }
        let line = to_chars(lines[i].as_str());
        let mut j: usize = 0;
        let ghost head = text@;
        while j < line.len()
            invariant
                j <= line@.len(),
                text@ == head + line@.take(j as int),
            decreases line@.len() - j,
        {
            text.push(line[j]);
            assert(line@.take(j + 1) =~= line@.take(j as int).push(line@[j as int]));
            j = j + 1;
        }
        proof {
            assert(line@.take(line@.len() as int) =~= line@);
            let now = all.take(i + 1);
            assert(now.drop_last() =~= all.take(i as int));
            assert(now.last() == line@);
            if i == 0 {
                assert(text@ =~= line@);
            }
        }
        i = i + 1;
    }
    assert(all.take(n as int) =~= all);
    text
}

/// The lines of a buffer one behind the other, without anything between them.
pub open spec fn flat(lines: Seq<Seq<char>>) -> Seq<char>
    decreases lines.len(),
{
    if lines.len() == 0 {
        Seq::empty()
    } else {
        flat(lines.drop_last()) + lines.last()
    }
}

/// The index in the flat text of the character at `col` in line `row`.
pub open spec fn flat_index(lines: Seq<Seq<char>>, row: int, col: int) -> int {
    flat(lines.take(row)).len() + col
}

/// `row` and `col` name a character of the buffer.
pub open spec fn in_buffer(lines: Seq<Seq<char>>, row: int, col: int) -> bool {
    0 <= row < lines.len() && 0 <= col < lines[row].len()
}

/// The bracket at `pos` has its partner at `other`: both are characters of the buffer and the
/// two are the ends of one loop of the buffer's text. Line ends do not count.
pub open spec fn bracket_pair(lines: Seq<Seq<char>>, pos: (usize, usize), other: (usize, usize))
    -> bool {
    &&& in_buffer(lines, pos.0 as int, pos.1 as int)
    &&& in_buffer(lines, other.0 as int, other.1 as int)
    &&& are_partners(
        flat(lines),
        flat_index(lines, pos.0 as int, pos.1 as int),
        flat_index(lines, other.0 as int, other.1 as int),
    )
}

/// The character at `pos` is a bracket of the buffer that has a partner.
pub open spec fn has_partner(lines: Seq<Seq<char>>, pos: (usize, usize)) -> bool {
    in_buffer(lines, pos.0 as int, pos.1 as int) && exists|j: int|
        are_partners(flat(lines), flat_index(lines, pos.0 as int, pos.1 as int), j)
}

proof fn lemma_flat_take(lines: Seq<Seq<char>>, row: int)
    requires
        0 <= row < lines.len(),
    ensures
        flat(lines.take(row + 1)) == flat(lines.take(row)) + lines[row],
        flat(lines.take(row + 1)).len() <= flat(lines).len(),
        flat(lines.take(row)).len() + lines[row].len() <= flat(lines).len(),
        forall|col: int|
            0 <= col < lines[row].len() ==> flat(lines)[flat(lines.take(row)).len() + col]
                == #[trigger] lines[row][col],
    decreases lines.len(),
{
    assert(lines.take(row + 1).drop_last() =~= lines.take(row));
    if row + 1 == lines.len() {
        assert(lines.take(row + 1) =~= lines);
    } else {
        let shorter = lines.drop_last();
        lemma_flat_take(shorter, row);
        assert(shorter.take(row + 1) =~= lines.take(row + 1));
        assert(shorter.take(row) =~= lines.take(row));
    }
}

/// The partner of the bracket at `start` in `text`, searched by counting brackets.
fn find_partner(text: &Vec<char>, start: usize) -> (res: Option<usize>)
    requires
        start < text@.len(),
    ensures
        res matches Some(j) ==> are_partners(text@, start as int, j as int),
        res is None ==> forall|j: int| !are_partners(text@, start as int, j),
{
    let n = text.len();
    let cur = text[start];
    if cur == '[' {
        let mut open: usize = 0;
        let mut i: usize = start + 1;
        assert(depth(text@, start + 1) == depth(text@, start as int) + 1);
        while i < n
            invariant
                start < i <= n,
                n == text@.len(),
                text@[start as int] == '[',
                open < i,
                depth(text@, i as int) == depth(text@, start as int) + 1 + open,
                forall|k: int| start < k <= i ==> depth(text@, k) > depth(text@, start as int),
            decreases n - i,
        {
            let c = text[i];
            assert(depth(text@, i + 1) == depth(text@, i as int) + crate::program::bracket_delta(
                c,
            ));
            if c == '[' {
                open = open + 1;
            } else if c == ']' {
                if open == 0 {
                    assert(is_match(text@, start as int, i as int));
                    return Some(i);
                }
                open = open - 1;
            }
            i = i + 1;
        }
        proof {
            assert forall|j: int| !are_partners(text@, start as int, j) by {
                if is_match(text@, start as int, j) {
                    assert(depth(text@, j + 1) > depth(text@, start as int));
                }
            }
        }
        None
    } else if cur == ']' {
        let mut closed: usize = 0;
        let mut i: usize = start;
        while i > 0
            invariant
                i <= start < n,
                n == text@.len(),
                text@[start as int] == ']',
                closed <= start - i,
                depth(text@, i as int) == depth(text@, start as int) + closed,
                forall|k: int| i <= k <= start ==> depth(text@, k) >= depth(text@, start as int),
            decreases i,
        {
            i = i - 1;
            let c = text[i];
            assert(depth(text@, i + 1) == depth(text@, i as int) + crate::program::bracket_delta(
                c,
            ));
            if c == ']' {
                closed = closed + 1;
            } else if c == '[' {
                if closed == 0 {
                    assert(depth(text@, start + 1) == depth(text@, start as int) - 1);
                    assert(is_match(text@, i as int, start as int));
                    return Some(i);
                }
                closed = closed - 1;
            }
        }
        proof {
            assert(depth(text@, start + 1) == depth(text@, start as int) - 1);
            assert forall|j: int| !are_partners(text@, start as int, j) by {
                if is_match(text@, j, start as int) {
                    assert(depth(text@, j) >= depth(text@, start as int));
                }
            }
        }
        None
    } else {
        None
    }
}

/// The place of the partner of the bracket at `pos`, if `pos` names a bracket of the buffer
/// that has one. Brackets pair across lines.
pub fn find_matching_bracket(lines: &Vec<String>, pos: (usize, usize)) -> (res: Option<
    (usize, usize),
>)
    ensures
        res matches Some(other) ==> bracket_pair(line_views(lines@), pos, other),
        res is None ==> !has_partner(line_views(lines@), pos),
{
    let ghost all = line_views(lines@);
    let rows = lines.len();
    let mut text: Vec<char> = Vec::new();
    let mut starts: Vec<usize> = Vec::new();
    let mut ends: Vec<usize> = Vec::new();
    let mut r: usize = 0;
    assert(all.take(0) =~= Seq::<Seq<char>>::empty());
    while r < rows
        invariant
            r <= rows,
            rows == lines@.len(),
            all == line_views(lines@),
            text@ == flat(all.take(r as int)),
            starts@.len() == r,
            ends@.len() == r,
            forall|q: int|
                0 <= q < r ==> starts@[q] == flat(all.take(q)).len() && ends@[q] == starts@[q]
                    + all[q].len(),
        decreases rows - r,
    {
        let line = to_chars(lines[r].as_str());
        starts.push(text.len());
        let ghost head = text@;
        let mut j: usize = 0;
        while j < line.len()
            invariant
                j <= line@.len(),
                text@ == head + line@.take(j as int),
            decreases line@.len() - j,
        {
            text.push(line[j]);
            assert(line@.take(j + 1) =~= line@.take(j as int).push(line@[j as int]));
            j = j + 1;
        }
        ends.push(text.len());
        proof {
            assert(line@.take(line@.len() as int) =~= line@);
            lemma_flat_take(all, r as int);
        }
        r = r + 1;
    }
    assert(all.take(rows as int) =~= all);
    if pos.0 >= rows {
        return None;
    }
    proof {
        lemma_flat_take(all, pos.0 as int);
    }
    let width = ends[pos.0] - starts[pos.0];
    if pos.1 >= width {
        return None;
    }
    let start = starts[pos.0] + pos.1;
    assert(in_buffer(all, pos.0 as int, pos.1 as int));
    assert(start == flat_index(all, pos.0 as int, pos.1 as int));
    match find_partner(&text, start) {
        None => None,
        Some(j) => {
            let mut q: usize = 0;
            while q < rows
                invariant
                    q <= rows,
                    in_buffer(all, pos.0 as int, pos.1 as int),
                    start == flat_index(all, pos.0 as int, pos.1 as int),
                    are_partners(text@, start as int, j as int),
                    rows == lines@.len(),
                    rows == starts@.len(),
                    rows == ends@.len(),
                    all == line_views(lines@),
                    text@ == flat(all),
                    j < text@.len(),
                    forall|p: int|
                        0 <= p < rows ==> starts@[p] == flat(all.take(p)).len() && ends@[p]
                            == starts@[p] + all[p].len(),
                    forall|p: int| 0 <= p < q ==> !((#[trigger] starts@[p]) <= j < ends@[p]),
                decreases rows - q,
            {
                if starts[q] <= j && j < ends[q] {
                    proof {
                        lemma_flat_take(all, q as int);
                    }
                    return Some((q, j - starts[q]));
                }
                q = q + 1;
            }
            proof {
                lemma_flat_covered(all, j as int);
                let p = choose|p: int|
                    0 <= p < all.len() && flat(all.take(p)).len() <= j < flat(all.take(p)).len()
                        + (#[trigger] all[p]).len();
                assert(starts@[p] <= j < ends@[p]);
            }
            None
        },
    }
}

/// Every index of the flat text lies in one of the lines.
proof fn lemma_flat_covered(lines: Seq<Seq<char>>, j: int)
    requires
        0 <= j < flat(lines).len(),
    ensures
        exists|p: int|
            0 <= p < lines.len() && flat(lines.take(p)).len() <= j < flat(lines.take(p)).len()
                + (#[trigger] lines[p]).len(),
    decreases lines.len(),
{
    if lines.len() > 0 {
        let shorter = lines.drop_last();
        let last = lines.len() - 1;
        assert(lines.take(last) =~= shorter);
        if j < flat(shorter).len() {
            lemma_flat_covered(shorter, j);
            let p = choose|p: int|
                0 <= p < shorter.len() && flat(shorter.take(p)).len() <= j < flat(
                    shorter.take(p),
                ).len() + (#[trigger] shorter[p]).len();
            assert(shorter.take(p) =~= lines.take(p));
            assert(lines[p] == shorter[p]);
        } else {
            assert(flat(lines.take(last)).len() <= j < flat(lines.take(last)).len()
                + lines[last].len());
        }
    }
}

} // verus!
