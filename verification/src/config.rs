//! The colours of the front ends: their names, and the configuration text that sets them.
//!
//! A configuration is read line by line. Lines that are empty or begin with `#` are passed
//! over. A line in square brackets opens a section; only the section `colors` counts. In it a
//! line `key = value` gives a colour to a key; the value may stand in double quotes; the last
//! line for a key decides. A value that is no colour leaves the key at its default.

use vstd::prelude::*;
use crate::chars::lines_scanned;
use crate::chars::lower_chars;
use crate::chars::lowered;
use crate::chars::same_text;
use crate::chars::split_lines;
use crate::chars::to_chars;
use crate::chars::to_string;
use crate::chars::trim_chars;
use crate::chars::trimmed;

verus! {

/// A colour as the terminal interface names it.
#[derive(Debug, Clone, Copy, PartialEq, Eq, Structural)]
pub enum Color {
    Reset,
    Black,
    Red,
    Green,
    Yellow,
    Blue,
    Magenta,
    Cyan,
    Gray,
    DarkGray,
    LightRed,
    LightGreen,
    LightYellow,
    LightBlue,
    LightMagenta,
    LightCyan,
    White,
    Rgb(u8, u8, u8),
    Indexed(u8),
}

/// A colour as the line editor names it.
#[derive(Debug, Clone, Copy, PartialEq, Eq, Structural)]
pub enum AnsiColor {
    Black,
    DarkGray,
    Red,
    LightRed,
    Green,
    LightGreen,
    Yellow,
    Blue,
    LightBlue,
    Purple,
    LightMagenta,
    Cyan,
    LightCyan,
    White,
    LightGray,
    Default,
    Rgb(u8, u8, u8),
}

/// The line editor's name for a colour of the terminal interface; the default colour where it
/// has none.
pub open spec fn ansi_of(c: Color) -> AnsiColor {
    match c {
        Color::Black => AnsiColor::Black,
        Color::Red => AnsiColor::Red,
        Color::Green => AnsiColor::Green,
        Color::Yellow => AnsiColor::Yellow,
        Color::Blue => AnsiColor::Blue,
        Color::Magenta => AnsiColor::Purple,
        Color::Cyan => AnsiColor::Cyan,
        Color::Gray => AnsiColor::LightGray,
        Color::DarkGray => AnsiColor::DarkGray,
        Color::LightRed => AnsiColor::LightRed,
        Color::LightGreen => AnsiColor::LightGreen,
        Color::LightBlue => AnsiColor::LightBlue,
        Color::LightMagenta => AnsiColor::LightMagenta,
        Color::LightCyan => AnsiColor::LightCyan,
        Color::White => AnsiColor::White,
        Color::Rgb(r, g, b) => AnsiColor::Rgb(r, g, b),
        _ => AnsiColor::Default,
    }
}

/// The line editor's colour for a colour of the terminal interface.
pub fn rat_to_nu(c: Color) -> (color: AnsiColor)
    ensures
        color == ansi_of(c),
{
    match c {
        Color::Black => AnsiColor::Black,
        Color::Red => AnsiColor::Red,
        Color::Green => AnsiColor::Green,
        Color::Yellow => AnsiColor::Yellow,
        Color::Blue => AnsiColor::Blue,
        Color::Magenta => AnsiColor::Purple,
        Color::Cyan => AnsiColor::Cyan,
        Color::Gray => AnsiColor::LightGray,
        Color::DarkGray => AnsiColor::DarkGray,
        Color::LightRed => AnsiColor::LightRed,
        Color::LightGreen => AnsiColor::LightGreen,
        Color::LightBlue => AnsiColor::LightBlue,
        Color::LightMagenta => AnsiColor::LightMagenta,
        Color::LightCyan => AnsiColor::LightCyan,
        Color::White => AnsiColor::White,
        Color::Rgb(r, g, b) => AnsiColor::Rgb(r, g, b),
        _ => AnsiColor::Default,
    }
}

/// What `u8::from_str_radix` with radix 16 makes of a text.
pub uninterp spec fn parsed_hex_byte(text: Seq<char>) -> Option<u8>;

/// Reads a byte in hexadecimal: this is `u8::from_str_radix` with radix 16, with its error
/// dropped. The result depends on the text alone.
#[verifier::external_body]
fn parse_hex_byte(text: &str) -> (byte: Option<u8>)
    ensures
        byte == parsed_hex_byte(text@),
{
    u8::from_str_radix(text, 16).ok()
}

/// The colour of a name in lower case.
pub open spec fn named_color(name: Seq<char>) -> Option<Color> {
    if name == "black"@ {
        Some(Color::Black)
    } else if name == "red"@ {
        Some(Color::Red)
    } else if name == "green"@ {
        Some(Color::Green)
    } else if name == "yellow"@ {
        Some(Color::Yellow)
    } else if name == "blue"@ {
        Some(Color::Blue)
    } else if name == "magenta"@ {
        Some(Color::Magenta)
    } else if name == "cyan"@ {
        Some(Color::Cyan)
    } else if name == "gray"@ {
        Some(Color::Gray)
    } else if name == "grey"@ {
        Some(Color::Gray)
    } else if name == "darkgray"@ {
        Some(Color::DarkGray)
    } else if name == "dark_grey"@ {
        Some(Color::DarkGray)
    } else if name == "darkgrey"@ {
        Some(Color::DarkGray)
    } else if name == "dark_gray"@ {
        Some(Color::DarkGray)
    } else if name == "lightred"@ {
        Some(Color::LightRed)
    } else if name == "light_red"@ {
        Some(Color::LightRed)
    } else if name == "lightgreen"@ {
        Some(Color::LightGreen)
    } else if name == "light_green"@ {
        Some(Color::LightGreen)
    } else if name == "lightblue"@ {
        Some(Color::LightBlue)
    } else if name == "light_blue"@ {
        Some(Color::LightBlue)
    } else if name == "lightmagenta"@ {
        Some(Color::LightMagenta)
    } else if name == "light_magenta"@ {
        Some(Color::LightMagenta)
    } else if name == "lightcyan"@ {
        Some(Color::LightCyan)
    } else if name == "light_cyan"@ {
        Some(Color::LightCyan)
    } else if name == "white"@ {
        Some(Color::White)
    } else {
        None
    }
}

/// All of the characters are ASCII.
pub open spec fn all_ascii(s: Seq<char>) -> bool {
    forall|i: int| 0 <= i < s.len() ==> (#[trigger] s[i]) as u32 <= 0x7F
}

/// The colour that a value names: `#` and six hexadecimal digits, read in pairs as red, green
/// and blue, or one of the colour names in any case. White space around the value does not
/// count.
pub open spec fn color_of(value: Seq<char>) -> Option<Color> {
    let s = trimmed(value);
    if s.len() > 0 && s[0] == '#' {
        let hex = s.skip(1);
        if hex.len() == 6 && all_ascii(hex) {
            match (
                parsed_hex_byte(hex.subrange(0, 2)),
                parsed_hex_byte(hex.subrange(2, 4)),
                parsed_hex_byte(hex.subrange(4, 6)),
            ) {
                (Some(r), Some(g), Some(b)) => Some(Color::Rgb(r, g, b)),
                _ => None,
            }
        } else {
            None
        }
    } else {
        named_color(lowered(s))
    }
}

fn name_to_color(name: &Vec<char>) -> (color: Option<Color>)
    ensures
        color == named_color(name@),
{
    if same_text(name, "black") {
        Some(Color::Black)
    } else if same_text(name, "red") {
        Some(Color::Red)
    } else if same_text(name, "green") {
        Some(Color::Green)
    } else if same_text(name, "yellow") {
        Some(Color::Yellow)
    } else if same_text(name, "blue") {
        Some(Color::Blue)
    } else if same_text(name, "magenta") {
        Some(Color::Magenta)
    } else if same_text(name, "cyan") {
        Some(Color::Cyan)
    } else if same_text(name, "gray") {
        Some(Color::Gray)
    } else if same_text(name, "grey") {
        Some(Color::Gray)
    } else if same_text(name, "darkgray") {
        Some(Color::DarkGray)
    } else if same_text(name, "dark_grey") {
        Some(Color::DarkGray)
    } else if same_text(name, "darkgrey") {
        Some(Color::DarkGray)
    } else if same_text(name, "dark_gray") {
        Some(Color::DarkGray)
    } else if same_text(name, "lightred") {
        Some(Color::LightRed)
    } else if same_text(name, "light_red") {
        Some(Color::LightRed)
    } else if same_text(name, "lightgreen") {
        Some(Color::LightGreen)
    } else if same_text(name, "light_green") {
        Some(Color::LightGreen)
    } else if same_text(name, "lightblue") {
        Some(Color::LightBlue)
    } else if same_text(name, "light_blue") {
        Some(Color::LightBlue)
    } else if same_text(name, "lightmagenta") {
        Some(Color::LightMagenta)
    } else if same_text(name, "light_magenta") {
        Some(Color::LightMagenta)
    } else if same_text(name, "lightcyan") {
        Some(Color::LightCyan)
    } else if same_text(name, "light_cyan") {
        Some(Color::LightCyan)
    } else if same_text(name, "white") {
        Some(Color::White)
    } else {
        None
    }
}

fn hex_pair(hex: &Vec<char>, at: usize) -> (byte: Option<u8>)
    requires
        at + 2 <= hex@.len(),
    ensures
        byte == parsed_hex_byte(hex@.subrange(at as int, at + 2)),
{
    let n = hex.len();
    let mut pair: Vec<char> = Vec::new();
    pair.push(hex[at]);
    pair.push(hex[at + 1]);
    assert(pair@ =~= hex@.subrange(at as int, at + 2));
    let text = to_string(&pair);
    parse_hex_byte(text.as_str())
}

/// Reads a colour.
pub fn parse_color(value: &str) -> (color: Option<Color>)
    ensures
        color == color_of(value@),
{
    parse_color_chars(&to_chars(value))
}

fn parse_color_chars(value: &Vec<char>) -> (color: Option<Color>)
    ensures
        color == color_of(value@),
{
    let s = trim_chars(value);
    if s.len() > 0 && s[0] == '#' {
        let mut hex: Vec<char> = Vec::new();
        let mut i: usize = 1;
        let mut ascii = true;
        while i < s.len()
            invariant
                1 <= i <= s@.len(),
                hex@ == s@.subrange(1, i as int),
                ascii == all_ascii(hex@),
            decreases s@.len() - i,
        {
            let c = s[i];
            let ghost before = hex@;
            hex.push(c);
            assert(hex@ =~= s@.subrange(1, i + 1));
            if c as u32 > 0x7F {
                ascii = false;
            }
            proof {
                if all_ascii(before) && c as u32 <= 0x7F {
                    assert forall|k: int| 0 <= k < hex@.len() implies (#[trigger] hex@[k]) as u32
                        <= 0x7F by {
                        if k < before.len() {
                            assert(hex@[k] == before[k]);
                        }
                    }
                } else if !all_ascii(before) {
                    let k = choose|k: int| 0 <= k < before.len() && !((#[trigger] before[k]) as u32
                        <= 0x7F);
                    assert(hex@[k] == before[k]);
                } else {
                    assert(hex@[before.len() as int] == c);
                }
            }
            i = i + 1;
        }
        assert(hex@ =~= s@.skip(1));
        if hex.len() == 6 && ascii {
            let r = hex_pair(&hex, 0);
            let g = hex_pair(&hex, 2);
            let b = hex_pair(&hex, 4);
            match (r, g, b) {
                (Some(r), Some(g), Some(b)) => Some(Color::Rgb(r, g, b)),
                _ => None,
            }
        } else {
            None
        }
    } else {
        name_to_color(&lower_chars(&s))
    }
}

/// The colours of the terminal front end, one for each thing that is coloured.
#[derive(Debug, Clone, Copy, PartialEq, Eq, Structural)]
pub struct Colors {
    pub editor_title_focused: Color,
    pub editor_title_unfocused: Color,
    pub gutter_text: Color,
    pub output_title_focused: Color,
    pub output_title_unfocused: Color,
    pub tape_border_focused: Color,
    pub tape_border_unfocused: Color,
    pub tape_cell_empty: Color,
    pub tape_cell_nonzero: Color,
    pub tape_cell_pointer: Color,
    pub status_text: Color,
    pub dialog_title: Color,
    pub dialog_bg: Color,
    pub dialog_error: Color,
    pub dialog_text: Color,
    pub help_hint: Color,
    pub editor_op_right: Color,
    pub editor_op_left: Color,
    pub editor_op_inc: Color,
    pub editor_op_dec: Color,
    pub editor_op_output: Color,
    pub editor_op_input: Color,
    pub editor_op_bracket: Color,
    pub editor_non_bf: Color,
}

/// The colours where nothing is configured.
pub open spec fn default_colors() -> Colors {
    Colors {
        editor_title_focused: Color::Cyan,
        editor_title_unfocused: Color::Gray,
        gutter_text: Color::DarkGray,
        output_title_focused: Color::Cyan,
        output_title_unfocused: Color::Gray,
        tape_border_focused: Color::Cyan,
        tape_border_unfocused: Color::Gray,
        tape_cell_empty: Color::DarkGray,
        tape_cell_nonzero: Color::White,
        tape_cell_pointer: Color::Yellow,
        status_text: Color::White,
        dialog_title: Color::White,
        dialog_bg: Color::Black,
        dialog_error: Color::Red,
        dialog_text: Color::White,
        help_hint: Color::Gray,
        editor_op_right: Color::Cyan,
        editor_op_left: Color::Green,
        editor_op_inc: Color::LightGreen,
        editor_op_dec: Color::Red,
        editor_op_output: Color::Yellow,
        editor_op_input: Color::Magenta,
        editor_op_bracket: Color::LightMagenta,
        editor_non_bf: Color::Gray,
    }
}

impl Default for Colors {
    fn default() -> (colors: Self)
        ensures
            colors == default_colors(),
    {
        Self {
            editor_title_focused: Color::Cyan,
            editor_title_unfocused: Color::Gray,
            gutter_text: Color::DarkGray,
            output_title_focused: Color::Cyan,
            output_title_unfocused: Color::Gray,
            tape_border_focused: Color::Cyan,
            tape_border_unfocused: Color::Gray,
            tape_cell_empty: Color::DarkGray,
            tape_cell_nonzero: Color::White,
            tape_cell_pointer: Color::Yellow,
            status_text: Color::White,
            dialog_title: Color::White,
            dialog_bg: Color::Black,
            dialog_error: Color::Red,
            dialog_text: Color::White,
            help_hint: Color::Gray,
            editor_op_right: Color::Cyan,
            editor_op_left: Color::Green,
            editor_op_inc: Color::LightGreen,
            editor_op_dec: Color::Red,
            editor_op_output: Color::Yellow,
            editor_op_input: Color::Magenta,
            editor_op_bracket: Color::LightMagenta,
            editor_non_bf: Color::Gray,
        }
    }
}

/// The index of the first `=` of a line, if it has one.
pub open spec fn first_equals(line: Seq<char>) -> Option<int> {
    if exists|i: int| 0 <= i < line.len() && line[i] == '=' {
        Some(
            choose|i: int|
                0 <= i < line.len() && line[i] == '=' && forall|j: int|
                    0 <= j < i ==> line[j] != '=',
        )
    } else {
        None
    }
}

/// A value without the double quotes around it, if it stands in double quotes.
pub open spec fn unquoted(value: Seq<char>) -> Seq<char> {
    if value.len() >= 2 && value[0] == '"' && value.last() == '"' {
        value.subrange(1, value.len() - 1)
    } else {
        value
    }
}

/// What has been read of a configuration: whether the section `colors` is open, and the keys
/// with their values in the order of their lines.
pub struct Reading {
    pub in_colors: bool,
    pub assignments: Seq<(Seq<char>, Seq<char>)>,
}

/// What one more line adds to what has been read.
pub open spec fn after_line(reading: Reading, raw: Seq<char>) -> Reading {
    let line = trimmed(raw);
    if line.len() == 0 || line[0] == '#' {
        reading
    } else if line[0] == '[' && line.last() == ']' {
        Reading { in_colors: line.subrange(1, line.len() - 1) == "colors"@, ..reading }
    } else if !reading.in_colors {
        reading
    } else {
        match first_equals(line) {
            Some(eq) => Reading {
                assignments: reading.assignments.push(
                    (trimmed(line.take(eq)), unquoted(trimmed(line.skip(eq + 1)))),
                ),
                ..reading
            },
            None => reading,
        }
    }
}

/// What has been read after the first `n` lines.
pub open spec fn read_lines(lines: Seq<Seq<char>>, n: int) -> Reading
    decreases n,
{
    if n <= 0 {
        Reading { in_colors: false, assignments: Seq::empty() }
    } else {
        after_line(read_lines(lines, n - 1), lines[n - 1])
    }
}

/// The value of the last assignment to `key`, if there is one.
pub open spec fn last_value(assignments: Seq<(Seq<char>, Seq<char>)>, key: Seq<char>) -> Option<
    Seq<char>,
>
    decreases assignments.len(),
{
    if assignments.len() == 0 {
        None
    } else if assignments.last().0 == key {
        Some(assignments.last().1)
    } else {
        last_value(assignments.drop_last(), key)
    }
}

/// The colour of a key: that of its last assignment if that names a colour, else the fallback.
pub open spec fn pick(
    assignments: Seq<(Seq<char>, Seq<char>)>,
    key: Seq<char>,
    fallback: Color,
) -> Color {
    match last_value(assignments, key) {
        Some(value) => match color_of(value) {
            Some(color) => color,
            None => fallback,
        },
        None => fallback,
    }
}

/// The colours that the assignments give.
pub open spec fn colors_from(assignments: Seq<(Seq<char>, Seq<char>)>) -> Colors {
    Colors {
        editor_title_focused: pick(assignments, "editor_title_focused"@, Color::Cyan),
        editor_title_unfocused: pick(assignments, "editor_title_unfocused"@, Color::Gray),
        gutter_text: pick(assignments, "gutter_text"@, Color::DarkGray),
        output_title_focused: pick(assignments, "output_title_focused"@, Color::Cyan),
        output_title_unfocused: pick(assignments, "output_title_unfocused"@, Color::Gray),
        tape_border_focused: pick(assignments, "tape_border_focused"@, Color::Cyan),
        tape_border_unfocused: pick(assignments, "tape_border_unfocused"@, Color::Gray),
        tape_cell_empty: pick(assignments, "tape_cell_empty"@, Color::DarkGray),
        tape_cell_nonzero: pick(assignments, "tape_cell_nonzero"@, Color::White),
        tape_cell_pointer: pick(assignments, "tape_cell_pointer"@, Color::Yellow),
        status_text: pick(assignments, "status_text"@, Color::White),
        dialog_title: pick(assignments, "dialog_title"@, Color::White),
        dialog_bg: pick(assignments, "dialog_bg"@, Color::Black),
        dialog_error: pick(assignments, "dialog_error"@, Color::Red),
        dialog_text: pick(assignments, "dialog_text"@, Color::White),
        help_hint: pick(assignments, "help_hint"@, Color::Gray),
        editor_op_right: pick(assignments, "editor_op_right"@, Color::Cyan),
        editor_op_left: pick(assignments, "editor_op_left"@, Color::Green),
        editor_op_inc: pick(assignments, "editor_op_inc"@, Color::LightGreen),
        editor_op_dec: pick(assignments, "editor_op_dec"@, Color::Red),
        editor_op_output: pick(assignments, "editor_op_output"@, Color::Yellow),
        editor_op_input: pick(assignments, "editor_op_input"@, Color::Magenta),
        editor_op_bracket: pick(assignments, "editor_op_bracket"@, Color::LightMagenta),
        editor_non_bf: pick(assignments, "editor_non_bf"@, Color::Gray),
    }
}

/// The colours that a configuration text gives.
pub open spec fn configured(content: Seq<char>) -> Colors {
    let lines = split_lines(content);
    colors_from(read_lines(lines, lines.len() as int).assignments)
}

/// The views of the assignments.
pub open spec fn assignment_views(list: Seq<(Vec<char>, Vec<char>)>) -> Seq<(Seq<char>, Seq<char>)> {
    Seq::new(list.len(), |i: int| (list[i].0@, list[i].1@))
}

fn copy_range(s: &Vec<char>, from: usize, to: usize) -> (out: Vec<char>)
    requires
        from <= to <= s@.len(),
    ensures
        out@ == s@.subrange(from as int, to as int),
{
    let mut out: Vec<char> = Vec::new();
    let mut i: usize = from;
    while i < to
        invariant
            from <= i <= to <= s@.len(),
            out@ == s@.subrange(from as int, i as int),
        decreases to - i,
    {
        out.push(s[i]);
        assert(s@.subrange(from as int, i + 1) =~= s@.subrange(from as int, i as int).push(
            s@[i as int],
        ));
        i = i + 1;
    }
    out
}

fn find_equals(line: &Vec<char>) -> (res: Option<usize>)
    ensures
        match first_equals(line@) {
            Some(eq) => res == Some(eq as usize) && 0 <= eq < line@.len(),
            None => res is None,
        },
{
    let n = line.len();
    let mut i: usize = 0;
    while i < n
        invariant
            i <= n,
            n == line@.len(),
            forall|j: int| 0 <= j < i ==> line@[j] != '=',
        decreases n - i,
    {
        if line[i] == '=' {
            proof {
                let found = first_equals(line@)->0;
                if found < i {
                    assert(line@[found] != '=');
                } else if found > i {
                }
            }
            return Some(i);
        }
        i = i + 1;
    }
    None
}

fn strip_quotes(value: Vec<char>) -> (out: Vec<char>)
    ensures
        out@ == unquoted(value@),
{
    let n = value.len();
    if n >= 2 && value[0] == '"' && value[n - 1] == '"' {
        copy_range(&value, 1, n - 1)
    } else {
        value
    }
}

/// Takes one line to what has been read.
fn read_line(in_colors: &mut bool, assignments: &mut Vec<(Vec<char>, Vec<char>)>, raw: &Vec<char>)
    ensures
        (Reading { in_colors: *final(in_colors), assignments: assignment_views(final(assignments)@) })
            == after_line(
            Reading { in_colors: *old(in_colors), assignments: assignment_views(old(assignments)@) },
            raw@,
        ),
{
    let line = trim_chars(raw);
    let n = line.len();
    if n == 0 || line[0] == '#' {
        return ;
    }
    if line[0] == '[' && line[n - 1] == ']' {
        let inner = copy_range(&line, 1, n - 1);
        *in_colors = same_text(&inner, "colors");
        return ;
    }
    if !*in_colors {
        return ;
    }
    match find_equals(&line) {
        Some(eq) => {
            let key = trim_chars(&copy_range(&line, 0, eq));
            let value = strip_quotes(trim_chars(&copy_range(&line, eq + 1, n)));
            let ghost before = assignment_views(assignments@);
            let ghost pair = (key@, value@);
            assert(line@.subrange(0, eq as int) =~= line@.take(eq as int));
            assert(line@.subrange(eq + 1, n as int) =~= line@.skip(eq + 1));
            assignments.push((key, value));
            assert(assignment_views(assignments@) =~= before.push(pair));
        },
        None => {},
    }
}

fn lookup(assignments: &Vec<(Vec<char>, Vec<char>)>, key: &str, fallback: Color) -> (color: Color)
    ensures
        color == pick(assignment_views(assignments@), key@, fallback),
{
    let ghost all = assignment_views(assignments@);
    let mut i: usize = assignments.len();
    assert(all.take(i as int) =~= all);
    while i > 0
        invariant
            i <= assignments@.len(),
            all == assignment_views(assignments@),
            last_value(all, key@) == last_value(all.take(i as int), key@),
        decreases i,
    {
        i = i - 1;
        proof {
            assert(all.take(i + 1).drop_last() =~= all.take(i as int));
            assert(all.take(i + 1).last() == all[i as int]);
            assert(all[i as int].0 == assignments@[i as int].0@);
        }
        if same_text(&assignments[i].0, key) {
            return match parse_color_chars(&assignments[i].1) {
                Some(color) => color,
                None => fallback,
            };
        }
    }
    assert(all.take(0).len() == 0);
    fallback
}

/// Reads the colours from a configuration text.
pub fn parse_colors(content: &str) -> (colors: Colors)
    ensures
        colors == configured(content@),
{
    let chars = to_chars(content);
    let n = chars.len();
    let mut in_colors = false;
    let mut assignments: Vec<(Vec<char>, Vec<char>)> = Vec::new();
    let mut current: Vec<char> = Vec::new();
    let mut i: usize = 0;
    assert(assignment_views(assignments@) =~= Seq::<(Seq<char>, Seq<char>)>::empty());
    while i < n
        invariant
            i <= n,
            n == chars@.len(),
            current@ == lines_scanned(chars@, i as int).1,
            (Reading { in_colors, assignments: assignment_views(assignments@) }) == read_lines(
                lines_scanned(chars@, i as int).0,
                lines_scanned(chars@, i as int).0.len() as int,
            ),
        decreases n - i,
    {
        let c = chars[i];
        if c == '\n' {
            let ghost done = lines_scanned(chars@, i as int).0;
            read_line(&mut in_colors, &mut assignments, &current);
            proof {
                let more = done.push(current@);
                lemma_read_lines_prefix(more, done.len() as int, done);
            }
            current = Vec::new();
        } else {
            current.push(c);
        }
        i = i + 1;
    }
    let ghost done = lines_scanned(chars@, n as int).0;
    read_line(&mut in_colors, &mut assignments, &current);
    proof {
        let more = done.push(current@);
        lemma_read_lines_prefix(more, done.len() as int, done);
        assert(more == split_lines(chars@));
    }
    Colors {
        editor_title_focused: lookup(&assignments, "editor_title_focused", Color::Cyan),
        editor_title_unfocused: lookup(&assignments, "editor_title_unfocused", Color::Gray),
        gutter_text: lookup(&assignments, "gutter_text", Color::DarkGray),
        output_title_focused: lookup(&assignments, "output_title_focused", Color::Cyan),
        output_title_unfocused: lookup(&assignments, "output_title_unfocused", Color::Gray),
        tape_border_focused: lookup(&assignments, "tape_border_focused", Color::Cyan),
        tape_border_unfocused: lookup(&assignments, "tape_border_unfocused", Color::Gray),
        tape_cell_empty: lookup(&assignments, "tape_cell_empty", Color::DarkGray),
        tape_cell_nonzero: lookup(&assignments, "tape_cell_nonzero", Color::White),
        tape_cell_pointer: lookup(&assignments, "tape_cell_pointer", Color::Yellow),
        status_text: lookup(&assignments, "status_text", Color::White),
        dialog_title: lookup(&assignments, "dialog_title", Color::White),
        dialog_bg: lookup(&assignments, "dialog_bg", Color::Black),
        dialog_error: lookup(&assignments, "dialog_error", Color::Red),
        dialog_text: lookup(&assignments, "dialog_text", Color::White),
        help_hint: lookup(&assignments, "help_hint", Color::Gray),
        editor_op_right: lookup(&assignments, "editor_op_right", Color::Cyan),
        editor_op_left: lookup(&assignments, "editor_op_left", Color::Green),
        editor_op_inc: lookup(&assignments, "editor_op_inc", Color::LightGreen),
        editor_op_dec: lookup(&assignments, "editor_op_dec", Color::Red),
        editor_op_output: lookup(&assignments, "editor_op_output", Color::Yellow),
        editor_op_input: lookup(&assignments, "editor_op_input", Color::Magenta),
        editor_op_bracket: lookup(&assignments, "editor_op_bracket", Color::LightMagenta),
        editor_non_bf: lookup(&assignments, "editor_non_bf", Color::Gray),
    }
}

/// What has been read after some lines does not depend on the lines that follow.
proof fn lemma_read_lines_prefix(lines: Seq<Seq<char>>, n: int, shorter: Seq<Seq<char>>)
    requires
        0 <= n <= shorter.len() <= lines.len(),
        forall|i: int| 0 <= i < shorter.len() ==> shorter[i] == lines[i],
    ensures
        read_lines(lines, n) == read_lines(shorter, n),
    decreases n,
{
    if n > 0 {
        lemma_read_lines_prefix(lines, n - 1, shorter);
    }
}

} // verus!
