use rust_bf::editor::Editor;
use rust_bf::keys::Key;
use rust_bf::keys::KeyCode;

fn plain(code: KeyCode) -> Key {
    Key { code, control: false, unmodified: true }
}

fn editor(lines: &[&str], row: usize, col: usize) -> Editor {
    Editor {
        buffer: lines.iter().map(|l| l.to_string()).collect(),
        cursor_row: row,
        cursor_col: col,
        scroll_row: 0,
        dirty: false,
    }
}

fn state(e: &Editor) -> (Vec<String>, usize, usize, usize, bool) {
    (e.buffer.clone(), e.cursor_row, e.cursor_col, e.scroll_row, e.dirty)
}

fn nth_char_to_byte_idx(s: &str, nth: usize) -> usize {
    if nth == 0 {
        return 0;
    }
    match s.char_indices().nth(nth) {
        Some((i, _)) => i,
        None => s.len(),
    }
}

fn scroll_to(e: &mut Editor) {
    let margin = 3usize;
    if e.cursor_row < e.scroll_row.saturating_add(margin) {
        e.scroll_row = e.cursor_row.saturating_sub(margin);
    }
    let end = e.scroll_row + margin * 2;
    if e.cursor_row > end {
        e.scroll_row = e.cursor_row.saturating_sub(margin);
    }
}

/// The editor worked out on the bytes of its strings.
fn by_strings(e: &mut Editor, key: Key) {
    match key.code {
        KeyCode::Left => {
            if e.cursor_col > 0 {
                e.cursor_col -= 1;
            } else if e.cursor_row > 0 {
                e.cursor_row -= 1;
                e.cursor_col = e.buffer[e.cursor_row].len();
                scroll_to(e);
            }
        }
        KeyCode::Right => {
            let len = e.buffer[e.cursor_row].len();
            if e.cursor_col < len {
                e.cursor_col += 1;
            } else if e.cursor_row + 1 < e.buffer.len() {
                e.cursor_row += 1;
                e.cursor_col = 0;
                scroll_to(e);
            }
        }
        KeyCode::Up => {
            if e.cursor_row > 0 {
                e.cursor_row -= 1;
                e.cursor_col = e.cursor_col.min(e.buffer[e.cursor_row].len());
                scroll_to(e);
            }
        }
        KeyCode::Down => {
            if e.cursor_row + 1 < e.buffer.len() {
                e.cursor_row += 1;
                e.cursor_col = e.cursor_col.min(e.buffer[e.cursor_row].len());
                scroll_to(e);
            }
        }
        KeyCode::Home => {
            e.cursor_col = 0;
        }
        KeyCode::End => {
            e.cursor_col = e.buffer[e.cursor_row].len();
        }
        KeyCode::PageUp => {
            e.cursor_row = e.cursor_row.saturating_sub(10);
            e.cursor_col = e.cursor_col.min(e.buffer[e.cursor_row].len());
            scroll_to(e);
        }
        KeyCode::PageDown => {
            e.cursor_row = (e.cursor_row + 10).min(e.buffer.len().saturating_sub(1));
            e.cursor_col = e.cursor_col.min(e.buffer[e.cursor_row].len());
            scroll_to(e);
        }
        KeyCode::Enter => {
            let line = e.buffer[e.cursor_row].clone();
            let (left, right) = line.split_at(e.cursor_col);
            e.buffer[e.cursor_row] = left.to_string();
            e.buffer.insert(e.cursor_row + 1, right.to_string());
            e.cursor_row += 1;
            e.cursor_col = 0;
            e.dirty = true;
            scroll_to(e);
        }
        KeyCode::Backspace => {
            if e.cursor_col > 0 {
                let col = e.cursor_col;
                let line = &mut e.buffer[e.cursor_row];
                let prev_byte_idx = nth_char_to_byte_idx(line, col - 1);
                line.drain(prev_byte_idx..nth_char_to_byte_idx(line, col));
                e.cursor_col -= 1;
                e.dirty = true;
            } else if e.cursor_row > 0 {
                let cur = e.buffer.remove(e.cursor_row);
                e.cursor_row -= 1;
                let prev_len_chars = e.buffer[e.cursor_row].chars().count();
                e.buffer[e.cursor_row].push_str(&cur);
                e.cursor_row = prev_len_chars;
                e.dirty = true;
                scroll_to(e);
            }
        }
        KeyCode::Delete => {
            let len_chars = e.buffer[e.cursor_row].chars().count();
            if e.cursor_col < len_chars {
                let col = e.cursor_col;
                let line = &mut e.buffer[e.cursor_row];
                let start = nth_char_to_byte_idx(line, col);
                let end = nth_char_to_byte_idx(line, col + 1);
                line.drain(start..end);
                e.dirty = true;
            } else if e.cursor_row + 1 < e.buffer.len() {
                let next = e.buffer.remove(e.cursor_row + 1);
                e.buffer[e.cursor_row].push_str(&next);
                e.dirty = true;
            }
        }
        KeyCode::Char(ch) => {
            if key.unmodified && !ch.is_control() {
                e.buffer[e.cursor_row].insert(e.cursor_col, ch);
                e.cursor_col += 1;
                e.dirty = true;
                scroll_to(e);
            }
        }
        _ => {}
    }

    if e.buffer.is_empty() {
        e.buffer.push(String::new());
        e.cursor_row = 0;
        e.cursor_col = 0;
        e.scroll_row = 0;
    } else {
        e.cursor_row = e.cursor_row.min(e.buffer.len() - 1);
        let cur_len = e.buffer[e.cursor_row].chars().count();
        e.cursor_col = e.cursor_col.min(cur_len);
    }
}

fn carried_out(e: &Editor, key: Key) -> bool {
    let splits = match key.code {
        KeyCode::Enter => true,
        KeyCode::Char(c) => key.unmodified && !c.is_control(),
        _ => false,
    };
    !splits || e.buffer[e.cursor_row].is_char_boundary(e.cursor_col)
}

#[test]
fn a_new_editor_has_one_empty_line() {
    let e = Editor::new();
    assert_eq!(state(&e), (vec![String::new()], 0, 0, 0, false));
}

#[test]
fn typing_and_splitting_lines() {
    let mut e = Editor::new();
    for c in "+[-]".chars() {
        e.handle_editor_key(plain(KeyCode::Char(c)));
    }
    assert_eq!(state(&e), (vec!["+[-]".to_string()], 0, 4, 0, true));
    e.handle_editor_key(plain(KeyCode::Left));
    e.handle_editor_key(plain(KeyCode::Left));
    e.handle_editor_key(plain(KeyCode::Enter));
    assert_eq!(state(&e), (vec!["+[".to_string(), "-]".to_string()], 1, 0, 0, true));
    e.handle_editor_key(plain(KeyCode::Backspace));
    // Joining lines leaves the cursor on the line numbered by the length of the upper line,
    // as far as there are lines.
    assert_eq!(state(&e), (vec!["+[-]".to_string()], 0, 0, 0, true));
    e.handle_editor_key(plain(KeyCode::End));
    e.handle_editor_key(plain(KeyCode::Backspace));
    assert_eq!(state(&e), (vec!["+[-".to_string()], 0, 3, 0, true));
    e.handle_editor_key(plain(KeyCode::Home));
    e.handle_editor_key(plain(KeyCode::Delete));
    assert_eq!(state(&e), (vec!["[-".to_string()], 0, 0, 0, true));
}

#[test]
fn keys_with_modifiers_and_control_characters_type_nothing() {
    let mut e = editor(&["ab"], 0, 1);
    e.handle_editor_key(Key { code: KeyCode::Char('X'), control: false, unmodified: false });
    e.handle_editor_key(Key { code: KeyCode::Char('x'), control: true, unmodified: false });
    e.handle_editor_key(plain(KeyCode::Char('\u{1b}')));
    e.handle_editor_key(plain(KeyCode::Tab));
    e.handle_editor_key(plain(KeyCode::F(2)));
    assert_eq!(state(&e), (vec!["ab".to_string()], 0, 1, 0, false));
}

#[test]
fn cursor_moves_between_lines() {
    let mut e = editor(&["abc", "", "de"], 0, 3);
    e.handle_editor_key(plain(KeyCode::Right));
    assert_eq!((e.cursor_row, e.cursor_col), (1, 0));
    e.handle_editor_key(plain(KeyCode::Right));
    assert_eq!((e.cursor_row, e.cursor_col), (2, 0));
    e.handle_editor_key(plain(KeyCode::End));
    e.handle_editor_key(plain(KeyCode::Right));
    assert_eq!((e.cursor_row, e.cursor_col), (2, 2));
    e.handle_editor_key(plain(KeyCode::Up));
    assert_eq!((e.cursor_row, e.cursor_col), (1, 0));
    e.handle_editor_key(plain(KeyCode::Left));
    assert_eq!((e.cursor_row, e.cursor_col), (0, 3));
    e.handle_editor_key(plain(KeyCode::Down));
    e.handle_editor_key(plain(KeyCode::Down));
    e.handle_editor_key(plain(KeyCode::Down));
    assert_eq!((e.cursor_row, e.cursor_col), (2, 0));
    e.handle_editor_key(plain(KeyCode::PageUp));
    assert_eq!((e.cursor_row, e.cursor_col), (0, 0));
    e.handle_editor_key(plain(KeyCode::Left));
    e.handle_editor_key(plain(KeyCode::Up));
    assert_eq!(state(&e), (vec!["abc".to_string(), String::new(), "de".to_string()], 0, 0, 0, false));
}

#[test]
fn paging_scrolls_the_pane() {
    let lines: Vec<String> = (0..40).map(|i| format!("line {i}")).collect();
    let refs: Vec<&str> = lines.iter().map(|l| l.as_str()).collect();
    let mut e = editor(&refs, 0, 6);
    e.handle_editor_key(plain(KeyCode::PageDown));
    assert_eq!((e.cursor_row, e.cursor_col, e.scroll_row), (10, 6, 7));
    e.handle_editor_key(plain(KeyCode::PageDown));
    e.handle_editor_key(plain(KeyCode::PageDown));
    e.handle_editor_key(plain(KeyCode::PageDown));
    assert_eq!((e.cursor_row, e.cursor_col, e.scroll_row), (39, 6, 36));
    e.handle_editor_key(plain(KeyCode::PageUp));
    assert_eq!((e.cursor_row, e.cursor_col, e.scroll_row), (29, 6, 26));
    assert!(!e.dirty);
}

#[test]
fn editor_agrees_with_the_strings_on_every_key_that_can_be_carried_out() {
    let alphabet = ['+', '-', '[', ']', 'a', ' ', 'é', '€', '𝄞', '\u{7}'];
    let keys = [
        KeyCode::Left,
        KeyCode::Right,
        KeyCode::Up,
        KeyCode::Down,
        KeyCode::Home,
        KeyCode::End,
        KeyCode::PageUp,
        KeyCode::PageDown,
        KeyCode::Enter,
        KeyCode::Backspace,
        KeyCode::Delete,
        KeyCode::Tab,
    ];
    let mut seed: u64 = 0x2545_f491_4f6c_dd1d;
    let mut next = move |bound: usize| {
        seed ^= seed << 13;
        seed ^= seed >> 7;
        seed ^= seed << 17;
        (seed % bound as u64) as usize
    };
    let mut skipped = 0usize;
    let mut carried = 0usize;
    for round in 0..200 {
        let mut verified = Editor::new();
        let mut strings = Editor::new();
        for _ in 0..150 {
            let key = if next(3) == 0 || round % 2 == 0 && next(2) == 0 {
                let c = alphabet[next(alphabet.len())];
                Key { code: KeyCode::Char(c), control: false, unmodified: next(8) != 0 }
            } else {
                plain(keys[next(keys.len())])
            };
            if !carried_out(&strings, key) {
                skipped += 1;
                continue;
            }
            carried += 1;
            verified.handle_editor_key(key);
            by_strings(&mut strings, key);
            assert_eq!(state(&verified), state(&strings), "after {key:?}");
        }
    }
    assert!(carried > 10000);
    assert!(skipped > 0);
}

#[test]
fn opening_a_text_cuts_it_at_its_line_feeds() {
    for text in ["", "+", "+\n", "\n", "a\nb", "a\n\nb\n", "é\r\n€", "\n\n\n"] {
        let e = Editor::open(text);
        let expected: Vec<String> = text.split('\n').map(|s| s.to_string()).collect();
        assert_eq!(state(&e), (expected, 0, 0, 0, false), "{text:?}");
        assert_eq!(rust_bf::tui::current_source(&e.buffer), text);
    }
}
