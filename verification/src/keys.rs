//! What the keys of the terminal front end do: which pane or dialog a key goes to, what the
//! keys that belong to no pane change, and what a key does to the name typed into a dialog.

use vstd::prelude::*;
use crate::chars::to_chars;
use crate::chars::to_string;
use crate::chars::trim_chars;
use crate::chars::trimmed;

verus! {

/// `String::pop` removes the last character and returns it; an empty string stays empty and
/// nothing is returned.
pub assume_specification[ String::pop ](s: &mut String) -> (last: Option<char>)
    ensures
        old(s)@.len() == 0 ==> last is None && final(s)@ == old(s)@,
        old(s)@.len() > 0 ==> last == Some(old(s)@.last()) && final(s)@ == old(s)@.drop_last(),
;

/// The pane that takes the keys.
#[derive(Debug, Clone, Copy, PartialEq, Eq, Structural)]
pub enum Focus {
    Editor,
    Output,
    Tape,
}

/// How the output pane shows bytes.
#[derive(Debug, Clone, Copy, PartialEq, Eq, Structural)]
pub enum OutputMode {
    Raw,
    Escaped,
}

/// A key, as far as the front end tells keys apart.
#[derive(Debug, Clone, Copy, PartialEq, Eq, Structural)]
pub enum KeyCode {
    Char(char),
    F(u8),
    Tab,
    BackTab,
    Esc,
    Enter,
    Backspace,
    Delete,
    Left,
    Right,
    Up,
    Down,
    Home,
    End,
    PageUp,
    PageDown,
    Other,
}

/// A key press.
#[derive(Debug, Clone, Copy, PartialEq, Eq, Structural)]
pub struct Key {
    /// The key.
    pub code: KeyCode,
    /// Control is held.
    pub control: bool,
    /// No modifier is held at all.
    pub unmodified: bool,
}

/// What belongs to no pane: the help, the focus, and the mode of the output pane.
#[derive(Debug, Clone, Copy, PartialEq, Eq, Structural)]
pub struct Panes {
    pub show_help: bool,
    pub focused: Focus,
    pub output_mode: OutputMode,
}

/// The dialog that is open, if one is. An open dialog takes every key.
#[derive(Debug, Clone, Copy, PartialEq, Eq, Structural)]
pub enum Dialog {
    Closed,
    Save,
    Open,
    Confirm,
}

/// What is left to do after a key has been looked at.
#[derive(Debug, Clone, Copy, PartialEq, Eq, Structural)]
pub enum KeyAction {
    /// Leave the front end.
    Quit,
    /// Nothing more.
    Done,
    /// Hand the key to the dialog that is open.
    ToDialog(Dialog),
    /// Start running the buffer.
    StartRunner,
    /// Stop the run.
    StopRunner,
    /// Open the dialog that asks for a file to open.
    AskOpen,
    /// Save the buffer.
    Save,
    /// Hand the key to the editor.
    ToEditor,
    /// Hand the key to the tape pane.
    ToTape,
}

/// The pane behind `focus`.
pub open spec fn next_focus(focus: Focus) -> Focus {
    match focus {
        Focus::Editor => Focus::Output,
        Focus::Output => Focus::Tape,
        Focus::Tape => Focus::Editor,
    }
}

/// The pane in front of `focus`.
pub open spec fn previous_focus(focus: Focus) -> Focus {
    match focus {
        Focus::Editor => Focus::Tape,
        Focus::Output => Focus::Editor,
        Focus::Tape => Focus::Output,
    }
}

/// The other mode.
pub open spec fn other_mode(mode: OutputMode) -> OutputMode {
    match mode {
        OutputMode::Raw => OutputMode::Escaped,
        OutputMode::Escaped => OutputMode::Raw,
    }
}

/// What a key held with Control does, if it is one of the keys that mean something with
/// Control.
pub open spec fn control_key(panes: Panes, code: KeyCode) -> Option<(Panes, KeyAction)> {
    if code == KeyCode::Char('q') {
        Some((panes, KeyAction::Quit))
    } else if code == KeyCode::Char('h') || code == KeyCode::F(1) {
        Some((Panes { show_help: !panes.show_help, ..panes }, KeyAction::Done))
    } else if code == KeyCode::Char('r') || code == KeyCode::F(5) {
        Some((panes, KeyAction::StartRunner))
    } else if code == KeyCode::Char('o') {
        Some((panes, KeyAction::AskOpen))
    } else if code == KeyCode::Char('s') {
        Some((panes, KeyAction::Save))
    } else if code == KeyCode::Char('e') {
        Some((Panes { output_mode: other_mode(panes.output_mode), ..panes }, KeyAction::Done))
    } else {
        None
    }
}

/// What a key does where Control decides nothing.
pub open spec fn plain_key(panes: Panes, key: Key) -> (Panes, KeyAction) {
    if key.code == KeyCode::F(1) {
        (Panes { show_help: !panes.show_help, ..panes }, KeyAction::Done)
    } else if key.code == KeyCode::F(5) {
        (panes, KeyAction::StartRunner)
    } else if (key.code == KeyCode::Char('.') && key.control) || key.code == KeyCode::F(17) {
        (panes, KeyAction::StopRunner)
    } else if key.code == KeyCode::Tab {
        (Panes { focused: next_focus(panes.focused), ..panes }, KeyAction::Done)
    } else if key.code == KeyCode::BackTab {
        (Panes { focused: previous_focus(panes.focused), ..panes }, KeyAction::Done)
    } else if key.code == KeyCode::Esc {
        if panes.show_help {
            (Panes { show_help: false, ..panes }, KeyAction::Done)
        } else {
            (panes, KeyAction::Quit)
        }
    } else {
        match panes.focused {
            Focus::Editor => (panes, KeyAction::ToEditor),
            Focus::Output => (panes, KeyAction::Done),
            Focus::Tape => (panes, KeyAction::ToTape),
        }
    }
}

/// What a key does: an open dialog takes it; else Control with one of its keys decides; else
/// the key itself decides, and a key that means nothing by itself goes to the pane in focus.
pub open spec fn key_effect(panes: Panes, dialog: Dialog, key: Key) -> (Panes, KeyAction) {
    if dialog != Dialog::Closed {
        (panes, KeyAction::ToDialog(dialog))
    } else if key.control && control_key(panes, key.code) is Some {
        control_key(panes, key.code)->0
    } else {
        plain_key(panes, key)
    }
}

/// Looks at a key: changes what belongs to no pane and says what is left to do.
pub fn handle_key(panes: &mut Panes, dialog: Dialog, key: Key) -> (action: KeyAction)
    ensures
        (*final(panes), action) == key_effect(*old(panes), dialog, key),
{
    match dialog {
        Dialog::Closed => {},
        _ => {
            return KeyAction::ToDialog(dialog);
        },
    }
    if key.control {
        match key.code {
            KeyCode::Char(c) => {
                if c == 'q' {
                    return KeyAction::Quit;
                } else if c == 'h' {
                    panes.show_help = !panes.show_help;
                    return KeyAction::Done;
                } else if c == 'r' {
                    return KeyAction::StartRunner;
                } else if c == 'o' {
                    return KeyAction::AskOpen;
                } else if c == 's' {
                    return KeyAction::Save;
                } else if c == 'e' {
                    panes.output_mode = match panes.output_mode {
                        OutputMode::Raw => OutputMode::Escaped,
                        OutputMode::Escaped => OutputMode::Raw,
                    };
                    return KeyAction::Done;
                }
            },
            KeyCode::F(n) => {
                if n == 1 {
                    panes.show_help = !panes.show_help;
                    return KeyAction::Done;
                } else if n == 5 {
                    return KeyAction::StartRunner;
                }
            },
            _ => {},
        }
    }
    match key.code {
        KeyCode::F(n) => {
            if n == 1 {
                panes.show_help = !panes.show_help;
                return KeyAction::Done;
            } else if n == 5 {
                return KeyAction::StartRunner;
            } else if n == 17 {
                return KeyAction::StopRunner;
            }
        },
        KeyCode::Char(c) => {
            if c == '.' && key.control {
                return KeyAction::StopRunner;
            }
        },
        KeyCode::Tab => {
            panes.focused = match panes.focused {
                Focus::Editor => Focus::Output,
                Focus::Output => Focus::Tape,
                Focus::Tape => Focus::Editor,
            };
            return KeyAction::Done;
        },
        KeyCode::BackTab => {
            panes.focused = match panes.focused {
                Focus::Editor => Focus::Tape,
                Focus::Output => Focus::Editor,
                Focus::Tape => Focus::Output,
            };
            return KeyAction::Done;
        },
        KeyCode::Esc => {
            if panes.show_help {
                panes.show_help = false;
                return KeyAction::Done;
            } else {
                return KeyAction::Quit;
            }
        },
        _ => {},
    }
    match panes.focused {
        Focus::Editor => KeyAction::ToEditor,
        Focus::Output => KeyAction::Done,
        Focus::Tape => KeyAction::ToTape,
    }
}

/// The control characters: the first 32 characters, and DEL with the 32 characters behind it.
pub open spec fn is_control(c: char) -> bool {
    let u = c as u32;
    u <= 0x1F || (0x7F <= u <= 0x9F)
}

/// Whether `c` is a control character.
pub fn is_control_char(c: char) -> (r: bool)
    ensures
        r == is_control(c),
{
    let u = c as u32;
    u <= 0x1F || (0x7F <= u && u <= 0x9F)
}

/// What a key does in a dialog that asks for a name.
#[derive(Debug, Clone, PartialEq, Eq)]
pub enum NameStep {
    /// Close the dialog and forget the name.
    Close,
    /// A name was entered: act on it. It is trimmed and not empty.
    Submit(String),
    /// Enter was pressed on an empty name: say that a name is needed.
    Refuse,
    /// Nothing more; the key may have changed the name.
    Done,
}

/// The name after a key: Backspace takes the last character away, a character that is typed
/// without modifier and is no control character is added, every other key leaves the name.
pub open spec fn name_after(name: Seq<char>, key: Key) -> Seq<char> {
    match key.code {
        KeyCode::Backspace => if name.len() > 0 {
            name.drop_last()
        } else {
            name
        },
        KeyCode::Char(c) => if key.unmodified && !is_control(c) {
            name.push(c)
        } else {
            name
        },
        _ => name,
    }
}

/// Looks at a key in a dialog that asks for a name: Esc closes, Enter submits the trimmed
/// name if it is not empty, every other key edits the name.
pub fn handle_name_key(name: &mut String, key: Key) -> (step: NameStep)
    ensures
        final(name)@ == name_after(old(name)@, key),
        match key.code {
            KeyCode::Esc => step == NameStep::Close,
            KeyCode::Enter => if trimmed(old(name)@).len() == 0 {
                step == NameStep::Refuse
            } else {
                step matches NameStep::Submit(text) && text@ == trimmed(old(name)@)
            },
            _ => step == NameStep::Done,
        },
{
    match key.code {
        KeyCode::Esc => NameStep::Close,
        KeyCode::Enter => {
            let entered = trim_chars(&to_chars(name.as_str()));
            if entered.len() == 0 {
                NameStep::Refuse
            } else {
                NameStep::Submit(to_string(&entered))
            }
        },
        KeyCode::Backspace => {
            name.pop();
            NameStep::Done
        },
        KeyCode::Char(c) => {
            if key.unmodified && !is_control_char(c) {
                name.push(c);
            }
            NameStep::Done
        },
        _ => NameStep::Done,
    }
}

/// What a key does in the dialog that asks for a yes or a no.
#[derive(Debug, Clone, Copy, PartialEq, Eq, Structural)]
pub enum ConfirmStep {
    /// Enter: yes.
    Yes,
    /// Esc: no.
    No,
    /// Any other key: the dialog stays.
    Stay,
}

/// Looks at a key in the dialog that asks for a yes or a no.
pub fn handle_confirm_key(key: Key) -> (step: ConfirmStep)
    ensures
        step == match key.code {
            KeyCode::Enter => ConfirmStep::Yes,
            KeyCode::Esc => ConfirmStep::No,
            _ => ConfirmStep::Stay,
        },
{
    match key.code {
        KeyCode::Enter => ConfirmStep::Yes,
        KeyCode::Esc => ConfirmStep::No,
        _ => ConfirmStep::Stay,
    }
}

} // verus!
