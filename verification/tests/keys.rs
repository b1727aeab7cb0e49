use rust_bf::keys::handle_confirm_key;
use rust_bf::keys::handle_key;
use rust_bf::keys::handle_name_key;
use rust_bf::keys::is_control_char;
use rust_bf::keys::ConfirmStep;
use rust_bf::keys::Dialog;
use rust_bf::keys::Focus;
use rust_bf::keys::Key;
use rust_bf::keys::KeyAction;
use rust_bf::keys::KeyCode;
use rust_bf::keys::NameStep;
use rust_bf::keys::OutputMode;
use rust_bf::keys::Panes;

fn plain(code: KeyCode) -> Key {
    Key { code, control: false, unmodified: true }
}

fn control(code: KeyCode) -> Key {
    Key { code, control: true, unmodified: false }
}

fn shifted(code: KeyCode) -> Key {
    Key { code, control: false, unmodified: false }
}

fn panes() -> Panes {
    Panes { show_help: false, focused: Focus::Editor, output_mode: OutputMode::Raw }
}

fn press(panes: Panes, dialog: Dialog, key: Key) -> (Panes, KeyAction) {
    let mut after = panes;
    let action = handle_key(&mut after, dialog, key);
    (after, action)
}

#[test]
fn an_open_dialog_takes_every_key() {
    for dialog in [Dialog::Save, Dialog::Open, Dialog::Confirm] {
        for key in [control(KeyCode::Char('q')), plain(KeyCode::Esc), plain(KeyCode::Tab), plain(KeyCode::Char('x'))] {
            assert_eq!(press(panes(), dialog, key), (panes(), KeyAction::ToDialog(dialog)));
        }
    }
}

#[test]
fn control_keys_act_on_the_whole_front_end() {
    let start = panes();
    assert_eq!(press(start, Dialog::Closed, control(KeyCode::Char('q'))), (start, KeyAction::Quit));
    assert_eq!(
        press(start, Dialog::Closed, control(KeyCode::Char('h'))),
        (Panes { show_help: true, ..start }, KeyAction::Done)
    );
    assert_eq!(
        press(Panes { show_help: true, ..start }, Dialog::Closed, control(KeyCode::F(1))),
        (start, KeyAction::Done)
    );
    assert_eq!(press(start, Dialog::Closed, control(KeyCode::Char('r'))), (start, KeyAction::StartRunner));
    assert_eq!(press(start, Dialog::Closed, control(KeyCode::F(5))), (start, KeyAction::StartRunner));
    assert_eq!(press(start, Dialog::Closed, control(KeyCode::Char('o'))), (start, KeyAction::AskOpen));
    assert_eq!(press(start, Dialog::Closed, control(KeyCode::Char('s'))), (start, KeyAction::Save));
    assert_eq!(
        press(start, Dialog::Closed, control(KeyCode::Char('e'))),
        (Panes { output_mode: OutputMode::Escaped, ..start }, KeyAction::Done)
    );
    assert_eq!(
        press(Panes { output_mode: OutputMode::Escaped, ..start }, Dialog::Closed, control(KeyCode::Char('e'))),
        (start, KeyAction::Done)
    );
    assert_eq!(press(start, Dialog::Closed, control(KeyCode::Char('.'))), (start, KeyAction::StopRunner));
    assert_eq!(press(start, Dialog::Closed, control(KeyCode::Char('x'))), (start, KeyAction::ToEditor));
    assert_eq!(press(start, Dialog::Closed, control(KeyCode::Esc)), (start, KeyAction::Quit));
    assert_eq!(
        press(start, Dialog::Closed, control(KeyCode::Tab)),
        (Panes { focused: Focus::Output, ..start }, KeyAction::Done)
    );
}

#[test]
fn plain_keys_go_to_the_pane_in_focus() {
    let start = panes();
    assert_eq!(press(start, Dialog::Closed, plain(KeyCode::Char('q'))), (start, KeyAction::ToEditor));
    assert_eq!(press(start, Dialog::Closed, plain(KeyCode::Char('.'))), (start, KeyAction::ToEditor));
    assert_eq!(press(start, Dialog::Closed, shifted(KeyCode::Char('Q'))), (start, KeyAction::ToEditor));
    assert_eq!(press(start, Dialog::Closed, plain(KeyCode::Enter)), (start, KeyAction::ToEditor));
    assert_eq!(press(start, Dialog::Closed, plain(KeyCode::F(2))), (start, KeyAction::ToEditor));
    let tape = Panes { focused: Focus::Tape, ..start };
    assert_eq!(press(tape, Dialog::Closed, plain(KeyCode::Char('['))), (tape, KeyAction::ToTape));
    let output = Panes { focused: Focus::Output, ..start };
    assert_eq!(press(output, Dialog::Closed, plain(KeyCode::Char('['))), (output, KeyAction::Done));
    assert_eq!(press(start, Dialog::Closed, plain(KeyCode::F(1))), (Panes { show_help: true, ..start }, KeyAction::Done));
    assert_eq!(press(start, Dialog::Closed, plain(KeyCode::F(5))), (start, KeyAction::StartRunner));
    assert_eq!(press(start, Dialog::Closed, plain(KeyCode::F(17))), (start, KeyAction::StopRunner));
    assert_eq!(press(start, Dialog::Closed, plain(KeyCode::Esc)), (start, KeyAction::Quit));
    assert_eq!(
        press(Panes { show_help: true, ..start }, Dialog::Closed, plain(KeyCode::Esc)),
        (start, KeyAction::Done)
    );
}

#[test]
fn tab_goes_round_the_panes() {
    let mut at = panes();
    let mut seen = Vec::new();
    for _ in 0..3 {
        let (next, action) = press(at, Dialog::Closed, plain(KeyCode::Tab));
        assert_eq!(action, KeyAction::Done);
        seen.push(next.focused);
        at = next;
    }
    assert_eq!(seen, vec![Focus::Output, Focus::Tape, Focus::Editor]);
    let mut back = Vec::new();
    for _ in 0..3 {
        let (next, _) = press(at, Dialog::Closed, shifted(KeyCode::BackTab));
        back.push(next.focused);
        at = next;
    }
    assert_eq!(back, vec![Focus::Tape, Focus::Output, Focus::Editor]);
}

#[test]
fn control_characters_are_those_of_the_standard_library() {
    for code in 0..=0x10ffffu32 {
        if let Some(c) = char::from_u32(code) {
            assert_eq!(is_control_char(c), c.is_control(), "U+{code:04X}");
        }
    }
}

#[test]
fn names_are_typed_into_dialogs() {
    let mut name = "untitled.bf".to_string();
    assert_eq!(handle_name_key(&mut name, plain(KeyCode::Backspace)), NameStep::Done);
    assert_eq!(name, "untitled.b");
    assert_eq!(handle_name_key(&mut name, plain(KeyCode::Char('é'))), NameStep::Done);
    assert_eq!(name, "untitled.bé");
    assert_eq!(handle_name_key(&mut name, control(KeyCode::Char('x'))), NameStep::Done);
    assert_eq!(handle_name_key(&mut name, shifted(KeyCode::Char('X'))), NameStep::Done);
    assert_eq!(handle_name_key(&mut name, plain(KeyCode::Char('\u{7}'))), NameStep::Done);
    assert_eq!(handle_name_key(&mut name, plain(KeyCode::Delete)), NameStep::Done);
    assert_eq!(handle_name_key(&mut name, plain(KeyCode::Left)), NameStep::Done);
    assert_eq!(handle_name_key(&mut name, plain(KeyCode::Home)), NameStep::Done);
    assert_eq!(handle_name_key(&mut name, plain(KeyCode::Tab)), NameStep::Done);
    assert_eq!(name, "untitled.bé");
    assert_eq!(handle_name_key(&mut name, plain(KeyCode::Enter)), NameStep::Submit("untitled.bé".to_string()));
    assert_eq!(name, "untitled.bé");
    assert_eq!(handle_name_key(&mut name, plain(KeyCode::Esc)), NameStep::Close);
    let mut padded = "  a b \t".to_string();
    assert_eq!(handle_name_key(&mut padded, plain(KeyCode::Enter)), NameStep::Submit("a b".to_string()));
    assert_eq!(padded, "  a b \t");
    let mut blank = "   ".to_string();
    assert_eq!(handle_name_key(&mut blank, plain(KeyCode::Enter)), NameStep::Refuse);
    let mut empty = String::new();
    assert_eq!(handle_name_key(&mut empty, plain(KeyCode::Enter)), NameStep::Refuse);
    assert_eq!(handle_name_key(&mut empty, plain(KeyCode::Backspace)), NameStep::Done);
    assert_eq!(empty, "");
}

#[test]
fn the_confirm_dialog_knows_two_keys() {
    assert_eq!(handle_confirm_key(plain(KeyCode::Enter)), ConfirmStep::Yes);
    assert_eq!(handle_confirm_key(plain(KeyCode::Esc)), ConfirmStep::No);
    assert_eq!(handle_confirm_key(control(KeyCode::Enter)), ConfirmStep::Yes);
    assert_eq!(handle_confirm_key(plain(KeyCode::Char('y'))), ConfirmStep::Stay);
    assert_eq!(handle_confirm_key(plain(KeyCode::Tab)), ConfirmStep::Stay);
}
