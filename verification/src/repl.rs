//! The decisions of the interactive loop: which mode to start in, what a submission is, what a
//! meta command asks for, and how a buffer is dumped.

use vstd::prelude::*;
use vstd::string::StringExecFns;
use vstd::utf8::encode_utf8;
use vstd::utf8::valid_utf8;
use crate::chars::lower_chars;
use crate::chars::lowered;
use crate::chars::same_text;
use crate::chars::split_words;
use crate::chars::to_chars;
use crate::chars::trim_chars;
use crate::chars::trimmed;
use crate::chars::views;
use crate::chars::words;
use crate::program::is_instruction;
use crate::text::decimal_text;
use crate::text::push_decimal;
use crate::text::push_repeated;
use crate::text::repeated;

verus! {

/// How the loop talks to its user.
#[derive(Debug, Clone, Copy, PartialEq, Eq, Structural)]
pub enum ReplMode {
    /// Read the whole input, run it once, leave.
    Bare,
    /// Prompt with a line editor.
    Editor,
}

/// What the command line says about the mode.
#[derive(Debug, Clone, Copy, PartialEq, Eq, Structural)]
pub enum ModeFlagOverride {
    /// No flag was given.
    Unset,
    /// `--bare`.
    Bare,
    /// `--editor`.
    Editor,
}

/// The message for an editor that was asked for by flag where the input is no terminal.
pub open spec fn editor_by_flag_refused() -> Seq<char> {
    "cannot start editor: stdin is not a TTY (use --bare or BF_REPL_MODE=bare)"@
}

/// The message for an editor that was asked for by the environment where the input is no
/// terminal.
pub open spec fn editor_by_env_refused() -> Seq<char> {
    "cannot start editor: stdin is not a TTY (use BF_REPL_MODE=bare)"@
}

/// The message for a mode in the environment that is neither `bare` nor `editor`.
pub open spec fn mode_value_refused(value: Seq<char>) -> Seq<char> {
    "invalid BF_REPL_MODE value: "@ + value + ", must be 'bare' or 'editor'"@
}

/// The mode to start in: the flag decides, then the environment, then whether the input is a
/// terminal. The environment's value counts trimmed and in lower case. An editor needs a
/// terminal.
pub open spec fn mode_choice(flag: ModeFlagOverride, env_mode: Option<Seq<char>>, terminal: bool)
    -> Result<ReplMode, Seq<char>> {
    match flag {
        ModeFlagOverride::Bare => Ok(ReplMode::Bare),
        ModeFlagOverride::Editor => if terminal {
            Ok(ReplMode::Editor)
        } else {
            Err(editor_by_flag_refused())
        },
        ModeFlagOverride::Unset => match env_mode {
            Some(value) => {
                let wanted = lowered(trimmed(value));
                if wanted == "bare"@ {
                    Ok(ReplMode::Bare)
                } else if wanted == "editor"@ {
                    if terminal {
                        Ok(ReplMode::Editor)
                    } else {
                        Err(editor_by_env_refused())
                    }
                } else {
                    Err(mode_value_refused(value))
                }
            },
            None => if terminal {
                Ok(ReplMode::Editor)
            } else {
                Ok(ReplMode::Bare)
            },
        },
    }
}

/// Chooses the mode from the flag, the value of `BF_REPL_MODE` if it is set, and whether the
/// standard input is a terminal.
pub fn select_mode(flag: ModeFlagOverride, env_mode: Option<&str>, stdin_is_terminal: bool) -> (res:
    Result<ReplMode, String>)
    ensures
        match mode_choice(
            flag,
            match env_mode {
                Some(value) => Some(value@),
                None => None,
            },
            stdin_is_terminal,
        ) {
            Ok(mode) => res == Ok::<ReplMode, String>(mode),
            Err(message) => res matches Err(text) && text@ == message,
        },
{
    match flag {
        ModeFlagOverride::Bare => {
            return Ok(ReplMode::Bare);
        },
        ModeFlagOverride::Editor => {
            if !stdin_is_terminal {
                return Err(
                    String::from_str(
                        "cannot start editor: stdin is not a TTY (use --bare or BF_REPL_MODE=bare)",
                    ),
                );
            }
            return Ok(ReplMode::Editor);
        },
        ModeFlagOverride::Unset => {},
    }
    if let Some(value) = env_mode {
        let wanted = lower_chars(&trim_chars(&to_chars(value)));
        if same_text(&wanted, "bare") {
            return Ok(ReplMode::Bare);
        } else if same_text(&wanted, "editor") {
            if !stdin_is_terminal {
                return Err(
                    String::from_str(
                        "cannot start editor: stdin is not a TTY (use BF_REPL_MODE=bare)",
                    ),
                );
            }
            return Ok(ReplMode::Editor);
        } else {
            let mut message = String::from_str("invalid BF_REPL_MODE value: ");
            message.append(value);
            message.append(", must be 'bare' or 'editor'");
            return Err(message);
        }
    }
    if stdin_is_terminal {
        Ok(ReplMode::Editor)
    } else {
        Ok(ReplMode::Bare)
    }
}

/// A command to the loop itself: a submission whose first word begins with `:`.
#[derive(Debug, Clone, Copy, PartialEq, Eq, Structural)]
pub enum MetaCommand {
    Exit,
    Help,
    Reset,
    Dump { with_line_numbers: bool, all_to_stderr: bool },
}

/// What the loop does after a meta command.
#[derive(Debug, Clone, Copy, PartialEq, Eq, Structural)]
pub enum MetaAction {
    Continue,
    Exit,
    ResetState,
}

/// One of the words from index `from` on is `first` or `second`.
pub open spec fn has_flag(
    words: Seq<Seq<char>>,
    from: int,
    first: Seq<char>,
    second: Seq<char>,
) -> bool {
    exists|i: int| from <= i < words.len() && (#[trigger] words[i] == first || words[i] == second)
}

/// The meta command that `input` is, if its first word begins with `:`. A first word that is
/// no command asks for help. `:dump` takes flags among the words that follow it; other words
/// there are passed over.
pub open spec fn meta_command(input: Seq<char>) -> Option<MetaCommand> {
    let parts = words(input);
    if parts.len() == 0 || parts[0][0] != ':' {
        None
    } else {
        let head = parts[0];
        if head == ":exit"@ || head == ":quit"@ {
            Some(MetaCommand::Exit)
        } else if head == ":help"@ {
            Some(MetaCommand::Help)
        } else if head == ":reset"@ {
            Some(MetaCommand::Reset)
        } else if head == ":dump"@ {
            Some(
                MetaCommand::Dump {
                    with_line_numbers: has_flag(parts, 1, "--line-numbers"@, "-n"@),
                    all_to_stderr: has_flag(parts, 1, "--stderr"@, "-e"@),
                },
            )
        } else {
            Some(MetaCommand::Help)
        }
    }
}

/// Whether one of the words from index 1 on is `first` or `second`.
fn find_flag(parts: &Vec<Vec<char>>, first: &str, second: &str) -> (found: bool)
    ensures
        found == has_flag(views(parts@), 1, first@, second@),
{
    let n = parts.len();
    let mut i: usize = 1;
    while i < n
        invariant
            1 <= i,
            n == parts@.len(),
            forall|j: int|
                1 <= j < i && j < n ==> (#[trigger] views(parts@)[j]) != first@ && views(parts@)[j]
                    != second@,
        decreases n - i,
    {
        if same_text(&parts[i], first) || same_text(&parts[i], second) {
            assert(views(parts@)[i as int] == parts@[i as int]@);
            return true;
        }
        assert(views(parts@)[i as int] == parts@[i as int]@);
        i = i + 1;
    }
    false
}

/// Reads a submission as a meta command.
pub fn parse_meta_command(input: &str) -> (res: Option<MetaCommand>)
    ensures
        res == meta_command(input@),
{
    let parts = split_words(&to_chars(input));
    if parts.len() == 0 {
        return None;
    }
    let head = &parts[0];
    assert(views(parts@)[0] == head@);
    if head.len() == 0 || head[0] != ':' {
        proof {
            lemma_words_not_empty(input@, 0);
        }
        return None;
    }
    if same_text(head, ":exit") || same_text(head, ":quit") {
        Some(MetaCommand::Exit)
    } else if same_text(head, ":help") {
        Some(MetaCommand::Help)
    } else if same_text(head, ":reset") {
        Some(MetaCommand::Reset)
    } else if same_text(head, ":dump") {
        let with_line_numbers = find_flag(&parts, "--line-numbers", "-n");
        let all_to_stderr = find_flag(&parts, "--stderr", "-e");
        Some(MetaCommand::Dump { with_line_numbers, all_to_stderr })
    } else {
        Some(MetaCommand::Help)
    }
}

/// No word is empty.
pub proof fn lemma_words_not_empty(s: Seq<char>, i: int)
    requires
        0 <= i < words(s).len(),
    ensures
        words(s)[i].len() > 0,
{
    let (done, current) = crate::chars::scanned(s, s.len() as int);
    if i < done.len() {
        lemma_scanned_not_empty(s, s.len() as int, i);
    }
}

proof fn lemma_scanned_not_empty(s: Seq<char>, n: int, i: int)
    requires
        0 <= i < crate::chars::scanned(s, n).0.len(),
    ensures
        crate::chars::scanned(s, n).0[i].len() > 0,
    decreases n,
{
    if n > 0 {
        let (done, current) = crate::chars::scanned(s, n - 1);
        if i < done.len() {
            lemma_scanned_not_empty(s, n - 1, i);
        }
    }
}

/// What the loop does after the command: leave, go on, or go on with a cleared buffer.
pub fn meta_action(command: MetaCommand) -> (action: MetaAction)
    ensures
        action == match command {
            MetaCommand::Exit => MetaAction::Exit,
            MetaCommand::Help => MetaAction::Continue,
            MetaCommand::Reset => MetaAction::ResetState,
            MetaCommand::Dump { .. } => MetaAction::Continue,
        },
{
    match command {
        MetaCommand::Exit => MetaAction::Exit,
        MetaCommand::Help => MetaAction::Continue,
        MetaCommand::Reset => MetaAction::ResetState,
        MetaCommand::Dump { .. } => MetaAction::Continue,
    }
}

/// The instruction characters of `s`, in order.
pub open spec fn only_instructions(s: Seq<char>) -> Seq<char> {
    s.filter(|c: char| is_instruction(c))
}

/// Keeps the instruction characters of a sequence.
pub fn keep_instructions(s: &Vec<char>) -> (out: Vec<char>)
    ensures
        out@ == only_instructions(s@),
{
    let n = s.len();
    let mut out: Vec<char> = Vec::new();
    let mut i: usize = 0;
    let ghost wanted = |c: char| is_instruction(c);
    assert(s@.take(0).filter(wanted) =~= Seq::<char>::empty()) by {
        reveal(Seq::filter);
    }
    while i < n
        invariant
            i <= n,
            n == s@.len(),
            wanted == |c: char| is_instruction(c),
            out@ == s@.take(i as int).filter(wanted),
        decreases n - i,
    {
        let c = s[i];
        proof {
            reveal(Seq::filter);
            assert(s@.take(i + 1).drop_last() =~= s@.take(i as int));
            assert(s@.take(i + 1).last() == c);
        }
        if c == '>' || c == '<' || c == '+' || c == '-' || c == '.' || c == ',' || c == '[' || c
            == ']' {
            out.push(c);
        }
        i = i + 1;
    }
    assert(s@.take(n as int) =~= s@);
    out
}

/// What the loop does with what it was handed.
#[derive(Debug, Clone, PartialEq, Eq)]
pub enum ReplStep {
    /// The input is at its end: leave.
    Quit,
    /// A meta command: act on it, run nothing.
    Meta(MetaCommand),
    /// Nothing to run: ask again.
    Ignore,
    /// Run this program, which holds instruction characters only.
    Execute(String),
}

/// The program in a submission: its instruction characters, if there are any.
pub open spec fn program_in(submission: Seq<char>) -> Option<Seq<char>> {
    let program = only_instructions(trimmed(submission));
    if program.len() == 0 {
        None
    } else {
        Some(program)
    }
}

/// Picks the program out of a submission.
pub fn runnable_program(submission: &str) -> (res: Option<String>)
    ensures
        match program_in(submission@) {
            Some(program) => res matches Some(text) && text@ == program,
            None => res is None,
        },
{
    let program = keep_instructions(&trim_chars(&to_chars(submission)));
    if program.len() == 0 {
        None
    } else {
        Some(crate::chars::to_string(&program))
    }
}

/// Decides what the loop does with a submission; `None` is the end of the input.
pub fn next_step(submission: Option<&str>) -> (step: ReplStep)
    ensures
        match submission {
            None => step == ReplStep::Quit,
            Some(text) => match meta_command(text@) {
                Some(command) => step == ReplStep::Meta(command),
                None => match program_in(text@) {
                    Some(program) => step matches ReplStep::Execute(code) && code@ == program,
                    None => step == ReplStep::Ignore,
                },
            },
        },
{
    match submission {
        None => ReplStep::Quit,
        Some(text) => match parse_meta_command(text) {
            Some(command) => ReplStep::Meta(command),
            None => match runnable_program(text) {
                Some(code) => ReplStep::Execute(code),
                None => ReplStep::Ignore,
            },
        },
    }
}

/// Decodes bytes as UTF-8: this is `String::from_utf8`, which accepts exactly the valid
/// encodings and returns the string whose encoding the bytes are.
#[verifier::external_body]
fn decode_text(bytes: &[u8]) -> (res: Option<String>)
    ensures
        res is Some <==> valid_utf8(bytes@),
        res matches Some(text) ==> encode_utf8(text@) == bytes@,
{
    String::from_utf8(bytes.to_vec()).ok()
}

/// A submission from everything that was read up to the end of the input: the text, or `None`
/// if nothing was read or if what was read is no UTF-8.
pub fn read_submission(input: &[u8]) -> (res: Option<String>)
    ensures
        res is Some <==> input@.len() > 0 && valid_utf8(input@),
        res matches Some(text) ==> encode_utf8(text@) == input@,
{
    if input.len() == 0 {
        None
    } else {
        decode_text(input)
    }
}

/// The state of a numbering pass after the first `i` characters: what has been written, and
/// how many lines have begun. A line begins at the start and behind every line feed.
pub open spec fn numbered(s: Seq<char>, i: int) -> (Seq<char>, int)
    decreases i,
{
    if i <= 0 {
        (Seq::empty(), 0)
    } else {
        let (written, lines) = numbered(s, i - 1);
        if i == 1 || s[i - 2] == '\n' {
            ((written + line_label(lines + 1)).push(s[i - 1]), lines + 1)
        } else {
            (written.push(s[i - 1]), lines)
        }
    }
}

/// What stands in front of line number `n`: the number, right-aligned in four columns, and
/// ` | `.
pub open spec fn line_label(n: int) -> Seq<char> {
    repeated(' ', 4 - decimal_text(n as nat).len()) + decimal_text(n as nat) + " | "@
}

/// The number of lines of a buffer; a last line without line feed counts.
pub open spec fn line_count(s: Seq<char>) -> int {
    numbered(s, s.len() as int).1
}

/// The text of a dump: the buffer as it is, or with a label in front of every line.
pub open spec fn dump_text(s: Seq<char>, with_line_numbers: bool) -> Seq<char> {
    if with_line_numbers {
        numbered(s, s.len() as int).0
    } else {
        s
    }
}

proof fn lemma_numbered_lines(s: Seq<char>, i: int)
    requires
        0 <= i,
    ensures
        0 <= numbered(s, i).1 <= i,
    decreases i,
{
    if i > 0 {
        lemma_numbered_lines(s, i - 1);
    }
}

/// Appends the label of line `n`.
fn push_line_label(out: &mut String, n: usize)
    ensures
        final(out)@ == old(out)@ + line_label(n as int),
{
    let mut digits = String::new();
    push_decimal(&mut digits, n);
    assert(digits@ =~= decimal_text(n as nat));
    let len = digits.as_str().unicode_len();
    if len < 4 {
        push_repeated(out, ' ', 4 - len);
    } else {
        assert(repeated(' ', 4 - len) =~= Seq::<char>::empty());
    }
    out.append(digits.as_str());
    out.append(" | ");
    assert(final(out)@ =~= old(out)@ + line_label(n as int));
}

/// The lines of a dump as one text.
pub fn write_dump_lines(buf: &str, with_line_numbers: bool) -> (text: String)
    ensures
        text@ == dump_text(buf@, with_line_numbers),
{
    if !with_line_numbers {
        return String::from_str(buf);
    }
    let chars = to_chars(buf);
    let n = chars.len();
    let mut out = String::new();
    let mut lines: usize = 0;
    let mut i: usize = 0;
    while i < n
        invariant
            i <= n,
            n == chars@.len(),
            lines <= i,
            out@ == numbered(chars@, i as int).0,
            lines == numbered(chars@, i as int).1,
        decreases n - i,
    {
        if i == 0 || chars[i - 1] == '\n' {
            lines = lines + 1;
            push_line_label(&mut out, lines);
        }
        out.push(chars[i]);
        i = i + 1;
    }
    out
}

/// The number of lines of a buffer.
pub fn dump_line_count(buf: &str) -> (count: usize)
    ensures
        count == line_count(buf@),
{
    let chars = to_chars(buf);
    let n = chars.len();
    let mut lines: usize = 0;
    let mut i: usize = 0;
    while i < n
        invariant
            i <= n,
            n == chars@.len(),
            lines <= i,
            lines == numbered(chars@, i as int).1,
        decreases n - i,
    {
        if i == 0 || chars[i - 1] == '\n' {
            lines = lines + 1;
        }
        i = i + 1;
    }
    lines
}

/// The line in front of a dump: `- dump (N lines) -`.
pub fn dump_heading(count: usize) -> (text: String)
    ensures
        text@ == "- dump ("@ + decimal_text(count as nat) + " lines) -"@,
{
    let mut text = String::from_str("- dump (");
    push_decimal(&mut text, count);
    text.append(" lines) -");
    text
}

} // verus!
