//! How an error of the interpreter is shown: the message, and the stretch of program text
//! around the place it points to.

use vstd::prelude::*;
use vstd::string::StringExecFns;
use crate::chars::to_chars;
use crate::error::BrainfuckReaderError;
use crate::text::decimal_text;
use crate::text::push_decimal;

verus! {

/// The number of characters shown on either side of the place of an error.
pub const WINDOW_CHARS: usize = 32;

/// `message`, behind the program's name and a colon if there is a name.
pub open spec fn prefixed(program: Option<Seq<char>>, message: Seq<char>) -> Seq<char> {
    match program {
        Some(name) => name + ": "@ + message,
        None => message,
    }
}

/// The instruction that an error points to; errors that belong to no instruction point to the
/// first.
pub open spec fn error_position(err: BrainfuckReaderError) -> usize {
    match err {
        BrainfuckReaderError::PointerOutOfBounds { ip, .. } => ip,
        BrainfuckReaderError::InvalidCharacter { ip, .. } => ip,
        BrainfuckReaderError::UnmatchedBrackets { ip, .. } => ip,
        BrainfuckReaderError::IoError { ip, .. } => ip,
        BrainfuckReaderError::StepLimitExceeded { .. } => 0,
        BrainfuckReaderError::Canceled => 0,
    }
}

/// What is said of an error, but for input failures, whose wording is that of the failure.
pub open spec fn error_text(err: BrainfuckReaderError) -> Seq<char> {
    match err {
        BrainfuckReaderError::PointerOutOfBounds { ptr, op, .. } =>
            "Runtime error: pointer out of bounds (ptr="@ + decimal_text(ptr as nat)
                + ", op="@.push(op) + ")"@,
        BrainfuckReaderError::InvalidCharacter { ch, .. } => "Parse error: invalid character '"@.push(
            ch,
        ) + "'"@,
        BrainfuckReaderError::UnmatchedBrackets { kind, .. } => "Parse error: unmatched bracket '"@
            + kind.text() + "'"@,
        BrainfuckReaderError::IoError { .. } => "I/O error: "@,
        BrainfuckReaderError::StepLimitExceeded { limit } => "Step limit exceeded ("@
            + decimal_text(limit as nat),
        BrainfuckReaderError::Canceled => "Wall-clock timeout exceeded"@,
    }
}

/// The message for an error and the instruction it points to. The message begins with the
/// program's name if one is given. For an input failure it ends with the failure's own
/// description.
pub fn reader_error_message(program: Option<&str>, err: &BrainfuckReaderError) -> (res: (
    String,
    usize,
))
    ensures
        res.1 == error_position(*err),
        match *err {
            BrainfuckReaderError::IoError { .. } => exists|detail: Seq<char>|
                res.0@ == prefixed(
                    match program {
                        Some(name) => Some(name@),
                        None => None,
                    },
                    error_text(*err) + detail,
                ),
            _ => res.0@ == prefixed(
                match program {
                    Some(name) => Some(name@),
                    None => None,
                },
                error_text(*err),
            ),
        },
{
    let mut message = String::new();
    if let Some(name) = program {
        message.append(name);
        message.append(": ");
    }
    let ghost head = message@;
    match err {
        BrainfuckReaderError::PointerOutOfBounds { ip, ptr, op } => {
            message.append("Runtime error: pointer out of bounds (ptr=");
            push_decimal(&mut message, *ptr);
            message.append(", op=");
            message.push(*op);
            message.append(")");
            assert(message@ =~= head + error_text(*err));
            (message, *ip)
        },
        BrainfuckReaderError::InvalidCharacter { ch, ip } => {
            message.append("Parse error: invalid character '");
            message.push(*ch);
            message.append("'");
            assert(message@ =~= head + error_text(*err));
            (message, *ip)
        },
        BrainfuckReaderError::UnmatchedBrackets { ip, kind } => {
            message.append("Parse error: unmatched bracket '");
            message.append(kind.describe().as_str());
            message.append("'");
            assert(message@ =~= head + error_text(*err));
            (message, *ip)
        },
        BrainfuckReaderError::IoError { ip, source } => {
            message.append("I/O error: ");
            let detail = crate::error::describe_io_error(source);
            message.append(detail.as_str());
            assert(message@ =~= head + (error_text(*err) + detail@));
            (message, *ip)
        },
        BrainfuckReaderError::StepLimitExceeded { limit } => {
            message.append("Step limit exceeded (");
            push_decimal(&mut message, *limit);
            assert(message@ =~= head + error_text(*err));
            (message, 0)
        },
        BrainfuckReaderError::Canceled => {
            message.append("Wall-clock timeout exceeded");
            assert(message@ =~= head + error_text(*err));
            (message, 0)
        },
    }
}

/// The line that heads the report of an error: the message and the instruction.
pub fn error_heading(prefix: &str, pos: usize) -> (text: String)
    ensures
        text@ == prefix@ + " at instruction "@ + decimal_text(pos as nat),
{
    let mut text = String::from_str(prefix);
    text.append(" at instruction ");
    push_decimal(&mut text, pos);
    text
}

/// Where the stretch of text shown around instruction `pos` begins.
pub open spec fn context_start(pos: int) -> int {
    if pos >= WINDOW_CHARS {
        pos - WINDOW_CHARS
    } else {
        0
    }
}

/// Where the stretch of text shown around instruction `pos` ends in a program of `total`
/// characters.
pub open spec fn context_end(pos: int, total: int) -> int {
    if pos + WINDOW_CHARS + 1 <= total {
        pos + WINDOW_CHARS + 1
    } else {
        total
    }
}

/// The stretch of `code` shown around instruction `pos`: up to 32 characters on either side;
/// nothing if `pos` lies too far behind the end.
pub open spec fn context_of(code: Seq<char>, pos: int) -> Seq<char> {
    if context_start(pos) >= context_end(pos, code.len() as int) {
        Seq::empty()
    } else {
        code.subrange(context_start(pos), context_end(pos, code.len() as int))
    }
}

/// The stretch of program text to show for an error at instruction `pos`, and the column of
/// that instruction in it.
pub fn error_context(code: &str, pos: usize) -> (res: (String, usize))
    ensures
        res.0@ == context_of(code@, pos as int),
        res.1 == pos - context_start(pos as int),
{
    let chars = to_chars(code);
    let total = chars.len();
    let start = if pos >= WINDOW_CHARS {
        pos - WINDOW_CHARS
    } else {
        0
    };
    let end = if pos < total && total - pos >= WINDOW_CHARS + 1 {
        pos + WINDOW_CHARS + 1
    } else {
        total
    };
    let mut excerpt = String::new();
    if start < end {
        let mut i: usize = start;
        while i < end
            invariant
                start <= i <= end <= total,
                total == chars@.len(),
                excerpt@ == chars@.subrange(start as int, i as int),
            decreases end - i,
        {
            excerpt.push(chars[i]);
            assert(chars@.subrange(start as int, i + 1) =~= chars@.subrange(
                start as int,
                i as int,
            ).push(chars@[i as int]));
            i = i + 1;
        }
    }
    (excerpt, pos - start)
}

} // verus!
