use vstd::prelude::*;
use vstd::string::StringExecFns;
use crate::text::decimal_text;
use crate::text::push_decimal;

verus! {

/// `std::io::Error`, carried through the library as an opaque value: the library never looks
/// inside one, it only hands on what an input provider reported.
#[verifier::external_type_specification]
#[verifier::external_body]
pub struct ExIoError(std::io::Error);

/// Which side of a loop has no partner.
#[derive(Debug, Clone, Copy, PartialEq, Eq, Structural)]
pub enum UnmatchedBracketKind {
    Open,
    Close,
}

impl UnmatchedBracketKind {
    /// The bracket, in quotes.
    pub open spec fn text(self) -> Seq<char> {
        match self {
            UnmatchedBracketKind::Open => "'['"@,
            UnmatchedBracketKind::Close => "']'"@,
        }
    }

    /// Writes the bracket, in quotes.
    pub fn describe(&self) -> (s: String)
        ensures
            s@ == self.text(),
    {
        match self {
            UnmatchedBracketKind::Open => String::from_str("'['"),
            UnmatchedBracketKind::Close => String::from_str("']'"),
        }
    }
}

/// What an input failure says of itself: this is the text that `std::io::Error` displays.
/// Nothing is claimed of it.
#[verifier::external_body]
pub(crate) fn describe_io_error(source: &std::io::Error) -> String {
    source.to_string()
}

/// Everything that can end a run early.
#[derive(Debug)]
pub enum BrainfuckReaderError {
    /// The pointer would have left the tape.
    PointerOutOfBounds { ip: usize, ptr: usize, op: char },
    /// A character outside `><+-.,[]` was dispatched.
    InvalidCharacter { ch: char, ip: usize },
    /// A `[` or `]` has no partner.
    UnmatchedBrackets { ip: usize, kind: UnmatchedBracketKind },
    /// The input provider failed.
    IoError { ip: usize, source: std::io::Error },
    /// The step ceiling was reached.
    StepLimitExceeded { limit: usize },
    /// The cancellation flag was seen set.
    Canceled,
}

impl BrainfuckReaderError {
    /// The sentence for the error, but for input failures, whose wording is that of the
    /// failure.
    pub open spec fn text(self) -> Seq<char> {
        match self {
            BrainfuckReaderError::PointerOutOfBounds { ip, ptr, op } =>
                "Pointer out of bounds at instruction "@ + decimal_text(ip as nat) + " (ptr="@
                    + decimal_text(ptr as nat) + ", op='"@.push(op) + "')"@,
            BrainfuckReaderError::InvalidCharacter { ch, ip } => "Invalid character: '"@.push(ch)
                + "' at instruction "@ + decimal_text(ip as nat),
            BrainfuckReaderError::UnmatchedBrackets { ip, kind } => "Unmatched bracket "@
                + kind.text() + " at instruction "@ + decimal_text(ip as nat),
            BrainfuckReaderError::IoError { ip, .. } => "I/O error at instruction "@
                + decimal_text(ip as nat) + ": "@,
            BrainfuckReaderError::StepLimitExceeded { limit } =>
                "Execution aborted: step limit exceeded ("@ + decimal_text(limit as nat) + ")"@,
            BrainfuckReaderError::Canceled => "Execution aborted: cancelled"@,
        }
    }

    /// Writes the error as a sentence. For an input failure the sentence ends with the
    /// failure's own description.
    pub fn message(&self) -> (s: String)
        ensures
            match *self {
                BrainfuckReaderError::IoError { .. } => exists|detail: Seq<char>|
                    s@ == self.text() + detail,
                _ => s@ == self.text(),
            },
    {
        let mut s = String::new();
        match self {
            BrainfuckReaderError::PointerOutOfBounds { ip, ptr, op } => {
                s.append("Pointer out of bounds at instruction ");
                push_decimal(&mut s, *ip);
                s.append(" (ptr=");
                push_decimal(&mut s, *ptr);
                s.append(", op='");
                s.push(*op);
                s.append("')");
                assert(s@ =~= self.text());
            },
            BrainfuckReaderError::InvalidCharacter { ch, ip } => {
                s.append("Invalid character: '");
                s.push(*ch);
                s.append("' at instruction ");
                push_decimal(&mut s, *ip);
                assert(s@ =~= self.text());
            },
            BrainfuckReaderError::UnmatchedBrackets { ip, kind } => {
                s.append("Unmatched bracket ");
                s.append(kind.describe().as_str());
                s.append(" at instruction ");
                push_decimal(&mut s, *ip);
                assert(s@ =~= self.text());
            },
            BrainfuckReaderError::IoError { ip, source } => {
                s.append("I/O error at instruction ");
                push_decimal(&mut s, *ip);
                s.append(": ");
                let detail = describe_io_error(source);
                s.append(detail.as_str());
                assert(s@ =~= self.text() + detail@);
            },
            BrainfuckReaderError::StepLimitExceeded { limit } => {
                s.append("Execution aborted: step limit exceeded (");
                push_decimal(&mut s, *limit);
                s.append(")");
                assert(s@ =~= self.text());
            },
            BrainfuckReaderError::Canceled => {
                s.append("Execution aborted: cancelled");
                assert(s@ =~= self.text());
            },
        }
        s
    }
}

} // verus!
