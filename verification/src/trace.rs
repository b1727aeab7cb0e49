//! The rows of a debug run.
//!
//! A debug run performs no input and no output. It records one row for every instruction it
//! completes: where the machine stood before the instruction and what the instruction did.

use vstd::prelude::*;
use vstd::string::StringExecFns;
use crate::text::decimal_text;
use crate::text::padded;
use crate::text::push_decimal;
use crate::text::push_decimal_padded;

verus! {

/// What one instruction did.
#[derive(Debug, Clone, Copy, PartialEq, Eq, Structural)]
pub enum TraceAction {
    /// `>` or `<` moved the pointer to cell `to`.
    MovePointer { to: usize },
    /// `+` changed cell `cell` from `before` to `after`.
    Increment { cell: usize, before: u8, after: u8 },
    /// `-` changed cell `cell` from `before` to `after`.
    Decrement { cell: usize, before: u8, after: u8 },
    /// `.` would have emitted `byte`.
    OutputSuppressed { byte: u8 },
    /// `,` met a simulated end of input and cleared the cell.
    InputSimulatedEof,
    /// `[` found a zero cell and jumped to the `]` at `to`.
    JumpForward { to: usize },
    /// `[` found a non-zero cell and entered the loop.
    EnterLoop,
    /// `]` found a non-zero cell and jumped to the `[` at `to`.
    JumpBack { to: usize },
    /// `]` found a zero cell and left the loop.
    ExitLoop,
}

/// One row of the trace.
#[derive(Debug, Clone, Copy, PartialEq, Eq, Structural)]
pub struct TraceRow {
    /// Number of instructions completed before this one.
    pub step: usize,
    /// Index of the instruction, or of the bracket it jumped to if it jumped.
    pub ip: usize,
    /// Pointer before the instruction.
    pub ptr: usize,
    /// Value of the cell under the pointer before the instruction.
    pub cell: u8,
    /// The instruction character.
    pub instr: char,
    /// What the instruction did.
    pub action: TraceAction,
}

impl TraceAction {
    /// The sentence that describes the action.
    pub open spec fn text(self) -> Seq<char> {
        match self {
            TraceAction::MovePointer { to } => "Moved pointer head to index "@ + decimal_text(
                to as nat,
            ),
            TraceAction::Increment { cell, before, after } => "Increment cell["@ + decimal_text(
                cell as nat,
            ) + "] from "@ + decimal_text(before as nat) + " to "@ + decimal_text(after as nat),
            TraceAction::Decrement { cell, before, after } => "Decrement cell["@ + decimal_text(
                cell as nat,
            ) + "] from "@ + decimal_text(before as nat) + " to "@ + decimal_text(after as nat),
            TraceAction::OutputSuppressed { byte } => "Output byte '"@.push(byte as char)
                + "' (suppressed in debug)"@,
            TraceAction::InputSimulatedEof => "Read byte from stdin -> simulated EOF (set cell to 0)"@,
            TraceAction::JumpForward { to } => "Cell is 0; jump forward to matching ']' at IP "@
                + decimal_text(to as nat),
            TraceAction::EnterLoop => "Enter loop (cell != 0)"@,
            TraceAction::JumpBack { to } => "Cell != 0; jump back to matching '[' at IP "@
                + decimal_text(to as nat),
            TraceAction::ExitLoop => "Exit loop (cell is 0)"@,
        }
    }

    /// Writes the action as a sentence.
    pub fn describe(&self) -> (s: String)
        ensures
            s@ == self.text(),
    {
        let mut s = String::new();
        match *self {
            TraceAction::MovePointer { to } => {
                s.append("Moved pointer head to index ");
                push_decimal(&mut s, to);
            },
            TraceAction::Increment { cell, before, after } => {
                s.append("Increment cell[");
                push_decimal(&mut s, cell);
                s.append("] from ");
                push_decimal(&mut s, before as usize);
                s.append(" to ");
                push_decimal(&mut s, after as usize);
            },
            TraceAction::Decrement { cell, before, after } => {
                s.append("Decrement cell[");
                push_decimal(&mut s, cell);
                s.append("] from ");
                push_decimal(&mut s, before as usize);
                s.append(" to ");
                push_decimal(&mut s, after as usize);
            },
            TraceAction::OutputSuppressed { byte } => {
                s.append("Output byte '");
                s.push(byte as char);
                s.append("' (suppressed in debug)");
            },
            TraceAction::InputSimulatedEof => {
                s.append("Read byte from stdin -> simulated EOF (set cell to 0)");
            },
            TraceAction::JumpForward { to } => {
                s.append("Cell is 0; jump forward to matching ']' at IP ");
                push_decimal(&mut s, to);
            },
            TraceAction::EnterLoop => {
                s.append("Enter loop (cell != 0)");
            },
            TraceAction::JumpBack { to } => {
                s.append("Cell != 0; jump back to matching '[' at IP ");
                push_decimal(&mut s, to);
            },
            TraceAction::ExitLoop => {
                s.append("Exit loop (cell is 0)");
            },
        }
        assert(s@ =~= self.text());
        s
    }
}

impl TraceRow {
    /// The row as a line of the trace table: the numbers left-aligned in columns of four,
    /// three, three and four characters, then the instruction and the action.
    pub open spec fn line(self) -> Seq<char> {
        padded(decimal_text(self.step as nat), 4) + " | "@ + padded(
            decimal_text(self.ip as nat),
            3,
        ) + " | "@ + padded(decimal_text(self.ptr as nat), 3) + " | "@ + padded(
            decimal_text(self.cell as nat),
            4,
        ) + " |  "@.push(self.instr) + "    | "@ + self.action.text()
    }

    /// Writes the row as a line of the trace table.
    pub fn render(&self) -> (s: String)
        ensures
            s@ == self.line(),
    {
        let mut s = String::new();
        push_decimal_padded(&mut s, self.step, 4);
        s.append(" | ");
        push_decimal_padded(&mut s, self.ip, 3);
        s.append(" | ");
        push_decimal_padded(&mut s, self.ptr, 3);
        s.append(" | ");
        push_decimal_padded(&mut s, self.cell as usize, 4);
        s.append(" |  ");
        s.push(self.instr);
        s.append("    | ");
        let action = self.action.describe();
        s.append(action.as_str());
        assert(s@ =~= self.line());
        s
    }
}

/// The heading of the trace table.
pub fn trace_header() -> (s: String)
    ensures
        s@ == "STEP | IP  | PTR | CELL | INSTR | ACTION"@,
{
    String::from_str("STEP | IP  | PTR | CELL | INSTR | ACTION")
}

/// The rule under the heading of the trace table.
pub fn trace_rule() -> (s: String)
    ensures
        s@ == "-----+-----+-----+------+-------+------------------------------------------------"@,
{
    String::from_str(
        "-----+-----+-----+------+-------+------------------------------------------------",
    )
}

} // verus!
