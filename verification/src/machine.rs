//! What a run is: the machine as a mathematical object.
//!
//! A configuration holds everything a run can change. `step` says what one instruction does to
//! it, `run` repeats that until the program ends, faults or runs out of steps. The executable
//! reader is proved against these definitions.

use vstd::prelude::*;
use crate::error::UnmatchedBracketKind;
use crate::program::bracket_fault;
use crate::program::partner;
use crate::trace::TraceAction;
use crate::trace::TraceRow;

verus! {

/// What the world outside answered at a step: the input provider where `,` asked for a byte,
/// the output sink where `.` handed it one.
pub enum Answer {
    /// The provider had a byte.
    Byte(u8),
    /// The provider had no byte, for the input is at its end; or the sink took its byte; or
    /// nobody was asked.
    Nothing,
    /// The provider or the sink failed.
    Failed,
}

/// The machine between two instructions.
pub struct Config {
    /// Index of the next instruction.
    pub ip: int,
    /// Index of the current cell.
    pub ptr: int,
    /// The cells.
    pub tape: Seq<u8>,
    /// The bytes emitted so far.
    pub out: Seq<u8>,
    /// The trace rows recorded so far.
    pub trace: Seq<TraceRow>,
}

/// Why an instruction could not be carried out.
pub enum Fault {
    /// `>` at the last cell or `<` at the first.
    PointerOutOfBounds { ip: int, ptr: int, op: char },
    /// A character that is no instruction.
    InvalidCharacter { ch: char, ip: int },
    /// `,` asked for a byte and the provider failed.
    InputFailed { ip: int },
    /// `.` handed over a byte and the sink failed.
    OutputFailed { ip: int },
}

/// One instruction: the next configuration, or the fault.
pub enum Step {
    Next(Config),
    Fault(Fault),
}

/// How a run ended.
pub enum Stop {
    /// The instruction pointer moved past the last instruction.
    Halted,
    /// The brackets of the program do not match; nothing was executed.
    Unmatched { ip: int, kind: UnmatchedBracketKind },
    /// An instruction faulted; the configuration is the one in front of it.
    Faulted(Fault),
    /// The allowed number of steps was used up in front of a further instruction.
    StepLimit,
}

/// The end of a run.
pub struct Outcome {
    pub stop: Stop,
    pub config: Config,
}

/// A cell after `+`: one more, 255 wraps to 0.
pub open spec fn incremented(v: u8) -> u8 {
    if v == 255 {
        0u8
    } else {
        (v + 1) as u8
    }
}

/// A cell after `-`: one less, 0 wraps to 255.
pub open spec fn decremented(v: u8) -> u8 {
    if v == 0 {
        255u8
    } else {
        (v - 1) as u8
    }
}

/// The answer at step `k`; past the end of the record there is nothing and nothing fails.
pub open spec fn event_at(events: Seq<Answer>, k: int) -> Answer {
    if 0 <= k < events.len() {
        events[k]
    } else {
        Answer::Nothing
    }
}

/// Nothing fails under these answers.
pub open spec fn unfailing(events: Seq<Answer>) -> bool {
    forall|k: int| !(event_at(events, k) is Failed)
}

/// The instruction in front of `c` is a jump that is taken.
pub open spec fn jumps(code: Seq<char>, c: Config) -> bool {
    (code[c.ip] == '[' && c.tape[c.ptr] == 0) || (code[c.ip] == ']' && c.tape[c.ptr] != 0)
}

/// What the trace says of the instruction in front of `c`, if it is carried out.
pub open spec fn action_of(code: Seq<char>, c: Config) -> TraceAction {
    let instr = code[c.ip];
    let cell = c.tape[c.ptr];
    if instr == '>' {
        TraceAction::MovePointer { to: (c.ptr + 1) as usize }
    } else if instr == '<' {
        TraceAction::MovePointer { to: (c.ptr - 1) as usize }
    } else if instr == '+' {
        TraceAction::Increment { cell: c.ptr as usize, before: cell, after: incremented(cell) }
    } else if instr == '-' {
        TraceAction::Decrement { cell: c.ptr as usize, before: cell, after: decremented(cell) }
    } else if instr == '.' {
        TraceAction::OutputSuppressed { byte: cell }
    } else if instr == ',' {
        TraceAction::InputSimulatedEof
    } else if instr == '[' {
        if cell == 0 {
            TraceAction::JumpForward { to: partner(code, c.ip) as usize }
        } else {
            TraceAction::EnterLoop
        }
    } else {
        if cell != 0 {
            TraceAction::JumpBack { to: partner(code, c.ip) as usize }
        } else {
            TraceAction::ExitLoop
        }
    }
}

/// The trace row of step number `k`, taken in front of `c`.
pub open spec fn row_of(code: Seq<char>, c: Config, k: int) -> TraceRow {
    TraceRow {
        step: k as usize,
        ip: if jumps(code, c) {
            partner(code, c.ip) as usize
        } else {
            c.ip as usize
        },
        ptr: c.ptr as usize,
        cell: c.tape[c.ptr],
        instr: code[c.ip],
        action: action_of(code, c),
    }
}

/// The instruction in front of `c`, without the trace.
///
/// In a debug run `.` emits nothing and `,` clears the cell without asking for input. In a
/// real run `.` and `,` fault where the answer is a failure.
pub open spec fn dispatch(code: Seq<char>, c: Config, debug: bool, event: Answer) -> Step {
    let instr = code[c.ip];
    let cell = c.tape[c.ptr];
    if instr == '>' {
        if c.ptr >= c.tape.len() - 1 {
            Step::Fault(Fault::PointerOutOfBounds { ip: c.ip, ptr: c.ptr, op: instr })
        } else {
            Step::Next(Config { ip: c.ip + 1, ptr: c.ptr + 1, ..c })
        }
    } else if instr == '<' {
        if c.ptr == 0 {
            Step::Fault(Fault::PointerOutOfBounds { ip: c.ip, ptr: c.ptr, op: instr })
        } else {
            Step::Next(Config { ip: c.ip + 1, ptr: c.ptr - 1, ..c })
        }
    } else if instr == '+' {
        Step::Next(Config { ip: c.ip + 1, tape: c.tape.update(c.ptr, incremented(cell)), ..c })
    } else if instr == '-' {
        Step::Next(Config { ip: c.ip + 1, tape: c.tape.update(c.ptr, decremented(cell)), ..c })
    } else if instr == '.' {
        if debug {
            Step::Next(Config { ip: c.ip + 1, ..c })
        } else if event is Failed {
            Step::Fault(Fault::OutputFailed { ip: c.ip })
        } else {
            Step::Next(Config { ip: c.ip + 1, out: c.out.push(cell), ..c })
        }
    } else if instr == ',' {
        if debug {
            Step::Next(Config { ip: c.ip + 1, tape: c.tape.update(c.ptr, 0u8), ..c })
        } else {
            match event {
                Answer::Byte(b) => Step::Next(
                    Config { ip: c.ip + 1, tape: c.tape.update(c.ptr, b), ..c },
                ),
                Answer::Nothing => Step::Next(
                    Config { ip: c.ip + 1, tape: c.tape.update(c.ptr, 0u8), ..c },
                ),
                Answer::Failed => Step::Fault(Fault::InputFailed { ip: c.ip }),
            }
        }
    } else if instr == '[' || instr == ']' {
        if jumps(code, c) {
            Step::Next(Config { ip: partner(code, c.ip) + 1, ..c })
        } else {
            Step::Next(Config { ip: c.ip + 1, ..c })
        }
    } else {
        Step::Fault(Fault::InvalidCharacter { ch: instr, ip: c.ip })
    }
}

/// Step number `k`: the instruction in front of `c`, and in a debug run its trace row.
pub open spec fn step(code: Seq<char>, c: Config, debug: bool, event: Answer, k: int) -> Step {
    match dispatch(code, c, debug, event) {
        Step::Next(next) => if debug {
            Step::Next(Config { trace: c.trace.push(row_of(code, c, k)), ..next })
        } else {
            Step::Next(next)
        },
        Step::Fault(fault) => Step::Fault(fault),
    }
}

/// Runs from `c`, whose next step has number `k`, for at most `fuel` steps.
///
/// The run ends where the instruction pointer has passed the last instruction, where an
/// instruction faults, or in front of an instruction for which no step is left.
pub open spec fn run(
    code: Seq<char>,
    c: Config,
    debug: bool,
    fuel: nat,
    events: Seq<Answer>,
    k: int,
) -> Outcome
    decreases fuel,
{
    if c.ip >= code.len() {
        Outcome { stop: Stop::Halted, config: c }
    } else if fuel == 0 {
        Outcome { stop: Stop::StepLimit, config: c }
    } else {
        match step(code, c, debug, event_at(events, k), k) {
            Step::Next(next) => run(code, next, debug, (fuel - 1) as nat, events, k + 1),
            Step::Fault(fault) => Outcome { stop: Stop::Faulted(fault), config: c },
        }
    }
}

/// The configuration a run starts from: first instruction, nothing emitted, nothing traced.
pub open spec fn start(tape: Seq<u8>, ptr: int) -> Config {
    Config { ip: 0, ptr, tape, out: Seq::empty(), trace: Seq::empty() }
}

/// A whole execution: the brackets are checked first, then the program runs from its first
/// instruction on the given tape.
pub open spec fn execute(
    code: Seq<char>,
    tape: Seq<u8>,
    ptr: int,
    debug: bool,
    fuel: nat,
    events: Seq<Answer>,
) -> Outcome {
    match bracket_fault(code) {
        Some((ip, kind)) => Outcome { stop: Stop::Unmatched { ip, kind }, config: start(tape, ptr) },
        None => run(code, start(tape, ptr), debug, fuel, events, 0),
    }
}

/// Where a run ends by itself within `enough` steps, the run with fewer steps ends the same
/// way or is stopped for want of steps.
pub proof fn lemma_run_with_fewer_steps(
    code: Seq<char>,
    c: Config,
    debug: bool,
    enough: nat,
    fuel: nat,
    events: Seq<Answer>,
    k: int,
)
    requires
        run(code, c, debug, enough, events, k).stop is Halted,
        fuel <= enough,
    ensures
        run(code, c, debug, fuel, events, k).stop is StepLimit || run(
            code,
            c,
            debug,
            fuel,
            events,
            k,
        ) == run(code, c, debug, enough, events, k),
    decreases fuel,
{
    if c.ip < code.len() && fuel > 0 {
        match step(code, c, debug, event_at(events, k), k) {
            Step::Next(next) => {
                lemma_run_with_fewer_steps(
                    code,
                    next,
                    debug,
                    (enough - 1) as nat,
                    (fuel - 1) as nat,
                    events,
                    k + 1,
                );
            },
            Step::Fault(_) => {},
        }
    }
}

/// From `c` the machine gets to `d` in exactly `m` steps, as long as that many are allowed.
pub open spec fn reaches(
    code: Seq<char>,
    debug: bool,
    events: Seq<Answer>,
    c: Config,
    k: int,
    d: Config,
    m: nat,
) -> bool {
    forall|fuel: nat|
        fuel >= m ==> #[trigger] run(code, c, debug, fuel, events, k) == run(
            code,
            d,
            debug,
            (fuel - m) as nat,
            events,
            k + m,
        )
}

/// No step at all leads from a configuration to itself.
pub proof fn lemma_reaches_refl(
    code: Seq<char>,
    debug: bool,
    events: Seq<Answer>,
    c: Config,
    k: int,
)
    ensures
        reaches(code, debug, events, c, k, c, 0),
{
}

/// One instruction that does not fault is one step.
pub proof fn lemma_reaches_step(
    code: Seq<char>,
    debug: bool,
    events: Seq<Answer>,
    c: Config,
    k: int,
)
    requires
        0 <= c.ip < code.len(),
        step(code, c, debug, event_at(events, k), k) is Next,
    ensures
        reaches(code, debug, events, c, k, step(code, c, debug, event_at(events, k), k)->Next_0, 1),
{
}

/// Steps add up.
pub proof fn lemma_reaches_trans(
    code: Seq<char>,
    debug: bool,
    events: Seq<Answer>,
    c: Config,
    k: int,
    d: Config,
    m: nat,
    e: Config,
    n: nat,
)
    requires
        reaches(code, debug, events, c, k, d, m),
        reaches(code, debug, events, d, k + m, e, n),
    ensures
        reaches(code, debug, events, c, k, e, m + n),
{
    assert forall|fuel: nat| fuel >= m + n implies #[trigger] run(
        code,
        c,
        debug,
        fuel,
        events,
        k,
    ) == run(code, e, debug, (fuel - (m + n)) as nat, events, k + (m + n)) by {
        assert(run(code, c, debug, fuel, events, k) == run(
            code,
            d,
            debug,
            (fuel - m) as nat,
            events,
            k + m,
        ));
        assert(run(code, d, debug, (fuel - m) as nat, events, k + m) == run(
            code,
            e,
            debug,
            ((fuel - m) - n) as nat,
            events,
            k + m + n,
        ));
    }
}

} // verus!
