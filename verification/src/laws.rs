//! Laws of the machine: what cells do at the ends of their range and what the pointer does at
//! the ends of the tape.

use vstd::prelude::*;
use crate::machine::Config;
use crate::machine::Fault;
use crate::machine::Answer;
use crate::machine::Outcome;
use crate::machine::Stop;
use crate::machine::decremented;
use crate::machine::execute;
use crate::machine::incremented;
use crate::machine::reaches;
use crate::machine::run;
use crate::machine::start;
use crate::program::balanced;
use crate::program::bracket_fault;
use crate::program::lemma_bracketless_balanced;
use crate::segments::lemma_run_counts;
use crate::segments::lemma_run_rights;
use crate::segments::lemma_wrap;
use crate::segments::occurs;
use crate::text::repeated;

verus! {

/// Cells wrap: one `-` takes a zero cell to 255, one `+` takes 255 to zero.
pub proof fn lemma_cells_wrap()
    ensures
        decremented(0u8) == 255u8,
        incremented(255u8) == 0u8,
{
}

/// Cells go round in 256 steps: wherever 256 times `+` stand in a row, or 256 times `-`, the
/// run gets through them and the current cell holds what it held before.
pub proof fn lemma_full_turn(
    code: Seq<char>,
    events: Seq<Answer>,
    c: Config,
    k: int,
    up: bool,
)
    requires
        occurs(
            code,
            c.ip,
            repeated(
                if up {
                    '+'
                } else {
                    '-'
                },
                256,
            ),
        ),
        0 <= c.ptr < c.tape.len(),
    ensures
        reaches(code, false, events, c, k, Config { ip: c.ip + 256, ..c }, 256),
{
    lemma_run_counts(code, events, c, k, up, 256);
    let v = c.tape[c.ptr];
    lemma_wrap(v, 0, 0);
    let turned = c.tape.update(
        c.ptr,
        crate::segments::wrap(
            v + if up {
                256int
            } else {
                -256int
            },
        ),
    );
    assert(turned =~= c.tape);
}

/// The right end of the tape: on a tape of `cells` cells with the pointer on the first, one
/// `>` less than there are cells leaves the pointer on the last cell and the program ends;
/// one `>` more is refused there as out of bounds, with nothing else changed.
pub proof fn lemma_right_end(tape: Seq<u8>, events: Seq<Answer>, fuel: nat)
    requires
        tape.len() >= 1,
        fuel >= tape.len(),
    ensures
        execute(repeated('>', tape.len() - 1), tape, 0, false, fuel, events) == (Outcome {
            stop: Stop::Halted,
            config: Config { ip: tape.len() - 1, ptr: tape.len() - 1, ..start(tape, 0) },
        }),
        execute(repeated('>', tape.len() as int), tape, 0, false, fuel, events) == (Outcome {
            stop: Stop::Faulted(
                Fault::PointerOutOfBounds { ip: tape.len() - 1, ptr: tape.len() - 1, op: '>' },
            ),
            config: Config { ip: tape.len() - 1, ptr: tape.len() - 1, ..start(tape, 0) },
        }),
{
    let cells = tape.len();
    let last = (cells - 1) as nat;
    let origin = start(tape, 0);
    let end = Config { ip: last as int, ptr: last as int, ..origin };
    let fits = repeated('>', last as int);
    let over = repeated('>', cells as int);
    lemma_bracketless_balanced(fits);
    lemma_bracketless_balanced(over);
    assert(bracket_fault(fits) is None && bracket_fault(over) is None);
    assert(occurs(fits, 0, fits));
    lemma_run_rights(fits, events, origin, 0, last);
    assert(run(fits, origin, false, fuel, events, 0) == run(
        fits,
        end,
        false,
        (fuel - last) as nat,
        events,
        last as int,
    ));
    assert forall|j: int| 0 <= j < fits.len() implies over[0 + j] == #[trigger] fits[j] by {}
    lemma_run_rights(over, events, origin, 0, last);
    assert(run(over, origin, false, fuel, events, 0) == run(
        over,
        end,
        false,
        (fuel - last) as nat,
        events,
        last as int,
    ));
    assert(over[last as int] == '>');
}

/// The left end of the tape: with the pointer on the first cell, a program that begins with
/// `<` is refused at once as out of bounds, with nothing changed.
pub proof fn lemma_left_end(code: Seq<char>, tape: Seq<u8>, events: Seq<Answer>, fuel: nat)
    requires
        balanced(code),
        code.len() >= 1,
        code[0] == '<',
        fuel >= 1,
    ensures
        execute(code, tape, 0, false, fuel, events) == (Outcome {
            stop: Stop::Faulted(Fault::PointerOutOfBounds { ip: 0, ptr: 0, op: '<' }),
            config: start(tape, 0),
        }),
{
}

} // verus!
