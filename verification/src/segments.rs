//! What pieces of program text do wherever they stand: runs of one instruction and the three
//! loops that the generator writes.
//!
//! Every lemma speaks of a real run, not a debug run, and of a piece that neither reads nor
//! writes, so the answers recorded for the run play no part.

use vstd::prelude::*;
use crate::machine::Config;
use crate::machine::Answer;
use crate::machine::Step;
use crate::machine::decremented;
use crate::machine::dispatch;
use crate::machine::event_at;
use crate::machine::incremented;
use crate::machine::lemma_reaches_refl;
use crate::machine::lemma_reaches_step;
use crate::machine::lemma_reaches_trans;
use crate::machine::reaches;
use crate::machine::step;
use crate::program::lemma_plain_loop;
use crate::program::partner;
use crate::text::repeated;
use crate::writer::clear_text;
use crate::writer::move_left_text;
use crate::writer::multiply_text;

verus! {

/// `piece` stands in `code` at index `at`.
pub open spec fn occurs(code: Seq<char>, at: int, piece: Seq<char>) -> bool {
    &&& 0 <= at
    &&& at + piece.len() <= code.len()
    &&& forall|j: int| 0 <= j < piece.len() ==> code[at + j] == #[trigger] piece[j]
}

/// Where two pieces in a row stand, each of them stands.
pub proof fn lemma_occurs_split(code: Seq<char>, at: int, a: Seq<char>, b: Seq<char>)
    requires
        occurs(code, at, a + b),
    ensures
        occurs(code, at, a),
        occurs(code, at + a.len(), b),
{
    assert forall|j: int| 0 <= j < a.len() implies code[at + j] == #[trigger] a[j] by {
        assert((a + b)[j] == a[j]);
    }
    assert forall|j: int| 0 <= j < b.len() implies code[at + a.len() + j] == #[trigger] b[j] by {
        assert((a + b)[a.len() + j] == b[j]);
    }
}

/// The value of a cell that counts `v` on the ring of 256 values.
pub open spec fn wrap(v: int) -> u8 {
    (v % 256) as u8
}

/// `+` and `-` count on the ring, and counting in two goes is counting once.
pub proof fn lemma_wrap(v: u8, a: int, b: int)
    ensures
        incremented(v) == wrap(v + 1),
        decremented(v) == wrap(v - 1),
        wrap(v as int) == v,
        wrap(wrap(a) + b) == wrap(a + b),
{
}

/// The instruction in front of `c` is carried out and leads to `next`.
pub open spec fn leads(code: Seq<char>, events: Seq<Answer>, c: Config, k: int, next: Config) -> bool {
    &&& 0 <= c.ip < code.len()
    &&& dispatch(code, c, false, event_at(events, k)) == Step::Next(next)
}

/// One instruction that is carried out is one step of the run.
pub proof fn lemma_one(code: Seq<char>, events: Seq<Answer>, c: Config, k: int, next: Config)
    requires
        leads(code, events, c, k, next),
    ensures
        reaches(code, false, events, c, k, next, 1),
{
    assert(step(code, c, false, event_at(events, k), k) == Step::Next(next));
    lemma_reaches_step(code, false, events, c, k);
}

/// A run of `n` times `+`, or `-`, counts the current cell up, or down, by `n`.
pub proof fn lemma_run_counts(
    code: Seq<char>,
    events: Seq<Answer>,
    c: Config,
    k: int,
    up: bool,
    n: nat,
)
    requires
        occurs(
            code,
            c.ip,
            repeated(
                if up {
                    '+'
                } else {
                    '-'
                },
                n as int,
            ),
        ),
        0 <= c.ptr < c.tape.len(),
    ensures
        reaches(
            code,
            false,
            events,
            c,
            k,
            Config {
                ip: c.ip + n,
                tape: c.tape.update(
                    c.ptr,
                    wrap(
                        c.tape[c.ptr] + if up {
                            n as int
                        } else {
                            -(n as int)
                        },
                    ),
                ),
                ..c
            },
            n,
        ),
    decreases n,
{
    let ch = if up {
        '+'
    } else {
        '-'
    };
    let piece = repeated(ch, n as int);
    let v = c.tape[c.ptr];
    let all: int = if up {
        n as int
    } else {
        -(n as int)
    };
    let goal = Config { ip: c.ip + n, tape: c.tape.update(c.ptr, wrap(v + all)), ..c };
    if n == 0 {
        lemma_wrap(v, 0, 0);
        assert(goal.tape =~= c.tape);
        assert(goal == c);
        lemma_reaches_refl(code, false, events, c, k);
    } else {
        let one: int = if up {
            1
        } else {
            -1
        };
        let others: int = if up {
            n - 1
        } else {
            -(n - 1)
        };
        assert(piece[0] == ch);
        assert(code[c.ip + 0] == ch);
        let c1 = Config { ip: c.ip + 1, tape: c.tape.update(c.ptr, wrap(v + one)), ..c };
        lemma_wrap(v, 0, 0);
        assert(dispatch(code, c, false, event_at(events, k)) == Step::Next(c1));
        lemma_one(code, events, c, k, c1);
        let rest = repeated(ch, n - 1);
        assert forall|j: int| 0 <= j < rest.len() implies code[c1.ip + j] == #[trigger] rest[j] by {
            assert(piece[j + 1] == ch);
            assert(code[c.ip + (j + 1)] == ch);
        }
        assert(occurs(code, c1.ip, rest));
        lemma_run_counts(code, events, c1, k + 1, up, (n - 1) as nat);
        let c2 = Config {
            ip: c1.ip + (n - 1) as nat,
            tape: c1.tape.update(c1.ptr, wrap(c1.tape[c1.ptr] + others)),
            ..c1
        };
        assert(reaches(code, false, events, c1, k + 1, c2, (n - 1) as nat));
        lemma_wrap(v, v + one, others);
        assert(c1.tape[c1.ptr] == wrap(v + one));
        assert(wrap(wrap(v + one) + others) == wrap(v + all));
        assert(c2.tape =~= goal.tape);
        assert(c2 == goal);
        lemma_reaches_trans(code, false, events, c, k, c1, 1, c2, (n - 1) as nat);
    }
}

/// A run of `n` times `>` moves the pointer `n` cells to the right where the tape has them.
pub proof fn lemma_run_rights(code: Seq<char>, events: Seq<Answer>, c: Config, k: int, n: nat)
    requires
        occurs(code, c.ip, repeated('>', n as int)),
        0 <= c.ptr,
        c.ptr + n < c.tape.len(),
    ensures
        reaches(code, false, events, c, k, Config { ip: c.ip + n, ptr: c.ptr + n, ..c }, n),
    decreases n,
{
    let piece = repeated('>', n as int);
    if n == 0 {
        lemma_reaches_refl(code, false, events, c, k);
    } else {
        assert(piece[0] == '>');
        let c1 = Config { ip: c.ip + 1, ptr: c.ptr + 1, ..c };
        lemma_one(code, events, c, k, c1);
        let rest = repeated('>', n - 1);
        assert forall|j: int| 0 <= j < rest.len() implies code[c1.ip + j] == #[trigger] rest[j] by {
            assert(piece[j + 1] == '>');
        }
        lemma_run_rights(code, events, c1, k + 1, (n - 1) as nat);
        let c2 = Config { ip: c1.ip + (n - 1), ptr: c1.ptr + (n - 1), ..c1 };
        lemma_reaches_trans(code, false, events, c, k, c1, 1, c2, (n - 1) as nat);
    }
}

/// Inside `[-]`, in front of the `-` with a cell that is not zero: the loop goes on until the
/// cell is zero and is left.
proof fn lemma_clear_spin(code: Seq<char>, events: Seq<Answer>, c: Config, k: int) -> (m: nat)
    requires
        1 <= c.ip,
        c.ip + 1 < code.len(),
        code[c.ip - 1] == '[',
        code[c.ip] == '-',
        code[c.ip + 1] == ']',
        0 <= c.ptr < c.tape.len(),
        c.tape[c.ptr] >= 1,
    ensures
        reaches(
            code,
            false,
            events,
            c,
            k,
            Config { ip: c.ip + 2, tape: c.tape.update(c.ptr, 0u8), ..c },
            m,
        ),
    decreases c.tape[c.ptr],
{
    let w = c.tape[c.ptr];
    lemma_plain_loop(code, c.ip - 1, c.ip + 1);
    let c1 = Config { ip: c.ip + 1, tape: c.tape.update(c.ptr, (w - 1) as u8), ..c };
    lemma_one(code, events, c, k, c1);
    let goal = Config { ip: c.ip + 2, tape: c.tape.update(c.ptr, 0u8), ..c };
    if w == 1 {
        let c2 = Config { ip: c.ip + 2, ..c1 };
        lemma_one(code, events, c1, k + 1, c2);
        assert(c2 == goal);
        lemma_reaches_trans(code, false, events, c, k, c1, 1, c2, 1);
        2
    } else {
        let c2 = Config { ip: c.ip, ..c1 };
        lemma_one(code, events, c1, k + 1, c2);
        lemma_reaches_trans(code, false, events, c, k, c1, 1, c2, 1);
        let m = lemma_clear_spin(code, events, c2, k + 2);
        let c3 = Config { ip: c2.ip + 2, tape: c2.tape.update(c2.ptr, 0u8), ..c2 };
        assert(c3.tape =~= goal.tape);
        assert(c3 == goal);
        lemma_reaches_trans(code, false, events, c, k, c2, 2, c3, m);
        2 + m
    }
}

/// `[-]` clears the current cell.
pub proof fn lemma_run_clear(code: Seq<char>, events: Seq<Answer>, c: Config, k: int) -> (m:
    nat)
    requires
        occurs(code, c.ip, clear_text()),
        0 <= c.ptr < c.tape.len(),
    ensures
        reaches(
            code,
            false,
            events,
            c,
            k,
            Config { ip: c.ip + 3, tape: c.tape.update(c.ptr, 0u8), ..c },
            m,
        ),
{
    let piece = clear_text();
    assert(piece[0] == '[' && piece[1] == '-' && piece[2] == ']');
    assert(code[c.ip + 0] == '[' && code[c.ip + 1] == '-' && code[c.ip + 2] == ']');
    lemma_plain_loop(code, c.ip, c.ip + 2);
    let goal = Config { ip: c.ip + 3, tape: c.tape.update(c.ptr, 0u8), ..c };
    if c.tape[c.ptr] == 0 {
        assert(goal.tape =~= c.tape);
        lemma_one(code, events, c, k, goal);
        1
    } else {
        let c1 = Config { ip: c.ip + 1, ..c };
        lemma_one(code, events, c, k, c1);
        let m = lemma_clear_spin(code, events, c1, k + 1);
        lemma_reaches_trans(code, false, events, c, k, c1, 1, goal, m);
        1 + m
    }
}

/// Inside `[>+..+<-]`, in front of the `>` with a counter that is not zero: the loop goes on
/// until the counter is zero and is left; the right neighbour has grown by `b` each time.
proof fn lemma_multiply_spin(
    code: Seq<char>,
    events: Seq<Answer>,
    c: Config,
    k: int,
    b: nat,
) -> (m: nat)
    requires
        occurs(code, c.ip - 1, multiply_text(b as int)),
        0 <= c.ptr,
        c.ptr + 1 < c.tape.len(),
        c.tape[c.ptr] >= 1,
    ensures
        reaches(
            code,
            false,
            events,
            c,
            k,
            Config {
                ip: c.ip + b + 4,
                tape: c.tape.update(c.ptr, 0u8).update(
                    c.ptr + 1,
                    wrap(c.tape[c.ptr + 1] + c.tape[c.ptr] * b),
                ),
                ..c
            },
            m,
        ),
    decreases c.tape[c.ptr],
{
    let open = c.ip - 1;
    let piece = multiply_text(b as int);
    let w = c.tape[c.ptr];
    let t = c.tape[c.ptr + 1];
    let p = c.ptr;
    lemma_multiply_shape(code, open, b);
    let close = open + b + 4;
    let goal = Config {
        ip: c.ip + b + 4,
        tape: c.tape.update(p, 0u8).update(p + 1, wrap(t + w * b)),
        ..c
    };
    // `>`
    let c1 = Config { ip: c.ip + 1, ptr: p + 1, ..c };
    lemma_one(code, events, c, k, c1);
    // the run of `+`
    lemma_run_counts(code, events, c1, k + 1, true, b);
    let c2 = Config { ip: c1.ip + b, tape: c1.tape.update(p + 1, wrap(t + b)), ..c1 };
    lemma_reaches_trans(code, false, events, c, k, c1, 1, c2, b);
    // `<`
    let c3 = Config { ip: c2.ip + 1, ptr: p, ..c2 };
    lemma_one(code, events, c2, k + 1 + b, c3);
    lemma_reaches_trans(code, false, events, c, k, c2, 1 + b, c3, 1);
    // `-`
    let c4 = Config { ip: c3.ip + 1, tape: c3.tape.update(p, (w - 1) as u8), ..c3 };
    lemma_one(code, events, c3, k + 2 + b, c4);
    lemma_reaches_trans(code, false, events, c, k, c3, 2 + b, c4, 1);
    assert(c4.ip == close);
    // `]`
    if w == 1 {
        let c5 = Config { ip: close + 1, ..c4 };
        lemma_one(code, events, c4, k + 3 + b, c5);
        lemma_reaches_trans(code, false, events, c, k, c4, 3 + b, c5, 1);
        assert(w * b == b) by (nonlinear_arith)
            requires
                w == 1,
        ;
        assert(c5.tape =~= goal.tape);
        assert(c5 == goal);
        4 + b
    } else {
        let c5 = Config { ip: open + 1, ..c4 };
        lemma_one(code, events, c4, k + 3 + b, c5);
        lemma_reaches_trans(code, false, events, c, k, c4, 3 + b, c5, 1);
        let m = lemma_multiply_spin(code, events, c5, k + 4 + b, b);
        let c6 = Config {
            ip: c5.ip + b + 4,
            tape: c5.tape.update(p, 0u8).update(p + 1, wrap(c5.tape[p + 1] + c5.tape[p] * b)),
            ..c5
        };
        lemma_wrap(0, t + b, (w - 1) * b);
        assert((t + b) + (w - 1) * b == t + w * b) by (nonlinear_arith);
        assert(c6.tape =~= goal.tape);
        assert(c6 == goal);
        lemma_reaches_trans(code, false, events, c, k, c5, 4 + b, c6, m);
        4 + b + m
    }
}

/// Where the multiplying loop stands, its characters stand and its brackets are partners.
proof fn lemma_multiply_shape(code: Seq<char>, open: int, b: nat)
    requires
        occurs(code, open, multiply_text(b as int)),
    ensures
        open + b + 5 <= code.len(),
        code[open] == '[',
        code[open + 1] == '>',
        occurs(code, open + 2, repeated('+', b as int)),
        code[open + b + 2] == '<',
        code[open + b + 3] == '-',
        code[open + b + 4] == ']',
        partner(code, open) == open + b + 4,
        partner(code, open + b + 4) == open,
{
    let head = seq!['[', '>'];
    let run = repeated('+', b as int);
    let tail = seq!['<', '-', ']'];
    assert(multiply_text(b as int) == head + run + tail);
    lemma_occurs_split(code, open, head + run, tail);
    lemma_occurs_split(code, open, head, run);
    assert(head[0] == '[' && head[1] == '>');
    assert(code[open + 0] == '[' && code[open + 1] == '>');
    assert(tail[0] == '<' && tail[1] == '-' && tail[2] == ']');
    let at = open + 2 + b;
    assert(code[at + 0] == '<' && code[at + 1] == '-' && code[at + 2] == ']');
    assert forall|j: int| open < j < open + b + 4 implies code[j] != '[' && code[j] != ']' by {
        if j == open + 1 {
        } else if j < open + 2 + b {
            assert(run[j - open - 2] == '+');
        } else {
        }
    }
    lemma_plain_loop(code, open, open + b + 4);
}

/// `[>`, `b` times `+`, `<-]` adds `b` times the current cell to its right neighbour and
/// clears the current cell.
pub proof fn lemma_run_multiply(
    code: Seq<char>,
    events: Seq<Answer>,
    c: Config,
    k: int,
    b: nat,
) -> (m: nat)
    requires
        occurs(code, c.ip, multiply_text(b as int)),
        0 <= c.ptr,
        c.ptr + 1 < c.tape.len(),
    ensures
        reaches(
            code,
            false,
            events,
            c,
            k,
            Config {
                ip: c.ip + b + 5,
                tape: c.tape.update(c.ptr, 0u8).update(
                    c.ptr + 1,
                    wrap(c.tape[c.ptr + 1] + c.tape[c.ptr] * b),
                ),
                ..c
            },
            m,
        ),
{
    lemma_multiply_shape(code, c.ip, b);
    let goal = Config {
        ip: c.ip + b + 5,
        tape: c.tape.update(c.ptr, 0u8).update(
            c.ptr + 1,
            wrap(c.tape[c.ptr + 1] + c.tape[c.ptr] * b),
        ),
        ..c
    };
    if c.tape[c.ptr] == 0 {
        lemma_wrap(c.tape[c.ptr + 1], 0, 0);
        assert(c.tape[c.ptr] * b == 0) by (nonlinear_arith)
            requires
                c.tape[c.ptr] == 0,
        ;
        assert(goal.tape =~= c.tape);
        lemma_one(code, events, c, k, goal);
        1
    } else {
        let c1 = Config { ip: c.ip + 1, ..c };
        lemma_one(code, events, c, k, c1);
        let m = lemma_multiply_spin(code, events, c1, k + 1, b);
        lemma_reaches_trans(code, false, events, c, k, c1, 1, goal, m);
        1 + m
    }
}

/// Where the moving loop stands, its characters stand and its brackets are partners.
proof fn lemma_move_shape(code: Seq<char>, open: int)
    requires
        occurs(code, open, move_left_text()),
    ensures
        open + 6 <= code.len(),
        code[open] == '[',
        code[open + 1] == '<',
        code[open + 2] == '+',
        code[open + 3] == '>',
        code[open + 4] == '-',
        code[open + 5] == ']',
        partner(code, open) == open + 5,
        partner(code, open + 5) == open,
{
    let piece = move_left_text();
    assert(piece[0] == '[' && piece[1] == '<' && piece[2] == '+' && piece[3] == '>' && piece[4]
        == '-' && piece[5] == ']');
    assert(code[open + 0] == '[' && code[open + 1] == '<' && code[open + 2] == '+' && code[open
        + 3] == '>' && code[open + 4] == '-' && code[open + 5] == ']');
    lemma_plain_loop(code, open, open + 5);
}

/// Inside `[<+>-]`, in front of the `<` with a cell that is not zero: the loop goes on until
/// the cell is zero and is left; the left neighbour has grown by one each time.
proof fn lemma_move_spin(code: Seq<char>, events: Seq<Answer>, c: Config, k: int) -> (m: nat)
    requires
        occurs(code, c.ip - 1, move_left_text()),
        1 <= c.ptr < c.tape.len(),
        c.tape[c.ptr] >= 1,
    ensures
        reaches(
            code,
            false,
            events,
            c,
            k,
            Config {
                ip: c.ip + 5,
                tape: c.tape.update(c.ptr, 0u8).update(
                    c.ptr - 1,
                    wrap(c.tape[c.ptr - 1] + c.tape[c.ptr]),
                ),
                ..c
            },
            m,
        ),
    decreases c.tape[c.ptr],
{
    let open = c.ip - 1;
    let p = c.ptr;
    let w = c.tape[p];
    let u = c.tape[p - 1];
    lemma_move_shape(code, open);
    let goal = Config {
        ip: c.ip + 5,
        tape: c.tape.update(p, 0u8).update(p - 1, wrap(u + w)),
        ..c
    };
    lemma_wrap(u, 0, 0);
    let c1 = Config { ip: c.ip + 1, ptr: p - 1, ..c };
    lemma_one(code, events, c, k, c1);
    let c2 = Config { ip: c1.ip + 1, tape: c1.tape.update(p - 1, wrap(u + 1)), ..c1 };
    lemma_one(code, events, c1, k + 1, c2);
    lemma_reaches_trans(code, false, events, c, k, c1, 1, c2, 1);
    let c3 = Config { ip: c2.ip + 1, ptr: p, ..c2 };
    lemma_one(code, events, c2, k + 2, c3);
    lemma_reaches_trans(code, false, events, c, k, c2, 2, c3, 1);
    let c4 = Config { ip: c3.ip + 1, tape: c3.tape.update(p, (w - 1) as u8), ..c3 };
    lemma_one(code, events, c3, k + 3, c4);
    lemma_reaches_trans(code, false, events, c, k, c3, 3, c4, 1);
    if w == 1 {
        let c5 = Config { ip: open + 6, ..c4 };
        lemma_one(code, events, c4, k + 4, c5);
        lemma_reaches_trans(code, false, events, c, k, c4, 4, c5, 1);
        assert(c5.tape =~= goal.tape);
        assert(c5 == goal);
        5
    } else {
        let c5 = Config { ip: open + 1, ..c4 };
        lemma_one(code, events, c4, k + 4, c5);
        lemma_reaches_trans(code, false, events, c, k, c4, 4, c5, 1);
        let m = lemma_move_spin(code, events, c5, k + 5);
        let c6 = Config {
            ip: c5.ip + 5,
            tape: c5.tape.update(p, 0u8).update(p - 1, wrap(c5.tape[p - 1] + c5.tape[p])),
            ..c5
        };
        lemma_wrap(0, u + 1, w - 1);
        assert(c6.tape =~= goal.tape);
        assert(c6 == goal);
        lemma_reaches_trans(code, false, events, c, k, c5, 5, c6, m);
        5 + m
    }
}

/// `[<+>-]` adds the current cell to its left neighbour and clears the current cell.
pub proof fn lemma_run_move(code: Seq<char>, events: Seq<Answer>, c: Config, k: int) -> (m:
    nat)
    requires
        occurs(code, c.ip, move_left_text()),
        1 <= c.ptr < c.tape.len(),
    ensures
        reaches(
            code,
            false,
            events,
            c,
            k,
            Config {
                ip: c.ip + 6,
                tape: c.tape.update(c.ptr, 0u8).update(
                    c.ptr - 1,
                    wrap(c.tape[c.ptr - 1] + c.tape[c.ptr]),
                ),
                ..c
            },
            m,
        ),
{
    lemma_move_shape(code, c.ip);
    let goal = Config {
        ip: c.ip + 6,
        tape: c.tape.update(c.ptr, 0u8).update(
            c.ptr - 1,
            wrap(c.tape[c.ptr - 1] + c.tape[c.ptr]),
        ),
        ..c
    };
    if c.tape[c.ptr] == 0 {
        lemma_wrap(c.tape[c.ptr - 1], 0, 0);
        assert(goal.tape =~= c.tape);
        lemma_one(code, events, c, k, goal);
        1
    } else {
        let c1 = Config { ip: c.ip + 1, ..c };
        lemma_one(code, events, c, k, c1);
        let m = lemma_move_spin(code, events, c1, k + 1);
        lemma_reaches_trans(code, false, events, c, k, c1, 1, goal, m);
        1 + m
    }
}

} // verus!
