//! The generator and the interpreter together: a generated program prints the bytes it was
//! generated for.

use vstd::prelude::*;
use crate::error::BrainfuckReaderError;
use crate::machine::Config;
use crate::machine::Answer;
use crate::machine::Stop;
use crate::machine::event_at;
use crate::machine::execute;
use crate::machine::lemma_reaches_refl;
use crate::machine::lemma_reaches_trans;
use crate::machine::lemma_run_with_fewer_steps;
use crate::machine::reaches;
use crate::machine::run;
use crate::machine::start;
use crate::machine::unfailing;
use crate::program::balanced;
use crate::program::bracket_fault;
use crate::program::lemma_balanced_concat;
use crate::program::lemma_balanced_wrap;
use crate::program::lemma_bracketless_balanced;
use crate::reader::BrainfuckReader;
use crate::segments::lemma_occurs_split;
use crate::segments::lemma_one;
use crate::segments::lemma_run_clear;
use crate::segments::lemma_run_counts;
use crate::segments::lemma_run_move;
use crate::segments::lemma_run_multiply;
use crate::segments::lemma_wrap;
use crate::segments::occurs;
use crate::segments::wrap;
use crate::text::repeated;
use crate::trace::TraceRow;
use crate::writer::WriterOptions;
use crate::writer::adjust_text;
use crate::writer::best_build_text;
use crate::writer::byte_text;
use crate::writer::clear_right_text;
use crate::writer::clear_text;
use crate::writer::cursor_before;
use crate::writer::delta_text;
use crate::writer::from_zero_text;
use crate::writer::generated_text;
use crate::writer::loop_multiplier;
use crate::writer::loop_text;
use crate::writer::loop_text_with;
use crate::writer::move_left_text;
use crate::writer::multiply_text;
use crate::writer::plain_build_text;
use crate::writer::ring_distance;

verus! {

/// A tape of `cells` zeroed cells.
pub open spec fn blank(cells: nat) -> Seq<u8> {
    Seq::new(cells, |i: int| 0u8)
}

/// A tape of `cells` cells that holds `value` in its first cell and zero elsewhere.
pub open spec fn holding(cells: nat, value: u8) -> Seq<u8> {
    blank(cells).update(0, value)
}

/// The way a zero-build encoding was made: plainly, or with a loop of outer count `a`.
pub open spec fn build_text(target: u8, a: int) -> Seq<char> {
    if a == 0 {
        plain_build_text(target)
    } else {
        loop_text(target, a as u8)
    }
}

/// The best zero-build encoding is one of its candidates.
pub proof fn lemma_best_build_is_candidate(target: u8, upto: int) -> (a: int)
    requires
        upto <= 255,
    ensures
        0 <= a,
        a <= upto || a == 0,
        best_build_text(target, upto) == build_text(target, a),
    decreases upto,
{
    if upto <= 0 {
        0
    } else {
        let earlier = best_build_text(target, upto - 1);
        let candidate = loop_text(target, upto as u8);
        if candidate.len() < earlier.len() {
            upto
        } else {
            lemma_best_build_is_candidate(target, upto - 1)
        }
    }
}

proof fn lemma_repeated_balanced(c: char, n: int)
    requires
        c != '[' && c != ']',
    ensures
        balanced(repeated(c, n)),
{
    lemma_bracketless_balanced(repeated(c, n));
}

proof fn lemma_clear_balanced()
    ensures
        balanced(clear_text()),
{
    let inner = seq!['-'];
    lemma_bracketless_balanced(inner);
    lemma_balanced_wrap(inner);
    assert(clear_text() =~= seq!['['] + inner + seq![']']);
}

proof fn lemma_loop_balanced(target: u8, a: int, b: int)
    ensures
        balanced(loop_text_with(target, a, b)),
{
    let wipe = clear_text();
    let wipe_right = clear_right_text();
    let count = repeated('+', a);
    let multiply = multiply_text(b);
    let go_right = seq!['>'];
    let adjust = adjust_text(target - a * b);
    let carry = move_left_text();
    let go_left = seq!['<'];
    lemma_clear_balanced();
    assert(balanced(wipe_right)) by {
        lemma_bracketless_balanced(seq!['>']);
        lemma_bracketless_balanced(seq!['<']);
        lemma_balanced_concat(seq!['>'], clear_text());
        lemma_balanced_concat(seq!['>'] + clear_text(), seq!['<']);
        assert(wipe_right =~= seq!['>'] + clear_text() + seq!['<']);
    }
    lemma_repeated_balanced('+', a);
    assert(balanced(multiply)) by {
        let inner = seq!['>'] + repeated('+', b) + seq!['<', '-'];
        lemma_bracketless_balanced(inner);
        lemma_balanced_wrap(inner);
        assert(multiply =~= seq!['['] + inner + seq![']']);
    }
    lemma_bracketless_balanced(go_right);
    assert(balanced(adjust)) by {
        lemma_repeated_balanced('+', target - a * b);
        lemma_repeated_balanced('-', -(target - a * b));
    }
    assert(balanced(carry)) by {
        let inner = seq!['<', '+', '>', '-'];
        lemma_bracketless_balanced(inner);
        lemma_balanced_wrap(inner);
        assert(carry =~= seq!['['] + inner + seq![']']);
    }
    lemma_bracketless_balanced(go_left);
    lemma_balanced_concat(wipe, wipe_right);
    lemma_balanced_concat(wipe + wipe_right, count);
    lemma_balanced_concat(wipe + wipe_right + count, multiply);
    lemma_balanced_concat(wipe + wipe_right + count + multiply, go_right);
    lemma_balanced_concat(wipe + wipe_right + count + multiply + go_right, adjust);
    lemma_balanced_concat(wipe + wipe_right + count + multiply + go_right + adjust, carry);
    lemma_balanced_concat(wipe + wipe_right + count + multiply + go_right + adjust + carry, go_left);
}

/// The encoding of a byte, with its `.`, is balanced.
proof fn lemma_byte_balanced(cursor: u8, target: u8, options: WriterOptions)
    ensures
        balanced(byte_text(cursor, target, options).push('.')),
{
    let delta = delta_text(cursor, target, options.assume_wrapping_u8);
    let from_zero = from_zero_text(target, options);
    let text = byte_text(cursor, target, options);
    if text == delta {
        lemma_bracketless_balanced(delta);
    } else {
        let a = if !options.use_loops || target == 0 {
            0
        } else {
            lemma_best_build_is_candidate(target, options.max_loop_factor as int)
        };
        assert(text == build_text(target, a));
        if a == 0 {
            lemma_clear_balanced();
            lemma_repeated_balanced('+', target as int);
            lemma_balanced_concat(clear_text(), repeated('+', target as int));
        } else {
            lemma_loop_balanced(target, a, loop_multiplier(target, a as u8));
        }
    }
    lemma_bracketless_balanced(seq!['.']);
    lemma_balanced_concat(text, seq!['.']);
    assert(text.push('.') =~= text + seq!['.']);
}

/// A generated program is balanced.
pub proof fn lemma_generated_balanced(bytes: Seq<u8>, options: WriterOptions, n: int)
    ensures
        balanced(generated_text(bytes, options, n)),
    decreases n,
{
    if n <= 0 {
        lemma_bracketless_balanced(Seq::<char>::empty());
    } else {
        lemma_generated_balanced(bytes, options, n - 1);
        lemma_byte_balanced(cursor_before(bytes, n - 1), bytes[n - 1], options);
        lemma_balanced_concat(
            generated_text(bytes, options, n - 1),
            byte_text(cursor_before(bytes, n - 1), bytes[n - 1], options).push('.'),
        );
    }
}

/// The delta encoding leads from `cursor` to `target`.
proof fn lemma_delta_runs(
    code: Seq<char>,
    events: Seq<Answer>,
    c: Config,
    k: int,
    cells: nat,
    cursor: u8,
    target: u8,
    wrapping: bool,
) -> (m: nat)
    requires
        cells >= 1,
        occurs(code, c.ip, delta_text(cursor, target, wrapping)),
        c.ptr == 0,
        c.tape == holding(cells, cursor),
    ensures
        reaches(
            code,
            false,
            events,
            c,
            k,
            Config {
                ip: c.ip + delta_text(cursor, target, wrapping).len(),
                tape: holding(cells, target),
                ..c
            },
            m,
        ),
{
    let text = delta_text(cursor, target, wrapping);
    let goal = Config { ip: c.ip + text.len(), tape: holding(cells, target), ..c };
    if cursor == target {
        assert(goal == c);
        lemma_reaches_refl(code, false, events, c, k);
        0
    } else {
        let forward = ring_distance(cursor, target);
        let backward = ring_distance(target, cursor);
        let up = if wrapping {
            forward <= backward
        } else {
            target > cursor
        };
        let n: nat = if wrapping {
            if up {
                forward as nat
            } else {
                backward as nat
            }
        } else {
            if up {
                (target - cursor) as nat
            } else {
                (cursor - target) as nat
            }
        };
        assert(text == repeated(
            if up {
                '+'
            } else {
                '-'
            },
            n as int,
        ));
        lemma_run_counts(code, events, c, k, up, n);
        assert(c.tape.update(
            0,
            wrap(
                cursor + if up {
                    n as int
                } else {
                    -(n as int)
                },
            ),
        ) =~= holding(cells, target));
        n
    }
}

/// The plain zero-build encoding leads from any value to `target`.
proof fn lemma_plain_runs(
    code: Seq<char>,
    events: Seq<Answer>,
    c: Config,
    k: int,
    cells: nat,
    cursor: u8,
    target: u8,
) -> (m: nat)
    requires
        cells >= 1,
        occurs(code, c.ip, plain_build_text(target)),
        c.ptr == 0,
        c.tape == holding(cells, cursor),
    ensures
        reaches(
            code,
            false,
            events,
            c,
            k,
            Config {
                ip: c.ip + plain_build_text(target).len(),
                tape: holding(cells, target),
                ..c
            },
            m,
        ),
{
    lemma_occurs_split(code, c.ip, clear_text(), repeated('+', target as int));
    let m1 = lemma_run_clear(code, events, c, k);
    let c1 = Config { ip: c.ip + 3, tape: c.tape.update(0, 0u8), ..c };
    lemma_run_counts(code, events, c1, k + m1, true, target as nat);
    let c2 = Config { ip: c1.ip + target, tape: c1.tape.update(0, wrap(0 + target)), ..c1 };
    assert(c2.tape =~= holding(cells, target));
    lemma_reaches_trans(code, false, events, c, k, c1, m1, c2, target as nat);
    m1 + target as nat
}

/// The head of a loop encoding, `[-]>[-]<` and `a` times `+`, leaves `a` in the first cell
/// and zero elsewhere.
proof fn lemma_loop_head_runs(
    code: Seq<char>,
    events: Seq<Answer>,
    c: Config,
    k: int,
    cells: nat,
    cursor: u8,
    a: int,
) -> (m: nat)
    requires
        cells >= 2,
        1 <= a <= 255,
        occurs(code, c.ip, clear_text()),
        occurs(code, c.ip + 3, clear_right_text()),
        occurs(code, c.ip + 8, repeated('+', a)),
        c.ptr == 0,
        c.tape == holding(cells, cursor),
    ensures
        reaches(
            code,
            false,
            events,
            c,
            k,
            Config { ip: c.ip + 8 + a, tape: holding(cells, a as u8), ..c },
            m,
        ),
{
    let wipe = clear_text();
    let wipe_right = clear_right_text();
    let o = c.ip;
    let o1 = o + 3;
    let o2 = o1 + 5;
    // `[-]`
    let m0 = lemma_run_clear(code, events, c, k);
    let c1 = Config { ip: o1, tape: blank(cells), ..c };
    assert(c.tape.update(0, 0u8) =~= blank(cells));
    // `>[-]<`
    assert(wipe_right[0] == '>' && wipe_right[1] == '[' && wipe_right[2] == '-' && wipe_right[3] == ']' && wipe_right[4] == '<');
    assert(code[o1 + 0] == '>' && code[o1 + 1] == '[' && code[o1 + 2] == '-' && code[o1 + 3]
        == ']' && code[o1 + 4] == '<');
    let c2 = Config { ip: o1 + 1, ptr: 1, ..c1 };
    lemma_one(code, events, c1, k + m0, c2);
    lemma_reaches_trans(code, false, events, c, k, c1, m0, c2, 1);
    assert(wipe[0] == '[' && wipe[1] == '-' && wipe[2] == ']');
    assert forall|j: int| 0 <= j < wipe.len() implies code[o1 + 1 + j] == #[trigger] wipe[j] by {}
    let m1 = lemma_run_clear(code, events, c2, k + m0 + 1);
    let c3 = Config { ip: o1 + 4, ..c2 };
    assert(c2.tape.update(1, 0u8) =~= blank(cells));
    lemma_reaches_trans(code, false, events, c, k, c2, m0 + 1, c3, m1);
    let c4 = Config { ip: o2, ptr: 0, ..c3 };
    lemma_one(code, events, c3, k + m0 + 1 + m1, c4);
    lemma_reaches_trans(code, false, events, c, k, c3, m0 + 1 + m1, c4, 1);
    let s4 = m0 + 1 + m1 + 1;
    // the outer count
    lemma_run_counts(code, events, c4, k + s4, true, a as nat);
    let c5 = Config { ip: o2 + a, tape: holding(cells, a as u8), ..c4 };
    assert(wrap(0 + a) == a as u8);
    assert(c4.tape.update(0, wrap(c4.tape[0] + a)) =~= c5.tape);
    lemma_reaches_trans(code, false, events, c, k, c4, s4, c5, a as nat);
    s4 + a as nat
}

/// The middle of a loop encoding, the multiplying loop, `>` and the adjustment, leaves
/// `target` in the second cell and zero elsewhere.
proof fn lemma_loop_middle_runs(
    code: Seq<char>,
    events: Seq<Answer>,
    c: Config,
    k: int,
    cells: nat,
    target: u8,
    a: int,
    b: int,
) -> (m: nat)
    requires
        cells >= 2,
        1 <= a <= 255,
        0 <= b,
        occurs(code, c.ip, multiply_text(b)),
        occurs(code, c.ip + b + 5, seq!['>']),
        occurs(code, c.ip + b + 6, adjust_text(target - a * b)),
        c.ptr == 0,
        c.tape == holding(cells, a as u8),
    ensures
        reaches(
            code,
            false,
            events,
            c,
            k,
            Config {
                ip: c.ip + b + 6 + adjust_text(target - a * b).len(),
                ptr: 1,
                tape: blank(cells).update(1, target),
                ..c
            },
            m,
        ),
{
    let r = target - a * b;
    let go_right = seq!['>'];
    let o4 = c.ip + b + 5;
    // the multiplying loop
    let m5 = lemma_run_multiply(code, events, c, k, b as nat);
    let c6 = Config { ip: o4, tape: blank(cells).update(1, wrap(a * b)), ..c };
    assert(c.tape.update(0, 0u8).update(1, wrap(c.tape[1] + c.tape[0] * b)) =~= c6.tape);
    // `>`
    assert(go_right[0] == '>');
    assert(code[o4 + 0] == '>');
    let c7 = Config { ip: o4 + 1, ptr: 1, ..c6 };
    lemma_one(code, events, c6, k + m5, c7);
    lemma_reaches_trans(code, false, events, c, k, c6, m5, c7, 1);
    let s7 = m5 + 1;
    // what is missing
    let up = r > 0;
    let n: nat = if up {
        r as nat
    } else {
        (-r) as nat
    };
    lemma_run_counts(code, events, c7, k + s7, up, n);
    let c8 = Config { ip: o4 + 1 + n, tape: blank(cells).update(1, target), ..c7 };
    lemma_wrap(0, a * b, r);
    lemma_wrap(target, 0, 0);
    assert(c7.tape.update(
        1,
        wrap(
            c7.tape[1] + if up {
                n as int
            } else {
                -(n as int)
            },
        ),
    ) =~= c8.tape);
    lemma_reaches_trans(code, false, events, c, k, c7, s7, c8, n);
    s7 + n
}

/// The tail of a loop encoding, `[<+>-]<`, moves the second cell into the first.
proof fn lemma_loop_tail_runs(
    code: Seq<char>,
    events: Seq<Answer>,
    c: Config,
    k: int,
    cells: nat,
    target: u8,
) -> (m: nat)
    requires
        cells >= 2,
        occurs(code, c.ip, move_left_text()),
        occurs(code, c.ip + 6, seq!['<']),
        c.ptr == 1,
        c.tape == blank(cells).update(1, target),
    ensures
        reaches(
            code,
            false,
            events,
            c,
            k,
            Config { ip: c.ip + 7, ptr: 0, tape: holding(cells, target), ..c },
            m,
        ),
{
    let go_left = seq!['<'];
    let o7 = c.ip + 6;
    let m8 = lemma_run_move(code, events, c, k);
    let c9 = Config { ip: o7, tape: holding(cells, target), ..c };
    lemma_wrap(target, 0, 0);
    assert(c.tape.update(1, 0u8).update(0, wrap(c.tape[0] + c.tape[1])) =~= c9.tape);
    assert(go_left[0] == '<');
    assert(code[o7 + 0] == '<');
    let c10 = Config { ip: o7 + 1, ptr: 0, ..c9 };
    lemma_one(code, events, c9, k + m8, c10);
    lemma_reaches_trans(code, false, events, c, k, c9, m8, c10, 1);
    m8 + 1
}

/// A loop encoding leads from any value to `target`, whatever its counts are.
proof fn lemma_loop_runs(
    code: Seq<char>,
    events: Seq<Answer>,
    c: Config,
    k: int,
    cells: nat,
    cursor: u8,
    target: u8,
    a: int,
    b: int,
) -> (m: nat)
    requires
        cells >= 2,
        1 <= a <= 255,
        0 <= b,
        occurs(code, c.ip, loop_text_with(target, a, b)),
        c.ptr == 0,
        c.tape == holding(cells, cursor),
    ensures
        reaches(
            code,
            false,
            events,
            c,
            k,
            Config {
                ip: c.ip + loop_text_with(target, a, b).len(),
                tape: holding(cells, target),
                ..c
            },
            m,
        ),
{
    let wipe = clear_text();
    let wipe_right = clear_right_text();
    let count = repeated('+', a);
    let multiply = multiply_text(b);
    let go_right = seq!['>'];
    let adjust = adjust_text(target - a * b);
    let carry = move_left_text();
    let go_left = seq!['<'];
    let o = c.ip;
    lemma_occurs_split(code, o, wipe + wipe_right + count + multiply + go_right + adjust + carry, go_left);
    lemma_occurs_split(code, o, wipe + wipe_right + count + multiply + go_right + adjust, carry);
    lemma_occurs_split(code, o, wipe + wipe_right + count + multiply + go_right, adjust);
    lemma_occurs_split(code, o, wipe + wipe_right + count + multiply, go_right);
    lemma_occurs_split(code, o, wipe + wipe_right + count, multiply);
    lemma_occurs_split(code, o, wipe + wipe_right, count);
    lemma_occurs_split(code, o, wipe, wipe_right);
    assert(multiply.len() == b + 5);
    let m0 = lemma_loop_head_runs(code, events, c, k, cells, cursor, a);
    let c1 = Config { ip: o + 8 + a, tape: holding(cells, a as u8), ..c };
    let m1 = lemma_loop_middle_runs(code, events, c1, k + m0, cells, target, a, b);
    let c2 = Config {
        ip: c1.ip + b + 6 + adjust.len(),
        ptr: 1,
        tape: blank(cells).update(1, target),
        ..c1
    };
    lemma_reaches_trans(code, false, events, c, k, c1, m0, c2, m1);
    let m2 = lemma_loop_tail_runs(code, events, c2, k + m0 + m1, cells, target);
    let c3 = Config { ip: c2.ip + 7, ptr: 0, tape: holding(cells, target), ..c2 };
    lemma_reaches_trans(code, false, events, c, k, c2, m0 + m1, c3, m2);
    m0 + m1 + m2
}

/// The encoding of a byte with its `.` leads from the byte before to the byte and emits it.
pub proof fn lemma_byte_runs(
    code: Seq<char>,
    events: Seq<Answer>,
    c: Config,
    k: int,
    cells: nat,
    cursor: u8,
    target: u8,
    options: WriterOptions,
) -> (m: nat)
    requires
        cells >= 2,
        unfailing(events),
        occurs(code, c.ip, byte_text(cursor, target, options).push('.')),
        c.ptr == 0,
        c.tape == holding(cells, cursor),
    ensures
        reaches(
            code,
            false,
            events,
            c,
            k,
            Config {
                ip: c.ip + byte_text(cursor, target, options).len() + 1,
                tape: holding(cells, target),
                out: c.out.push(target),
                ..c
            },
            m,
        ),
{
    let text = byte_text(cursor, target, options);
    let delta = delta_text(cursor, target, options.assume_wrapping_u8);
    assert(text.push('.') =~= text + seq!['.']);
    lemma_occurs_split(code, c.ip, text, seq!['.']);
    let c1 = Config { ip: c.ip + text.len(), tape: holding(cells, target), ..c };
    let m1 = if text == delta {
        lemma_delta_runs(code, events, c, k, cells, cursor, target, options.assume_wrapping_u8)
    } else {
        let a = if !options.use_loops || target == 0 {
            0
        } else {
            lemma_best_build_is_candidate(target, options.max_loop_factor as int)
        };
        assert(text == build_text(target, a));
        if a == 0 {
            lemma_plain_runs(code, events, c, k, cells, cursor, target)
        } else {
            lemma_loop_runs(
                code,
                events,
                c,
                k,
                cells,
                cursor,
                target,
                a,
                loop_multiplier(target, a as u8),
            )
        }
    };
    assert(seq!['.'][0] == '.');
    assert(code[c1.ip + 0] == '.');
    let c2 = Config { ip: c1.ip + 1, out: c1.out.push(target), ..c1 };
    assert(!(event_at(events, k + m1) is Failed));
    lemma_one(code, events, c1, k + m1, c2);
    lemma_reaches_trans(code, false, events, c, k, c1, m1, c2, 1);
    m1 + 1
}

/// Where a piece stands in a text, it stands in every longer text.
proof fn lemma_occurs_extend(code: Seq<char>, at: int, piece: Seq<char>, more: Seq<char>)
    requires
        occurs(code, at, piece),
    ensures
        occurs(code + more, at, piece),
{
    assert forall|j: int| 0 <= j < piece.len() implies (code + more)[at + j]
        == #[trigger] piece[j] by {
        assert(code[at + j] == piece[j]);
    }
}

/// The encoding of byte number `i` stands in the generated program behind the encodings of
/// the bytes before it.
proof fn lemma_generated_holds(bytes: Seq<u8>, options: WriterOptions, n: int, i: int)
    requires
        0 <= i < n,
    ensures
        occurs(
            generated_text(bytes, options, n),
            generated_text(bytes, options, i).len() as int,
            byte_text(cursor_before(bytes, i), bytes[i], options).push('.'),
        ),
    decreases n,
{
    let shorter = generated_text(bytes, options, n - 1);
    let last = byte_text(cursor_before(bytes, n - 1), bytes[n - 1], options).push('.');
    if i == n - 1 {
        assert forall|j: int| 0 <= j < last.len() implies (shorter + last)[shorter.len() + j]
            == #[trigger] last[j] by {}
    } else {
        lemma_generated_holds(bytes, options, n - 1, i);
        lemma_occurs_extend(
            shorter,
            generated_text(bytes, options, i).len() as int,
            byte_text(cursor_before(bytes, i), bytes[i], options).push('.'),
            last,
        );
    }
}

/// The generated program gets through the encodings of its first `n` bytes and has emitted
/// these bytes by then.
proof fn lemma_generated_runs(
    bytes: Seq<u8>,
    options: WriterOptions,
    cells: nat,
    events: Seq<Answer>,
    n: int,
) -> (m: nat)
    requires
        cells >= 2,
        unfailing(events),
        0 <= n <= bytes.len(),
    ensures
        reaches(
            generated_text(bytes, options, bytes.len() as int),
            false,
            events,
            start(blank(cells), 0),
            0,
            Config {
                ip: generated_text(bytes, options, n).len() as int,
                ptr: 0,
                tape: holding(cells, cursor_before(bytes, n)),
                out: bytes.take(n),
                trace: Seq::<TraceRow>::empty(),
            },
            m,
        ),
    decreases n,
{
    let code = generated_text(bytes, options, bytes.len() as int);
    let origin = start(blank(cells), 0);
    if n == 0 {
        assert(holding(cells, 0u8) =~= blank(cells));
        assert(bytes.take(0) =~= Seq::<u8>::empty());
        lemma_reaches_refl(code, false, events, origin, 0);
        0
    } else {
        let m0 = lemma_generated_runs(bytes, options, cells, events, n - 1);
        let cursor = cursor_before(bytes, n - 1);
        let target = bytes[n - 1];
        let c = Config {
            ip: generated_text(bytes, options, n - 1).len() as int,
            ptr: 0,
            tape: holding(cells, cursor),
            out: bytes.take(n - 1),
            trace: Seq::<TraceRow>::empty(),
        };
        lemma_generated_holds(bytes, options, bytes.len() as int, n - 1);
        let m1 = lemma_byte_runs(code, events, c, m0 as int, cells, cursor, target, options);
        let d = Config {
            ip: c.ip + byte_text(cursor, target, options).len() + 1,
            tape: holding(cells, target),
            out: c.out.push(target),
            ..c
        };
        assert(bytes.take(n - 1).push(target) =~= bytes.take(n));
        lemma_reaches_trans(code, false, events, origin, 0, c, m0, d, m1);
        m0 + m1
    }
}

/// Round trip: on a fresh tape of at least two cells, the program generated for `bytes`, under
/// any options, ends by itself and has emitted exactly `bytes`; it leaves the pointer on the
/// first cell, the last byte in it, and every other cell zero. `steps` steps are enough for
/// it, whatever the run is answered, as long as no output fails.
pub proof fn lemma_round_trip(
    bytes: Seq<u8>,
    options: WriterOptions,
    cells: nat,
    events: Seq<Answer>,
) -> (steps: nat)
    requires
        cells >= 2,
        unfailing(events),
    ensures
        forall|fuel: nat|
            fuel >= steps ==> {
                let outcome = #[trigger] execute(
                    generated_text(bytes, options, bytes.len() as int),
                    blank(cells),
                    0,
                    false,
                    fuel,
                    events,
                );
                &&& outcome.stop == Stop::Halted
                &&& outcome.config.out == bytes
                &&& outcome.config.ptr == 0
                &&& outcome.config.tape == holding(cells, cursor_before(bytes, bytes.len() as int))
                &&& outcome.config.trace == Seq::<TraceRow>::empty()
            },
{
    let n = bytes.len() as int;
    let code = generated_text(bytes, options, n);
    lemma_generated_balanced(bytes, options, n);
    assert(bracket_fault(code) is None);
    let steps = lemma_generated_runs(bytes, options, cells, events, n);
    assert(bytes.take(n) =~= bytes);
    assert forall|fuel: nat| fuel >= steps implies {
        let outcome = #[trigger] execute(code, blank(cells), 0, false, fuel, events);
        &&& outcome.stop == Stop::Halted
        &&& outcome.config.out == bytes
        &&& outcome.config.ptr == 0
        &&& outcome.config.tape == holding(cells, cursor_before(bytes, n))
        &&& outcome.config.trace == Seq::<TraceRow>::empty()
    } by {
        assert(execute(code, blank(cells), 0, false, fuel, events) == run(
            code,
            start(blank(cells), 0),
            false,
            fuel,
            events,
            0,
        ));
    }
    steps
}

/// Round trip through the reader: a reader that was fresh, with at least two cells, and has run
/// the program generated for `bytes` without being stopped by a ceiling or a request has
/// succeeded and holds exactly `bytes` in its buffer.
pub proof fn lemma_reader_prints_generated(
    before: BrainfuckReader,
    after: BrainfuckReader,
    res: Result<(), BrainfuckReaderError>,
    bytes: Seq<u8>,
    options: WriterOptions,
    cells: nat,
    limit: nat,
    cancelable: bool,
)
    requires
        cells >= 2,
        before.is_fresh(cells),
        before.program() == generated_text(bytes, options, bytes.len() as int),
        after.ran(before, false, limit, cancelable, res),
        !(res matches Err(BrainfuckReaderError::Canceled)),
        !(res matches Err(BrainfuckReaderError::StepLimitExceeded { .. })),
    ensures
        res is Ok,
        after.buffered() == bytes,
        after.ptr() == 0,
        after.tape() == holding(cells, cursor_before(bytes, bytes.len() as int)),
{
    let n = bytes.len() as int;
    let code = generated_text(bytes, options, n);
    let answers = after.answers();
    assert(before.tape() =~= blank(cells));
    lemma_generated_balanced(bytes, options, n);
    assert(bracket_fault(code) is None);
    let steps = lemma_round_trip(bytes, options, cells, answers);
    let enough: nat = if limit >= steps {
        limit
    } else {
        steps
    };
    let full = execute(code, blank(cells), 0, false, enough, answers);
    assert(full.stop == Stop::Halted);
    lemma_run_with_fewer_steps(code, start(blank(cells), 0), false, enough, limit, answers, 0);
    let cut = execute(code, blank(cells), 0, false, limit, answers);
    assert(cut.stop is StepLimit || cut == full);
}

} // verus!
