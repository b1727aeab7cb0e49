//! The generator: program text that prints a given sequence of bytes.
//!
//! The generated program works in one cell and borrows its right neighbour for loops. For each
//! byte it moves the cell from the previous byte to the next and emits it, choosing the shorter
//! of two encodings: the way round the ring of 256 values, or clearing the cell and building
//! the value anew, by hand or with a multiplying loop.

use vstd::prelude::*;
use vstd::string::StringExecFns;
use vstd::string::StrSliceExecFns;
use crate::text::lemma_repeated_push;
use crate::text::push_repeated;
use crate::text::repeated;

verus! {

/// Errors that generating can report. The generator itself never fails: every byte can be
/// encoded.
#[derive(Debug)]
pub enum BrainfuckWriterError {
    /// A character outside the instruction set `><+-.,[]`.
    InvalidCharacter,
    /// Loops were not balanced.
    UnmatchedBrackets,
    /// An underlying I/O error.
    IoError(std::io::Error),
}

/// How the generator encodes.
pub struct WriterOptions {
    /// Consider multiplying loops when a value is built from zero.
    pub use_loops: bool,
    /// The largest loop counter to consider.
    pub max_loop_factor: u8,
    /// Cells wrap, so the short way round the ring may be taken.
    pub assume_wrapping_u8: bool,
}

impl Default for WriterOptions {
    fn default() -> (options: Self)
        ensures
            options.use_loops,
            options.max_loop_factor == 16,
            options.assume_wrapping_u8,
    {
        Self { use_loops: true, max_loop_factor: 16, assume_wrapping_u8: true }
    }
}

/// The number of `+` that lead from `cursor` to `target` on the ring of 256 values.
pub open spec fn ring_distance(cursor: u8, target: u8) -> int {
    if target >= cursor {
        target - cursor
    } else {
        target - cursor + 256
    }
}

/// The delta encoding: the run of `+` or of `-` that leads from `cursor` to `target`.
///
/// On the ring the shorter way is taken, `+` on a tie; without wrapping the direct way.
pub open spec fn delta_text(cursor: u8, target: u8, wrapping: bool) -> Seq<char> {
    if cursor == target {
        Seq::empty()
    } else if wrapping {
        if ring_distance(cursor, target) <= ring_distance(target, cursor) {
            repeated('+', ring_distance(cursor, target))
        } else {
            repeated('-', ring_distance(target, cursor))
        }
    } else {
        if target > cursor {
            repeated('+', target - cursor)
        } else {
            repeated('-', cursor - target)
        }
    }
}

/// `[-]`: clears the current cell.
pub open spec fn clear_text() -> Seq<char> {
    seq!['[', '-', ']']
}

/// `>[-]<`: clears the cell to the right.
pub open spec fn clear_right_text() -> Seq<char> {
    seq!['>', '[', '-', ']', '<']
}

/// `[<+>-]`: adds the current cell to its left neighbour and clears it.
pub open spec fn move_left_text() -> Seq<char> {
    seq!['[', '<', '+', '>', '-', ']']
}

/// The plain zero-build encoding: clear the cell, then one `+` for each unit of `target`.
pub open spec fn plain_build_text(target: u8) -> Seq<char> {
    clear_text() + repeated('+', target as int)
}

/// The inner count of a loop with outer count `a`: the integer nearest to `target / a`, halves
/// rounded up, kept within 1 and 255.
pub open spec fn loop_multiplier(target: u8, a: u8) -> int {
    let nearest = (2 * target + a) / (2 * a);
    if nearest < 1 {
        1
    } else if nearest > 255 {
        255
    } else {
        nearest
    }
}

/// `[>`, `b` times `+`, `<-]`: adds `b` to the right neighbour as often as the current cell says.
pub open spec fn multiply_text(b: int) -> Seq<char> {
    seq!['[', '>'] + repeated('+', b) + seq!['<', '-', ']']
}

/// As many `+` as `r` says, or as many `-` if it is negative.
pub open spec fn adjust_text(r: int) -> Seq<char> {
    if r > 0 {
        repeated('+', r)
    } else {
        repeated('-', -r)
    }
}

/// The loop encoding with outer count `a` and inner count `b`: clear both cells, count `a`
/// into the current one, multiply into the right one, adjust it by what is missing to
/// `target`, and move the result back.
pub open spec fn loop_text_with(target: u8, a: int, b: int) -> Seq<char> {
    clear_text() + clear_right_text() + repeated('+', a) + multiply_text(b) + seq!['>']
        + adjust_text(target - a * b) + move_left_text() + seq!['<']
}

/// The loop encoding with outer count `a`.
pub open spec fn loop_text(target: u8, a: u8) -> Seq<char> {
    loop_text_with(target, a as int, loop_multiplier(target, a))
}

/// The shortest of the plain encoding and the loop encodings with outer counts 1 to `upto`;
/// the earliest of them where several are as short.
pub open spec fn best_build_text(target: u8, upto: int) -> Seq<char>
    decreases upto,
{
    if upto <= 0 {
        plain_build_text(target)
    } else {
        let earlier = best_build_text(target, upto - 1);
        let candidate = loop_text(target, upto as u8);
        if candidate.len() < earlier.len() {
            candidate
        } else {
            earlier
        }
    }
}

/// The zero-build encoding of `target`.
pub open spec fn from_zero_text(target: u8, options: WriterOptions) -> Seq<char> {
    if !options.use_loops || target == 0 {
        plain_build_text(target)
    } else {
        best_build_text(target, options.max_loop_factor as int)
    }
}

/// The encoding of one byte: the delta encoding unless the zero-build encoding is strictly
/// shorter.
pub open spec fn byte_text(cursor: u8, target: u8, options: WriterOptions) -> Seq<char> {
    let delta = delta_text(cursor, target, options.assume_wrapping_u8);
    let from_zero = from_zero_text(target, options);
    if delta.len() <= from_zero.len() {
        delta
    } else {
        from_zero
    }
}

/// The value of the cell in front of byte number `i`: the byte before it, zero at the start.
pub open spec fn cursor_before(bytes: Seq<u8>, i: int) -> u8 {
    if i <= 0 {
        0u8
    } else {
        bytes[i - 1]
    }
}

/// The program for the first `n` of `bytes`: for each byte its encoding and a `.`.
pub open spec fn generated_text(bytes: Seq<u8>, options: WriterOptions, n: int) -> Seq<char>
    decreases n,
{
    if n <= 0 {
        Seq::empty()
    } else {
        generated_text(bytes, options, n - 1) + byte_text(
            cursor_before(bytes, n - 1),
            bytes[n - 1],
            options,
        ).push('.')
    }
}

/// Appends `[-]`.
fn push_clear(out: &mut String)
    ensures
        final(out)@ == old(out)@ + clear_text(),
{
    out.push('[');
    out.push('-');
    out.push(']');
    assert(final(out)@ =~= old(out)@ + clear_text());
}

/// The length of a text in characters.
fn length(text: &String) -> (n: usize)
    ensures
        n == text@.len(),
{
    text.as_str().unicode_len()
}

/// A generator for one sequence of bytes.
pub struct BrainfuckWriter<'writer> {
    input: &'writer [u8],
    options: WriterOptions,
}

impl<'writer> BrainfuckWriter<'writer> {
    /// The bytes to print.
    pub closed spec fn bytes(self) -> Seq<u8> {
        self.input@
    }

    /// The options in force.
    pub closed spec fn options(self) -> WriterOptions {
        self.options
    }

    /// A generator for `input` with the default options: loops with counts up to 16, wrapping
    /// cells.
    pub fn new(input: &'writer [u8]) -> (writer: Self)
        ensures
            writer.bytes() == input@,
            writer.options().use_loops,
            writer.options().max_loop_factor == 16,
            writer.options().assume_wrapping_u8,
    {
        let options = WriterOptions::default();
        Self { input, options }
    }

    /// A generator for `input` with the given options.
    pub fn with_options(input: &'writer [u8], options: WriterOptions) -> (writer: Self)
        ensures
            writer.bytes() == input@,
            writer.options() == options,
    {
        Self { input, options }
    }

    /// The program that prints the bytes: always `Ok`.
    pub fn generate(&self) -> (res: Result<String, BrainfuckWriterError>)
        ensures
            res matches Ok(text) && text@ == generated_text(
                self.bytes(),
                self.options(),
                self.bytes().len() as int,
            ),
    {
        let mut output = String::new();
        let mut cursor = 0u8;
        let mut i: usize = 0;
        let n = self.input.len();
        while i < n
            invariant
                i <= n,
                n == self.input@.len(),
                cursor == cursor_before(self.input@, i as int),
                output@ == generated_text(self.input@, self.options, i as int),
            decreases n - i,
        {
            let b = self.input[i];
            let delta_sequence = self.encode_delta(cursor, b);
            let from_zero_sequence = self.encode_from_zero(b);
            let best_sequence = if length(&delta_sequence) <= length(&from_zero_sequence) {
                delta_sequence
            } else {
                from_zero_sequence
            };
            let ghost before = output@;
            output.append(best_sequence.as_str());
            output.push('.');
            assert(output@ =~= before + byte_text(cursor, b, self.options).push('.'));
            cursor = b;
            i = i + 1;
        }
        Ok(output)
    }

    /// Encode the way from `cursor` to `target` as a run of `+` or `-`: the shorter way round
    /// the ring if cells wrap, the direct way if they do not.
    pub fn encode_delta(&self, cursor: u8, target: u8) -> (text: String)
        ensures
            text@ == delta_text(cursor, target, self.options().assume_wrapping_u8),
    {
        let mut output = String::new();
        if cursor == target {
            return output;
        }
        if self.options.assume_wrapping_u8 {
            let forward = target.wrapping_sub(cursor);
            let backward = cursor.wrapping_sub(target);
            if forward <= backward {
                push_repeated(&mut output, '+', forward as usize);
            } else {
                push_repeated(&mut output, '-', backward as usize);
            }
        } else {
            if target > cursor {
                push_repeated(&mut output, '+', (target - cursor) as usize);
            } else {
                push_repeated(&mut output, '-', (cursor - target) as usize);
            }
        }
        assert(output@ =~= delta_text(cursor, target, self.options.assume_wrapping_u8));
        output
    }

    /// The loop encoding of `target` with outer count `a`.
    fn encode_loop(target: u8, a: u8) -> (text: String)
        requires
            a >= 1,
        ensures
            text@ == loop_text(target, a),
    {
        let nearest: u32 = (2 * (target as u32) + (a as u32)) / (2 * (a as u32));
        let b: u32 = if nearest < 1 {
            1
        } else if nearest > 255 {
            255
        } else {
            nearest
        };
        assert(b == loop_multiplier(target, a));
        assert((a as u32) * b <= 255 * 255) by (nonlinear_arith)
            requires
                a <= 255,
                b <= 255,
        ;
        let prod: u32 = (a as u32) * b;
        let mut seq = String::new();
        push_clear(&mut seq);
        seq.push('>');
        push_clear(&mut seq);
        seq.push('<');
        assert(seq@ =~= clear_text() + clear_right_text());
        push_repeated(&mut seq, '+', a as usize);
        seq.push('[');
        seq.push('>');
        push_repeated(&mut seq, '+', b as usize);
        seq.push('<');
        seq.push('-');
        seq.push(']');
        assert(seq@ =~= clear_text() + clear_right_text() + repeated('+', a as int)
            + multiply_text(b as int));
        seq.push('>');
        if (target as u32) > prod {
            push_repeated(&mut seq, '+', ((target as u32) - prod) as usize);
        } else if (target as u32) < prod {
            push_repeated(&mut seq, '-', (prod - (target as u32)) as usize);
        } else {
            proof {
                lemma_repeated_push('-', 0);
            }
        }
        assert(seq@ =~= clear_text() + clear_right_text() + repeated('+', a as int)
            + multiply_text(b as int) + seq!['>'] + adjust_text(target - a * b));
        seq.push('[');
        seq.push('<');
        seq.push('+');
        seq.push('>');
        seq.push('-');
        seq.push(']');
        seq.push('<');
        assert(seq@ =~= loop_text_with(target, a as int, b as int));
        seq
    }

    /// Build `target` in the current cell whatever the cell held: clear it and count up, or
    /// use the shortest multiplying loop if loops are allowed and one is shorter.
    pub fn encode_from_zero(&self, target: u8) -> (text: String)
        ensures
            text@ == from_zero_text(target, self.options()),
    {
        let mut best = String::new();
        push_clear(&mut best);
        push_repeated(&mut best, '+', target as usize);
        assert(best@ =~= plain_build_text(target));
        if !self.options.use_loops || target == 0 {
            return best;
        }
        let mut best_len = length(&best);
        let max = self.options.max_loop_factor;
        let mut a: u8 = 0;
        while a < max
            invariant
                a <= max,
                best@ == best_build_text(target, a as int),
                best_len == best@.len(),
            decreases max - a,
        {
            a = a + 1;
            let seq = Self::encode_loop(target, a);
            let seq_len = length(&seq);
            if seq_len < best_len {
                best_len = seq_len;
                best = seq;
            }
        }
        best
    }
}

} // verus!
