//! Small pieces of text: decimal numbers, padding, repetition.

use vstd::prelude::*;
use vstd::string::StringExecFns;

verus! {

/// `String::push` appends one character to the end of the string and changes nothing else.
pub assume_specification[ String::push ](s: &mut String, ch: char)
    ensures
        final(s)@ == old(s)@.push(ch),
;

/// The character of a single decimal digit.
pub open spec fn digit_char(d: int) -> char {
    if d == 0 {
        '0'
    } else if d == 1 {
        '1'
    } else if d == 2 {
        '2'
    } else if d == 3 {
        '3'
    } else if d == 4 {
        '4'
    } else if d == 5 {
        '5'
    } else if d == 6 {
        '6'
    } else if d == 7 {
        '7'
    } else if d == 8 {
        '8'
    } else {
        '9'
    }
}

/// The decimal digits of `n`, most significant first, without leading zeros.
pub open spec fn decimal_text(n: nat) -> Seq<char>
    decreases n,
{
    if n < 10 {
        seq![digit_char(n as int)]
    } else {
        decimal_text(n / 10).push(digit_char((n % 10) as int))
    }
}

/// `count` copies of `c`.
pub open spec fn repeated(c: char, count: int) -> Seq<char> {
    Seq::new(
        if count < 0 {
            0nat
        } else {
            count as nat
        },
        |i: int| c,
    )
}

/// `s`, followed by as many spaces as it takes to reach `width` characters.
pub open spec fn padded(s: Seq<char>, width: int) -> Seq<char> {
    s + repeated(' ', width - s.len())
}

/// One more copy extends a repetition by one character.
pub proof fn lemma_repeated_push(c: char, count: int)
    requires
        count >= 0,
    ensures
        repeated(c, count + 1) == repeated(c, count).push(c),
        repeated(c, 0) == Seq::<char>::empty(),
        repeated(c, count).len() == count,
{
    assert(repeated(c, count + 1) =~= repeated(c, count).push(c));
    assert(repeated(c, 0) =~= Seq::<char>::empty());
}

fn digit(d: usize) -> (c: char)
    requires
        d < 10,
    ensures
        c == digit_char(d as int),
{
    if d == 0 {
        '0'
    } else if d == 1 {
        '1'
    } else if d == 2 {
        '2'
    } else if d == 3 {
        '3'
    } else if d == 4 {
        '4'
    } else if d == 5 {
        '5'
    } else if d == 6 {
        '6'
    } else if d == 7 {
        '7'
    } else if d == 8 {
        '8'
    } else {
        '9'
    }
}

/// Appends the decimal digits of `n` to `out`.
pub fn push_decimal(out: &mut String, n: usize)
    ensures
        final(out)@ == old(out)@ + decimal_text(n as nat),
    decreases n,
{
    if n < 10 {
        out.push(digit(n));
        assert(final(out)@ =~= old(out)@ + decimal_text(n as nat));
    } else {
        push_decimal(out, n / 10);
        out.push(digit(n % 10));
        assert(final(out)@ =~= old(out)@ + decimal_text(n as nat));
    }
}

/// Appends `count` copies of `c` to `out`.
pub fn push_repeated(out: &mut String, c: char, count: usize)
    ensures
        final(out)@ == old(out)@ + repeated(c, count as int),
{
    let mut done: usize = 0;
    proof {
        lemma_repeated_push(c, 0);
        assert(out@ =~= old(out)@ + repeated(c, 0));
    }
    while done < count
        invariant
            done <= count,
            out@ == old(out)@ + repeated(c, done as int),
        decreases count - done,
    {
        out.push(c);
        proof {
            lemma_repeated_push(c, done as int);
            assert(out@ =~= old(out)@ + repeated(c, done + 1));
        }
        done = done + 1;
    }
}

/// Appends `n` in decimal, then spaces up to `width` characters in all.
pub fn push_decimal_padded(out: &mut String, n: usize, width: usize)
    ensures
        final(out)@ == old(out)@ + padded(decimal_text(n as nat), width as int),
{
    let mut digits = String::new();
    push_decimal(&mut digits, n);
    assert(digits@ =~= decimal_text(n as nat));
    let len = digits.as_str().unicode_len();
    out.append(digits.as_str());
    if len < width {
        push_repeated(out, ' ', width - len);
    } else {
        assert(repeated(' ', width - len) =~= Seq::<char>::empty());
    }
    assert(final(out)@ =~= old(out)@ + padded(decimal_text(n as nat), width as int));
}

/// The decimal digits of `n` as a string.
pub fn decimal(n: usize) -> (s: String)
    ensures
        s@ == decimal_text(n as nat),
{
    let mut s = String::new();
    push_decimal(&mut s, n);
    assert(s@ =~= decimal_text(n as nat));
    s
}

} // verus!
