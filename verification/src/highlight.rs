//! Program text cut into stretches that are coloured alike.

use vstd::prelude::*;
use crate::chars::to_chars;
use crate::chars::to_string;

verus! {

/// The kinds of characters that are coloured differently. The two brackets share a colour.
#[derive(Debug, Clone, Copy, PartialEq, Eq, Structural)]
pub enum CharClass {
    /// `>`
    Right,
    /// `<`
    Left,
    /// `+`
    Plus,
    /// `-`
    Minus,
    /// `.`
    Dot,
    /// `,`
    Comma,
    /// `[` and `]`
    Bracket,
    /// Everything that is no instruction.
    Other,
}

/// The kind of a character.
pub open spec fn class_of(c: char) -> CharClass {
    if c == '>' {
        CharClass::Right
    } else if c == '<' {
        CharClass::Left
    } else if c == '+' {
        CharClass::Plus
    } else if c == '-' {
        CharClass::Minus
    } else if c == '.' {
        CharClass::Dot
    } else if c == ',' {
        CharClass::Comma
    } else if c == '[' || c == ']' {
        CharClass::Bracket
    } else {
        CharClass::Other
    }
}

/// The kind of a character.
pub fn classify(c: char) -> (class: CharClass)
    ensures
        class == class_of(c),
{
    if c == '>' {
        CharClass::Right
    } else if c == '<' {
        CharClass::Left
    } else if c == '+' {
        CharClass::Plus
    } else if c == '-' {
        CharClass::Minus
    } else if c == '.' {
        CharClass::Dot
    } else if c == ',' {
        CharClass::Comma
    } else if c == '[' || c == ']' {
        CharClass::Bracket
    } else {
        CharClass::Other
    }
}

/// The texts of the stretches one behind the other.
pub open spec fn stretches_text(stretches: Seq<(CharClass, Seq<char>)>) -> Seq<char>
    decreases stretches.len(),
{
    if stretches.len() == 0 {
        Seq::empty()
    } else {
        stretches_text(stretches.drop_last()) + stretches.last().1
    }
}

/// Every stretch holds at least one character and only characters of its kind, and no two
/// neighbours are of the same kind.
pub open spec fn well_cut(stretches: Seq<(CharClass, Seq<char>)>) -> bool {
    &&& forall|i: int|
        0 <= i < stretches.len() ==> (#[trigger] stretches[i]).1.len() > 0 && forall|j: int|
            0 <= j < stretches[i].1.len() ==> class_of(#[trigger] stretches[i].1[j])
                == stretches[i].0
    &&& forall|i: int|
        0 <= i < stretches.len() - 1 ==> (#[trigger] stretches[i]).0 != stretches[i + 1].0
}

/// The stretches as they are handed out: the kind and the view of the text.
pub open spec fn stretch_views(stretches: Seq<(CharClass, String)>) -> Seq<(CharClass, Seq<char>)> {
    Seq::new(stretches.len(), |i: int| (stretches[i].0, stretches[i].1@))
}

/// Cuts a line into its longest stretches of characters of one kind.
pub fn highlight(line: &str) -> (stretches: Vec<(CharClass, String)>)
    ensures
        stretches_text(stretch_views(stretches@)) == line@,
        well_cut(stretch_views(stretches@)),
{
    let chars = to_chars(line);
    let n = chars.len();
    let mut out: Vec<(CharClass, String)> = Vec::new();
    let mut buffer: Vec<char> = Vec::new();
    let mut current = CharClass::Other;
    let mut i: usize = 0;
    assert(stretch_views(out@) =~= Seq::<(CharClass, Seq<char>)>::empty());
    while i < n
        invariant
            i <= n,
            n == chars@.len(),
            stretches_text(stretch_views(out@)) + buffer@ == chars@.take(i as int),
            well_cut(stretch_views(out@)),
            (buffer@.len() == 0) == (i == 0),
            i == 0 ==> out@.len() == 0,
            forall|j: int| 0 <= j < buffer@.len() ==> class_of(#[trigger] buffer@[j]) == current,
            out@.len() > 0 ==> out@[out@.len() - 1].0 != current,
        decreases n - i,
    {
        let c = chars[i];
        let class = classify(c);
        let ghost done = stretch_views(out@);
        let ghost pending = buffer@;
        if i == 0 {
            current = class;
            buffer.push(c);
        } else if class == current {
            buffer.push(c);
        } else {
            let text = to_string(&buffer);
            out.push((current, text));
            proof {
                let now = stretch_views(out@);
                assert(now =~= done.push((current, pending)));
                assert(now.drop_last() =~= done);
                assert forall|k: int| 0 <= k < now.len() implies (#[trigger] now[k]).1.len() > 0
                    && forall|j: int|
                    0 <= j < now[k].1.len() ==> class_of(#[trigger] now[k].1[j]) == now[k].0 by {
                    if k < done.len() {
                        assert(now[k] == done[k]);
                    }
                }
                assert forall|k: int| 0 <= k < now.len() - 1 implies (#[trigger] now[k]).0
                    != now[k + 1].0 by {
                    if k < done.len() - 1 {
                        assert(now[k] == done[k]);
                        assert(now[k + 1] == done[k + 1]);
                    } else {
                        assert(now[k] == done[k]);
                    }
                }
            }
            buffer = Vec::new();
            current = class;
            buffer.push(c);
        }
        proof {
            assert(chars@.take(i + 1) =~= chars@.take(i as int).push(c));
            assert(stretches_text(stretch_views(out@)) + buffer@ =~= chars@.take(i + 1));
        }
        i = i + 1;
    }
    assert(chars@.take(n as int) =~= chars@);
    if buffer.len() > 0 {
        let ghost done = stretch_views(out@);
        let ghost pending = buffer@;
        let text = to_string(&buffer);
        out.push((current, text));
        proof {
            let now = stretch_views(out@);
            assert(now =~= done.push((current, pending)));
            assert(now.drop_last() =~= done);
            assert forall|k: int| 0 <= k < now.len() implies (#[trigger] now[k]).1.len() > 0
                && forall|j: int|
                0 <= j < now[k].1.len() ==> class_of(#[trigger] now[k].1[j]) == now[k].0 by {
                if k < done.len() {
                    assert(now[k] == done[k]);
                }
            }
            assert forall|k: int| 0 <= k < now.len() - 1 implies (#[trigger] now[k]).0 != now[k
                + 1].0 by {
                if k < done.len() - 1 {
                    assert(now[k] == done[k]);
                    assert(now[k + 1] == done[k + 1]);
                } else {
                    assert(now[k] == done[k]);
                }
            }
        }
    } else {
        assert(stretches_text(stretch_views(out@)) =~= chars@);
    }
    out
}

} // verus!
