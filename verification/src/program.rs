//! Program text and its bracket structure.
//!
//! A program is a sequence of characters. Its loops are described by the nesting depth of every
//! prefix; the jump table pairs each `[` with the `]` that closes it.

use vstd::prelude::*;
use crate::error::BrainfuckReaderError;
use crate::error::UnmatchedBracketKind;

verus! {

/// The eight instruction characters.
pub open spec fn is_instruction(c: char) -> bool {
    c == '>' || c == '<' || c == '+' || c == '-' || c == '.' || c == ',' || c == '[' || c == ']'
}

/// What a character adds to the nesting depth.
pub open spec fn bracket_delta(c: char) -> int {
    if c == '[' {
        1
    } else if c == ']' {
        -1
    } else {
        0
    }
}

/// Nesting depth in front of index `i`: the `[` among the first `i` characters minus the `]`.
pub open spec fn depth(code: Seq<char>, i: int) -> int
    decreases i,
{
    if i <= 0 {
        0
    } else {
        depth(code, i - 1) + bracket_delta(code[i - 1])
    }
}

/// No `]` among the first `i` characters comes without an earlier `[` to close.
pub open spec fn closes_matched(code: Seq<char>, i: int) -> bool {
    forall|k: int| 0 <= k <= i ==> depth(code, k) >= 0
}

/// Every `[` is closed and every `]` closes one.
pub open spec fn balanced(code: Seq<char>) -> bool {
    closes_matched(code, code.len() as int) && depth(code, code.len() as int) == 0
}

/// The `]` at `i` is the first one that closes nothing.
pub open spec fn is_unmatched_close(code: Seq<char>, i: int) -> bool {
    &&& 0 <= i < code.len()
    &&& code[i] == ']'
    &&& depth(code, i) == 0
    &&& closes_matched(code, i)
}

/// The `[` at `p` is never closed.
pub open spec fn is_unclosed_open(code: Seq<char>, p: int) -> bool {
    &&& 0 <= p < code.len()
    &&& code[p] == '['
    &&& forall|k: int| p < k <= code.len() ==> depth(code, k) > depth(code, p)
}

/// The `[` at `p` is never closed and no later `[` shares that fate.
pub open spec fn is_innermost_unclosed(code: Seq<char>, p: int) -> bool {
    &&& is_unclosed_open(code, p)
    &&& forall|q: int| is_unclosed_open(code, q) ==> q <= p
}

/// The `[` at `i` is closed by the `]` at `j`.
pub open spec fn is_match(code: Seq<char>, i: int, j: int) -> bool {
    &&& 0 <= i < j < code.len()
    &&& code[i] == '['
    &&& code[j] == ']'
    &&& depth(code, j + 1) == depth(code, i)
    &&& forall|k: int| i < k <= j ==> depth(code, k) > depth(code, i)
}

/// `a` and `b` are the two ends of one loop.
pub open spec fn are_partners(code: Seq<char>, a: int, b: int) -> bool {
    is_match(code, a, b) || is_match(code, b, a)
}

/// `table` pairs every bracket of a balanced program with its partner and is empty elsewhere.
pub open spec fn is_jump_table(code: Seq<char>, table: Seq<Option<usize>>) -> bool {
    &&& table.len() == code.len()
    &&& forall|a: int|
        0 <= a < code.len() ==> match #[trigger] table[a] {
            Some(b) => are_partners(code, a, b as int),
            None => code[a] != '[' && code[a] != ']',
        }
}

/// The other end of the loop that has one end at `a`.
pub open spec fn partner(code: Seq<char>, a: int) -> int {
    choose|b: int| are_partners(code, a, b)
}

/// A `[` is closed by at most one `]`.
pub proof fn lemma_close_unique(code: Seq<char>, i: int, j1: int, j2: int)
    requires
        is_match(code, i, j1),
        is_match(code, i, j2),
    ensures
        j1 == j2,
{
    if j1 < j2 {
        assert(depth(code, j1 + 1) > depth(code, i));
    } else if j2 < j1 {
        assert(depth(code, j2 + 1) > depth(code, i));
    }
}

/// A `]` closes at most one `[`.
pub proof fn lemma_open_unique(code: Seq<char>, i1: int, i2: int, j: int)
    requires
        is_match(code, i1, j),
        is_match(code, i2, j),
    ensures
        i1 == i2,
{
    if i1 < i2 {
        assert(depth(code, i2) > depth(code, i1));
    } else if i2 < i1 {
        assert(depth(code, i1) > depth(code, i2));
    }
}

/// A bracket has at most one partner.
pub proof fn lemma_partner_unique(code: Seq<char>, a: int, b1: int, b2: int)
    requires
        are_partners(code, a, b1),
        are_partners(code, a, b2),
    ensures
        b1 == b2,
        partner(code, a) == b1,
{
    if is_match(code, a, b1) {
        lemma_close_unique(code, a, b1, b2);
    } else {
        lemma_open_unique(code, b1, b2, a);
    }
    let c = partner(code, a);
    if is_match(code, a, b1) {
        lemma_close_unique(code, a, b1, c);
    } else {
        lemma_open_unique(code, b1, c, a);
    }
}

/// The jump table of a program is an involution on its brackets: the partner of the partner of
/// a bracket is the bracket itself, whichever valid table is asked.
pub proof fn lemma_jump_table_involution(code: Seq<char>, table: Seq<Option<usize>>, i: int)
    requires
        is_jump_table(code, table),
        0 <= i < code.len(),
        code[i] == '[' || code[i] == ']',
    ensures
        table[i] is Some,
        0 <= table[i]->0 < code.len(),
        table[table[i]->0 as int] == Some(i as usize),
{
    let j = table[i]->0 as int;
    assert(are_partners(code, i, j));
    assert(table[j] is Some);
    let back = table[j]->0 as int;
    assert(are_partners(code, j, back));
    assert(are_partners(code, j, i));
    lemma_partner_unique(code, j, back, i);
}

/// A program has one jump table: two tables that are valid for the same text are equal.
pub proof fn lemma_jump_table_unique(
    code: Seq<char>,
    first: Seq<Option<usize>>,
    second: Seq<Option<usize>>,
)
    requires
        is_jump_table(code, first),
        is_jump_table(code, second),
    ensures
        first == second,
{
    assert forall|a: int| 0 <= a < first.len() implies first[a] == second[a] by {
        match first[a] {
            Some(b) => {
                assert(second[a] is Some);
                lemma_partner_unique(code, a, b as int, second[a]->0 as int);
            },
            None => {},
        }
    }
    assert(first =~= second);
}

/// At most one `]` is the first unmatched one.
pub proof fn lemma_unmatched_close_unique(code: Seq<char>, i1: int, i2: int)
    requires
        is_unmatched_close(code, i1),
        is_unmatched_close(code, i2),
    ensures
        i1 == i2,
{
    if i1 < i2 {
        assert(depth(code, i1 + 1) >= 0);
    } else if i2 < i1 {
        assert(depth(code, i2 + 1) >= 0);
    }
}

/// The depth in front of an index of `a + b` is the depth in `a`, or that of all of `a` plus
/// the depth in `b`.
pub proof fn lemma_depth_concat(a: Seq<char>, b: Seq<char>, j: int)
    requires
        0 <= j <= a.len() + b.len(),
    ensures
        j <= a.len() ==> depth(a + b, j) == depth(a, j),
        j >= a.len() ==> depth(a + b, j) == depth(a, a.len() as int) + depth(b, j - a.len()),
    decreases j,
{
    if j > 0 {
        lemma_depth_concat(a, b, j - 1);
        if j <= a.len() {
            assert((a + b)[j - 1] == a[j - 1]);
        } else {
            assert((a + b)[j - 1] == b[j - 1 - a.len()]);
        }
    }
}

/// Two balanced texts in a row are balanced.
pub proof fn lemma_balanced_concat(a: Seq<char>, b: Seq<char>)
    requires
        balanced(a),
        balanced(b),
    ensures
        balanced(a + b),
{
    assert forall|k: int| 0 <= k <= (a + b).len() implies depth(a + b, k) >= 0 by {
        lemma_depth_concat(a, b, k);
        if k >= a.len() {
            assert(depth(b, k - a.len()) >= 0);
        } else {
            assert(depth(a, k) >= 0);
        }
    }
    lemma_depth_concat(a, b, (a + b).len() as int);
}

/// A text without brackets has depth zero throughout, and so is balanced.
pub proof fn lemma_bracketless_balanced(text: Seq<char>)
    requires
        forall|j: int| 0 <= j < text.len() ==> text[j] != '[' && text[j] != ']',
    ensures
        forall|k: int| 0 <= k <= text.len() ==> depth(text, k) == 0,
        balanced(text),
{
    assert forall|k: int| 0 <= k <= text.len() implies depth(text, k) == 0 by {
        lemma_bracketless_prefix(text, k);
    }
}

proof fn lemma_bracketless_prefix(text: Seq<char>, k: int)
    requires
        forall|j: int| 0 <= j < text.len() ==> text[j] != '[' && text[j] != ']',
        0 <= k <= text.len(),
    ensures
        depth(text, k) == 0,
    decreases k,
{
    if k > 0 {
        lemma_bracketless_prefix(text, k - 1);
    }
}

/// A balanced text between `[` and `]` is balanced.
pub proof fn lemma_balanced_wrap(inner: Seq<char>)
    requires
        balanced(inner),
    ensures
        balanced(seq!['['] + inner + seq![']']),
{
    let open = seq!['['];
    let close = seq![']'];
    let whole = open + inner + close;
    assert(depth(open, 1) == 1) by {
        assert(depth(open, 0) == 0);
    }
    assert(depth(close, 1) == -1) by {
        assert(depth(close, 0) == 0);
    }
    assert forall|k: int| 0 <= k <= whole.len() implies depth(whole, k) >= 0 && (k == whole.len()
        ==> depth(whole, k) == 0) by {
        lemma_depth_concat(open + inner, close, k);
        if k <= (open + inner).len() {
            lemma_depth_concat(open, inner, k);
            if k >= 1 {
                assert(depth(inner, k - 1) >= 0);
            }
        } else {
            lemma_depth_concat(open, inner, (open + inner).len() as int);
        }
    }
}

/// Between a `[` and a later `]` with no bracket in between, the depth is one more than in
/// front of the `[`.
proof fn lemma_depth_inside(code: Seq<char>, open: int, close: int, k: int)
    requires
        0 <= open < close < code.len(),
        code[open] == '[',
        forall|j: int| open < j < close ==> code[j] != '[' && code[j] != ']',
        open < k <= close,
    ensures
        depth(code, k) == depth(code, open) + 1,
    decreases k,
{
    if k > open + 1 {
        lemma_depth_inside(code, open, close, k - 1);
    }
}

/// A `[` and a later `]` with no bracket in between are partners.
pub proof fn lemma_plain_loop(code: Seq<char>, open: int, close: int)
    requires
        0 <= open < close < code.len(),
        code[open] == '[',
        code[close] == ']',
        forall|j: int| open < j < close ==> code[j] != '[' && code[j] != ']',
    ensures
        is_match(code, open, close),
        partner(code, open) == close,
        partner(code, close) == open,
{
    assert forall|k: int| open < k <= close implies depth(code, k) > depth(code, open) by {
        lemma_depth_inside(code, open, close, k);
    }
    lemma_depth_inside(code, open, close, close);
    lemma_partner_unique(code, open, close, close);
    lemma_partner_unique(code, close, open, open);
}

/// Where the brackets of `code` fail to match, if they do: the first `]` that closes nothing,
/// or else the innermost `[` that is never closed.
pub open spec fn bracket_fault(code: Seq<char>) -> Option<(int, UnmatchedBracketKind)> {
    if balanced(code) {
        None
    } else if !closes_matched(code, code.len() as int) {
        Some((choose|i: int| is_unmatched_close(code, i), UnmatchedBracketKind::Close))
    } else {
        Some((choose|p: int| is_innermost_unclosed(code, p), UnmatchedBracketKind::Open))
    }
}

/// The first `]` that closes nothing is the fault of its program.
pub proof fn lemma_unmatched_close_is_fault(code: Seq<char>, i: int)
    requires
        is_unmatched_close(code, i),
    ensures
        bracket_fault(code) == Some((i, UnmatchedBracketKind::Close)),
{
    assert(depth(code, i + 1) < 0);
    let chosen = choose|j: int| is_unmatched_close(code, j);
    lemma_unmatched_close_unique(code, i, chosen);
}

/// Where every `]` closes something, the innermost `[` that is never closed is the fault of its
/// program.
pub proof fn lemma_innermost_unclosed_is_fault(code: Seq<char>, p: int)
    requires
        closes_matched(code, code.len() as int),
        is_innermost_unclosed(code, p),
    ensures
        bracket_fault(code) == Some((p, UnmatchedBracketKind::Open)),
{
    assert(depth(code, p) >= 0);
    assert(depth(code, code.len() as int) > depth(code, p));
    let chosen = choose|q: int| is_innermost_unclosed(code, q);
    assert(is_unclosed_open(code, chosen) && is_unclosed_open(code, p));
}

/// Scans the program once and pairs its brackets.
///
/// Succeeds exactly on balanced programs, whatever other characters they hold. Otherwise the
/// first `]` that closes nothing is reported; if there is none, the innermost `[` that is never
/// closed.
pub fn build_jump_table(code: &Vec<char>) -> (res: Result<Vec<Option<usize>>, BrainfuckReaderError>)
    ensures
        res is Ok <==> balanced(code@),
        res matches Ok(table) ==> is_jump_table(code@, table@),
        res matches Err(e) ==> (e matches BrainfuckReaderError::UnmatchedBrackets { ip, kind }
            && bracket_fault(code@) == Some((ip as int, kind)) && (match kind {
            UnmatchedBracketKind::Close => is_unmatched_close(code@, ip as int),
            UnmatchedBracketKind::Open => closes_matched(code@, code@.len() as int)
                && is_innermost_unclosed(code@, ip as int),
        })),
{
    let n = code.len();
    let mut table: Vec<Option<usize>> = Vec::new();
    let mut filled: usize = 0;
    while filled < n
        invariant
            filled <= n,
            table@.len() == filled,
            forall|a: int| 0 <= a < filled ==> table@[a] is None,
        decreases n - filled,
    {
        table.push(None);
        filled = filled + 1;
    }
    let mut stack: Vec<usize> = Vec::new();
    let mut i: usize = 0;
    while i < n
        invariant
            n == code@.len(),
            i <= n,
            table@.len() == n,
            closes_matched(code@, i as int),
            stack@.len() == depth(code@, i as int),
            forall|a: int| i <= a < n ==> table@[a] is None,
            forall|s: int|
                0 <= s < stack@.len() ==> {
                    let p = #[trigger] stack@[s];
                    &&& p < i
                    &&& code@[p as int] == '['
                    &&& depth(code@, p as int) == s
                    &&& table@[p as int] is None
                    &&& forall|k: int| p < k <= i ==> depth(code@, k) > s
                },
            forall|a: int|
                0 <= a < n ==> (#[trigger] table@[a] matches Some(b) ==> are_partners(
                    code@,
                    a,
                    b as int,
                )),
            forall|a: int|
                0 <= a < i && (code@[a] == '[' || code@[a] == ']') && (#[trigger] table@[a]) is None
                    ==> exists|s: int| 0 <= s < stack@.len() && stack@[s] == a,
        decreases n - i,
    {
        let c = code[i];
        let ghost old_stack = stack@;
        let ghost old_table = table@;
        assert(depth(code@, i + 1) == depth(code@, i as int) + bracket_delta(c));
        if c == '[' {
            stack.push(i);
            proof {
                assert forall|a: int|
                    0 <= a < i + 1 && (code@[a] == '[' || code@[a] == ']') && (
                    #[trigger] table@[a]) is None implies exists|s: int|
                    0 <= s < stack@.len() && stack@[s] == a by {
                    if a == i {
                        assert(stack@[old_stack.len() as int] == a);
                    } else {
                        let s = choose|s: int| 0 <= s < old_stack.len() && old_stack[s] == a;
                        assert(stack@[s] == a);
                    }
                }
            }
        } else if c == ']' {
            if stack.len() == 0 {
                proof {
                    lemma_unmatched_close_is_fault(code@, i as int);
                }
                return Err(
                    BrainfuckReaderError::UnmatchedBrackets {
                        ip: i,
                        kind: UnmatchedBracketKind::Close,
                    },
                );
            }
            let open_index = stack.pop().unwrap();
            proof {
                assert(open_index == old_stack[old_stack.len() - 1]);
                assert(is_match(code@, open_index as int, i as int));
            }
            table.set(open_index, Some(i));
            table.set(i, Some(open_index));
            proof {
                assert forall|s: int| 0 <= s < stack@.len() implies {
                    let p = #[trigger] stack@[s];
                    &&& p < i + 1
                    &&& code@[p as int] == '['
                    &&& depth(code@, p as int) == s
                    &&& table@[p as int] is None
                    &&& forall|k: int| p < k <= i + 1 ==> depth(code@, k) > s
                } by {
                    let p = stack@[s];
                    assert(p == old_stack[s]);
                    assert(depth(code@, p as int) == s);
                    assert(depth(code@, open_index as int) == old_stack.len() - 1);
                    assert(p != open_index);
                }
                assert forall|a: int|
                    0 <= a < i + 1 && (code@[a] == '[' || code@[a] == ']') && (
                    #[trigger] table@[a]) is None implies exists|s: int|
                    0 <= s < stack@.len() && stack@[s] == a by {
                    assert(old_table[a] is None);
                    let s = choose|s: int| 0 <= s < old_stack.len() && old_stack[s] == a;
                    assert(s != old_stack.len() - 1);
                    assert(stack@[s] == a);
                }
            }
        } else {
            proof {
                assert forall|a: int|
                    0 <= a < i + 1 && (code@[a] == '[' || code@[a] == ']') && (
                    #[trigger] table@[a]) is None implies exists|s: int|
                    0 <= s < stack@.len() && stack@[s] == a by {
                    let s = choose|s: int| 0 <= s < old_stack.len() && old_stack[s] == a;
                    assert(stack@[s] == a);
                }
            }
        }
        i = i + 1;
    }
    if stack.len() > 0 {
        let unmatched_open = stack[stack.len() - 1];
        proof {
            let top = stack@.len() - 1;
            assert(stack@[top] == unmatched_open);
            assert(is_unclosed_open(code@, unmatched_open as int));
            assert forall|q: int| is_unclosed_open(code@, q) implies q <= unmatched_open by {
                if q > unmatched_open {
                    assert(depth(code@, q) > top);
                    assert(depth(code@, n as int) > depth(code@, q));
                }
            }
            lemma_innermost_unclosed_is_fault(code@, unmatched_open as int);
        }
        return Err(
            BrainfuckReaderError::UnmatchedBrackets {
                ip: unmatched_open,
                kind: UnmatchedBracketKind::Open,
            },
        );
    }
    proof {
        assert forall|a: int| 0 <= a < n implies match #[trigger] table@[a] {
            Some(b) => are_partners(code@, a, b as int),
            None => code@[a] != '[' && code@[a] != ']',
        } by {}
    }
    Ok(table)
}

} // verus!
