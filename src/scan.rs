//! Locating bracketed blocks in embed pages: the `eval(...)` call of an
//! unpacker script and the `sources:` object literal of a player setup.
use vstd::prelude::*;
use crate::text::{chars_of, contains_seq, find, find_from, first_occurrence, occurs_at};

verus! {

/// How a character moves the nesting depth.
pub open spec fn delta(c: char, open: char, close: char) -> int {
    if c == open {
        1
    } else if c == close {
        -1
    } else {
        0
    }
}

/// Nesting depth after reading all of `s`.
pub open spec fn depth(s: Seq<char>, open: char, close: char) -> int
    decreases s.len(),
{
    if s.len() == 0 {
        0
    } else {
        depth(s.drop_last(), open, close) + delta(s.last(), open, close)
    }
}

/// Reading from `from`, the bracket at `k` brings the depth back to zero.
pub open spec fn closes_at(s: Seq<char>, from: int, k: int, open: char, close: char) -> bool {
    0 <= from <= k < s.len() && (s[k] == open || s[k] == close) && depth(
        s.subrange(from, k + 1),
        open,
        close,
    ) == 0
}

/// `k` is the first position at which the block opened at `from` is closed.
pub open spec fn first_close(s: Seq<char>, from: int, k: int, open: char, close: char) -> bool {
    closes_at(s, from, k, open, close) && forall|j: int|
        from <= j < k ==> !closes_at(s, from, j, open, close)
}

pub open spec fn never_closes(s: Seq<char>, from: int, open: char, close: char) -> bool {
    forall|j: int| !closes_at(s, from, j, open, close)
}

proof fn lemma_depth_step(s: Seq<char>, from: int, i: int, open: char, close: char)
    requires
        0 <= from <= i < s.len(),
    ensures
        depth(s.subrange(from, i + 1), open, close) == depth(s.subrange(from, i), open, close)
            + delta(s[i], open, close),
{
    assert(s.subrange(from, i + 1).drop_last() =~= s.subrange(from, i));
}

/// The position of the bracket that closes the block opened at `from`.
pub fn matching_close(s: &Vec<char>, from: usize, open: char, close: char) -> (r: Option<usize>)
    requires
        from < s@.len(),
        s@[from as int] == open,
        open != close,
    ensures
        match r {
            Some(k) => first_close(s@, from as int, k as int, open, close),
            None => never_closes(s@, from as int, open, close),
        },
{
    proof {
        lemma_depth_step(s@, from as int, from as int, open, close);
        assert(s@.subrange(from as int, from as int).len() == 0);
    }
    let n = s.len();
    let mut d: usize = 1;
    let mut i: usize = from + 1;
    while i < s.len()
        invariant
            from < i <= s@.len(),
            1 <= d <= i - from,
            d as int == depth(s@.subrange(from as int, i as int), open, close),
            open != close,
            forall|j: int| from <= j < i ==> !closes_at(s@, from as int, j, open, close),
        decreases s@.len() - i,
    {
        proof {
            lemma_depth_step(s@, from as int, i as int, open, close);
        }
        let c = s[i];
        if c == open {
            d = d + 1;
        } else if c == close {
            d = d - 1;
            if d == 0 {
                return Some(i);
            }
        }
        i = i + 1;
    }
    None
}

pub open spec fn eval_marker() -> Seq<char> {
    seq!['e', 'v', 'a', 'l', '(']
}

pub open spec fn sources_marker() -> Seq<char> {
    seq!['s', 'o', 'u', 'r', 'c', 'e', 's', ':']
}

/// What `find_eval` returns: the text from the first `eval(` through the
/// parenthesis that closes it.
pub open spec fn eval_block(html: Seq<char>, r: Option<Seq<char>>) -> bool {
    match r {
        Some(t) => exists|start: int, k: int|
            #[trigger] first_occurrence(html, eval_marker(), start) && #[trigger] first_close(
                html,
                start + 4,
                k,
                '(',
                ')',
            )
                && t == html.subrange(start, k + 1),
        None => !contains_seq(html, eval_marker()) || exists|start: int|
            #[trigger] first_occurrence(html, eval_marker(), start) && never_closes(
                html,
                start + 4,
                '(',
                ')',
            ),
    }
}

/// Finds the `eval(...)` call of an unpacker script.
pub fn find_eval(html: &str) -> (r: Option<&str>)
    ensures
        eval_block(html@, match r {
            Some(t) => Some(t@),
            None => None,
        }),
{
    let cs = chars_of(html);
    let n = cs.len();
    let marker: Vec<char> = vec!['e', 'v', 'a', 'l', '('];
    assert(marker@ =~= eval_marker());
    match find(&cs, &marker) {
        None => None,
        Some(start) => {
            assert(cs@.subrange(start as int, start + 5)[4] == '(');
            match matching_close(&cs, start + 4, '(', ')') {
                None => None,
                Some(k) => {
                    let t = html.substring_char(start, k + 1);
                    assert(first_close(cs@, start + 4, k as int, '(', ')'));
                    Some(t)
                },
            }
        },
    }
}

/// What `find_source` returns: the object literal that opens at the first `{`
/// after the first `sources:`, through the brace that closes it.
pub open spec fn source_block(text: Seq<char>, r: Option<Seq<char>>) -> bool {
    match r {
        Some(t) => exists|start: int, b: int, k: int|
            #[trigger] first_occurrence(text, sources_marker(), start) && first_occurrence(
                text.subrange(start, text.len() as int),
                seq!['{'],
                b - start,
            ) && #[trigger] first_close(text, b, k, '{', '}') && t == text.subrange(b, k + 1),
        None => !contains_seq(text, sources_marker()) || exists|start: int|
            #[trigger] first_occurrence(text, sources_marker(), start) && (!contains_seq(
                text.subrange(start, text.len() as int),
                seq!['{'],
            ) || exists|b: int|
                #[trigger] first_occurrence(
                    text.subrange(start, text.len() as int),
                    seq!['{'],
                    b - start,
                ) && never_closes(text, b, '{', '}')),
    }
}

/// Finds the `sources:` object literal of a player page.
pub fn find_source(text: &str) -> (r: Option<&str>)
    ensures
        source_block(text@, match r {
            Some(t) => Some(t@),
            None => None,
        }),
{
    let cs = chars_of(text);
    let n = cs.len();
    let marker: Vec<char> = vec!['s', 'o', 'u', 'r', 'c', 'e', 's', ':'];
    assert(marker@ =~= sources_marker());
    let start = match find(&cs, &marker) {
        None => return None,
        Some(start) => start,
    };
    let brace: Vec<char> = vec!['{'];
    assert(brace@ =~= seq!['{']);
    let ghost tail = cs@.subrange(start as int, cs@.len() as int);
    let b = match find_from(&cs, &brace, start) {
        None => {
            assert forall|j: int| !occurs_at(tail, brace@, j) by {
                if 0 <= j && occurs_at(tail, brace@, j) {
                    assert(tail.subrange(j, j + 1) =~= cs@.subrange(start + j, start + j + 1));
                    assert(occurs_at(cs@, brace@, start + j));
                }
            }
            assert(!contains_seq(tail, seq!['{']));
            return None;
        },
        Some(b) => b,
    };
    proof {
        assert(tail.subrange(b - start, b - start + 1) =~= cs@.subrange(b as int, b + 1));
        assert forall|j: int| 0 <= j < b - start implies !occurs_at(tail, brace@, j) by {
            if occurs_at(tail, brace@, j) {
                assert(tail.subrange(j, j + 1) =~= cs@.subrange(start + j, start + j + 1));
                assert(occurs_at(cs@, brace@, start + j));
            }
        }
        assert(cs@.subrange(b as int, b + 1)[0] == '{');
        assert(first_occurrence(tail, seq!['{'], b - start));
    }
    match matching_close(&cs, b, '{', '}') {
        None => None,
        Some(k) => {
            let t = text.substring_char(b, k + 1);
            assert(first_close(cs@, b as int, k as int, '{', '}'));
            Some(t)
        },
    }
}

} // verus!
