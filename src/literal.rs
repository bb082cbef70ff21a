//! Rewriting a JavaScript object literal, as player pages write them (bare
//! keys, single-quoted strings), into JSON text.
use vstd::prelude::*;
use crate::sandbox::ident_char;
use crate::text::{chars_of, string_from};
use crate::title::{is_space, is_ws};

verus! {

/// Where the rewriting stands: in code (0), in a double-quoted string (1), in
/// a single-quoted string (2) or in a bare key (3); whether the previous
/// string character was a backslash; and the last character of code that is
/// not white space.
pub type LiteralState = (u8, bool, char);

/// A character that may begin a bare key.
pub open spec fn key_start(c: char) -> bool {
    ('a' <= c <= 'z') || ('A' <= c <= 'Z') || c == '_' || c == '$'
}

/// One character of code: quotes open strings (a single quote becomes a
/// double one), a word right after `{` or `,` is a bare key and gets quoted.
pub open spec fn code_step(last: char, c: char) -> (LiteralState, Seq<char>) {
    if c == '"' {
        ((1, false, last), seq![c])
    } else if c == '\'' {
        ((2, false, last), seq!['"'])
    } else if key_start(c) && (last == '{' || last == ',') {
        ((3, false, 'k'), seq!['"', c])
    } else if is_space(c) {
        ((0, false, last), seq![c])
    } else {
        ((0, false, c), seq![c])
    }
}

/// One character of the literal.
pub open spec fn literal_step(st: LiteralState, c: char) -> (LiteralState, Seq<char>) {
    if st.0 == 3 {
        if ident_char(c) {
            (st, seq![c])
        } else {
            let (s2, e) = code_step(st.2, c);
            (s2, seq!['"'] + e)
        }
    } else if st.0 == 1 {
        if st.1 {
            ((1, false, st.2), seq![c])
        } else if c == '\\' {
            ((1, true, st.2), seq![c])
        } else if c == '"' {
            ((0, false, '"'), seq![c])
        } else {
            (st, seq![c])
        }
    } else if st.0 == 2 {
        if st.1 {
            ((2, false, st.2), if c == '\'' {
                seq!['\'']
            } else {
                seq!['\\', c]
            })
        } else if c == '\\' {
            ((2, true, st.2), seq![])
        } else if c == '\'' {
            ((0, false, '"'), seq!['"'])
        } else if c == '"' {
            ((2, false, st.2), seq!['\\', '"'])
        } else {
            (st, seq![c])
        }
    } else {
        code_step(st.2, c)
    }
}

/// The state and the text written after the characters of `s`.
pub open spec fn literal_run(s: Seq<char>) -> (LiteralState, Seq<char>)
    decreases s.len(),
{
    if s.len() == 0 {
        ((0, false, ' '), seq![])
    } else {
        let (st, out) = literal_run(s.drop_last());
        let (st2, e) = literal_step(st, s.last());
        (st2, out + e)
    }
}

/// The JSON text of an object literal: its bare keys quoted, its
/// single-quoted strings double-quoted; JSON text is left as it is, but for
/// a bare word that follows `,` in an array.
pub open spec fn literal_json(s: Seq<char>) -> Seq<char> {
    let (st, out) = literal_run(s);
    if st.0 == 3 {
        out.push('"')
    } else {
        out
    }
}

fn code_step_exec(last: char, c: char, out: &mut Vec<char>) -> (st: LiteralState)
    ensures
        st == code_step(last, c).0,
        final(out)@ == old(out)@ + code_step(last, c).1,
{
    if c == '"' {
        out.push(c);
        (1, false, last)
    } else if c == '\'' {
        out.push('"');
        (2, false, last)
    } else if (('a' <= c && c <= 'z') || ('A' <= c && c <= 'Z') || c == '_' || c == '$') && (last
        == '{' || last == ',') {
        out.push('"');
        out.push(c);
        (3, false, 'k')
    } else if is_ws(c) {
        out.push(c);
        (0, false, last)
    } else {
        out.push(c);
        (0, false, c)
    }
}

fn literal_step_exec(st: LiteralState, c: char, out: &mut Vec<char>) -> (r: LiteralState)
    ensures
        r == literal_step(st, c).0,
        final(out)@ == old(out)@ + literal_step(st, c).1,
{
    if st.0 == 3 {
        if ('a' <= c && c <= 'z') || ('A' <= c && c <= 'Z') || ('0' <= c && c <= '9') || c == '_'
            || c == '$' {
            out.push(c);
            st
        } else {
            out.push('"');
            let r = code_step_exec(st.2, c, out);
            assert(out@ =~= old(out)@ + (seq!['"'] + code_step(st.2, c).1));
            r
        }
    } else if st.0 == 1 {
        out.push(c);
        if st.1 {
            (1, false, st.2)
        } else if c == '\\' {
            (1, true, st.2)
        } else if c == '"' {
            (0, false, '"')
        } else {
            st
        }
    } else if st.0 == 2 {
        if st.1 {
            if c == '\'' {
                out.push('\'');
            } else {
                out.push('\\');
                out.push(c);
                assert(out@ =~= old(out)@ + seq!['\\', c]);
            }
            (2, false, st.2)
        } else if c == '\\' {
            assert(out@ =~= old(out)@ + Seq::<char>::empty());
            (2, true, st.2)
        } else if c == '\'' {
            out.push('"');
            (0, false, '"')
        } else if c == '"' {
            out.push('\\');
            out.push('"');
            assert(out@ =~= old(out)@ + seq!['\\', '"']);
            (2, false, st.2)
        } else {
            out.push(c);
            st
        }
    } else {
        code_step_exec(st.2, c, out)
    }
}

/// Rewrites a JavaScript object literal into JSON text.
pub fn literal_to_json(literal: &str) -> (r: String)
    ensures
        r@ == literal_json(literal@),
{
    let cs = chars_of(literal);
    let mut out: Vec<char> = Vec::new();
    let mut st: LiteralState = (0, false, ' ');
    let mut i: usize = 0;
    assert(cs@.subrange(0, 0) =~= Seq::<char>::empty());
    while i < cs.len()
        invariant
            i <= cs@.len(),
            (st, out@) == literal_run(cs@.subrange(0, i as int)),
        decreases cs@.len() - i,
    {
        assert(cs@.subrange(0, i + 1).drop_last() =~= cs@.subrange(0, i as int));
        st = literal_step_exec(st, cs[i], &mut out);
        i = i + 1;
    }
    assert(cs@.subrange(0, cs@.len() as int) =~= cs@);
    if st.0 == 3 {
        out.push('"');
    }
    string_from(out.as_slice())
}

} // verus!
