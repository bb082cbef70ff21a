//! Cleaning the titles scraped from listing pages.
use vstd::prelude::*;
use crate::text::{chars_of, ends_with, has_suffix, matches_at, push_str, starts_with, string_from};

verus! {

/// Unicode `White_Space`: the characters that `char::is_whitespace` accepts
/// and that `\s` matches in a regular expression.
pub open spec fn is_space(c: char) -> bool {
    ('\t' <= c <= '\r') || c == ' ' || c == '\u{85}' || c == '\u{a0}' || c == '\u{1680}' || (
    '\u{2000}' <= c <= '\u{200a}') || c == '\u{2028}' || c == '\u{2029}' || c == '\u{202f}' || c
        == '\u{205f}' || c == '\u{3000}'
}

pub fn is_ws(c: char) -> (r: bool)
    ensures
        r == is_space(c),
{
    ('\t' <= c && c <= '\r') || c == ' ' || c == '\u{85}' || c == '\u{a0}' || c == '\u{1680}' || (
    '\u{2000}' <= c && c <= '\u{200a}') || c == '\u{2028}' || c == '\u{2029}' || c == '\u{202f}'
        || c == '\u{205f}' || c == '\u{3000}'
}

/// Every non-overlapping occurrence of `p`, leftmost first, replaced by `r`.
pub open spec fn replaced(s: Seq<char>, p: Seq<char>, r: Seq<char>) -> Seq<char>
    decreases s.len(),
{
    if s.len() == 0 || p.len() == 0 {
        s
    } else if starts_with(s, p) {
        r + replaced(s.subrange(p.len() as int, s.len() as int), p, r)
    } else {
        seq![s[0]] + replaced(s.drop_first(), p, r)
    }
}

/// Replaces every occurrence of `p` in `s` by `r`; an empty `p` leaves `s` as it is.
pub fn replace_all(s: &str, p: &str, r: &str) -> (out: String)
    ensures
        out@ == replaced(s@, p@, r@),
{
    let cs = chars_of(s);
    let ps = chars_of(p);
    if ps.len() == 0 {
        return s.to_string();
    }
    let mut out: Vec<char> = Vec::new();
    let mut i: usize = 0;
    assert(cs@.subrange(0, cs@.len() as int) =~= cs@);
    while i < cs.len()
        invariant
            i <= cs@.len(),
            ps@ == p@,
            cs@ == s@,
            ps@.len() > 0,
            replaced(s@, p@, r@) == out@ + replaced(cs@.subrange(i as int, cs@.len() as int), p@, r@),
        decreases cs@.len() - i,
    {
        let ghost tail = cs@.subrange(i as int, cs@.len() as int);
        if matches_at(&cs, &ps, i) {
            assert(tail.subrange(0, ps@.len() as int) =~= cs@.subrange(i as int, i + ps@.len()));
            assert(tail.subrange(ps@.len() as int, tail.len() as int) =~= cs@.subrange(
                i + ps@.len(),
                cs@.len() as int,
            ));
            let ghost before = out@;
            push_str(&mut out, r);
            assert(before + (r@ + replaced(tail.subrange(ps@.len() as int, tail.len() as int), p@, r@))
                =~= out@ + replaced(tail.subrange(ps@.len() as int, tail.len() as int), p@, r@));
            i = i + ps.len();
        } else {
            assert(!starts_with(tail, p@)) by {
                if starts_with(tail, p@) {
                    assert(tail.subrange(0, ps@.len() as int) =~= cs@.subrange(i as int, i + ps@.len()));
                }
            }
            assert(tail.drop_first() =~= cs@.subrange(i + 1, cs@.len() as int));
            let ghost before = out@;
            out.push(cs[i]);
            assert(before + (seq![tail[0]] + replaced(tail.drop_first(), p@, r@)) =~= out@ + replaced(
                tail.drop_first(),
                p@,
                r@,
            ));
            i = i + 1;
        }
    }
    assert(out@ + replaced(Seq::<char>::empty(), p@, r@) =~= out@);
    string_from(out.as_slice())
}

/// `s` without its trailing white space.
pub open spec fn trim_end(s: Seq<char>) -> Seq<char>
    decreases s.len(),
{
    if s.len() > 0 && is_space(s.last()) {
        trim_end(s.drop_last())
    } else {
        s
    }
}

/// `s` without its leading white space.
pub open spec fn trim_start(s: Seq<char>) -> Seq<char>
    decreases s.len(),
{
    if s.len() > 0 && is_space(s[0]) {
        trim_start(s.drop_first())
    } else {
        s
    }
}

pub open spec fn trimmed(s: Seq<char>) -> Seq<char> {
    trim_start(trim_end(s))
}

/// Removes leading and trailing white space.
pub fn trim(s: &str) -> (r: String)
    ensures
        r@ == trimmed(s@),
{
    let cs = chars_of(s);
    let mut end: usize = cs.len();
    assert(cs@.subrange(0, end as int) =~= cs@);
    while end > 0 && is_ws(cs[end - 1])
        invariant
            end <= cs@.len(),
            cs@ == s@,
            trim_end(s@) == trim_end(cs@.subrange(0, end as int)),
        decreases end,
    {
        assert(cs@.subrange(0, end as int).drop_last() =~= cs@.subrange(0, end - 1));
        end = end - 1;
    }
    let mut start: usize = 0;
    assert(trim_end(cs@.subrange(0, end as int)) == cs@.subrange(0, end as int));
    assert(cs@.subrange(start as int, end as int) =~= cs@.subrange(0, end as int));
    while start < end && is_ws(cs[start])
        invariant
            start <= end <= cs@.len(),
            cs@ == s@,
            trim_end(s@) == cs@.subrange(0, end as int),
            trimmed(s@) == trim_start(cs@.subrange(start as int, end as int)),
        decreases end - start,
    {
        assert(cs@.subrange(start as int, end as int).drop_first() =~= cs@.subrange(start + 1, end as int));
        start = start + 1;
    }
    let mut out: Vec<char> = Vec::new();
    let mut i: usize = start;
    while i < end
        invariant
            start <= i <= end <= cs@.len(),
            out@ == cs@.subrange(start as int, i as int),
        decreases end - i,
    {
        out.push(cs[i]);
        i = i + 1;
        assert(out@ =~= cs@.subrange(start as int, i as int));
    }
    string_from(out.as_slice())
}

/// `s` without the suffix `p`, where it ends with it.
pub open spec fn stripped(s: Seq<char>, p: Seq<char>) -> Seq<char> {
    if ends_with(s, p) {
        s.subrange(0, s.len() - p.len())
    } else {
        s
    }
}

/// Removes the suffix `p` where `s` ends with it.
pub fn strip_suffix(s: &str, p: &str) -> (r: String)
    ensures
        r@ == stripped(s@, p@),
{
    let cs = chars_of(s);
    let ps = chars_of(p);
    if has_suffix(&cs, &ps) {
        let mut out: Vec<char> = Vec::new();
        let n = cs.len() - ps.len();
        let mut i: usize = 0;
        while i < n
            invariant
                i <= n <= cs@.len(),
                out@ == cs@.subrange(0, i as int),
            decreases n - i,
        {
            out.push(cs[i]);
            i = i + 1;
            assert(out@ =~= cs@.subrange(0, i as int));
        }
        string_from(out.as_slice())
    } else {
        s.to_string()
    }
}

/// Each maximal run of white space in `s` replaced by `rep`.
pub open spec fn collapsed(s: Seq<char>, rep: Seq<char>) -> Seq<char>
    decreases s.len(),
{
    if s.len() == 0 {
        seq![]
    } else if is_space(s.last()) {
        if s.len() >= 2 && is_space(s[s.len() - 2]) {
            collapsed(s.drop_last(), rep)
        } else {
            collapsed(s.drop_last(), rep) + rep
        }
    } else {
        collapsed(s.drop_last(), rep).push(s.last())
    }
}

pub open spec fn space_runs_pattern() -> Seq<char> {
    seq!['\\', 's', '+']
}

/// Relies on `regex::Regex::new` and `Regex::replace_all`: with the pattern
/// `\s+` (one or more Unicode `White_Space` characters, greedy, leftmost
/// first), every maximal run of white space is replaced by `rep`, taken
/// literally where it holds no `$`.
#[verifier::external_body]
fn regex_replace_all(pattern: &str, text: &str, rep: &str) -> (r: Option<String>)
    ensures
        pattern@ == space_runs_pattern() && !rep@.contains('$') ==> r is Some && r->0@ == collapsed(
            text@,
            rep@,
        ),
{
    let re = regex::Regex::new(pattern).ok()?;
    Some(re.replace_all(text, rep).into_owned())
}

pub open spec fn en_dash() -> Seq<char> {
    seq!['\u{2013}']
}

/// The title after each cleaning step: entities decoded and "Watch Online"
/// dropped, trimmed, trailing dashes and "Shows" stripped, white space runs
/// collapsed to one space.
pub open spec fn fixed_title(t: Seq<char>) -> Seq<char> {
    let a = replaced(t, "Watch Online"@, ""@);
    let b = replaced(a, "&amp;"@, "&"@);
    let c = replaced(b, "&nbsp;"@, " "@);
    let d = replaced(c, "&lt;"@, "<"@);
    let e = replaced(d, "&gt;"@, ">"@);
    let f = trimmed(e);
    let g = trimmed(stripped(f, en_dash()));
    let h = trimmed(stripped(g, "-"@));
    let i = trimmed(stripped(h, "Shows"@));
    trimmed(collapsed(i, " "@))
}

/// Cleans a scraped title.
pub fn fix_title(title: &str) -> (r: String)
    ensures
        r@ == fixed_title(title@),
{
    proof {
        reveal_strlit("Watch Online");
        reveal_strlit("&amp;");
        reveal_strlit("&nbsp;");
        reveal_strlit("&lt;");
        reveal_strlit("&gt;");
        reveal_strlit("\u{2013}");
        reveal_strlit("\\s+");
    }
    let a = replace_all(title, "Watch Online", "");
    let b = replace_all(a.as_str(), "&amp;", "&");
    let c = replace_all(b.as_str(), "&nbsp;", " ");
    let d = replace_all(c.as_str(), "&lt;", "<");
    let e = replace_all(d.as_str(), "&gt;", ">");
    let f = trim(e.as_str());
    let g0 = strip_suffix(f.as_str(), "\u{2013}");
    let g = trim(g0.as_str());
    let h0 = strip_suffix(g.as_str(), "-");
    let h = trim(h0.as_str());
    let i0 = strip_suffix(h.as_str(), "Shows");
    let i = trim(i0.as_str());
    assert("\u{2013}"@ =~= en_dash());
    assert("\\s+"@ =~= space_runs_pattern());
    proof {
        reveal_strlit(" ");
    }
    assert(!" "@.contains('$'));
    let j = match regex_replace_all("\\s+", i.as_str(), " ") {
        Some(j) => j,
        None => i,
    };
    trim(j.as_str())
}

} // verus!
