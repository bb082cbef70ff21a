//! Turning fetched media manifests into manifests whose every segment is
//! fetched through the proxy.
use vstd::prelude::*;
use vstd::string::StringSliceAdditionalSpecFns;
use crate::codec::{encode_uri_component, form_decode, form_encode, lemma_form_round_trip};
use crate::error::{ErrorKind, HttpError};
use crate::text::{chars_of, has_prefix, push_str, starts_with, string_from};
use crate::url_util::{normalize_url, normalized, url_parse};

verus! {

/// The name of the file that holds a link's resolved metadata.
pub const METADATA_FILE: &'static str = "metadata.m3u8";

/// The lines of `s`, split at each `\n` (n separators give n + 1 lines).
pub open spec fn split_lines(s: Seq<char>) -> Seq<Seq<char>>
    decreases s.len(),
{
    if s.len() == 0 {
        seq![seq![]]
    } else {
        let r = split_lines(s.drop_last());
        if s.last() == '\n' {
            r.push(seq![])
        } else {
            r.update(r.len() - 1, r.last().push(s.last()))
        }
    }
}

/// The lines joined with `\n` between them.
pub open spec fn join_lines(ls: Seq<Seq<char>>) -> Seq<char>
    decreases ls.len(),
{
    if ls.len() == 0 {
        seq![]
    } else if ls.len() == 1 {
        ls[0]
    } else {
        join_lines(ls.drop_last()) + seq!['\n'] + ls.last()
    }
}

pub open spec fn views(v: Seq<String>) -> Seq<Seq<char>> {
    v.map_values(|s: String| s@)
}

proof fn lemma_split_nonempty(s: Seq<char>)
    ensures
        split_lines(s).len() >= 1,
    decreases s.len(),
{
    if s.len() > 0 {
        lemma_split_nonempty(s.drop_last());
    }
}

/// Splits text into its lines.
pub fn lines_of(s: &str) -> (r: Vec<String>)
    ensures
        views(r@) == split_lines(s@),
{
    let cs = chars_of(s);
    let mut done: Vec<String> = Vec::new();
    let mut cur: Vec<char> = Vec::new();
    let mut i: usize = 0;
    assert(cs@.subrange(0, 0) =~= Seq::<char>::empty());
    assert(views(done@).push(cur@) =~= seq![seq![]]);
    while i < cs.len()
        invariant
            i <= cs@.len(),
            split_lines(cs@.subrange(0, i as int)) == views(done@).push(cur@),
        decreases cs@.len() - i,
    {
        let c = cs[i];
        let ghost pre = cs@.subrange(0, i as int);
        assert(cs@.subrange(0, i + 1).drop_last() =~= pre);
        if c == '\n' {
            let line = string_from(cur.as_slice());
            done.push(line);
            cur = Vec::new();
            assert(views(done@).push(cur@) =~= split_lines(pre).push(seq![]));
        } else {
            cur.push(c);
            assert(views(done@).push(cur@) =~= split_lines(pre).update(
                split_lines(pre).len() - 1,
                split_lines(pre).last().push(c),
            ));
        }
        i = i + 1;
    }
    assert(cs@.subrange(0, cs@.len() as int) =~= cs@);
    let last = string_from(cur.as_slice());
    done.push(last);
    assert(views(done@) =~= split_lines(cs@));
    done
}

/// Joins lines with `\n` between them.
pub fn join(ls: &Vec<String>) -> (r: String)
    ensures
        r@ == join_lines(views(ls@)),
{
    let mut out: Vec<char> = Vec::new();
    let mut i: usize = 0;
    while i < ls.len()
        invariant
            i <= ls@.len(),
            out@ == join_lines(views(ls@.subrange(0, i as int))),
        decreases ls@.len() - i,
    {
        let ghost pre = views(ls@.subrange(0, i as int));
        let ghost next = views(ls@.subrange(0, i + 1));
        assert(next.drop_last() =~= pre);
        if i > 0 {
            out.push('\n');
        } else {
            assert(next.len() == 1);
        }
        push_str(&mut out, ls[i].as_str());
        i = i + 1;
    }
    assert(ls@.subrange(0, ls@.len() as int) =~= ls@);
    string_from(out.as_slice())
}

pub open spec fn extinf() -> Seq<char> {
    seq!['#', 'E', 'X', 'T', 'I', 'N', 'F']
}

pub open spec fn stream_inf() -> Seq<char> {
    seq!['#', 'E', 'X', 'T', '-', 'X', '-', 'S', 'T', 'R', 'E', 'A', 'M', '-', 'I', 'N', 'F']
}

/// `k` is the last line that follows a stream-info line.
pub open spec fn last_variant(ls: Seq<Seq<char>>, k: int) -> bool {
    1 <= k < ls.len() && starts_with(ls[k - 1], stream_inf()) && forall|j: int|
        k < j < ls.len() ==> !starts_with(#[trigger] ls[j - 1], stream_inf())
}

/// Picks the variant listed last in a master manifest (the highest bitrate),
/// resolved against the manifest's own URL.
pub fn find_best_video_url(m3u8: &str, host_url: &str) -> (r: Result<String, HttpError>)
    ensures
        match r {
            Ok(u) => exists|k: int|
                #[trigger] last_variant(split_lines(m3u8@), k) && normalized(
                    split_lines(m3u8@)[k],
                    host_url@,
                ) == Some(u@),
            Err(e) => (forall|k: int| !#[trigger] last_variant(split_lines(m3u8@), k)) || exists|
                k: int,
            |
                #[trigger] last_variant(split_lines(m3u8@), k) && normalized(
                    split_lines(m3u8@)[k],
                    host_url@,
                ) is None,
        },
{
    let ls = lines_of(m3u8);
    let ghost v = views(ls@);
    let marker: Vec<char> = vec![
        '#', 'E', 'X', 'T', '-', 'X', '-', 'S', 'T', 'R', 'E', 'A', 'M', '-', 'I', 'N', 'F',
    ];
    assert(marker@ =~= stream_inf());
    let mut k: usize = ls.len();
    while k > 1
        invariant
            k <= ls@.len(),
            v == views(ls@),
            v == split_lines(m3u8@),
            marker@ == stream_inf(),
            forall|j: int| k <= j < ls@.len() ==> !starts_with(#[trigger] v[j - 1], stream_inf()),
        decreases k,
    {
        k = k - 1;
        let prev = chars_of(ls[k - 1].as_str());
        assert(v[k - 1] == ls@[k - 1]@);
        assert(v[k as int] == ls@[k as int]@);
        if has_prefix(&prev, &marker) {
            assert(last_variant(v, k as int));
            let r = normalize_url(ls[k].as_str(), host_url);
            return match r {
                Ok(u) => Ok(u),
                Err(_) => Err(HttpError::new(ErrorKind::Parse, "Couldn't resolve the variant URL")),
            };
        }
    }
    assert forall|j: int| !#[trigger] last_variant(v, j) by {
        if last_variant(v, j) {
            assert(j >= k);
        }
    }
    Err(HttpError::new(ErrorKind::Parse, "Couldn't find a variant in the manifest"))
}

pub open spec fn media_prefix() -> Seq<char> {
    seq!['/', 'm', 'e', 'd', 'i', 'a', '?', 'h', 'a', 's', 'h', '=']
}

pub open spec fn url_param() -> Seq<char> {
    seq!['&', 'u', 'r', 'l', '=']
}

/// The proxy-relative line that stands for segment `u` of the link with key `hash`.
pub open spec fn media_line(hash: Seq<char>, u: Seq<char>) -> Seq<char> {
    media_prefix() + hash + url_param() + form_encode(vstd::utf8::encode_utf8(u))
}

/// The rewritten lines, or `None` where a segment is missing or does not resolve.
pub open spec fn convert_lines(ls: Seq<Seq<char>>, host: Seq<char>, hash: Seq<char>) -> Option<
    Seq<Seq<char>>,
>
    decreases ls.len(),
{
    if ls.len() == 0 {
        Some(seq![])
    } else if starts_with(ls[0], extinf()) {
        if ls.len() < 2 {
            None
        } else {
            match normalized(ls[1], host) {
                None => None,
                Some(u) => match convert_lines(ls.subrange(2, ls.len() as int), host, hash) {
                    Some(rest) => Some(seq![ls[0], media_line(hash, u)] + rest),
                    None => None,
                },
            }
        }
    } else {
        match convert_lines(ls.drop_first(), host, hash) {
            Some(rest) => Some(seq![ls[0]] + rest),
            None => None,
        }
    }
}

/// The proxy link for segment `url` of the link with key `hash`.
pub fn media_link(hash: &str, url: &str) -> (r: String)
    ensures
        r@ == media_line(hash@, url@),
{
    let mut out: Vec<char> = Vec::new();
    push_str(&mut out, "/media?hash=");
    push_str(&mut out, hash);
    push_str(&mut out, "&url=");
    let enc = encode_uri_component(url);
    push_str(&mut out, enc.as_str());
    proof {
        reveal_strlit("/media?hash=");
        reveal_strlit("&url=");
        assert("/media?hash="@ =~= media_prefix());
        assert("&url="@ =~= url_param());
    }
    assert(out@ =~= media_line(hash@, url@));
    string_from(out.as_slice())
}

/// Rewrites a variant manifest: the line after each segment-duration line is
/// replaced by a proxy link to that segment, resolved against `host_url`.
pub fn convert_m3u8(m3u8: &str, host_url: &str, hash: &str) -> (r: Result<String, HttpError>)
    ensures
        match r {
            Ok(s) => exists|out: Seq<Seq<char>>|
                convert_lines(split_lines(m3u8@), host_url@, hash@) == Some(out) && s@
                    == join_lines(out),
            Err(e) => convert_lines(split_lines(m3u8@), host_url@, hash@) is None && e.kind
                == ErrorKind::Parse,
        },
{
    let ls = lines_of(m3u8);
    let ghost v = views(ls@);
    let marker: Vec<char> = vec!['#', 'E', 'X', 'T', 'I', 'N', 'F'];
    assert(marker@ =~= extinf());
    let mut out: Vec<String> = Vec::new();
    let mut i: usize = 0;
    assert(v.subrange(0, v.len() as int) =~= v);
    while i < ls.len()
        invariant
            i <= ls@.len(),
            v == views(ls@),
            v == split_lines(m3u8@),
            marker@ == extinf(),
            convert_lines(v, host_url@, hash@) == match convert_lines(
                v.subrange(i as int, v.len() as int),
                host_url@,
                hash@,
            ) {
                Some(rest) => Some(views(out@) + rest),
                None => None::<Seq<Seq<char>>>,
            },
        decreases ls@.len() - i,
    {
        let ghost tail = v.subrange(i as int, v.len() as int);
        let line = chars_of(ls[i].as_str());
        assert(tail[0] == v[i as int]);
        assert(v[i as int] == ls@[i as int]@);
        if has_prefix(&line, &marker) {
            if i + 1 >= ls.len() {
                assert(convert_lines(tail, host_url@, hash@) is None);
                return Err(HttpError::new(ErrorKind::Parse, "Missing the line after a segment duration"));
            }
            assert(tail[1] == v[i + 1]);
            assert(v[i + 1] == ls@[i + 1]@);
            let u = match normalize_url(ls[i + 1].as_str(), host_url) {
                Ok(u) => u,
                Err(_) => {
                    return Err(HttpError::new(ErrorKind::Parse, "Couldn't resolve a segment URL"));
                },
            };
            out.push(ls[i].clone());
            out.push(media_link(hash, u.as_str()));
            proof {
                assert(tail.subrange(2, tail.len() as int) =~= v.subrange(i + 2, v.len() as int));
                let ghost o = views(out@);
                assert(o =~= views(out@.drop_last().drop_last()) + seq![tail[0], media_line(hash@, u@)]);
                match convert_lines(v.subrange(i + 2, v.len() as int), host_url@, hash@) {
                    Some(rest) => {
                        assert(views(out@.drop_last().drop_last()) + (seq![tail[0], media_line(hash@, u@)] + rest) =~= o + rest);
                    },
                    None => {},
                }
            }
            i = i + 2;
        } else {
            out.push(ls[i].clone());
            proof {
                assert(tail.drop_first() =~= v.subrange(i + 1, v.len() as int));
                match convert_lines(v.subrange(i + 1, v.len() as int), host_url@, hash@) {
                    Some(rest) => {
                        assert(views(out@.drop_last()) + (seq![tail[0]] + rest) =~= views(out@) + rest);
                    },
                    None => {},
                }
            }
            i = i + 1;
        }
    }
    assert(v.subrange(i as int, v.len() as int) =~= Seq::<Seq<char>>::empty());
    assert(views(out@) + Seq::<Seq<char>>::empty() =~= views(out@));
    Ok(join(&out))
}

/// The `url` parameter of a proxy link made for the link with key `hash`.
pub open spec fn url_param_of(line: Seq<char>, hash: Seq<char>) -> Seq<char> {
    line.subrange((media_prefix().len() + hash.len() + url_param().len()) as int, line.len() as int)
}

/// Every segment-duration line is followed by a segment line that resolves.
pub open spec fn well_formed_segments(ls: Seq<Seq<char>>, host: Seq<char>) -> bool {
    forall|i: int|
        0 <= i < ls.len() && #[trigger] starts_with(ls[i], extinf()) ==> i + 1 < ls.len()
            && !starts_with(ls[i + 1], extinf()) && normalized(ls[i + 1], host) is Some
}

/// Where a manifest's segment-duration lines are each followed by a segment
/// line, rewriting it keeps the number of lines and every line but the
/// segments, and puts in place of each segment (one per segment-duration line)
/// a proxy link whose `url` parameter decodes back to the segment's URL
/// (resolved against the manifest's URL; unchanged where it was absolute).
pub proof fn lemma_convert_round_trip(ls: Seq<Seq<char>>, host: Seq<char>, hash: Seq<char>)
    requires
        well_formed_segments(ls, host),
    ensures
        convert_lines(ls, host, hash) is Some,
        convert_lines(ls, host, hash)->0.len() == ls.len(),
        forall|i: int|
            0 <= i < ls.len() && #[trigger] starts_with(ls[i], extinf()) ==> {
                let out = convert_lines(ls, host, hash)->0;
                let u = normalized(ls[i + 1], host)->0;
                &&& out[i] == ls[i]
                &&& out[i + 1] == media_line(hash, u)
                &&& form_decode(url_param_of(out[i + 1], hash)) == vstd::utf8::encode_utf8(u)
                &&& (url_parse(ls[i + 1]) is Ok ==> u == ls[i + 1])
            },
        forall|i: int|
            0 <= i < ls.len() && (i == 0 || !starts_with(ls[i - 1], extinf())) ==> (
            #[trigger] convert_lines(ls, host, hash)->0[i]) == ls[i],
    decreases ls.len(),
{
    if ls.len() > 0 {
        if starts_with(ls[0], extinf()) {
            let tail = ls.subrange(2, ls.len() as int);
            assert forall|i: int|
                0 <= i < tail.len() && #[trigger] starts_with(tail[i], extinf()) implies i + 1
                < tail.len() && !starts_with(tail[i + 1], extinf()) && normalized(tail[i + 1], host) is Some by {
                assert(tail[i] == ls[i + 2]);
                assert(starts_with(ls[i + 2], extinf()));
            }
            lemma_convert_round_trip(tail, host, hash);
            let u = normalized(ls[1], host)->0;
            let rest = convert_lines(tail, host, hash)->0;
            let out = convert_lines(ls, host, hash)->0;
            assert(out == seq![ls[0], media_line(hash, u)] + rest);
            let enc = form_encode(vstd::utf8::encode_utf8(u));
            assert(url_param_of(media_line(hash, u), hash) =~= enc);
            lemma_form_round_trip(vstd::utf8::encode_utf8(u));
            assert forall|i: int|
                0 <= i < ls.len() && #[trigger] starts_with(ls[i], extinf()) implies {
                let u2 = normalized(ls[i + 1], host)->0;
                &&& out[i] == ls[i]
                &&& out[i + 1] == media_line(hash, u2)
                &&& form_decode(url_param_of(out[i + 1], hash)) == vstd::utf8::encode_utf8(u2)
                &&& (url_parse(ls[i + 1]) is Ok ==> u2 == ls[i + 1])
            } by {
                if i >= 2 {
                    assert(tail[i - 2] == ls[i]);
                    assert(starts_with(tail[i - 2], extinf()));
                    assert(tail[i - 1] == ls[i + 1]);
                } else {
                    assert(i == 0);
                }
            }
            assert forall|i: int|
                0 <= i < ls.len() && (i == 0 || !starts_with(ls[i - 1], extinf())) implies out[i]
                == ls[i] by {
                if i >= 2 {
                    assert(tail[i - 2] == ls[i]);
                    assert(tail[i - 3] == ls[i - 1] || i == 2);
                    assert(rest[i - 2] == out[i]);
                    if i > 2 {
                        assert(!starts_with(tail[i - 3], extinf()));
                    }
                }
            }
        } else {
            let tail = ls.drop_first();
            assert forall|i: int|
                0 <= i < tail.len() && #[trigger] starts_with(tail[i], extinf()) implies i + 1
                < tail.len() && !starts_with(tail[i + 1], extinf()) && normalized(tail[i + 1], host) is Some by {
                assert(tail[i] == ls[i + 1]);
                assert(starts_with(ls[i + 1], extinf()));
            }
            lemma_convert_round_trip(tail, host, hash);
            let rest = convert_lines(tail, host, hash)->0;
            let out = convert_lines(ls, host, hash)->0;
            assert(out == seq![ls[0]] + rest);
            assert forall|i: int|
                0 <= i < ls.len() && #[trigger] starts_with(ls[i], extinf()) implies {
                let u2 = normalized(ls[i + 1], host)->0;
                &&& out[i] == ls[i]
                &&& out[i + 1] == media_line(hash, u2)
                &&& form_decode(url_param_of(out[i + 1], hash)) == vstd::utf8::encode_utf8(u2)
                &&& (url_parse(ls[i + 1]) is Ok ==> u2 == ls[i + 1])
            } by {
                assert(i >= 1);
                assert(tail[i - 1] == ls[i]);
                assert(starts_with(tail[i - 1], extinf()));
                assert(tail[i] == ls[i + 1]);
            }
            assert forall|i: int|
                0 <= i < ls.len() && (i == 0 || !starts_with(ls[i - 1], extinf())) implies out[i]
                == ls[i] by {
                if i >= 1 {
                    assert(tail[i - 1] == ls[i]);
                    if i >= 2 {
                        assert(tail[i - 2] == ls[i - 1]);
                    }
                }
            }
        }
    }
}

/// How many of the lines start with `p`.
pub open spec fn count_starting(ls: Seq<Seq<char>>, p: Seq<char>) -> nat
    decreases ls.len(),
{
    if ls.len() == 0 {
        0
    } else {
        count_starting(ls.drop_first(), p) + if starts_with(ls[0], p) {
            1nat
        } else {
            0nat
        }
    }
}

/// The start of every proxy link made for the link with key `hash`.
pub open spec fn proxy_prefix(hash: Seq<char>) -> Seq<char> {
    media_prefix() + hash + url_param()
}

/// A manifest with N segment-duration lines, each followed by a segment line,
/// and no line that already starts like a proxy link of this key, is
/// rewritten into one with exactly N proxy links.
pub proof fn lemma_convert_counts(ls: Seq<Seq<char>>, host: Seq<char>, hash: Seq<char>)
    requires
        well_formed_segments(ls, host),
        forall|i: int| 0 <= i < ls.len() ==> !starts_with(#[trigger] ls[i], proxy_prefix(hash)),
    ensures
        convert_lines(ls, host, hash) is Some,
        count_starting(convert_lines(ls, host, hash)->0, proxy_prefix(hash)) == count_starting(
            ls,
            extinf(),
        ),
    decreases ls.len(),
{
    lemma_convert_round_trip(ls, host, hash);
    if ls.len() > 0 {
        let pp = proxy_prefix(hash);
        let out = convert_lines(ls, host, hash)->0;
        assert(!starts_with(ls[0], pp));
        if starts_with(ls[0], extinf()) {
            let tail = ls.subrange(2, ls.len() as int);
            assert forall|i: int|
                0 <= i < tail.len() && #[trigger] starts_with(tail[i], extinf()) implies i + 1
                < tail.len() && !starts_with(tail[i + 1], extinf()) && normalized(tail[i + 1], host) is Some by {
                assert(tail[i] == ls[i + 2]);
                assert(starts_with(ls[i + 2], extinf()));
            }
            assert forall|i: int| 0 <= i < tail.len() implies !starts_with(#[trigger] tail[i], pp) by {
                assert(tail[i] == ls[i + 2]);
            }
            lemma_convert_counts(tail, host, hash);
            let u = normalized(ls[1], host)->0;
            let rest = convert_lines(tail, host, hash)->0;
            let m = media_line(hash, u);
            assert(out == seq![ls[0], m] + rest);
            assert(m.subrange(0, pp.len() as int) =~= pp);
            assert(out.drop_first() =~= seq![m] + rest);
            assert((seq![m] + rest).drop_first() =~= rest);
            assert(ls.drop_first().drop_first() =~= tail);
            assert(!starts_with(ls[1], extinf()));
            assert(ls.drop_first()[0] == ls[1]);
            assert(out[0] == ls[0]);
            assert(count_starting(out, pp) == count_starting(out.drop_first(), pp));
            assert((seq![m] + rest)[0] == m);
            assert(starts_with(m, pp));
            assert(count_starting(seq![m] + rest, pp) == count_starting(rest, pp) + 1);
            assert(count_starting(ls, extinf()) == count_starting(ls.drop_first(), extinf()) + 1);
            assert(count_starting(ls.drop_first(), extinf()) == count_starting(tail, extinf()));
        } else {
            let tail = ls.drop_first();
            assert forall|i: int|
                0 <= i < tail.len() && #[trigger] starts_with(tail[i], extinf()) implies i + 1
                < tail.len() && !starts_with(tail[i + 1], extinf()) && normalized(tail[i + 1], host) is Some by {
                assert(tail[i] == ls[i + 1]);
                assert(starts_with(ls[i + 1], extinf()));
            }
            assert forall|i: int| 0 <= i < tail.len() implies !starts_with(#[trigger] tail[i], pp) by {
                assert(tail[i] == ls[i + 1]);
            }
            lemma_convert_counts(tail, host, hash);
            let rest = convert_lines(tail, host, hash)->0;
            assert(out == seq![ls[0]] + rest);
            assert(out.drop_first() =~= rest);
            assert(out[0] == ls[0]);
            assert(count_starting(out, pp) == count_starting(rest, pp));
            assert(count_starting(ls, extinf()) == count_starting(tail, extinf()));
        }
    }
}

} // verus!
