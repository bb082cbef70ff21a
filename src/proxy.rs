//! The streaming proxy's rules: which headers cross it in each direction, and
//! which hosts go through the fallback transport. The relay itself is done by
//! the caller.
use vstd::prelude::*;
use crate::text::{chars_of, same_text, string_from};

verus! {

/// Header names (lowercase) that the proxy copies.
pub const ALLOWED_HEADERS: [&'static str; 18] = [
    "access-control-allow-origin",
    "access-control-allow-credentials",
    "accept",
    "accept-charset",
    "accept-encoding",
    "accept-ranges",
    "cache-control",
    "content-type",
    "content-length",
    "content-range",
    "cookie",
    "date",
    "expires",
    "etag",
    "last-modified",
    "pragma",
    "range",
    "vary",
];

/// The name of the header that a `referer` parameter overrides.
pub const REFERER: &'static str = "referer";

pub open spec fn lower_char(c: char) -> char {
    if 'A' <= c <= 'Z' {
        ((c as u32 + 32) as u8) as char
    } else {
        c
    }
}

/// A header name in lowercase (header names are ASCII).
pub open spec fn lower(s: Seq<char>) -> Seq<char> {
    s.map_values(|c: char| lower_char(c))
}

/// Whether a header name is on the allow-list, in any case.
pub open spec fn allowed(name: Seq<char>) -> bool {
    exists|i: int| 0 <= i < 18 && lower(name) == (#[trigger] ALLOWED_HEADERS@[i])@
}

/// A header name in lowercase.
pub fn to_lower(s: &str) -> (r: String)
    ensures
        r@ == lower(s@),
{
    let cs = chars_of(s);
    let mut out: Vec<char> = Vec::new();
    let mut i: usize = 0;
    while i < cs.len()
        invariant
            i <= cs@.len(),
            out@ == lower(cs@.subrange(0, i as int)),
        decreases cs@.len() - i,
    {
        let c = cs[i];
        let l = if 'A' <= c && c <= 'Z' {
            ((c as u32 + 32) as u8) as char
        } else {
            c
        };
        out.push(l);
        i = i + 1;
        assert(out@ =~= lower(cs@.subrange(0, i as int)));
    }
    assert(cs@.subrange(0, cs@.len() as int) =~= cs@);
    string_from(out.as_slice())
}

/// Whether the proxy copies a header of this name.
pub fn is_allowed_header(name: &str) -> (r: bool)
    ensures
        r == allowed(name@),
{
    let l = to_lower(name);
    let mut i: usize = 0;
    while i < 18
        invariant
            i <= 18,
            l@ == lower(name@),
            forall|j: int| 0 <= j < i ==> lower(name@) != (#[trigger] ALLOWED_HEADERS@[j])@,
        decreases 18 - i,
    {
        if same_text(l.as_str(), ALLOWED_HEADERS[i]) {
            return true;
        }
        i = i + 1;
    }
    false
}

pub open spec fn is_referer(name: Seq<char>) -> bool {
    lower(name) == REFERER@
}

/// Whether a client's header goes upstream: single-file requests pass every
/// header, others only allow-listed ones; a client Referer gives way to an
/// override.
pub open spec fn forwarded(name: Seq<char>, has_override: bool, is_mp4: bool) -> bool {
    (is_mp4 || allowed(name)) && !(has_override && is_referer(name))
}

pub open spec fn header_views(hs: Seq<(String, String)>) -> Seq<(Seq<char>, Seq<char>)> {
    hs.map_values(|h: (String, String)| (h.0@, h.1@))
}

/// The headers of `hs` that `keep` accepts, in order.
pub open spec fn kept(
    hs: Seq<(Seq<char>, Seq<char>)>,
    keep: spec_fn(Seq<char>) -> bool,
) -> Seq<(Seq<char>, Seq<char>)>
    decreases hs.len(),
{
    if hs.len() == 0 {
        seq![]
    } else if keep(hs.last().0) {
        kept(hs.drop_last(), keep).push(hs.last())
    } else {
        kept(hs.drop_last(), keep)
    }
}

/// The headers sent upstream: the Referer override first where there is one,
/// then the client's headers that go upstream, in order.
pub open spec fn request_headers(
    hs: Seq<(Seq<char>, Seq<char>)>,
    referer: Option<Seq<char>>,
    is_mp4: bool,
) -> Seq<(Seq<char>, Seq<char>)> {
    let rest = kept(hs, |n: Seq<char>| forwarded(n, referer is Some, is_mp4));
    match referer {
        Some(r) => seq![(REFERER@, r)] + rest,
        None => rest,
    }
}

fn is_referer_name(name: &str) -> (r: bool)
    ensures
        r == is_referer(name@),
{
    let l = to_lower(name);
    same_text(l.as_str(), REFERER)
}

/// The headers to send upstream for a client request.
pub fn forward_headers(headers: &Vec<(String, String)>, referer: Option<String>, is_mp4: bool) -> (r:
    Vec<(String, String)>)
    ensures
        header_views(r@) == request_headers(
            header_views(headers@),
            match referer {
                Some(s) => Some(s@),
                None => None,
            },
            is_mp4,
        ),
{
    let has_override = referer.is_some();
    let mut out: Vec<(String, String)> = Vec::new();
    let ghost prefix: Seq<(Seq<char>, Seq<char>)> = seq![];
    match &referer {
        Some(r) => {
            out.push((REFERER.to_string(), r.clone()));
            proof {
                prefix = seq![(REFERER@, r@)];
            }
        },
        None => {},
    }
    let ghost hv = header_views(headers@);
    let ghost keep = |n: Seq<char>| forwarded(n, has_override, is_mp4);
    assert(header_views(out@) =~= prefix + kept(hv.subrange(0, 0), keep));
    let mut i: usize = 0;
    while i < headers.len()
        invariant
            i <= headers@.len(),
            hv == header_views(headers@),
            keep == (|n: Seq<char>| forwarded(n, has_override, is_mp4)),
            header_views(out@) == prefix + kept(hv.subrange(0, i as int), keep),
        decreases headers@.len() - i,
    {
        let name = &headers[i].0;
        let ok = (is_mp4 || is_allowed_header(name.as_str())) && !(has_override && is_referer_name(
            name.as_str(),
        ));
        let ghost pre = hv.subrange(0, i as int);
        assert(hv.subrange(0, i + 1).drop_last() =~= pre);
        assert(hv.subrange(0, i + 1).last() == hv[i as int]);
        assert(hv[i as int] == (headers@[i as int].0@, headers@[i as int].1@));
        assert(ok == keep(hv[i as int].0));
        if ok {
            let ghost before = out@;
            out.push((headers[i].0.clone(), headers[i].1.clone()));
            assert(kept(hv.subrange(0, i + 1), keep) == kept(pre, keep).push(hv[i as int]));
            assert(header_views(out@) =~= header_views(before).push(hv[i as int]));
            assert(header_views(out@) =~= prefix + kept(hv.subrange(0, i + 1), keep));
        } else {
            assert(header_views(out@) =~= prefix + kept(hv.subrange(0, i + 1), keep));
        }
        i = i + 1;
    }
    assert(hv.subrange(0, headers@.len() as int) =~= hv);
    out
}

/// The upstream headers relayed back to the client: all of them for a
/// single-file request, otherwise the allow-listed ones, in order.
pub fn filter_response_headers(headers: &Vec<(String, String)>, is_mp4: bool) -> (r: Vec<
    (String, String),
>)
    ensures
        header_views(r@) == kept(header_views(headers@), |n: Seq<char>| is_mp4 || allowed(n)),
{
    let mut out: Vec<(String, String)> = Vec::new();
    let ghost hv = header_views(headers@);
    let ghost keep = |n: Seq<char>| is_mp4 || allowed(n);
    assert(header_views(out@) =~= kept(hv.subrange(0, 0), keep));
    let mut i: usize = 0;
    while i < headers.len()
        invariant
            i <= headers@.len(),
            hv == header_views(headers@),
            keep == (|n: Seq<char>| is_mp4 || allowed(n)),
            header_views(out@) == kept(hv.subrange(0, i as int), keep),
        decreases headers@.len() - i,
    {
        let ok = is_mp4 || is_allowed_header(headers[i].0.as_str());
        assert(hv.subrange(0, i + 1).drop_last() =~= hv.subrange(0, i as int));
        assert(hv[i as int] == (headers@[i as int].0@, headers@[i as int].1@));
        if ok {
            out.push((headers[i].0.clone(), headers[i].1.clone()));
            assert(header_views(out@) =~= kept(hv.subrange(0, i + 1), keep));
        } else {
            assert(header_views(out@) =~= kept(hv.subrange(0, i + 1), keep));
        }
        i = i + 1;
    }
    assert(hv.subrange(0, headers@.len() as int) =~= hv);
    out
}

/// Hosts whose requests go through the fallback transport, for the life of
/// the process.
pub struct BadHosts {
    pub hosts: Vec<String>,
}

impl BadHosts {
    pub open spec fn view(&self) -> Set<Seq<char>> {
        self.hosts@.map_values(|h: String| h@).to_set()
    }

    /// No host is recorded twice.
    pub open spec fn wf(&self) -> bool {
        forall|i: int, j: int|
            0 <= i < j < self.hosts@.len() ==> (#[trigger] self.hosts@[i])@ != (
            #[trigger] self.hosts@[j])@
    }

    pub fn new() -> (r: BadHosts)
        ensures
            r.view() == Set::<Seq<char>>::empty(),
            r.wf(),
    {
        let r = BadHosts { hosts: Vec::new() };
        assert(r.view() =~= Set::<Seq<char>>::empty());
        r
    }

    /// Whether `host` failed the primary transport before.
    pub fn is_bad(&self, host: &str) -> (r: bool)
        ensures
            r == self.view().contains(host@),
    {
        let ghost hv = self.hosts@.map_values(|h: String| h@);
        let mut i: usize = 0;
        while i < self.hosts.len()
            invariant
                i <= self.hosts@.len(),
                hv == self.hosts@.map_values(|h: String| h@),
                forall|j: int| 0 <= j < i ==> hv[j] != host@,
            decreases self.hosts@.len() - i,
        {
            if same_text(self.hosts[i].as_str(), host) {
                assert(hv[i as int] == host@);
                return true;
            }
            i = i + 1;
        }
        proof {
            if hv.to_set().contains(host@) {
                let j = choose|j: int| 0 <= j < hv.len() && hv[j] == host@;
                assert(hv[j] == host@);
            }
        }
        false
    }

    /// Records that `host` failed the primary transport.
    pub fn mark_bad(&mut self, host: &str)
        ensures
            final(self).view() == old(self).view().insert(host@),
            old(self).wf() ==> final(self).wf(),
    {
        if !self.is_bad(host) {
            let ghost before = self.hosts@;
            self.hosts.push(host.to_string());
            let ghost a = before.map_values(|h: String| h@);
            let ghost b = self.hosts@.map_values(|h: String| h@);
            assert(b =~= a.push(host@));
            assert forall|x: Seq<char>| b.to_set().contains(x) == a.to_set().insert(host@).contains(x) by {
                if b.to_set().contains(x) {
                    let j = choose|j: int| 0 <= j < b.len() && b[j] == x;
                    if j < a.len() {
                        assert(a[j] == x);
                    }
                }
                if a.to_set().contains(x) {
                    let j = choose|j: int| 0 <= j < a.len() && a[j] == x;
                    assert(b[j] == x);
                }
                if x == host@ {
                    assert(b[a.len() as int] == x);
                }
            }
            assert(self.view() =~= old(self).view().insert(host@));
            assert forall|i: int, j: int|
                0 <= i < j < self.hosts@.len() && old(self).wf() implies (#[trigger] self.hosts@[i])@ != (
                #[trigger] self.hosts@[j])@ by {
                assert(self.hosts@[i] == before[i]);
                if j < before.len() {
                    assert(self.hosts@[j] == before[j]);
                } else {
                    assert(a[i] == before[i]@);
                    assert(!a.to_set().contains(host@));
                }
            }
        } else {
            assert(old(self).view().contains(host@));
            assert(self.hosts@ == old(self).hosts@);
            assert(self.view() == old(self).view());
            assert(old(self).view().insert(host@) =~= old(self).view());
        }
    }
}

/// Which transport carries a request.
#[derive(Clone, Copy, Debug, PartialEq, Eq, Structural)]
pub enum Transport {
    Primary,
    Fallback,
}

/// The transport to try first for `host`: the fallback for a known bad host.
pub fn first_transport(bad: &BadHosts, host: &str) -> (r: Transport)
    ensures
        r == (if bad.view().contains(host@) {
            Transport::Fallback
        } else {
            Transport::Primary
        }),
{
    if bad.is_bad(host) {
        Transport::Fallback
    } else {
        Transport::Primary
    }
}

/// After the primary transport failed outright for `host`: the host is
/// remembered as bad, and the request is retried through the fallback.
pub fn after_primary_failure(bad: &mut BadHosts, host: &str) -> (r: Transport)
    ensures
        r == Transport::Fallback,
        final(bad).view() == old(bad).view().insert(host@),
        old(bad).wf() ==> final(bad).wf(),
{
    bad.mark_bad(host);
    Transport::Fallback
}

} // verus!
