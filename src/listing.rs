//! The listing coalescer: a single worker owns every show's episode listing,
//! answers complete listings from the store and scrapes one page at a time
//! otherwise, serving the most recent request first.
use vstd::prelude::*;
use crate::models::{Episode, TvShowEpisodes};
use crate::text::{chars_of, push_str, same_text, string_from, string_views};

verus! {

/// A listing as the laws see it: episode titles, current page, last page.
pub type ListingModel = (Seq<Seq<char>>, int, int);

pub open spec fn titles_of(eps: Seq<(String, Vec<Episode>)>) -> Seq<Seq<char>> {
    eps.map_values(|e: (String, Vec<Episode>)| e.0@)
}

pub open spec fn model_of(l: TvShowEpisodes) -> ListingModel {
    (titles_of(l.episodes@), l.cur_page as int, l.last_page as int)
}

/// The answer to a client: the titles loaded so far, and whether more pages remain.
#[derive(Clone, Debug)]
pub struct ListingResponse {
    pub episodes: Vec<String>,
    pub has_more: bool,
}

pub open spec fn response_view(r: ListingResponse) -> (Seq<Seq<char>>, bool) {
    (string_views(r.episodes@), r.has_more)
}

pub open spec fn response_of(m: ListingModel) -> (Seq<Seq<char>>, bool) {
    (m.0, m.2 > m.1)
}

impl TvShowEpisodes {
    /// The client's view of the listing.
    pub fn to_res(&self) -> (r: ListingResponse)
        ensures
            response_view(r) == response_of(model_of(*self)),
    {
        let mut titles: Vec<String> = Vec::new();
        let mut i: usize = 0;
        while i < self.episodes.len()
            invariant
                i <= self.episodes@.len(),
                string_views(titles@) == titles_of(self.episodes@.subrange(0, i as int)),
            decreases self.episodes@.len() - i,
        {
            let t = self.episodes[i].0.clone();
            assert(t@ == self.episodes@[i as int].0@);
            let ghost before = titles@;
            titles.push(t);
            assert(string_views(titles@) =~= string_views(before).push(t@));
            assert(self.episodes@.subrange(0, i + 1) =~= self.episodes@.subrange(0, i as int).push(self.episodes@[i as int]));
            i = i + 1;
            assert(string_views(titles@) =~= titles_of(self.episodes@.subrange(0, i as int)));
        }
        assert(self.episodes@.subrange(0, self.episodes@.len() as int) =~= self.episodes@);
        ListingResponse { episodes: titles, has_more: self.last_page > self.cur_page }
    }
}

/// One scraped page: its episodes, its page number and the last page number.
pub struct ScrapedPage {
    pub episodes: Vec<(String, Vec<Episode>)>,
    pub cur_page: usize,
    pub last_page: usize,
}

pub open spec fn page_model(p: ScrapedPage) -> ListingModel {
    (titles_of(p.episodes@), p.cur_page as int, p.last_page as int)
}

/// A listing after merging a scraped page: its episodes follow the old ones,
/// and the pages are the page's (the last page never before the current one).
pub open spec fn merged(old: ListingModel, page: ListingModel) -> ListingModel {
    (old.0 + page.0, page.1, if page.2 >= page.1 { page.2 } else { page.1 })
}

/// The listing of a show that nothing has been loaded for.
pub open spec fn empty_listing() -> ListingModel {
    (seq![], 1, 1)
}

/// What the worker does for a request.
pub enum ListingStep {
    /// The listing is complete: answer from the store.
    Answer(ListingResponse),
    /// Scrape this page URL, then merge it.
    Fetch(String),
}

/// The decimal numeral of `n`.
pub open spec fn decimal(n: nat) -> Seq<char>
    decreases n,
{
    if n < 10 {
        seq![((n + 48) as u8) as char]
    } else {
        decimal(n / 10).push(((n % 10 + 48) as u8) as char)
    }
}

/// Formats `n` in decimal.
pub fn to_decimal(n: u64) -> (r: String)
    ensures
        r@ == decimal(n as nat),
{
    if n < 10 {
        let one: Vec<char> = vec![((n + 48) as u8) as char];
        assert(one@ =~= decimal(n as nat));
        return string_from(one.as_slice());
    }
    let mut digits: Vec<char> = Vec::new();
    let mut m: u64 = n;
    assert(decimal(n as nat) + digits@ =~= decimal(n as nat));
    while m > 0
        invariant
            m > 0 ==> decimal(n as nat) == decimal(m as nat) + digits@,
            m == 0 ==> decimal(n as nat) == digits@,
        decreases m,
    {
        let ghost old_digits = digits@;
        digits.insert(0, ((m % 10 + 48) as u8) as char);
        if m < 10 {
            assert(decimal(m as nat) + old_digits =~= digits@);
            m = 0;
        } else {
            assert(decimal(m as nat) == decimal((m / 10) as nat).push(((m % 10 + 48) as u8) as char));
            assert(decimal(m as nat) + old_digits =~= decimal((m / 10) as nat) + digits@);
            m = m / 10;
        }
    }
    string_from(digits.as_slice())
}

/// `{show url}page/{n}/`: the listing page `n` of a show.
pub open spec fn page_url(show_url: Seq<char>, n: nat) -> Seq<char> {
    show_url + seq!['p', 'a', 'g', 'e', '/'] + decimal(n) + seq!['/']
}

/// Where the listing of `key` stands in the store.
pub open spec fn find_key(entries: Seq<(String, TvShowEpisodes)>, key: Seq<char>) -> Option<int>
    decreases entries.len(),
{
    if entries.len() == 0 {
        None
    } else if entries.last().0@ == key {
        Some(entries.len() - 1)
    } else {
        find_key(entries.drop_last(), key)
    }
}

/// The store of listings, one per show key (`{title}:{url}`), with the time
/// at which it is cleared.
pub struct ListingStore {
    pub entries: Vec<(String, TvShowEpisodes)>,
    pub expires_at: u64,
}

pub open spec fn listing_of(entries: Seq<(String, TvShowEpisodes)>, key: Seq<char>) -> Option<
    ListingModel,
> {
    match find_key(entries, key) {
        Some(i) => Some(model_of(entries[i].1)),
        None => None,
    }
}

/// What the worker does for a request about `key`: answer a complete listing,
/// otherwise scrape the next page (the show's first page where nothing is loaded).
pub open spec fn step_of(
    entries: Seq<(String, TvShowEpisodes)>,
    key: Seq<char>,
    show_url: Seq<char>,
) -> Result<(Seq<Seq<char>>, bool), Seq<char>> {
    match listing_of(entries, key) {
        Some(m) => if m.1 == m.2 {
            Ok(response_of(m))
        } else {
            Err(page_url(show_url, (m.1 + 1) as nat))
        },
        None => Err(show_url),
    }
}

proof fn lemma_find_key_bound(entries: Seq<(String, TvShowEpisodes)>, key: Seq<char>)
    ensures
        match find_key(entries, key) {
            Some(i) => 0 <= i < entries.len() && entries[i].0@ == key,
            None => true,
        },
    decreases entries.len(),
{
    if entries.len() > 0 && entries.last().0@ != key {
        lemma_find_key_bound(entries.drop_last(), key);
    }
}

impl ListingStore {
    pub fn new(expires_at: u64) -> (r: ListingStore)
        ensures
            r.entries@.len() == 0,
            r.wf(),
            r.expires_at == expires_at,
    {
        ListingStore { entries: Vec::new(), expires_at }
    }

    /// The position of the listing of `key`.
    pub fn position(&self, key: &str) -> (r: Option<usize>)
        ensures
            match r {
                Some(i) => find_key(self.entries@, key@) == Some(i as int),
                None => find_key(self.entries@, key@) is None,
            },
    {
        let mut i: usize = self.entries.len();
        assert(self.entries@.subrange(0, i as int) =~= self.entries@);
        while i > 0
            invariant
                i <= self.entries@.len(),
                find_key(self.entries@, key@) == find_key(self.entries@.subrange(0, i as int), key@),
            decreases i,
        {
            let ghost pre = self.entries@.subrange(0, i as int);
            assert(pre.drop_last() =~= self.entries@.subrange(0, i - 1));
            if same_text(self.entries[i - 1].0.as_str(), key) {
                return Some(i - 1);
            }
            i = i - 1;
        }
        None
    }

    /// The client's view of the stored listing of `key`.
    pub fn response(&self, key: &str) -> (r: Option<ListingResponse>)
        ensures
            match r {
                Some(resp) => exists|m: ListingModel|
                    listing_of(self.entries@, key@) == Some(m) && response_view(resp) == response_of(m),
                None => listing_of(self.entries@, key@) is None,
            },
    {
        match self.position(key) {
            Some(i) => {
                proof { lemma_find_key_bound(self.entries@, key@); }
                Some(self.entries[i].1.to_res())
            },
            None => None,
        }
    }

    /// Keys are unique, and every listing's current page is at most its last page.
    pub open spec fn wf(&self) -> bool {
        &&& forall|i: int|
            0 <= i < self.entries@.len() ==> (#[trigger] self.entries@[i]).1.cur_page
                <= self.entries@[i].1.last_page
        &&& forall|i: int, j: int|
            0 <= i < j < self.entries@.len() ==> (#[trigger] self.entries@[i]).0@ != (
            #[trigger] self.entries@[j]).0@
    }

    /// The answer given without asking the worker: the stored listing of
    /// `key`, unless more pages are asked for.
    pub fn cached_answer(&self, key: &str, load_more: bool) -> (r: Option<ListingResponse>)
        ensures
            match r {
                Some(resp) => !load_more && exists|m: ListingModel|
                    listing_of(self.entries@, key@) == Some(m) && response_view(resp) == response_of(m),
                None => load_more || listing_of(self.entries@, key@) is None,
            },
    {
        if load_more {
            None
        } else {
            self.response(key)
        }
    }

    /// What the worker does next for a request about show `key` at `show_url`.
    pub fn next_step(&self, key: &str, show_url: &str) -> (r: ListingStep)
        requires
            self.wf(),
        ensures
            match r {
                ListingStep::Answer(resp) => step_of(self.entries@, key@, show_url@) == Ok::<
                    (Seq<Seq<char>>, bool),
                    Seq<char>,
                >(response_view(resp)),
                ListingStep::Fetch(u) => step_of(self.entries@, key@, show_url@) == Err::<
                    (Seq<Seq<char>>, bool),
                    Seq<char>,
                >(u@),
            },
    {
        match self.position(key) {
            None => ListingStep::Fetch(show_url.to_string()),
            Some(i) => {
                proof { lemma_find_key_bound(self.entries@, key@); }
                let l = &self.entries[i].1;
                if l.cur_page == l.last_page {
                    ListingStep::Answer(l.to_res())
                } else {
                    let mut out: Vec<char> = chars_of(show_url);
                    push_str(&mut out, "page/");
                    let n = to_decimal((l.cur_page + 1) as u64);
                    push_str(&mut out, n.as_str());
                    out.push('/');
                    proof {
                        reveal_strlit("page/");
                    }
                    assert(out@ =~= page_url(show_url@, (l.cur_page + 1) as nat));
                    ListingStep::Fetch(string_from(out.as_slice()))
                }
            },
        }
    }
}

proof fn lemma_find_key_update(
    entries: Seq<(String, TvShowEpisodes)>,
    key: Seq<char>,
    i: int,
    e: (String, TvShowEpisodes),
)
    requires
        find_key(entries, key) == Some(i),
        e.0@ == key,
    ensures
        find_key(entries.update(i, e), key) == Some(i),
        forall|k: Seq<char>| k != key ==> find_key(entries.update(i, e), k) == find_key(entries, k),
        forall|k: Seq<char>| k != key ==> listing_of(entries.update(i, e), k) == listing_of(entries, k),
    decreases entries.len(),
{
    lemma_find_key_bound(entries, key);
    lemma_find_key_update_aux(entries, key, i, e);
    assert forall|k: Seq<char>| k != key implies listing_of(entries.update(i, e), k) == listing_of(entries, k) by {
        lemma_find_key_bound(entries, k);
        match find_key(entries, k) {
            Some(j) => {
                assert(j != i);
                assert(entries.update(i, e)[j] == entries[j]);
            },
            None => {},
        }
    }
}

proof fn lemma_find_key_update_aux(
    entries: Seq<(String, TvShowEpisodes)>,
    key: Seq<char>,
    i: int,
    e: (String, TvShowEpisodes),
)
    requires
        find_key(entries, key) == Some(i),
        e.0@ == key,
    ensures
        find_key(entries.update(i, e), key) == Some(i),
        forall|k: Seq<char>| k != key ==> find_key(entries.update(i, e), k) == find_key(entries, k),
    decreases entries.len(),
{
    lemma_find_key_bound(entries, key);
    let u = entries.update(i, e);
    if i == entries.len() - 1 {
        assert(u.drop_last() =~= entries.drop_last());
        assert forall|k: Seq<char>| k != key implies find_key(u, k) == find_key(entries, k) by {
            assert(entries.last().0@ == key);
        }
    } else {
        assert(u.drop_last() =~= entries.drop_last().update(i, e));
        assert(u.last() == entries.last());
        assert(entries.last().0@ != key);
        lemma_find_key_update_aux(entries.drop_last(), key, i, e);
        assert forall|k: Seq<char>| k != key implies find_key(u, k) == find_key(entries, k) by {
            if entries.last().0@ != k {
                assert(find_key(u, k) == find_key(u.drop_last(), k));
                assert(find_key(entries, k) == find_key(entries.drop_last(), k));
                assert(find_key(entries.drop_last().update(i, e), k) == find_key(entries.drop_last(), k));
            }
        }
    }
}

proof fn lemma_find_key_none(entries: Seq<(String, TvShowEpisodes)>, key: Seq<char>)
    requires
        find_key(entries, key) is None,
    ensures
        forall|i: int| 0 <= i < entries.len() ==> (#[trigger] entries[i]).0@ != key,
    decreases entries.len(),
{
    if entries.len() > 0 {
        lemma_find_key_none(entries.drop_last(), key);
        assert forall|i: int| 0 <= i < entries.len() implies (#[trigger] entries[i]).0@ != key by {
            if i < entries.len() - 1 {
                assert(entries[i] == entries.drop_last()[i]);
            }
        }
    }
}

proof fn lemma_find_key_push(entries: Seq<(String, TvShowEpisodes)>, e: (String, TvShowEpisodes))
    ensures
        find_key(entries.push(e), e.0@) == Some(entries.len() as int),
        forall|k: Seq<char>| k != e.0@ ==> find_key(entries.push(e), k) == find_key(entries, k),
        forall|k: Seq<char>| k != e.0@ ==> listing_of(entries.push(e), k) == listing_of(entries, k),
{
    assert(entries.push(e).drop_last() =~= entries);
    assert forall|k: Seq<char>| k != e.0@ implies listing_of(entries.push(e), k) == listing_of(entries, k) by {
        lemma_find_key_bound(entries, k);
    }
}

/// The listing that a request about `key` starts from.
pub open spec fn current_or_empty(entries: Seq<(String, TvShowEpisodes)>, key: Seq<char>) -> ListingModel {
    match listing_of(entries, key) {
        Some(m) => m,
        None => empty_listing(),
    }
}

impl ListingStore {
    /// Merges a scraped page into the listing of `key` and answers with the
    /// result; where the scrape failed (`None`) the store is left as it was and
    /// the answer is the listing as it stands.
    pub fn apply_page(&mut self, key: &str, page: Option<ScrapedPage>) -> (r: ListingResponse)
        requires
            old(self).wf(),
        ensures
            final(self).wf(),
            final(self).expires_at == old(self).expires_at,
            match page {
                Some(p) => listing_of(final(self).entries@, key@) == Some(
                    merged(current_or_empty(old(self).entries@, key@), page_model(p)),
                ) && response_view(r) == response_of(
                    merged(current_or_empty(old(self).entries@, key@), page_model(p)),
                ),
                None => final(self).entries@ == old(self).entries@ && response_view(r)
                    == response_of(current_or_empty(old(self).entries@, key@)),
            },
            forall|k: Seq<char>|
                k != key@ ==> listing_of(final(self).entries@, k) == listing_of(
                    old(self).entries@,
                    k,
                ),
    {
        let pos = self.position(key);
        proof { lemma_find_key_bound(self.entries@, key@); }
        match page {
            None => match pos {
                Some(i) => self.entries[i].1.to_res(),
                None => {
                    let empty = TvShowEpisodes { episodes: Vec::new(), cur_page: 1, last_page: 1 };
                    let r = empty.to_res();
                    assert(model_of(empty) =~= empty_listing());
                    r
                },
            },
            Some(p) => {
                let ScrapedPage { episodes, cur_page, last_page } = p;
                let ghost pm = page_model(ScrapedPage { episodes, cur_page, last_page });
                let mut new_eps = episodes;
                let last = if last_page >= cur_page { last_page } else { cur_page };
                match pos {
                    Some(i) => {
                        let ghost old_entries = self.entries@;
                        let (k, mut l) = self.entries.remove(i);
                        let ghost old_l = model_of(l);
                        l.episodes.append(&mut new_eps);
                        l.cur_page = cur_page;
                        l.last_page = last;
                        assert(titles_of(l.episodes@) =~= old_l.0 + pm.0);
                        let r = l.to_res();
                        self.entries.insert(i, (k, l));
                        proof {
                            assert(self.entries@ =~= old_entries.update(i as int, (k, l)));
                            lemma_find_key_update(old_entries, key@, i as int, (k, l));
                            assert forall|j: int| 0 <= j < self.entries@.len() implies (
                            #[trigger] self.entries@[j]).1.cur_page <= self.entries@[j].1.last_page by {
                                if j != i {
                                    assert(self.entries@[j] == old_entries[j]);
                                }
                            }
                            assert forall|a: int, b: int|
                                0 <= a < b < self.entries@.len() implies (#[trigger] self.entries@[a]).0@
                                != (#[trigger] self.entries@[b]).0@ by {
                                assert(self.entries@[a].0@ == old_entries[a].0@);
                                assert(self.entries@[b].0@ == old_entries[b].0@);
                            }
                        }
                        r
                    },
                    None => {
                        let l = TvShowEpisodes { episodes: new_eps, cur_page, last_page: last };
                        assert(titles_of(l.episodes@) =~= Seq::<Seq<char>>::empty() + pm.0);
                        let r = l.to_res();
                        let ghost old_entries = self.entries@;
                        let e = (key.to_string(), l);
                        self.entries.push(e);
                        proof {
                            lemma_find_key_push(old_entries, e);
                            lemma_find_key_none(old_entries, key@);
                            assert forall|j: int| 0 <= j < self.entries@.len() implies (
                            #[trigger] self.entries@[j]).1.cur_page <= self.entries@[j].1.last_page by {
                                if j < old_entries.len() {
                                    assert(self.entries@[j] == old_entries[j]);
                                }
                            }
                            assert forall|a: int, b: int|
                                0 <= a < b < self.entries@.len() implies (#[trigger] self.entries@[a]).0@
                                != (#[trigger] self.entries@[b]).0@ by {
                                assert(self.entries@[a] == old_entries[a]);
                                if b < old_entries.len() {
                                    assert(self.entries@[b] == old_entries[b]);
                                }
                            }
                        }
                        r
                    },
                }
            },
        }
    }

    /// Clears every listing once the store has expired, and sets the next expiry.
    pub fn clear_if_expired(&mut self, now: u64, next_expiry: u64) -> (r: bool)
        ensures
            r == (old(self).expires_at < now),
            r ==> final(self).entries@.len() == 0 && final(self).expires_at == next_expiry,
            !r ==> *final(self) == *old(self),
            old(self).wf() ==> final(self).wf(),
    {
        if self.expires_at < now {
            self.entries.clear();
            self.expires_at = next_expiry;
            true
        } else {
            false
        }
    }
}

/// Pending requests, served most recent first.
pub struct RequestStack<R> {
    pub items: Vec<R>,
}

impl<R> RequestStack<R> {
    pub fn new() -> (r: RequestStack<R>)
        ensures
            r.items@.len() == 0,
    {
        RequestStack { items: Vec::new() }
    }

    /// Queues a request.
    pub fn push(&mut self, req: R)
        ensures
            final(self).items@ == old(self).items@.push(req),
    {
        self.items.push(req);
    }

    /// The most recently queued request that is still pending.
    pub fn pop_latest(&mut self) -> (r: Option<R>)
        ensures
            old(self).items@.len() == 0 ==> r is None && final(self).items@.len() == 0,
            old(self).items@.len() > 0 ==> r == Some(old(self).items@.last())
                && final(self).items@ == old(self).items@.drop_last(),
    {
        self.items.pop()
    }
}

/// Identical next-page requests for a show whose listing is not complete,
/// where the page scraped for the first one is the show's last: the first
/// request leads to a scrape (`next_step` gives a fetch), and once
/// `apply_page` has merged that page every later request is answered from the
/// store (`next_step` gives an answer) with exactly what `apply_page` answered
/// the first one. Answering takes the store by shared reference and leaves it
/// as it is, so `k` such requests cause one scrape and get `k` identical answers.
pub proof fn lemma_coalesced(
    before: Seq<(String, TvShowEpisodes)>,
    after: Seq<(String, TvShowEpisodes)>,
    key: Seq<char>,
    show_url: Seq<char>,
    page: ListingModel,
)
    requires
        match listing_of(before, key) {
            Some(m) => m.1 != m.2,
            None => true,
        },
        page.1 == page.2,
        listing_of(after, key) == Some(merged(current_or_empty(before, key), page)),
    ensures
        step_of(before, key, show_url) is Err,
        step_of(after, key, show_url) == Ok::<(Seq<Seq<char>>, bool), Seq<char>>(
            response_of(merged(current_or_empty(before, key), page)),
        ),
{
}

/// The key of a show's listing: `{title}:{url}`.
pub fn show_key(title: &str, url: &str) -> (r: String)
    ensures
        r@ == title@ + seq![':'] + url@,
{
    let mut out: Vec<char> = chars_of(title);
    out.push(':');
    push_str(&mut out, url);
    string_from(out.as_slice())
}

pub open spec fn is_digit(c: char) -> bool {
    '0' <= c <= '9'
}

/// The value of a string of decimal digits.
pub open spec fn digits_value(s: Seq<char>) -> int
    decreases s.len(),
{
    if s.len() == 0 {
        0
    } else {
        digits_value(s.drop_last()) * 10 + (s.last() as int - 48)
    }
}

/// A number's text without its optional leading `+`.
pub open spec fn unsigned_part(s: Seq<char>) -> Seq<char> {
    if s.len() > 0 && s[0] == '+' {
        s.drop_first()
    } else {
        s
    }
}

pub open spec fn all_digits(d: Seq<char>) -> bool {
    forall|i: int| 0 <= i < d.len() ==> is_digit(#[trigger] d[i])
}

/// What `str::parse::<usize>` accepts: an optional `+`, then one or more
/// digits whose value fits in a `usize`.
pub open spec fn page_number(s: Seq<char>) -> Option<int> {
    let d = unsigned_part(s);
    if d.len() > 0 && all_digits(d) && digits_value(d) <= usize::MAX {
        Some(digits_value(d))
    } else {
        None
    }
}

proof fn lemma_digits_grow(s: Seq<char>, j: int, k: int)
    requires
        0 <= j <= k <= s.len(),
        forall|i: int| 0 <= i < s.len() ==> is_digit(#[trigger] s[i]),
    ensures
        digits_value(s.subrange(0, j)) <= digits_value(s.subrange(0, k)),
    decreases k - j,
{
    if j < k {
        lemma_digits_grow(s, j, k - 1);
        assert(s.subrange(0, k).drop_last() =~= s.subrange(0, k - 1));
        assert(digits_value(s.subrange(0, k - 1)) >= 0) by {
            lemma_digits_nonneg(s.subrange(0, k - 1));
        }
        assert(is_digit(s[k - 1]));
    }
}

proof fn lemma_digits_nonneg(s: Seq<char>)
    requires
        forall|i: int| 0 <= i < s.len() ==> is_digit(#[trigger] s[i]),
    ensures
        digits_value(s) >= 0,
    decreases s.len(),
{
    if s.len() > 0 {
        assert forall|i: int| 0 <= i < s.drop_last().len() implies is_digit(#[trigger] s.drop_last()[i]) by {
            assert(s.drop_last()[i] == s[i]);
        }
        lemma_digits_nonneg(s.drop_last());
        assert(is_digit(s.last()));
    }
}

/// Reads a page number as `str::parse::<usize>` does.
pub fn parse_page_number(text: &str) -> (r: Option<usize>)
    ensures
        match r {
            Some(n) => page_number(text@) == Some(n as int),
            None => page_number(text@) is None,
        },
{
    let cs = chars_of(text);
    let start: usize = if cs.len() > 0 && cs[0] == '+' { 1 } else { 0 };
    let ghost d = unsigned_part(cs@);
    assert(d =~= cs@.subrange(start as int, cs@.len() as int));
    if start >= cs.len() {
        return None;
    }
    let mut v: usize = 0;
    let mut i: usize = start;
    assert(d.subrange(0, 0) =~= Seq::<char>::empty());
    while i < cs.len()
        invariant
            start <= i <= cs@.len(),
            d == cs@.subrange(start as int, cs@.len() as int),
            d == unsigned_part(cs@),
            cs@ == text@,
            forall|j: int| 0 <= j < i - start ==> is_digit(#[trigger] d[j]),
            v as int == digits_value(d.subrange(0, i - start)),
        decreases cs@.len() - i,
    {
        let c = cs[i];
        assert(d[i - start] == c);
        if !('0' <= c && c <= '9') {
            assert(!is_digit(d[i - start]));
            assert(!all_digits(d));
            return None;
        }
        let digit = (c as u32 - 48) as usize;
        assert(d.subrange(0, i - start + 1).drop_last() =~= d.subrange(0, i - start));
        if v > (usize::MAX - digit) / 10 {
            proof {
                assert(v * 10 + digit > usize::MAX) by (nonlinear_arith)
                    requires v > (usize::MAX - digit) / 10, digit <= 9;
                assert(digits_value(d.subrange(0, i - start + 1)) == v * 10 + digit);
                if all_digits(d) {
                    lemma_digits_grow(d, i - start + 1, d.len() as int);
                    assert(d.subrange(0, d.len() as int) =~= d);
                }
            }
            return None;
        }
        v = v * 10 + digit;
        i = i + 1;
    }
    assert(d.subrange(0, d.len() as int) =~= d);
    Some(v)
}

/// How many of the first `n` titles equal `t`.
pub open spec fn count_before(ts: Seq<Seq<char>>, t: Seq<char>, n: int) -> nat
    decreases n,
{
    if n <= 0 {
        0
    } else {
        count_before(ts, t, n - 1) + if ts[n - 1] == t {
            1nat
        } else {
            0nat
        }
    }
}

/// The `i`-th title, numbered ` - k` where it is the `k`-th with that title (k > 1).
pub open spec fn numbered(ts: Seq<Seq<char>>, i: int) -> Seq<char> {
    let c = count_before(ts, ts[i], i);
    if c == 0 {
        ts[i]
    } else {
        ts[i] + seq![' ', '-', ' '] + decimal((c + 1) as nat)
    }
}

/// The found episodes that have at least one provider, in order.
pub open spec fn with_parts(found: Seq<(String, Vec<Episode>)>) -> Seq<(String, Vec<Episode>)>
    decreases found.len(),
{
    if found.len() == 0 {
        seq![]
    } else if found.last().1@.len() > 0 {
        with_parts(found.drop_last()).push(found.last())
    } else {
        with_parts(found.drop_last())
    }
}

/// Drops episodes without parts and numbers repeated titles (`Title - 2`, ...).
pub fn name_episodes(found: Vec<(String, Vec<Episode>)>) -> (r: Vec<(String, Vec<Episode>)>)
    ensures
        r@.len() == with_parts(found@).len(),
        forall|i: int|
            0 <= i < r@.len() ==> (#[trigger] r@[i]).0@ == numbered(
                titles_of(with_parts(found@)),
                i,
            ) && r@[i].1 == with_parts(found@)[i].1,
{
    let ghost orig = found@;
    let total = found.len();
    let mut rest = found;
    let mut out: Vec<(String, Vec<Episode>)> = Vec::new();
    let mut names: Vec<String> = Vec::new();
    let mut k: usize = 0;
    while rest.len() > 0
        invariant
            k + rest@.len() == orig.len(),
            orig.len() == total,
            rest@ == orig.subrange(k as int, orig.len() as int),
            out@.len() == names@.len() == with_parts(orig.subrange(0, k as int)).len(),
            forall|j: int| 0 <= j < names@.len() ==> (#[trigger] names@[j])@ == with_parts(
                orig.subrange(0, k as int),
            )[j].0@,
            forall|j: int|
                0 <= j < out@.len() ==> (#[trigger] out@[j]).0@ == numbered(
                    titles_of(with_parts(orig.subrange(0, k as int))),
                    j,
                ) && out@[j].1 == with_parts(orig.subrange(0, k as int))[j].1,
        decreases rest@.len(),
    {
        let ghost pre = orig.subrange(0, k as int);
        let ghost next = orig.subrange(0, k + 1);
        assert(next.drop_last() =~= pre);
        proof { lemma_with_parts_len(pre); }
        let (title, eps) = rest.remove(0);
        assert(orig[k as int] == (title, eps));
        if eps.len() > 0 {
            let ghost wp = with_parts(pre);
            let ghost wn = with_parts(next);
            assert(wn == wp.push((title, eps)));
            let mut c: u64 = 0;
            let mut j: usize = 0;
            while j < names.len()
                invariant
                    j <= names@.len() == wp.len(),
                    c as int == count_before(titles_of(wn), title@, j as int),
                    c <= j,
                    wp.len() <= k < total,
                    wn == wp.push((title, eps)),
                    forall|m: int| 0 <= m < names@.len() ==> (#[trigger] names@[m])@ == wp[m].0@,
                decreases names@.len() - j,
            {
                assert(titles_of(wn)[j as int] == names@[j as int]@);
                if names[j] == title {
                    c = c + 1;
                }
                j = j + 1;
            }
            assert(titles_of(wn)[wp.len() as int] == title@);
            let new_title = if c == 0 {
                title.clone()
            } else {
                let mut t: Vec<char> = chars_of(title.as_str());
                push_str(&mut t, " - ");
                let n = to_decimal(c + 1);
                push_str(&mut t, n.as_str());
                proof { reveal_strlit(" - "); }
                string_from(t.as_slice())
            };
            names.push(title);
            out.push((new_title, eps));
            proof {
                assert forall|m: int| 0 <= m < out@.len() implies (#[trigger] out@[m]).0@ == numbered(
                    titles_of(wn),
                    m,
                ) && out@[m].1 == wn[m].1 by {
                    if m < wp.len() {
                        assert(titles_of(wn)[m] == titles_of(wp)[m]);
                        assert(count_before(titles_of(wn), titles_of(wn)[m], m) == count_before(
                            titles_of(wp),
                            titles_of(wp)[m],
                            m,
                        )) by {
                            lemma_count_prefix(titles_of(wp), titles_of(wn), titles_of(wp)[m], m);
                        }
                    }
                }
            }
        } else {
            assert(with_parts(next) == with_parts(pre));
        }
        k = k + 1;
        assert(rest@ =~= orig.subrange(k as int, orig.len() as int));
    }
    assert(orig.subrange(0, orig.len() as int) =~= orig);
    out
}

proof fn lemma_with_parts_len(s: Seq<(String, Vec<Episode>)>)
    ensures
        with_parts(s).len() <= s.len(),
    decreases s.len(),
{
    if s.len() > 0 {
        lemma_with_parts_len(s.drop_last());
    }
}

proof fn lemma_count_prefix(a: Seq<Seq<char>>, b: Seq<Seq<char>>, t: Seq<char>, n: int)
    requires
        0 <= n <= a.len() <= b.len(),
        forall|i: int| 0 <= i < a.len() ==> a[i] == b[i],
    ensures
        count_before(a, t, n) == count_before(b, t, n),
    decreases n,
{
    if n > 0 {
        lemma_count_prefix(a, b, t, n - 1);
    }
}

/// The first episode of a listing with the given title.
pub open spec fn first_titled(eps: Seq<(String, Vec<Episode>)>, title: Seq<char>, j: int) -> bool {
    0 <= j < eps.len() && eps[j].0@ == title && forall|m: int| 0 <= m < j ==> (#[trigger] eps[m]).0@ != title
}

impl ListingStore {
    /// The parts of the episode titled `title` in the listing of `key`.
    pub fn episodes_titled(&self, key: &str, title: &str) -> (r: Option<&Vec<Episode>>)
        ensures
            match r {
                Some(v) => exists|i: int, j: int|
                    find_key(self.entries@, key@) == Some(i) && first_titled(
                        self.entries@[i].1.episodes@,
                        title@,
                        j,
                    ) && *v == self.entries@[i].1.episodes@[j].1,
                None => match find_key(self.entries@, key@) {
                    Some(i) => forall|j: int|
                        0 <= j < self.entries@[i].1.episodes@.len() ==> (
                        #[trigger] self.entries@[i].1.episodes@[j]).0@ != title@,
                    None => true,
                },
            },
    {
        match self.position(key) {
            None => None,
            Some(i) => {
                proof { lemma_find_key_bound(self.entries@, key@); }
                let eps = &self.entries[i].1.episodes;
                let mut j: usize = 0;
                while j < eps.len()
                    invariant
                        j <= eps@.len(),
                        i < self.entries@.len(),
                        find_key(self.entries@, key@) == Some(i as int),
                        eps@ == self.entries@[i as int].1.episodes@,
                        forall|m: int| 0 <= m < j ==> (#[trigger] eps@[m]).0@ != title@,
                    decreases eps@.len() - j,
                {
                    if same_text(eps[j].0.as_str(), title) {
                        assert(first_titled(eps@, title@, j as int));
                        assert(find_key(self.entries@, key@) == Some(i as int));
                        assert(self.entries@[i as int].1.episodes@ == eps@);
                        return Some(&eps[j].1);
                    }
                    j = j + 1;
                }
                None
            },
        }
    }
}

} // verus!
