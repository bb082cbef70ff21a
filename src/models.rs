//! Shows, episodes and the providers that host them.
use vstd::prelude::*;
use crate::text::{chars_of, contains_seq, find};

verus! {

/// A show of a channel, with its page and its icon.
#[derive(Clone, Debug)]
pub struct TvShow {
    pub title: String,
    pub url: String,
    pub icon: String,
}

/// The episodes of a show loaded so far, by title, and how far the listing
/// has been paged.
#[derive(Clone, Debug)]
pub struct TvShowEpisodes {
    pub episodes: Vec<(String, Vec<Episode>)>,
    pub cur_page: usize,
    pub last_page: usize,
}

/// The parts of an episode as one provider hosts them: (part title, link).
#[derive(Clone, Debug)]
pub struct Episode {
    pub provider: VideoProvider,
    pub links: Vec<(String, String)>,
}

/// The providers that host an episode's video.
#[derive(Clone, Copy, Debug, PartialEq, Eq, Structural)]
pub enum VideoProvider {
    TVLogy,
    FlashPlayer,
    DailyMotion,
    NetflixPlayer,
    Speed,
    Vkprime,
}

/// The uppercase form of a text.
pub uninterp spec fn upper_of(s: Seq<char>) -> Seq<char>;

/// Relies on `str::to_uppercase`: the uppercase mapping depends on the text alone.
#[verifier::external_body]
fn uppercase(s: &str) -> (r: String)
    ensures
        r@ == upper_of(s@),
{
    s.to_uppercase()
}

pub open spec fn word_tvlogy() -> Seq<char> {
    seq!['T', 'V', 'L', 'O', 'G', 'Y']
}

pub open spec fn word_flash() -> Seq<char> {
    seq!['F', 'L', 'A', 'S', 'H']
}

pub open spec fn word_dailymotion() -> Seq<char> {
    seq!['D', 'A', 'I', 'L', 'Y', 'M', 'O', 'T', 'I', 'O', 'N']
}

pub open spec fn word_netflix() -> Seq<char> {
    seq!['N', 'E', 'T', 'F', 'L', 'I', 'X']
}

pub open spec fn word_speed() -> Seq<char> {
    seq!['S', 'P', 'E', 'E', 'D']
}

pub open spec fn word_vkprime() -> Seq<char> {
    seq!['V', 'K', 'P', 'R', 'I', 'M', 'E']
}

/// The provider an uppercase heading names; the first match in this order wins.
pub open spec fn provider_named(upper: Seq<char>) -> Option<VideoProvider> {
    if contains_seq(upper, word_tvlogy()) {
        Some(VideoProvider::TVLogy)
    } else if contains_seq(upper, word_flash()) {
        Some(VideoProvider::FlashPlayer)
    } else if contains_seq(upper, word_dailymotion()) {
        Some(VideoProvider::DailyMotion)
    } else if contains_seq(upper, word_netflix()) {
        Some(VideoProvider::NetflixPlayer)
    } else if contains_seq(upper, word_speed()) {
        Some(VideoProvider::Speed)
    } else if contains_seq(upper, word_vkprime()) {
        Some(VideoProvider::Vkprime)
    } else {
        None
    }
}

fn holds(s: &Vec<char>, w: Vec<char>) -> (r: bool)
    ensures
        r == contains_seq(s@, w@),
{
    find(s, &w).is_some()
}

/// The priority of each provider: lower is tried first.
pub open spec fn priority_of(p: VideoProvider) -> i32 {
    match p {
        VideoProvider::TVLogy => 1,
        VideoProvider::DailyMotion => 2,
        VideoProvider::NetflixPlayer => 3,
        VideoProvider::FlashPlayer => 4,
        VideoProvider::Speed => 5,
        VideoProvider::Vkprime => 6,
    }
}

/// Providers that give a single playable file rather than a segmented manifest.
pub open spec fn single_file(p: VideoProvider) -> bool {
    p == VideoProvider::Speed || p == VideoProvider::Vkprime
}

impl VideoProvider {
    /// The provider named by an uppercase section heading.
    pub fn find_in_upper(upper: &str) -> (r: Option<VideoProvider>)
        ensures
            r == provider_named(upper@),
    {
        let s = chars_of(upper);
        let tvlogy: Vec<char> = vec!['T', 'V', 'L', 'O', 'G', 'Y'];
        let flash: Vec<char> = vec!['F', 'L', 'A', 'S', 'H'];
        let daily: Vec<char> = vec!['D', 'A', 'I', 'L', 'Y', 'M', 'O', 'T', 'I', 'O', 'N'];
        let netflix: Vec<char> = vec!['N', 'E', 'T', 'F', 'L', 'I', 'X'];
        let speed: Vec<char> = vec!['S', 'P', 'E', 'E', 'D'];
        let vkprime: Vec<char> = vec!['V', 'K', 'P', 'R', 'I', 'M', 'E'];
        assert(tvlogy@ =~= word_tvlogy());
        assert(flash@ =~= word_flash());
        assert(daily@ =~= word_dailymotion());
        assert(netflix@ =~= word_netflix());
        assert(speed@ =~= word_speed());
        assert(vkprime@ =~= word_vkprime());
        if holds(&s, tvlogy) {
            Some(VideoProvider::TVLogy)
        } else if holds(&s, flash) {
            Some(VideoProvider::FlashPlayer)
        } else if holds(&s, daily) {
            Some(VideoProvider::DailyMotion)
        } else if holds(&s, netflix) {
            Some(VideoProvider::NetflixPlayer)
        } else if holds(&s, speed) {
            Some(VideoProvider::Speed)
        } else if holds(&s, vkprime) {
            Some(VideoProvider::Vkprime)
        } else {
            None
        }
    }

    /// The provider named by a section heading, in any case.
    pub fn find(text: &str) -> (r: Option<VideoProvider>)
        ensures
            r == provider_named(upper_of(text@)),
    {
        let upper = uppercase(text);
        VideoProvider::find_in_upper(upper.as_str())
    }

    /// The order in which providers are tried: lower first.
    pub fn priority(&self) -> (r: i32)
        ensures
            r == priority_of(*self),
    {
        match self {
            VideoProvider::TVLogy => 1,
            VideoProvider::DailyMotion => 2,
            VideoProvider::NetflixPlayer => 3,
            VideoProvider::FlashPlayer => 4,
            VideoProvider::Speed => 5,
            VideoProvider::Vkprime => 6,
        }
    }

    /// Whether the provider yields a single playable file.
    pub fn is_mp4(&self) -> (r: bool)
        ensures
            r == single_file(*self),
    {
        match self {
            VideoProvider::TVLogy => false,
            VideoProvider::FlashPlayer => false,
            VideoProvider::DailyMotion => false,
            VideoProvider::NetflixPlayer => false,
            VideoProvider::Speed => true,
            VideoProvider::Vkprime => true,
        }
    }
}

/// The positions of `ps` whose provider has priority `p`, among the first `n`, in order.
pub open spec fn with_priority(ps: Seq<VideoProvider>, p: i32, n: int) -> Seq<usize>
    decreases n,
{
    if n <= 0 {
        seq![]
    } else if priority_of(ps[n - 1]) == p {
        with_priority(ps, p, n - 1).push((n - 1) as usize)
    } else {
        with_priority(ps, p, n - 1)
    }
}

/// The positions of `ps` with priorities 1 to `p` (exclusive), grouped by priority.
pub open spec fn by_priority_below(ps: Seq<VideoProvider>, p: i32) -> Seq<usize>
    decreases p,
{
    if p <= 1 {
        seq![]
    } else {
        by_priority_below(ps, (p - 1) as i32) + with_priority(ps, (p - 1) as i32, ps.len() as int)
    }
}

/// The order in which to try the providers of an episode: by priority, and in
/// page order among equal priorities.
pub fn priority_order(ps: &Vec<VideoProvider>) -> (r: Vec<usize>)
    ensures
        r@ == by_priority_below(ps@, 7),
{
    let mut out: Vec<usize> = Vec::new();
    let mut p: i32 = 1;
    while p <= 6
        invariant
            1 <= p <= 7,
            out@ == by_priority_below(ps@, p),
        decreases 7 - p,
    {
        let ghost start = out@;
        let mut i: usize = 0;
        while i < ps.len()
            invariant
                i <= ps@.len(),
                1 <= p <= 6,
                out@ == start + with_priority(ps@, p, i as int),
            decreases ps@.len() - i,
        {
            if ps[i].priority() == p {
                out.push(i);
            }
            i = i + 1;
            assert(out@ =~= start + with_priority(ps@, p, i as int));
        }
        p = p + 1;
    }
    out
}

} // verus!
