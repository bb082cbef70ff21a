//! The cached result of resolving one source link.
use vstd::prelude::*;
use vstd::string::StringSliceAdditionalSpecFns;
use crate::codec::{encode_uri_component, form_encode, link_key};
use crate::manifest::METADATA_FILE;
use crate::models::{single_file, VideoProvider};
use crate::text::{push_str, string_from};

verus! {

pub open spec fn metadata_file_name() -> Seq<char> {
    seq!['m', 'e', 't', 'a', 'd', 'a', 't', 'a', '.', 'm', '3', 'u', '8']
}

pub open spec fn metadata_prefix() -> Seq<char> {
    seq!['/', 'm', 'e', 't', 'a', 'd', 'a', 't', 'a', '/']
}

pub open spec fn mp4_prefix() -> Seq<char> {
    seq![
        '/', 'm', 'e', 'd', 'i', 'a', '?', 'i', 's', '_', 'm', 'p', '4', '=', 't', 'r', 'u', 'e',
        '&', 'h', 'a', 's', 'h', '=',
    ]
}

/// `/metadata/{folder}/{file}`: where a client fetches a cached file.
pub open spec fn metadata_path(folder: Seq<char>, file: Seq<char>) -> Seq<char> {
    metadata_prefix() + folder + seq!['/'] + file
}

/// `/media?is_mp4=true&hash={hash}&url={encoded url}`: the proxy link of a single file.
pub open spec fn mp4_link(hash: Seq<char>, url: Seq<char>) -> Seq<char> {
    mp4_prefix() + hash + seq!['&', 'u', 'r', 'l', '='] + form_encode(vstd::utf8::encode_utf8(url))
}

/// The path under which a client fetches the cached file `file_name` of folder `folder`.
pub fn metadata_url(folder: &str, file_name: &str) -> (r: String)
    ensures
        r@ == metadata_path(folder@, file_name@),
{
    let mut out: Vec<char> = Vec::new();
    push_str(&mut out, "/metadata/");
    push_str(&mut out, folder);
    out.push('/');
    push_str(&mut out, file_name);
    proof {
        reveal_strlit("/metadata/");
        assert("/metadata/"@ =~= metadata_prefix());
    }
    assert(out@ =~= metadata_path(folder@, file_name@));
    string_from(out.as_slice())
}

/// The proxy link through which a single-file video is played.
pub fn mp4_url(hash: &str, url: &str) -> (r: String)
    ensures
        r@ == mp4_link(hash@, url@),
{
    let mut out: Vec<char> = Vec::new();
    push_str(&mut out, "/media?is_mp4=true&hash=");
    push_str(&mut out, hash);
    push_str(&mut out, "&url=");
    let enc = encode_uri_component(url);
    push_str(&mut out, enc.as_str());
    proof {
        reveal_strlit("/media?is_mp4=true&hash=");
        reveal_strlit("&url=");
        assert("/media?is_mp4=true&hash="@ =~= mp4_prefix());
    }
    assert(out@ =~= mp4_link(hash@, url@));
    string_from(out.as_slice())
}

/// What resolving a link gives: the result handed to the client, and the text
/// stored in the link's metadata file.
#[derive(Clone, Debug)]
pub struct MetadataEntry {
    pub result: String,
    pub stored: String,
}

/// The entry of a single-file link: the proxy link is both returned and stored.
pub fn mp4_entry(hash: &str, url: &str) -> (r: MetadataEntry)
    ensures
        r.result@ == mp4_link(hash@, url@),
        r.stored@ == r.result@,
{
    let link = mp4_url(hash, url);
    MetadataEntry { stored: link.clone(), result: link }
}

/// The entry of a manifest link: the rewritten manifest is stored, and the
/// client is pointed at the path from which it is served.
pub fn manifest_entry(hash: &str, rewritten: String) -> (r: MetadataEntry)
    ensures
        r.result@ == metadata_path(hash@, metadata_file_name()),
        r.stored@ == rewritten@,
{
    proof {
        reveal_strlit("metadata.m3u8");
        assert(METADATA_FILE@ =~= metadata_file_name());
    }
    MetadataEntry { result: metadata_url(hash, METADATA_FILE), stored: rewritten }
}

/// What a link whose metadata file holds `stored` resolves to, with no fetch.
pub open spec fn cached_result_of(provider: VideoProvider, hash: Seq<char>, stored: Seq<char>) -> Seq<
    char,
> {
    if single_file(provider) {
        stored
    } else {
        metadata_path(hash, metadata_file_name())
    }
}

/// The result for a link whose metadata file exists: a single-file link's
/// stored proxy link, or the path of a manifest link's stored manifest.
pub fn cached_result(provider: VideoProvider, hash: &str, stored: String) -> (r: String)
    ensures
        r@ == cached_result_of(provider, hash@, stored@),
{
    if provider.is_mp4() {
        stored
    } else {
        proof {
            reveal_strlit("metadata.m3u8");
            assert(METADATA_FILE@ =~= metadata_file_name());
        }
        metadata_url(hash, METADATA_FILE)
    }
}

/// What the first resolution of a link returns and stores, for the link's
/// provider: a single-file proxy link, or the path of a rewritten manifest.
pub open spec fn fresh_entry(
    provider: VideoProvider,
    hash: Seq<char>,
    url: Seq<char>,
    rewritten: Seq<char>,
    result: Seq<char>,
    stored: Seq<char>,
) -> bool {
    if single_file(provider) {
        result == mp4_link(hash, url) && stored == result
    } else {
        result == metadata_path(hash, metadata_file_name()) && stored == rewritten
    }
}

/// The key of a link is the same on every call, so resolving the link a
/// second time reads what the first resolution stored, and returns what the
/// first returned, without fetching anything.
pub proof fn lemma_fetch_idempotent(
    provider: VideoProvider,
    link: Seq<char>,
    url: Seq<char>,
    rewritten: Seq<char>,
    result: Seq<char>,
    stored: Seq<char>,
)
    requires
        fresh_entry(provider, link_key(link), url, rewritten, result, stored),
    ensures
        cached_result_of(provider, link_key(link), stored) == result,
{
}

} // verus!
