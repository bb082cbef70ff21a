//! The computing steps of each provider's resolution strategy; the fetches
//! between them are made by the caller.
use vstd::prelude::*;
use crate::codec::base64_of;
use crate::error::{ErrorKind, HttpError};
use crate::literal::{literal_json, literal_to_json};
use crate::models::VideoProvider;
use crate::sandbox::{eval_fire_player, eval_player_setup, fire_player_stream_url, stream_with_params};
use crate::scan::{eval_block, find_eval};
use crate::scan::{find_source, source_block};
use crate::text::{push_str, string_from};
use crate::url_util::{normalize_url, normalized};

verus! {

/// The value of attribute `attr` of the first element of `html`, in
/// scraper's selection order, that matches the CSS selector `selector`.
pub uninterp spec fn html_first_attr(html: Seq<char>, selector: Seq<char>, attr: Seq<char>) -> Option<
    Seq<char>,
>;

/// The string value of field `field` of the JSON object in `text`.
pub uninterp spec fn json_string_field(text: Seq<char>, field: Seq<char>) -> Option<Seq<char>>;

/// Relies on `scraper::Html::parse_document`, `Selector::parse`, `Html::select`
/// and `Element::attr`: the attribute of the first element, in the order in
/// which `select` yields them (scraper's node order), that the selector
/// matches; `None` where the selector does not parse, nothing matches or that
/// element lacks the attribute.
#[verifier::external_body]
fn first_attr(html: &str, selector: &str, attr: &str) -> (r: Option<String>)
    ensures
        match r {
            Some(v) => html_first_attr(html@, selector@, attr@) == Some(v@),
            None => html_first_attr(html@, selector@, attr@) is None,
        },
{
    let sel = scraper::Selector::parse(selector).ok()?;
    let doc = scraper::Html::parse_document(html);
    let found = doc.select(&sel).next()?.value().attr(attr)?.to_string();
    Some(found)
}

/// Relies on `serde_json::from_str` into `serde_json::Value`, `Value::get` and
/// `Value::as_str`: the field's string value where `text` is a JSON object
/// with a string in that field; `None` otherwise.
#[verifier::external_body]
fn json_field(text: &str, field: &str) -> (r: Option<String>)
    ensures
        match r {
            Some(v) => json_string_field(text@, field@) == Some(v@),
            None => json_string_field(text@, field@) is None,
        },
{
    let v: serde_json::Value = serde_json::from_str(text).ok()?;
    Some(v.get(field)?.as_str()?.to_string())
}

pub open spec fn iframe_selector() -> Seq<char> {
    seq!['i', 'f', 'r', 'a', 'm', 'e', '[', 'a', 'l', 'l', 'o', 'w', 'f', 'u', 'l', 'l', 's', 'c', 'r', 'e', 'e', 'n', ']']
}

/// The `src` of the embed page's full-screen player iframe, resolved against
/// the page's URL.
pub fn find_iframe(html: &str, base_url: &str) -> (r: Result<String, HttpError>)
    ensures
        match r {
            Ok(s) => exists|src: Seq<char>|
                html_first_attr(html@, iframe_selector(), seq!['s', 'r', 'c']) == Some(src)
                    && normalized(src, base_url@) == Some(s@),
            Err(e) => e.kind == ErrorKind::Parse && match html_first_attr(
                html@,
                iframe_selector(),
                seq!['s', 'r', 'c'],
            ) {
                Some(src) => normalized(src, base_url@) is None,
                None => true,
            },
        },
{
    proof {
        reveal_strlit("iframe[allowfullscreen]");
        reveal_strlit("src");
        assert("iframe[allowfullscreen]"@ =~= iframe_selector());
        assert("src"@ =~= seq!['s', 'r', 'c']);
    }
    match first_attr(html, "iframe[allowfullscreen]", "src") {
        None => Err(HttpError::new(ErrorKind::Parse, "Failed to find the iframe")),
        Some(src) => normalize_url(src.as_str(), base_url),
    }
}

/// What reading field `field` of a page's `sources:` object gives: the
/// field's string value, read from the object literal rewritten as JSON,
/// where the page has such an object and the field is there; `None` otherwise.
pub open spec fn source_value(html: Seq<char>, field: Seq<char>, r: Option<Seq<char>>) -> bool {
    match r {
        Some(s) => exists|block: Seq<char>|
            source_block(html, Some(block)) && #[trigger] json_string_field(literal_json(block), field)
                == Some(s),
        None => source_block(html, None) || exists|block: Seq<char>|
            source_block(html, Some(block)) && #[trigger] json_string_field(literal_json(block), field)
                is None,
    }
}

pub open spec fn ok_value(r: Result<String, HttpError>) -> Option<Seq<char>> {
    match r {
        Ok(s) => Some(s@),
        Err(_) => None,
    }
}

pub open spec fn parse_error(r: Result<String, HttpError>) -> bool {
    match r {
        Ok(_) => true,
        Err(e) => e.kind == ErrorKind::Parse,
    }
}

/// Field `field` of the first `sources:` object literal of a player page.
pub fn source_field(html: &str, field: &str) -> (r: Result<String, HttpError>)
    ensures
        source_value(html@, field@, ok_value(r)),
        parse_error(r),
{
    match find_source(html) {
        None => Err(HttpError::new(ErrorKind::Parse, "Failed to find the video source")),
        Some(block) => match json_field(literal_to_json(block).as_str(), field) {
            Some(v) => Ok(v),
            None => Err(HttpError::new(ErrorKind::Parse, "The video source has no such field")),
        },
    }
}

/// The `file` of a FlashPlayer page's source object.
pub fn flash_player_file(html: &str) -> (r: Result<String, HttpError>)
    ensures
        source_value(html@, seq!['f', 'i', 'l', 'e'], ok_value(r)),
        parse_error(r),
{
    proof {
        reveal_strlit("file");
        assert("file"@ =~= seq!['f', 'i', 'l', 'e']);
    }
    source_field(html, "file")
}

/// The `src` of a DailyMotion or NetflixPlayer page's source object.
pub fn dailymotion_src(html: &str) -> (r: Result<String, HttpError>)
    ensures
        source_value(html@, seq!['s', 'r', 'c'], ok_value(r)),
        parse_error(r),
{
    proof {
        reveal_strlit("src");
        assert("src"@ =~= seq!['s', 'r', 'c']);
    }
    source_field(html, "src")
}

pub open spec fn get_video_suffix() -> Seq<char> {
    seq!['&', 'd', 'o', '=', 'g', 'e', 't', 'V', 'i', 'd', 'e', 'o']
}

/// The same-origin endpoint that answers TvLogy's video source as JSON.
pub fn tv_logy_video_endpoint(iframe_src: &str) -> (r: String)
    ensures
        r@ == iframe_src@ + get_video_suffix(),
{
    let mut out: Vec<char> = Vec::new();
    push_str(&mut out, iframe_src);
    push_str(&mut out, "&do=getVideo");
    proof {
        reveal_strlit("&do=getVideo");
        assert("&do=getVideo"@ =~= get_video_suffix());
    }
    string_from(out.as_slice())
}

pub open spec fn video_source_field() -> Seq<char> {
    seq!['v', 'i', 'd', 'e', 'o', 'S', 'o', 'u', 'r', 'c', 'e']
}

/// The `videoSource` of the endpoint's JSON answer.
pub fn tv_logy_video_source(json: &str) -> (r: Result<String, HttpError>)
    ensures
        match r {
            Ok(s) => json_string_field(json@, video_source_field()) == Some(s@),
            Err(e) => json_string_field(json@, video_source_field()) is None && e.kind
                == ErrorKind::Parse,
        },
{
    proof {
        reveal_strlit("videoSource");
        assert("videoSource"@ =~= video_source_field());
    }
    match json_field(json, "videoSource") {
        Some(v) => Ok(v),
        None => Err(HttpError::new(ErrorKind::Parse, "No videoSource in the answer")),
    }
}

/// Whether the provider is first asked through its JSON endpoint.
pub open spec fn uses_json_endpoint(p: VideoProvider) -> bool {
    p == VideoProvider::TVLogy
}

impl VideoProvider {
    /// Whether the provider is first asked through its same-origin JSON endpoint.
    pub fn has_json_endpoint(&self) -> (r: bool)
        ensures
            r == uses_json_endpoint(*self),
    {
        match self {
            VideoProvider::TVLogy => true,
            _ => false,
        }
    }
}

/// The media URL that a provider's iframe page gives: FlashPlayer reads the
/// `file` of its source object, DailyMotion and NetflixPlayer its `src`;
/// Speed and Vkprime run the page's unpacker script with the player-setup
/// stubs and resolve the chosen file against the iframe; TvLogy runs it with
/// the FirePlayer stubs and appends the server and disk parameters.
pub fn media_from_iframe_page(provider: VideoProvider, page: &str, iframe_src: &str) -> (r: Result<
    String,
    HttpError,
>)
    ensures
        match provider {
            VideoProvider::FlashPlayer => source_value(page@, seq!['f', 'i', 'l', 'e'], ok_value(r))
                && parse_error(r),
            VideoProvider::DailyMotion | VideoProvider::NetflixPlayer => source_value(
                page@,
                seq!['s', 'r', 'c'],
                ok_value(r),
            ) && parse_error(r),
            VideoProvider::Speed | VideoProvider::Vkprime => match r {
                Ok(s) => !eval_block(page@, None) && exists|src: Seq<char>|
                    #[trigger] normalized(src, iframe_src@) == Some(s@),
                Err(e) => e.kind == ErrorKind::Parse || e.kind == ErrorKind::Evaluation,
            },
            VideoProvider::TVLogy => match r {
                Ok(s) => !eval_block(page@, None) && exists|
                    u: Seq<char>,
                    v: Seq<char>,
                    server: Seq<char>,
                    raw_disk: Seq<char>,
                |
                    #[trigger] normalized(u, iframe_src@) == Some(v) && s@ == #[trigger] stream_with_params(
                        v,
                        server,
                        base64_of(vstd::utf8::encode_utf8(raw_disk)),
                    ),
                Err(e) => e.kind == ErrorKind::Parse || e.kind == ErrorKind::Evaluation,
            },
        },
        (provider == VideoProvider::Speed || provider == VideoProvider::Vkprime || provider
            == VideoProvider::TVLogy) && eval_block(page@, None) ==> r is Err && r->Err_0.kind
            == ErrorKind::Parse,
{
    match provider {
        VideoProvider::FlashPlayer => flash_player_file(page),
        VideoProvider::DailyMotion | VideoProvider::NetflixPlayer => dailymotion_src(page),
        VideoProvider::Speed | VideoProvider::Vkprime => {
            let script = match find_eval(page) {
                Some(s) => s,
                None => return Err(HttpError::new(ErrorKind::Parse, "Couldn't find the eval script")),
            };
            let source = eval_player_setup(script)?;
            normalize_url(source.as_str(), iframe_src)
        },
        VideoProvider::TVLogy => {
            let script = match find_eval(page) {
                Some(s) => s,
                None => return Err(HttpError::new(ErrorKind::Parse, "Couldn't find the eval script")),
            };
            let (video_url, server, disk) = eval_fire_player(script)?;
            fire_player_stream_url(video_url.as_str(), server.as_str(), disk.as_str(), iframe_src)
        },
    }
}

} // verus!
