//! The script sandbox: a fresh interpreter per call runs an unpacker script
//! after a prelude of stub globals, and named globals are read back.
use vstd::prelude::*;
use vstd::string::StringSliceAdditionalSpecFns;
use crate::codec::{base64_encode, base64_of};
use crate::error::{ErrorKind, HttpError};
use crate::text::{chars_of, push_str, string_from};
use crate::url_util::{normalize_url, normalized};

verus! {

/// Stubs for the FirePlayer embed idiom: `FirePlayer(a, b, c)` copies
/// `videoUrl`, `videoServer` and `videoDisk` out of `b`; `$` runs a function
/// argument at once and answers `.ready(f)` by running `f`.
pub const FIRE_PLAYER_PRELUDE: &'static str = "
    let videoUrl = '';
    let videoServer = 12;
    let videoDisk = '';

    const document = {};

    const FirePlayer = function(a, b, c) {
        videoUrl = b.videoUrl;
        videoServer = b.videoServer;
        videoDisk = b.videoDisk ? b.videoDisk : '';
    };

    const $ = function(arg) {
        if (typeof arg == 'function') {
            arg();
        } else {
            console.log('In $', arg);
        }
        return {
            ready: function(a) {
                if (typeof a == 'function') {
                    a();
                } else {
                    console.log('In $.ready', a);
                }
            }
        };
    };
";

/// Stubs for the player-setup idiom: `jwplayer().setup(config)` keeps the file
/// of the source with the highest numeric label in `source`.
pub const PLAYER_SETUP_PRELUDE: &'static str = "
    let source = null;

    function jwplayer() {
        return {
            setup: function(config) {
                const arr = config.sources.sort((a, b) => parseInt(b.label) - parseInt(a.label));
                source = arr[0].file;

                return {
                    addButton: () => console.log('called setup.addButton'),
                    seek: () => console.log('called setup.seek'),
                };
            },
            on: () => console.log('called jwplayer.on'),
        };
    }
";

/// A character that may stand in a JavaScript identifier (ASCII subset).
pub open spec fn ident_char(c: char) -> bool {
    ('a' <= c <= 'z') || ('A' <= c <= 'Z') || ('0' <= c <= '9') || c == '_' || c == '$'
}

/// A plain JavaScript identifier: identifier characters, not starting with a digit.
pub open spec fn js_identifier(s: Seq<char>) -> bool {
    s.len() > 0 && !('0' <= s[0] <= '9') && forall|i: int| 0 <= i < s.len() ==> ident_char(#[trigger] s[i])
}

/// Whether `name` is a plain JavaScript identifier.
pub fn is_js_identifier(name: &str) -> (r: bool)
    ensures
        r == js_identifier(name@),
{
    let cs = chars_of(name);
    if cs.len() == 0 || ('0' <= cs[0] && cs[0] <= '9') {
        return false;
    }
    let mut i: usize = 0;
    while i < cs.len()
        invariant
            i <= cs@.len(),
            cs@ == name@,
            forall|j: int| 0 <= j < i ==> ident_char(#[trigger] cs@[j]),
        decreases cs@.len() - i,
    {
        let c = cs[i];
        if !(('a' <= c && c <= 'z') || ('A' <= c && c <= 'Z') || ('0' <= c && c <= '9') || c == '_'
            || c == '$') {
            assert(!ident_char(cs@[i as int]));
            return false;
        }
        i = i + 1;
    }
    true
}

/// Relies on `quick_js::Context`: a new context is built for each call, the
/// prelude and then the script are evaluated in it, and each named variable
/// is read back where it holds a string; any failure gives `None`. Each
/// evaluation ends in `void 0`, and each read passes only strings on, so no
/// object made by the script is ever converted into a Rust value. What the
/// script logs is dropped. There is no time limit: a script that never ends
/// keeps the call from returning.
#[verifier::external_body]
fn run_sandboxed(prelude: &str, script: &str, names: &Vec<String>) -> (r: Option<Vec<String>>)
    requires
        forall|i: int| 0 <= i < names@.len() ==> js_identifier(#[trigger] names@[i]@),
    ensures
        match r {
            Some(vals) => vals@.len() == names@.len(),
            None => true,
        },
{
    let quiet = |_: quick_js::console::Level, _: Vec<quick_js::JsValue>| {};
    let ctx = quick_js::Context::builder().console(quiet).build().ok()?;
    ctx.eval(&format!("{prelude}\n;void 0")).ok()?;
    ctx.eval(&format!("{script}\n;void 0")).ok()?;
    names
        .iter()
        .map(|n| {
            let code = format!("(function (v) {{ return typeof v === 'string' ? v : undefined; }})({n})");
            ctx.eval_as::<String>(&code).ok()
        })
        .collect()
}

/// Runs `script` after `prelude` in a fresh sandbox and reads back the named
/// variables, in order; each must be a plain identifier holding a string.
pub fn evaluate(prelude: &str, script: &str, names: &Vec<String>) -> (r: Result<Vec<String>, HttpError>)
    ensures
        match r {
            Ok(vals) => vals@.len() == names@.len() && forall|i: int|
                0 <= i < names@.len() ==> js_identifier(#[trigger] names@[i]@),
            Err(e) => e.kind == ErrorKind::Evaluation,
        },
        (exists|i: int| 0 <= i < names@.len() && !js_identifier(#[trigger] names@[i]@)) ==> r is Err,
{
    let mut i: usize = 0;
    while i < names.len()
        invariant
            i <= names@.len(),
            forall|j: int| 0 <= j < i ==> js_identifier(#[trigger] names@[j]@),
        decreases names@.len() - i,
    {
        if !is_js_identifier(names[i].as_str()) {
            return Err(HttpError::new(ErrorKind::Evaluation, "A variable name is not an identifier"));
        }
        i = i + 1;
    }
    match run_sandboxed(prelude, script, names) {
        Some(vals) => Ok(vals),
        None => Err(HttpError::new(ErrorKind::Evaluation, "The script failed or left no expected output")),
    }
}

/// The FirePlayer outputs of an unpacker script: the video URL, the server id,
/// and the disk token encoded in Base64.
pub fn eval_fire_player(script: &str) -> (r: Result<(String, String, String), HttpError>)
    ensures
        match r {
            Ok((_, _, disk)) => exists|raw: Seq<char>| disk@ == base64_of(vstd::utf8::encode_utf8(raw)),
            Err(e) => e.kind == ErrorKind::Evaluation,
        },
{
    let names: Vec<String> = vec![
        "videoUrl".to_string(),
        "videoServer".to_string(),
        "videoDisk".to_string(),
    ];
    let vals = evaluate(FIRE_PLAYER_PRELUDE, script, &names)?;
    let disk = base64_encode(vals[2].as_str());
    Ok((vals[0].clone(), vals[1].clone(), disk))
}

/// The file that the player-setup stubs kept from an unpacker script.
pub fn eval_player_setup(script: &str) -> (r: Result<String, HttpError>)
    ensures
        match r {
            Ok(_) => true,
            Err(e) => e.kind == ErrorKind::Evaluation,
        },
{
    let names: Vec<String> = vec!["source".to_string()];
    let vals = evaluate(PLAYER_SETUP_PRELUDE, script, &names)?;
    Ok(vals[0].clone())
}

/// `{url}?s={server}&d={disk}`.
pub open spec fn stream_with_params(url: Seq<char>, server: Seq<char>, disk: Seq<char>) -> Seq<char> {
    url + seq!['?', 's', '='] + server + seq!['&', 'd', '='] + disk
}

/// The stream URL recovered from an unpacker script: the video URL resolved
/// against the iframe, with the server id and the encoded disk token appended.
pub fn fire_player_stream_url(video_url: &str, server: &str, disk: &str, iframe_src: &str) -> (r:
    Result<String, HttpError>)
    ensures
        match r {
            Ok(s) => exists|u: Seq<char>|
                normalized(video_url@, iframe_src@) == Some(u) && s@ == stream_with_params(
                    u,
                    server@,
                    disk@,
                ),
            Err(e) => normalized(video_url@, iframe_src@) is None && e.kind == ErrorKind::Parse,
        },
{
    let u = normalize_url(video_url, iframe_src)?;
    let mut out: Vec<char> = chars_of(u.as_str());
    push_str(&mut out, "?s=");
    push_str(&mut out, server);
    push_str(&mut out, "&d=");
    push_str(&mut out, disk);
    proof {
        reveal_strlit("?s=");
        reveal_strlit("&d=");
    }
    assert(out@ =~= stream_with_params(u@, server@, disk@));
    Ok(string_from(out.as_slice()))
}

} // verus!
