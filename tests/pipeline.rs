use tv_shows_server::context::{cache_folder, set_cache_folder, AppContext};
use tv_shows_server::episodes::{choose_attempt, collect_parts};
use tv_shows_server::literal::literal_to_json;
use tv_shows_server::listing::{
    name_episodes, parse_page_number, show_key, ListingStep, ListingStore, RequestStack, ScrapedPage,
};
use tv_shows_server::manifest::{convert_m3u8, find_best_video_url, lines_of, join};
use tv_shows_server::metadata::{cached_result, manifest_entry, metadata_url, mp4_entry, mp4_url};
use tv_shows_server::models::{priority_order, Episode, TvShowEpisodes, VideoProvider};
use tv_shows_server::providers::{
    dailymotion_src, find_iframe, flash_player_file, media_from_iframe_page, tv_logy_video_endpoint,
    tv_logy_video_source,
};
use tv_shows_server::proxy::{
    after_primary_failure, filter_response_headers, first_transport, forward_headers,
    is_allowed_header, BadHosts, Transport,
};
use tv_shows_server::sweep::{fmt, secs_until_sweep, should_remove_dir, should_remove_file};
use tv_shows_server::telemetry::{rate_per_sec, Throughput};

fn url_param(line: &str) -> String {
    let query = line.split_once('?').unwrap().1;
    form_urlencoded::parse(query.as_bytes())
        .find(|(k, _)| k == "url")
        .map(|(_, v)| v.into_owned())
        .unwrap()
}

#[test]
fn manifest_rewrite_round_trip() {
    let m3u8 = "#EXTM3U\n#EXT-X-TARGETDURATION:10\n#EXTINF:10.0,\nseg1.ts\n#EXTINF:9.5,\nhttps://cdn.example/seg 2.ts\n#EXT-X-ENDLIST";
    let out = convert_m3u8(m3u8, "https://h.example/path/index.m3u8", "abc").unwrap();
    let lines: Vec<&str> = out.split('\n').collect();
    assert_eq!(lines.len(), 7);
    assert_eq!(lines[2], "#EXTINF:10.0,");
    assert_eq!(lines[3], "/media?hash=abc&url=https%3A%2F%2Fh.example%2Fpath%2Fseg1.ts");
    assert_eq!(url_param(lines[3]), "https://h.example/path/seg1.ts");
    assert_eq!(url_param(lines[5]), "https://cdn.example/seg 2.ts");
    let media = lines.iter().filter(|l| l.starts_with("/media?")).count();
    assert_eq!(media, 2);
    assert_eq!(lines[6], "#EXT-X-ENDLIST");
}

#[test]
fn manifest_missing_segment_is_an_error() {
    assert!(convert_m3u8("#EXTM3U\n#EXTINF:10.0,", "https://h.example/a.m3u8", "abc").is_err());
}

#[test]
fn lines_split_and_join() {
    let ls = lines_of("a\n\nb\n");
    assert_eq!(ls, vec!["a", "", "b", ""]);
    assert_eq!(join(&ls), "a\n\nb\n");
}

#[test]
fn best_variant_is_the_last_listed() {
    let master = "#EXTM3U\n#EXT-X-STREAM-INF:BANDWIDTH=1\nlow.m3u8\n#EXT-X-STREAM-INF:BANDWIDTH=2\nhigh.m3u8\n";
    assert_eq!(
        find_best_video_url(master, "https://h.example/v/master.m3u8").unwrap(),
        "https://h.example/v/high.m3u8"
    );
    assert!(find_best_video_url("#EXTM3U\nseg.ts", "https://h.example/").is_err());
}

#[test]
fn metadata_links() {
    assert_eq!(metadata_url("abc", "metadata.m3u8"), "/metadata/abc/metadata.m3u8");
    assert_eq!(
        mp4_url("abc", "https://x.example/y.mp4"),
        "/media?is_mp4=true&hash=abc&url=https%3A%2F%2Fx.example%2Fy.mp4"
    );
}

#[test]
fn second_resolution_answers_from_the_cache() {
    let e = mp4_entry("abc", "https://x.example/y.mp4");
    assert_eq!(cached_result(VideoProvider::Speed, "abc", e.stored.clone()), e.result);
    let m = manifest_entry("abc", "#EXTM3U".to_string());
    assert_eq!(m.stored, "#EXTM3U");
    assert_eq!(cached_result(VideoProvider::TVLogy, "abc", m.stored.clone()), m.result);
    assert_eq!(m.result, "/metadata/abc/metadata.m3u8");
}

#[test]
fn iframe_and_sources() {
    let html = r#"<html><body><iframe src="/other"></iframe><iframe allowfullscreen src="/embed/1"></iframe></body></html>"#;
    assert_eq!(
        find_iframe(html, "https://site.example/show/ep").unwrap(),
        "https://site.example/embed/1"
    );
    assert!(find_iframe("<html></html>", "https://site.example/").is_err());
    let page = r#"jwplayer("p").setup({sources: {"file": "https://x.example/m.m3u8", "src": "https://y.example/n.m3u8"}})"#;
    assert_eq!(flash_player_file(page).unwrap(), "https://x.example/m.m3u8");
    assert_eq!(dailymotion_src(page).unwrap(), "https://y.example/n.m3u8");
    assert_eq!(flash_player_file("sources: {file: 'x'}").unwrap(), "x");
    assert_eq!(
        flash_player_file(r#"jwplayer("p").setup({sources: {file: "https:\/\/x.example\/m.m3u8", label: 'HD'}})"#).unwrap(),
        "https://x.example/m.m3u8"
    );
    assert!(flash_player_file("sources: {label: 'HD'}").is_err());
    assert!(flash_player_file("sources: {file: 12}").is_err());
}

#[test]
fn tv_logy_endpoint() {
    assert_eq!(
        tv_logy_video_endpoint("https://tvlogy.to/player/index.php?data=1"),
        "https://tvlogy.to/player/index.php?data=1&do=getVideo"
    );
    assert_eq!(
        tv_logy_video_source(r#"{"hls":true,"videoSource":"https://v.example/m.m3u8"}"#).unwrap(),
        "https://v.example/m.m3u8"
    );
    assert!(tv_logy_video_source("not json").is_err());
}

#[test]
fn providers_by_heading() {
    assert_eq!(VideoProvider::find("TvLogy Server"), Some(VideoProvider::TVLogy));
    assert_eq!(VideoProvider::find("Flash Player HD"), Some(VideoProvider::FlashPlayer));
    assert_eq!(VideoProvider::find("dailymotion"), Some(VideoProvider::DailyMotion));
    assert_eq!(VideoProvider::find("Netflix"), Some(VideoProvider::NetflixPlayer));
    assert_eq!(VideoProvider::find("Speed"), Some(VideoProvider::Speed));
    assert_eq!(VideoProvider::find("VKPrime"), Some(VideoProvider::Vkprime));
    assert_eq!(VideoProvider::find("unknown"), None);
    assert_eq!(VideoProvider::TVLogy.priority(), 1);
    assert_eq!(VideoProvider::FlashPlayer.priority(), 4);
    assert_eq!(VideoProvider::Vkprime.priority(), 6);
    assert!(VideoProvider::Speed.is_mp4());
    assert!(!VideoProvider::DailyMotion.is_mp4());
}

#[test]
fn partial_provider_falls_through() {
    let tv_logy = vec![Some(("Part 1".to_string(), "a".to_string())), None];
    let flash = vec![
        Some(("Part 1".to_string(), "b".to_string())),
        Some(("Part 2".to_string(), "c".to_string())),
    ];
    let (i, parts) = choose_attempt(vec![tv_logy, flash]).unwrap();
    assert_eq!(i, 1);
    assert_eq!(parts, vec![("Part 1".to_string(), "b".to_string()), ("Part 2".to_string(), "c".to_string())]);
    assert!(choose_attempt(vec![vec![None::<u8>], vec![Some(1), None]]).is_none());
    assert_eq!(collect_parts(vec![Some(1), Some(2)]), Some(vec![1, 2]));
    assert_eq!(collect_parts(vec![Some(1), None]), None);
}

fn page(titles: &[&str], cur: usize, last: usize) -> ScrapedPage {
    ScrapedPage {
        episodes: titles
            .iter()
            .map(|t| {
                (
                    t.to_string(),
                    vec![Episode { provider: VideoProvider::TVLogy, links: vec![] }],
                )
            })
            .collect(),
        cur_page: cur,
        last_page: last,
    }
}

#[test]
fn identical_requests_scrape_once() {
    let mut store = ListingStore::new(0);
    let key = "Show:https://s.example/show/";
    let mut fetches = 0;
    let mut answers = Vec::new();
    for _ in 0..4 {
        let resp = match store.next_step(key, "https://s.example/show/") {
            ListingStep::Answer(r) => r,
            ListingStep::Fetch(u) => {
                assert_eq!(u, "https://s.example/show/");
                fetches += 1;
                store.apply_page(key, Some(page(&["Ep 1", "Ep 2"], 1, 1)))
            }
        };
        answers.push((resp.episodes, resp.has_more));
    }
    assert_eq!(fetches, 1);
    assert!(answers.iter().all(|a| *a == answers[0]));
    assert_eq!(answers[0], (vec!["Ep 1".to_string(), "Ep 2".to_string()], false));
}

#[test]
fn incomplete_listing_scrapes_the_next_page() {
    let mut store = ListingStore::new(0);
    let key = "Show:https://s.example/show/";
    let r = store.apply_page(key, Some(page(&["Ep 1"], 1, 3)));
    assert!(r.has_more);
    match store.next_step(key, "https://s.example/show/") {
        ListingStep::Fetch(u) => assert_eq!(u, "https://s.example/show/page/2/"),
        ListingStep::Answer(_) => panic!("expected a fetch"),
    }
    let r = store.apply_page(key, Some(page(&["Ep 2"], 2, 3)));
    assert_eq!(r.episodes, vec!["Ep 1".to_string(), "Ep 2".to_string()]);
    let r = store.apply_page(key, None);
    assert_eq!(r.episodes.len(), 2);
    assert!(store.response("Other:x").is_none());
    assert_eq!(store.cached_answer(key, false).map(|r| r.episodes.len()), Some(2));
    assert!(store.cached_answer(key, true).is_none());
    assert!(store.clear_if_expired(10, 100));
    assert!(store.response(key).is_none());
}

#[test]
fn most_recent_request_first() {
    let mut stack = RequestStack::new();
    stack.push(1);
    stack.push(2);
    stack.push(3);
    assert_eq!(stack.pop_latest(), Some(3));
    stack.push(4);
    assert_eq!(stack.pop_latest(), Some(4));
    assert_eq!(stack.pop_latest(), Some(2));
    assert_eq!(stack.pop_latest(), Some(1));
    assert_eq!(stack.pop_latest(), None);
}

#[test]
fn listing_response() {
    let l = TvShowEpisodes {
        episodes: vec![("A".to_string(), vec![])],
        cur_page: 1,
        last_page: 2,
    };
    let r = l.to_res();
    assert_eq!(r.episodes, vec!["A".to_string()]);
    assert!(r.has_more);
}

#[test]
fn sweep_decisions() {
    assert!(should_remove_file("metadata.m3u8", 3 * 86400));
    assert!(!should_remove_file("metadata.m3u8", 3600));
    assert!(!should_remove_file("channels.json", 30 * 86400));
    assert!(!should_remove_file("tv_shows.json", 30 * 86400));
    assert!(should_remove_dir(false, 0));
    assert!(!should_remove_dir(false, 1));
    assert!(!should_remove_dir(true, 0));
}

#[test]
fn sweep_schedule_and_clock() {
    assert_eq!(secs_until_sweep(0), 5400);
    assert_eq!(secs_until_sweep(5400), 86400);
    assert_eq!(secs_until_sweep(86399), 5401);
    assert_eq!(fmt(3725), "01:02:05");
    assert_eq!(fmt(65), "01:05");
    assert_eq!(fmt(5), "00:05");
    assert_eq!(fmt(360000), "100:00:00");
}

fn h(k: &str, v: &str) -> (String, String) {
    (k.to_string(), v.to_string())
}

#[test]
fn media_relays_only_allowed_headers() {
    let client = vec![h("accept", "*/*"), h("range", "bytes=0-")];
    assert_eq!(forward_headers(&client, None, false), client);
    let upstream = vec![
        h("content-type", "video/mp2t"),
        h("set-cookie", "a=b"),
        h("Content-Length", "3"),
        h("server", "x"),
    ];
    assert_eq!(
        filter_response_headers(&upstream, false),
        vec![h("content-type", "video/mp2t"), h("Content-Length", "3")]
    );
    assert_eq!(filter_response_headers(&upstream, true), upstream);
}

#[test]
fn referer_override_and_mp4_bypass() {
    let client = vec![h("user-agent", "x"), h("referer", "https://old/"), h("Accept", "*/*")];
    assert_eq!(
        forward_headers(&client, Some("https://new/".to_string()), false),
        vec![h("referer", "https://new/"), h("Accept", "*/*")]
    );
    assert_eq!(
        forward_headers(&client, Some("https://new/".to_string()), true),
        vec![h("referer", "https://new/"), h("user-agent", "x"), h("Accept", "*/*")]
    );
    assert!(is_allowed_header("ETag"));
    assert!(!is_allowed_header("x-forwarded-for"));
}

#[test]
fn bad_hosts_use_the_fallback() {
    let mut bad = BadHosts::new();
    assert_eq!(first_transport(&bad, "a.example"), Transport::Primary);
    assert_eq!(after_primary_failure(&mut bad, "a.example"), Transport::Fallback);
    assert_eq!(first_transport(&bad, "a.example"), Transport::Fallback);
    assert_eq!(first_transport(&bad, "b.example"), Transport::Primary);
    after_primary_failure(&mut bad, "a.example");
    assert_eq!(bad.hosts.len(), 1);
}

#[test]
fn cache_folder_is_set_once() {
    let mut ctx = AppContext::new();
    assert_eq!(cache_folder(&ctx), "cache");
    assert!(set_cache_folder(&mut ctx, "/tmp/c").is_ok());
    assert_eq!(cache_folder(&ctx), "/tmp/c");
    assert!(set_cache_folder(&mut ctx, "/tmp/d").is_err());
    assert_eq!(cache_folder(&ctx), "/tmp/c");
}

#[test]
fn providers_in_priority_order() {
    let ps = vec![
        VideoProvider::Speed,
        VideoProvider::TVLogy,
        VideoProvider::FlashPlayer,
        VideoProvider::TVLogy,
        VideoProvider::DailyMotion,
    ];
    assert_eq!(priority_order(&ps), vec![1, 3, 4, 2, 0]);
    assert_eq!(priority_order(&vec![]), Vec::<usize>::new());
}

#[test]
fn repeated_titles_are_numbered() {
    let ep = || vec![Episode { provider: VideoProvider::Speed, links: vec![] }];
    let found = vec![
        ("A".to_string(), ep()),
        ("B".to_string(), vec![]),
        ("A".to_string(), ep()),
        ("A".to_string(), ep()),
        ("C".to_string(), ep()),
    ];
    let named = name_episodes(found);
    let titles: Vec<&str> = named.iter().map(|(t, _)| t.as_str()).collect();
    assert_eq!(titles, vec!["A", "A - 2", "A - 3", "C"]);
}

#[test]
fn page_numbers_parse_like_usize() {
    assert_eq!(parse_page_number("12"), Some(12));
    assert_eq!(parse_page_number("+7"), Some(7));
    assert_eq!(parse_page_number(""), None);
    assert_eq!(parse_page_number("+"), None);
    assert_eq!(parse_page_number("1a"), None);
    assert_eq!(parse_page_number("99999999999999999999999"), None);
    assert_eq!(parse_page_number(&usize::MAX.to_string()), Some(usize::MAX));
}

#[test]
fn episode_parts_by_title() {
    let key = show_key("Show", "https://s.example/show/");
    assert_eq!(key, "Show:https://s.example/show/");
    let mut store = ListingStore::new(0);
    store.apply_page(&key, Some(page(&["Ep 1", "Ep 2"], 1, 1)));
    assert_eq!(store.episodes_titled(&key, "Ep 2").map(|v| v.len()), Some(1));
    assert!(store.episodes_titled(&key, "Ep 3").is_none());
    assert!(store.episodes_titled("Other", "Ep 1").is_none());
}

#[test]
fn throughput_counts_and_resets() {
    let mut t = Throughput::new();
    t.record(100);
    t.record(50);
    assert_eq!(t.take(), 150);
    assert_eq!(t.take(), 0);
    t.record(u64::MAX);
    t.record(1);
    assert_eq!(t.bytes, u64::MAX);
    assert_eq!(rate_per_sec(1000, 10), 100);
}

#[test]
fn iframe_page_dispatch() {
    let page = r#"setup({sources: {"file": "https://x.example/m.m3u8", "src": "https://y.example/n.m3u8"}})"#;
    let iframe = "https://p.example/embed/1";
    assert_eq!(
        media_from_iframe_page(VideoProvider::FlashPlayer, page, iframe).unwrap(),
        "https://x.example/m.m3u8"
    );
    assert_eq!(
        media_from_iframe_page(VideoProvider::NetflixPlayer, page, iframe).unwrap(),
        "https://y.example/n.m3u8"
    );
    assert!(media_from_iframe_page(VideoProvider::Speed, page, iframe).is_err());
    assert!(media_from_iframe_page(VideoProvider::TVLogy, page, iframe).is_err());
    assert!(VideoProvider::TVLogy.has_json_endpoint());
    assert!(!VideoProvider::Speed.has_json_endpoint());
}

#[test]
fn object_literals_become_json() {
    assert_eq!(
        literal_to_json("{file: 'https://x/a.m3u8', label: \"720p\", n: 1, ok: true}"),
        "{\"file\": \"https://x/a.m3u8\", \"label\": \"720p\", \"n\": 1, \"ok\": true}"
    );
    let json = r#"{"file": "a", "list": [1, 2], "o": {"k": null}}"#;
    assert_eq!(literal_to_json(json), json);
    assert_eq!(literal_to_json(r#"{a: 'x"y\'z'}"#), r#"{"a": "x\"y'z"}"#);
    assert_eq!(literal_to_json("{key"), "{\"key\"");
}
