use tv_shows_server::codec::{base64_encode, encode_uri_component, hash, to_hex};
use tv_shows_server::scan::{find_eval, find_source};
use tv_shows_server::title::{fix_title, replace_all};
use tv_shows_server::url_util::{find_host, join_relative, normalize_url};

#[test]
fn test_title() {
    assert_eq!(
        fix_title("Whos Your Daddy Watch Online – Episode 12"),
        "Whos Your Daddy – Episode 12"
    );
    assert_eq!(fix_title("Whos Your Daddy   Watch Online – "), "Whos Your Daddy");
    assert_eq!(fix_title("&amp; TV Shows"), "& TV");
    assert_eq!(
        fix_title("Naagini 10th September 2022&nbsp;"),
        "Naagini 10th September 2022"
    );
}

#[test]
fn title_entities_and_dash() {
    assert_eq!(fix_title("  a &lt;b&gt;\t\n c  -  "), "a <b> c");
    assert_eq!(fix_title(""), "");
    assert_eq!(fix_title("Shows"), "");
}

#[test]
fn test_decode() {
    let arr = [
        0x59_u8, 0x7a, 0x68, 0x6b, 0x4d, 0x6d, 0x49, 0x7a, 0x4e, 0x54, 0x55, 0x33, 0x4f, 0x44,
        0x6c, 0x6d, 0x5a, 0x6a, 0x46, 0x6b, 0x4d, 0x32, 0x56, 0x6c, 0x5a, 0x6d, 0x55, 0x79,
        0x5a, 0x54, 0x49, 0x31, 0x4e, 0x6d, 0x49, 0x77, 0x5a, 0x47, 0x4a, 0x6c, 0x59, 0x6d,
        0x55, 0x3d,
    ];
    let res = String::from_utf8_lossy(&arr);
    println!("{res}");
    assert_eq!(res, base64_encode("c8d2b355789ff1d3eefe2e256b0dbebe"));
}

#[test]
fn base64_of_empty_is_empty() {
    assert_eq!(base64_encode(""), "");
    assert_eq!(base64_encode("disk2"), "ZGlzazI=");
}

#[test]
fn test_url_parser() {
    assert_eq!(
        normalize_url(
            "category/star-plus/star-plus-awards-concerts/",
            "https://www.desitellybox.me/loda/lahsun",
        )
        .unwrap(),
        "https://www.desitellybox.me/loda/category/star-plus/star-plus-awards-concerts/"
    );
    assert_eq!(
        normalize_url(
            "category/star-plus/star-plus-awards-concerts/",
            "https://www.desitellybox.me/",
        )
        .unwrap(),
        "https://www.desitellybox.me/category/star-plus/star-plus-awards-concerts/"
    );
    assert_eq!(
        normalize_url(
            "/category/star-plus/star-plus-awards-concerts/",
            "https://www.desitellybox.me/",
        )
        .unwrap(),
        "https://www.desitellybox.me/category/star-plus/star-plus-awards-concerts/"
    );
}

#[test]
fn normalize_keeps_absolute_and_resolves_scheme_relative() {
    assert_eq!(
        normalize_url("https://a.example/x.ts", "https://b.example/y").unwrap(),
        "https://a.example/x.ts"
    );
    assert_eq!(
        normalize_url("//cdn.example/v.m3u8", "https://b.example/y").unwrap(),
        "https://cdn.example/v.m3u8"
    );
    assert!(normalize_url("x.ts", "not a url").is_err());
    assert!(normalize_url("http://[::1", "https://b.example/").is_err());
}

#[test]
fn find_host_gives_scheme_and_host() {
    assert_eq!(find_host("https://www.example.com/a/b?c=d").unwrap(), "https://www.example.com");
    assert!(find_host("relative/path").is_err());
    assert!(find_host("data:text/plain,hi").is_err());
}

#[test]
fn hash_is_seahash_in_hex() {
    let link = "https://example.com/embed/123";
    let expected = format!("{:x}", seahash::hash(link.as_bytes()));
    assert_eq!(hash(link), expected);
    assert_eq!(hash(link), hash(link));
    assert_ne!(hash(link), hash("https://example.com/embed/124"));
}

#[test]
fn hex_formatting() {
    assert_eq!(to_hex(0), "0");
    assert_eq!(to_hex(255), "ff");
    assert_eq!(to_hex(u64::MAX), "ffffffffffffffff");
    assert_eq!(to_hex(0x1a2b), "1a2b");
}

#[test]
fn uri_component_encoding() {
    assert_eq!(encode_uri_component("a b&c=d/é"), "a+b%26c%3Dd%2F%C3%A9");
    assert_eq!(encode_uri_component("*-._09AZaz"), "*-._09AZaz");
    assert_eq!(encode_uri_component(""), "");
}

#[test]
fn eval_block_is_balanced() {
    let html = "<script>var a=1; eval(function(p){return (p)}('x')) ; foo()</script>";
    assert_eq!(find_eval(html), Some("eval(function(p){return (p)}('x'))"));
    assert_eq!(find_eval("no script here"), None);
    assert_eq!(find_eval("eval(unclosed"), None);
}

#[test]
fn source_block_is_balanced() {
    let html = "player.setup({sources: {\"file\": \"https://x/y.m3u8\", \"o\": {\"a\": 1}}, width: 1})";
    assert_eq!(
        find_source(html),
        Some("{\"file\": \"https://x/y.m3u8\", \"o\": {\"a\": 1}}")
    );
    assert_eq!(find_source("sources: none"), None);
    assert_eq!(find_source("nothing"), None);
}

#[test]
fn relative_urls_join_the_page() {
    assert_eq!(
        join_relative("//cdn.example/a.ts", "https://p.example/x/y", "https", Some("p.example")).unwrap(),
        "https://cdn.example/a.ts"
    );
    assert_eq!(
        join_relative("/a.ts", "https://p.example/x/y", "https", Some("p.example")).unwrap(),
        "https://p.example/a.ts"
    );
    assert_eq!(join_relative("/a.ts", "file:///x/y", "file", None), None);
    assert_eq!(
        join_relative("a.ts", "https://p.example/x/y", "https", Some("p.example")).unwrap(),
        "https://p.example/x/a.ts"
    );
    assert_eq!(join_relative("a.ts", "nopath", "https", None).unwrap(), "nopath/a.ts");
}

#[test]
fn replacing_patterns() {
    assert_eq!(replace_all("a&amp;b&amp;", "&amp;", "&"), "a&b&");
    assert_eq!(replace_all("aaa", "aa", "b"), "ba");
    assert_eq!(replace_all("abc", "", "x"), "abc");
}
