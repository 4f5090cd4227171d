use foxlite::addr::{ip, local_ipv4, loopback_ipv6, parse_ipv4, parse_ipv6};
use foxlite::number::{decimal, hex16, parse_number};
use foxlite::url_util::{
    choose_url, is_internal, looks_like_host, origin_path, page_named, page_of, scheme_for,
    search_query_of, search_template, search_url, terms_among, to_url, NEW_TAB_PAGE,
};
use foxlite::web::{host_of, name_after_slash, WebUrl};

fn nav(s: &str) -> String {
    to_url(s, "duckduckgo").unwrap().as_str().to_string()
}

fn chars(s: &str) -> Vec<char> {
    s.chars().collect()
}

#[test]
fn full_urls_pass_through() {
    assert_eq!(
        nav("https://example.com/a?b=1"),
        "https://example.com/a?b=1"
    );
    assert_eq!(nav("http://localhost:3000/x"), "http://localhost:3000/x");
}

#[test]
fn bare_hosts_navigate() {
    assert_eq!(nav("example.com"), "https://example.com/");
    assert_eq!(
        nav("sub.example.co.uk/path"),
        "https://sub.example.co.uk/path"
    );
    assert_eq!(nav("localhost:8080"), "http://localhost:8080/");
    assert_eq!(nav("192.168.1.10/admin"), "http://192.168.1.10/admin");
    assert_eq!(nav("1.1.1.1"), "https://1.1.1.1/");
}

#[test]
fn dotted_non_hosts_search() {
    for s in ["1.5", "e.g.", "v2.0", "node.js is fun", "3.14 pi", "a."] {
        assert!(nav(s).starts_with("https://duckduckgo.com/?q="), "{s}");
    }
    assert_eq!(nav("hello world"), "https://duckduckgo.com/?q=hello+world");
}

#[test]
fn engines() {
    assert!(to_url("cats", "google")
        .unwrap()
        .as_str()
        .starts_with("https://www.google.com/"));
    assert!(to_url("cats", "nope")
        .unwrap()
        .as_str()
        .starts_with("https://duckduckgo.com/"));
}

#[test]
fn internal_only_on_app_origin() {
    assert!(is_internal(""));
    assert!(is_internal("tauri://localhost/settings.html?x=1"));
    assert!(is_internal("http://tauri.localhost/history.html"));
    assert!(!is_internal("https://example.com/settings.html"));
    assert!(!is_internal("https://example.com/?ref=tauri.localhost"));
    assert!(!is_internal("https://tauri.localhost.evil.com/newtab.html"));
    assert_eq!(
        page_of("tauri://localhost/settings.html#a"),
        Some("settings.html")
    );
    assert_eq!(
        page_of("tauri://localhost/newtab.html?incognito=1"),
        Some("newtab.html")
    );
    assert_eq!(page_of("https://example.com/settings.html"), None);
    assert_eq!(page_of("tauri://localhost/other.html"), None);
}

#[test]
fn empty_input_leads_nowhere() {
    assert!(to_url("", "google").is_none());
    assert!(to_url("   \t", "google").is_none());
}

#[test]
fn searches_read_back() {
    for engine in [
        "duckduckgo",
        "google",
        "bing",
        "brave",
        "ecosia",
        "startpage",
        "yahoo",
    ] {
        let u = search_url("rust & verus +1", engine).unwrap();
        assert_eq!(
            search_query_of(u.as_str()).as_deref(),
            Some("rust & verus +1"),
            "{engine}"
        );
    }
    assert_eq!(search_query_of("https://example.com/?q=a"), None);
    assert_eq!(search_query_of("not a url"), None);
}

#[test]
fn hosts_and_schemes() {
    assert!(looks_like_host(&chars("example.com:8080")));
    assert!(looks_like_host(&chars("[::1]:80")));
    assert!(!looks_like_host(&chars("hello")));
    assert_eq!(scheme_for(&chars("localhost")), "http");
    assert_eq!(scheme_for(&chars("example.com")), "https");
    assert_eq!(host_of("https://EXAMPLE.com/x").as_deref(), Some("example.com"));
    assert_eq!(host_of("nonsense"), None);
    assert_eq!(name_after_slash("/a/b.html"), "b.html");
    assert_eq!(name_after_slash("b.html"), "b.html");
}

#[test]
fn literal_addresses() {
    assert!(parse_ipv4(&chars("10.0.0.1")).is_some());
    assert!(parse_ipv4(&chars("10.0.0.256")).is_none());
    assert!(parse_ipv4(&chars("10.0.0.01")).is_none());
    assert!(ip(&chars("::1")));
    assert!(ip(&chars("1:2:3:4:5:6:7:8")));
    assert!(!ip(&chars("1:2:3")));
    assert!(!ip(&chars("1.2.3")));
    assert!(local_ipv4(&chars("192.168.0.7")));
    assert!(!local_ipv4(&chars("8.8.8.8")));
    assert_eq!(
        parse_ipv6(&chars("fe80::1:aBcD")),
        Some(vec![0xfe80, 0, 0, 0, 0, 0, 1, 0xabcd])
    );
    assert_eq!(
        parse_ipv6(&chars("1:2:3:4:5:6:1.2.3.4")),
        Some(vec![1, 2, 3, 4, 5, 6, 0x102, 0x304])
    );
    assert_eq!(parse_ipv6(&chars("::")), Some(vec![0; 8]));
    assert_eq!(parse_ipv6(&chars("1::2::3")), None);
}

#[test]
fn loopback_in_every_spelling() {
    for s in ["::1", "0::1", "0:0:0:0:0:0:0:1", "::0001", "::0.0.0.1"] {
        assert!(loopback_ipv6(&chars(s)), "{s}");
    }
    for s in ["::", "::2", "1::1", "1::", "::1:0", "::127.0.0.1", "127.0.0.1", ""] {
        assert!(!loopback_ipv6(&chars(s)), "{s}");
    }
}

#[test]
fn near_hosts_get_plain_http() {
    for s in [
        "[::1]",
        "[::1]:8080",
        "[0:0:0:0:0:0:0:1]/x",
        "localhost?x",
        "LOCALHOST:3000#top",
        "127.0.0.1:80",
        "localhost:",
        "10.1.2.3?q=1",
        "172.16.0.1/",
        "192.168.1.1",
        "169.254.0.1",
    ] {
        assert!(looks_like_host(&chars(s)), "{s}");
        assert_eq!(scheme_for(&chars(s)), "http", "{s}");
    }
    for s in [
        "[::2]:8080",
        "[fe80::1]",
        "example.com?localhost",
        "172.32.0.1",
        "1.1.1.1",
        "localhost.example.com",
    ] {
        assert!(looks_like_host(&chars(s)), "{s}");
        assert_eq!(scheme_for(&chars(s)), "https", "{s}");
    }
    assert_eq!(scheme_for(&chars("[::1")), "https");
    assert_eq!(scheme_for(&chars("localhost:abc")), "http");
    assert_eq!(scheme_for(&chars("127.0.0.1:80:80")), "http");
    assert_eq!(scheme_for(&chars("::1:80")), "https");
    assert_eq!(nav("[::1]:8080"), "http://[::1]:8080/");
    assert_eq!(nav("[::1]/a"), "http://[::1]/a");
    assert_eq!(nav("[2001:db8::1]"), "https://[2001:db8::1]/");
    assert_eq!(nav("localhost?x"), "http://localhost/?x");
}

#[test]
fn choosing_with_parsed_results() {
    let direct = WebUrl {
        href: "https://a.com/".to_string(),
        scheme: "https".to_string(),
        host: Some("a.com".to_string()),
        path: "/".to_string(),
        query: None,
    };
    assert_eq!(origin_path(&direct), None);
    let page = WebUrl {
        href: "tauri://localhost/settings.html".to_string(),
        scheme: "tauri".to_string(),
        host: Some("localhost".to_string()),
        path: "/settings.html".to_string(),
        query: None,
    };
    assert_eq!(origin_path(&page).as_deref(), Some("/settings.html"));
    assert_eq!(page_named("newtab.html"), Some(NEW_TAB_PAGE));
    assert_eq!(page_named("evil.html"), None);
    let pairs = vec![
        ("x".to_string(), "1".to_string()),
        ("q".to_string(), "cats".to_string()),
    ];
    assert_eq!(
        terms_among("duckduckgo.com", "/", &pairs).as_deref(),
        Some("cats")
    );
    assert_eq!(terms_among("example.com", "/", &pairs), None);
    let (host, _, key) = search_template("duckduckgo");
    assert_eq!((host, key), ("duckduckgo.com", "q"));
    let chosen = choose_url(&chars("a.com"), None, Some(direct), "bing").unwrap();
    assert_eq!(chosen.as_str(), "https://a.com/");
    let searched = choose_url(&chars("two words"), None, None, "bing").unwrap();
    assert_eq!(searched.as_str(), "https://www.bing.com/search?q=two+words");
}

#[test]
fn numbers_as_text() {
    assert_eq!(decimal(0), "0");
    assert_eq!(decimal(1234567890), "1234567890");
    assert_eq!(hex16(0xdeadbeef), "00000000deadbeef");
    assert_eq!(parse_number(&chars("42")), Some(42));
    assert_eq!(parse_number(&chars("+7")), Some(7));
    assert_eq!(parse_number(&chars("")), None);
    assert_eq!(parse_number(&chars("12x")), None);
    assert_eq!(parse_number(&chars("99999999999999999999999")), None);
}
