use foxlite::answer::{
    address_answered, icon_answered, source_answered, take_address, take_icon, take_source,
};
use foxlite::blocklist::line_text;
use foxlite::dropdown::{mentions_words, rank_with, suggestion_of};
use foxlite::native::{blocker_status, Blocker, BlockerStatus, NavState, Phase};
use foxlite::page::{on_nav_state, on_page_loaded, on_title, set_favicon};
use foxlite::source::take_view_source;
use foxlite::state::BrowserState;
use foxlite::store::{shown_in, Store};
use foxlite::tabs::{discard_tab, polled_tab, register_tab, select_tab};
use foxlite::web::{host_in, WebUrl};

fn chars(s: &str) -> Vec<char> {
    s.chars().collect()
}

fn web(host: Option<&str>) -> WebUrl {
    WebUrl {
        href: "https://x/".to_string(),
        scheme: "https".to_string(),
        host: host.map(|h| h.to_string()),
        path: "/".to_string(),
        query: None,
    }
}

#[test]
fn hosts_of_parsed_addresses() {
    assert_eq!(host_in(Some(web(Some("A.Example")))).as_deref(), Some("a.example"));
    assert_eq!(host_in(Some(web(None))), None);
    assert_eq!(host_in(None), None);
}

#[test]
fn history_rows_shown_for_a_query() {
    let (url, title) = (chars("https://a.com/x"), chars("some title"));
    assert!(shown_in(&[], &url, &title));
    assert!(shown_in(&chars("a.com"), &url, &title));
    assert!(shown_in(&chars("tit"), &url, &title));
    assert!(!shown_in(&chars("b.com"), &url, &title));
}

#[test]
fn icons_are_cached_for_a_known_host() {
    let mut s = Store::default();
    let host = || Some("a.com".to_string());
    assert!(!s.cache_icon(None, "https://a.com/i.png"));
    assert!(!s.cache_icon(host(), "data:image/png;base64,AA=="));
    let long = format!("https://a.com/{}", "i".repeat(2048));
    assert!(!s.cache_icon(host(), &long));
    assert!(s.cache_icon(host(), "https://a.com/i.png"));
    assert!(!s.cache_icon(host(), "https://a.com/i.png"));
    assert!(s.cache_icon(host(), "https://a.com/j.png"));
    assert_eq!(
        s.favicon_for("https://a.com/deep").as_deref(),
        Some("https://a.com/j.png")
    );
}

#[test]
fn every_word_must_be_mentioned() {
    let (url, title) = (chars("news.example/git"), chars("a story"));
    assert!(mentions_words(&vec![], &url, &title));
    assert!(mentions_words(&vec![chars("git"), chars("story")], &url, &title));
    assert!(!mentions_words(&vec![chars("git"), chars("tale")], &url, &title));
}

#[test]
fn hosts_rank_before_addresses() {
    let (host, address) = (chars("github.com"), chars("www.github.com/a"));
    assert_eq!(rank_with(&host, &address, &chars("gith")), 2);
    assert_eq!(rank_with(&host, &address, &chars("www.")), 1);
    assert_eq!(rank_with(&host, &address, &chars("hub")), 0);
}

#[test]
fn a_search_is_offered_by_its_terms() {
    let s = suggestion_of(
        "history",
        "https://duckduckgo.com/?q=rust",
        "rust at DuckDuckGo",
        "icon".to_string(),
        Some("rust".to_string()),
    );
    assert_eq!((s.kind, s.title.as_str(), s.query.as_str()), ("search", "rust", "rust"));
    let s = suggestion_of("bookmark", "https://a.com/", "A", "icon".to_string(), None);
    assert_eq!((s.kind, s.title.as_str(), s.query.as_str()), ("bookmark", "A", ""));
    assert_eq!((s.url.as_str(), s.favicon.as_str()), ("https://a.com/", "icon"));
}

#[test]
fn the_first_line_as_text() {
    assert_eq!(line_text(b"{\"a\":1}\n[2]\n"), "{\"a\":1}");
    assert_eq!(line_text(b"no newline"), "no newline");
    assert_eq!(line_text(b""), "");
    assert_eq!(line_text(&[0xff, b'\n']), "");
}

#[test]
fn a_blocker_without_a_store_has_failed() {
    let b = Blocker::unavailable();
    assert_eq!(b.phase, Phase::Done);
    assert!(b.installed.is_empty());
    assert_eq!(blocker_status(Some(&b)), BlockerStatus::Failed);
    assert_eq!(blocker_status(None), BlockerStatus::Unsupported);
}

fn opened(incognito: bool) -> (BrowserState, Store, usize) {
    let mut state = BrowserState::new();
    let mut store = Store::default();
    let (id, _) = register_tab(
        &mut state,
        &mut store,
        "https://a.com/".to_string(),
        String::new(),
        incognito,
        0,
    );
    (state, store, id)
}

#[test]
fn only_an_awake_active_tab_is_polled() {
    assert_eq!(polled_tab(&BrowserState::new()), None);
    let (mut state, mut store, id) = opened(false);
    assert_eq!(polled_tab(&state), Some((id, format!("tab-{id}"))));
    register_tab(
        &mut state,
        &mut store,
        "https://b.com/".to_string(),
        String::new(),
        false,
        1,
    );
    assert_eq!(discard_tab(&mut state, id), Some(true));
    state.active = 0;
    assert_eq!(polled_tab(&state), None);
    select_tab(&mut state, id, 2);
    assert_eq!(polled_tab(&state), Some((id, format!("tab-{id}"))));
}

#[test]
fn private_pages_leave_the_store_alone() {
    let (mut state, mut store, id) = opened(true);
    let nav = NavState {
        url: "https://b.com/".to_string(),
        can_back: true,
        can_forward: false,
    };
    assert_eq!(on_title(&mut state, &mut store, id, "A", 1), (true, false));
    assert_eq!(on_nav_state(&mut state, &mut store, id, &nav, 2), (true, false));
    let loaded = on_page_loaded(&mut state, &mut store, id, true, "https://c.com/", 3).unwrap();
    assert!(!loaded.visited);
    assert_eq!(
        set_favicon(&mut state, &mut store, id, "https://c.com/i.png"),
        (true, false)
    );
    assert!(store.history.is_empty());
    assert_eq!(store.favicon_for("https://c.com/"), None);
    assert_eq!(store.suggestions("", 10).len(), 0);
}

#[test]
fn polled_addresses_are_read_from_json() {
    let (mut state, mut store, id) = opened(false);
    let n = store.history.len();
    for bad in ["null", "7", "https://b.com/", "\"unclosed", "{\"a\":1}", ""] {
        assert_eq!(
            address_answered(&mut state, &mut store, id, bad, 1),
            (false, false),
            "{bad}"
        );
    }
    assert_eq!(take_address(&mut state, &mut store, id, None, 1), (false, false));
    assert!(!state.tabs[0].can_back);
    let answer = "\"https://b.com/\\u00e9\"";
    assert_eq!(
        address_answered(&mut state, &mut store, id, answer, 1),
        (true, true)
    );
    assert_eq!(state.tabs[0].url, "https://b.com/\u{e9}");
    assert!(state.tabs[0].can_back && state.tabs[0].can_forward);
    assert_eq!(store.history.len(), n + 1);
}

#[test]
fn favicons_are_read_from_json() {
    let (mut state, mut store, id) = opened(false);
    assert_eq!(
        icon_answered(&mut state, &mut store, id, "https://a.com/i.png"),
        (false, false)
    );
    assert_eq!(take_icon(&mut state, &mut store, id, None), (false, false));
    assert_eq!(
        icon_answered(&mut state, &mut store, id, "\"https:\\/\\/a.com/i.png\""),
        (true, true)
    );
    assert_eq!(state.tabs[0].favicon, "https://a.com/i.png");
    assert_eq!(
        take_icon(&mut state, &mut store, id, Some("javascript:1".to_string())),
        (false, false)
    );
}

#[test]
fn sources_are_read_from_json() {
    let (mut state, _, _) = opened(false);
    let url = || "https://a.com/".to_string();
    source_answered(&mut state, url(), "\"<p>\\n\\\"x\\\"</p>\"");
    assert_eq!(
        take_view_source(&mut state),
        Some((url(), "<p>\n\"x\"</p>".to_string()))
    );
    source_answered(&mut state, url(), "<p>");
    assert_eq!(take_view_source(&mut state), Some((url(), String::new())));
    take_source(&mut state, url(), Some("<b>".to_string()));
    assert_eq!(take_view_source(&mut state), Some((url(), "<b>".to_string())));
    take_source(&mut state, url(), None);
    assert_eq!(take_view_source(&mut state), Some((url(), String::new())));
}
