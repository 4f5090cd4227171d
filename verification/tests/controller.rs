use foxlite::blocklist;
use foxlite::commands::{
    bookmark_current, get_history, get_home_data, get_view_source, is_upload, navigate,
    set_settings, set_wallpaper, suggestions, toggle_bookmarks_bar, toggle_vertical_tabs,
};
use foxlite::find_bar::find_js;
use foxlite::memory::{awake_tabs, display_title, memory_report, title_with, LiveTab, Reading};
use foxlite::native::{enabled_categories, KeyAction, NavState};
use foxlite::page::{
    apply_url, on_nav_state, on_page_loaded, on_title, place_for, relocate, set_favicon, Place,
};
use foxlite::source::{capture_source, source_of, take_view_source, view_source, CUT_NOTICE};
use foxlite::state::{BrowserState, ClosedTab, Tab, SOURCE_CAP};
use foxlite::store::{SessionTab, Settings, Store};
use foxlite::tabs::{
    active_label, active_url_title, build_tab, clear_site_data, close_active, close_tab, cycle,
    dark_theme, discard_all_background, discard_idle, discard_tab, download_notice, file_name,
    frame_color, is_frosted_page, leave_asleep, may_terminate, on_key, on_new_window,
    open_internal, open_restored, opaque_window, protected_labels, register_tab, reopen_as,
    reopen_closed, select_index, select_relative, select_tab, set_vertical_tabs, switcher_cancel,
    switcher_close, switcher_step, sync_session, tab_webview, target_for, target_with,
    unregister_failed, wake_failed, zoom_active, Backdrop, Coalescer, Download, KeyStep, Reopen,
    Selection, Target,
};
use foxlite::url_util::{self, to_url};
use foxlite::web::WebUrl;

const MIN: u64 = 60_000_000_000;

fn open(state: &mut BrowserState, store: &mut Store, url: &str, incognito: bool) -> usize {
    let page = if url.is_empty() { "newtab.html" } else { "" };
    register_tab(
        state,
        store,
        url.to_string(),
        page.to_string(),
        incognito,
        0,
    )
    .0
}

fn three() -> (BrowserState, Store) {
    let mut state = BrowserState::new();
    let mut store = Store::default();
    for u in ["https://a.com/", "https://b.com/", "https://c.com/"] {
        open(&mut state, &mut store, u, false);
    }
    (state, store)
}

#[test]
fn find_js_escapes_everything() {
    let js = find_js("it's \"q\"\nnext\u{2028}", true);
    assert!(js.starts_with("window.find(\"it's \\\"q\\\"\\n"));
    assert!(!js.contains('\n'), "raw newline would break the literal");
    assert!(!js.contains('\u{2028}'));
    assert!(js.ends_with(", false, false, true, false, true, false)"));
    assert!(find_js("x", false).contains(", false, true, true,"));
}

#[test]
fn find_js_control_characters() {
    assert_eq!(
        find_js("\u{1}\u{1f}\t\\", true),
        "window.find(\"\\u0001\\u001f\\t\\\\\", false, false, true, false, true, false)"
    );
}

#[test]
fn categories_follow_settings() {
    let mut s = Settings::default();
    let all = enabled_categories(&s);
    for c in [
        blocklist::CATEGORY_ADS,
        blocklist::CATEGORY_PRIVACY,
        blocklist::CATEGORY_SECURITY,
        blocklist::CATEGORY_ANNOYANCES,
    ] {
        assert!(all.contains(&c), "{c} should be on by default");
    }
    s.block_ads = false;
    s.block_annoyances = false;
    let some = enabled_categories(&s);
    assert!(!some.contains(&blocklist::CATEGORY_ADS));
    assert!(!some.contains(&blocklist::CATEGORY_PRIVACY));
    assert!(some.contains(&blocklist::CATEGORY_SECURITY));
    assert!(!some.contains(&blocklist::CATEGORY_ANNOYANCES));
}

#[test]
fn download_notice_names_files() {
    let url = || to_url("https://example.com/dl/report.pdf?x=1", "").unwrap();
    let n = download_notice(&Download::Finished {
        url: url(),
        path: Some("/tmp/report.pdf".to_string()),
        success: true,
    });
    assert_eq!(
        (n.status, n.name.as_str(), n.path.as_str()),
        ("done", "report.pdf", "/tmp/report.pdf")
    );
    let n = download_notice(&Download::Requested {
        url: url(),
        destination: "/Users/x/Downloads/report.pdf".to_string(),
    });
    assert_eq!((n.status, n.name.as_str()), ("started", "report.pdf"));
}

#[test]
fn downloads_without_a_name() {
    let n = download_notice(&Download::Finished {
        url: to_url("https://example.com/", "").unwrap(),
        path: None,
        success: false,
    });
    assert_eq!(
        (n.status, n.name.as_str(), n.path.as_str()),
        ("failed", "https://example.com/", "")
    );
    assert_eq!(file_name("/a/b//."), Some("b".to_string()));
    assert_eq!(file_name("/a/.."), None);
    assert_eq!(file_name("/"), None);
}

#[test]
fn frosted_and_targets() {
    assert!(is_frosted_page("", "settings.html"));
    assert!(!is_frosted_page("", url_util::NEW_TAB_PAGE));
    assert!(!is_frosted_page("https://a.com/", ""));
    assert!(matches!(target_for("", "", true), Target::App(p) if p.contains("incognito=1")));
    assert!(matches!(
        target_for("https://a.com/", "", false),
        Target::External(_)
    ));
    assert!(matches!(
        target_for("not a url", "", false),
        Target::App(_)
    ));
}

#[test]
fn targets_for_parsed_addresses() {
    assert!(matches!(target_with("x", "", false, None), Target::App(p) if p == "newtab.html"));
    assert!(matches!(target_with("", "history.html", true, None), Target::App(p) if p == "history.html"));
}

#[test]
fn opening_records_the_visit_unless_private() {
    let mut state = BrowserState::new();
    let mut store = Store::default();
    let (id, visited) = register_tab(
        &mut state,
        &mut store,
        "https://a.com/".to_string(),
        String::new(),
        false,
        5,
    );
    assert_eq!((id, visited), (0, true));
    assert_eq!(store.history.len(), 1);
    let (id, visited) = register_tab(
        &mut state,
        &mut store,
        "https://b.com/".to_string(),
        String::new(),
        true,
        6,
    );
    assert_eq!((id, visited), (1, false));
    assert_eq!(store.history.len(), 1);
    assert_eq!(state.active, 1);
    assert_eq!(state.tabs[0].last_active, Some(6));
    assert_eq!(state.tabs[1].zoom, store.settings.default_zoom);
    assert_eq!(state.mru_order(), [1, 0]);
}

#[test]
fn failed_tabs_are_dropped() {
    let (mut state, mut store) = three();
    assert!(!unregister_failed(&mut state, 2, 1));
    assert_eq!(state.tabs.len(), 2);
    let mut one = BrowserState::new();
    open(&mut one, &mut store, "", false);
    assert!(unregister_failed(&mut one, 0, 1));
}

#[test]
fn internal_pages_open_once() {
    let (mut state, mut store) = three();
    assert_eq!(open_internal(&state, "settings.html"), None);
    register_tab(
        &mut state,
        &mut store,
        String::new(),
        "settings.html".to_string(),
        false,
        0,
    );
    assert_eq!(open_internal(&state, "settings.html"), Some(3));
}

#[test]
fn plans_for_webviews() {
    let (mut state, mut store) = three();
    let mut settings = Settings::default();
    let p = build_tab(&state, &settings, 1, true, false).unwrap();
    assert_eq!(p.label, "tab-1");
    assert!(matches!(p.target, Target::External(_)));
    assert_eq!(p.backdrop, Backdrop::Page);
    assert!(build_tab(&state, &settings, 9, true, false).is_none());
    register_tab(
        &mut state,
        &mut store,
        String::new(),
        "history.html".to_string(),
        false,
        0,
    );
    let p = build_tab(&state, &settings, 3, true, false).unwrap();
    assert!(matches!(p.backdrop, Backdrop::Glass(c) if c.a == 110));
    let p = build_tab(&state, &settings, 3, false, false).unwrap();
    assert_eq!(p.backdrop, Backdrop::Solid(frame_color(true)));
    settings.theme = "light".to_string();
    assert!(!dark_theme(&settings));
    assert!(opaque_window(&settings, true, true));
    assert!(!opaque_window(&settings, true, false));
    assert_eq!(frame_color(false).r, 236);
}

#[test]
fn sessions_restore_asleep_and_round_trip() {
    let session: Vec<SessionTab> = (0..3)
        .map(|i| SessionTab {
            url: format!("https://{i}.com/"),
            title: format!("t{i}"),
            page: String::new(),
        })
        .collect();
    let mut state = BrowserState::new();
    let mut store = Store::default();
    assert_eq!(open_restored(&mut state, &session, 9, 7, 1), Some(2));
    assert_eq!(
        state.tabs.iter().map(|t| t.discarded).collect::<Vec<_>>(),
        [true, true, false]
    );
    assert_eq!(state.tabs[1].title, "t1");
    assert_eq!(state.tabs[1].zoom, 7);
    assert_eq!(state.active, 2);
    assert!(sync_session(&state, &mut store));
    assert!(!sync_session(&state, &mut store));
    assert_eq!(store.session.len(), 3);
    assert_eq!(store.session[2].url, "https://2.com/");
    assert_eq!(store.session_active, 2);
    leave_asleep(&mut state, 2);
    assert!(state.tabs[2].discarded);
    let mut empty = BrowserState::new();
    assert_eq!(open_restored(&mut empty, &Vec::new(), 0, 7, 1), None);
}

#[test]
fn private_tabs_stay_out_of_the_session() {
    let (mut state, mut store) = three();
    open(&mut state, &mut store, "https://p.com/", true);
    assert!(sync_session(&state, &mut store));
    assert_eq!(store.session.len(), 3);
    assert_eq!(store.session_active, 0);
}

#[test]
fn addresses_move_tabs() {
    let (mut state, mut store) = three();
    let n = store.history.len();
    assert_eq!(
        apply_url(&mut state, &mut store, 0, "about:blank", 0),
        (false, false)
    );
    assert_eq!(
        apply_url(&mut state, &mut store, 0, "https://a.com/x", 0),
        (true, true)
    );
    assert_eq!(store.history.len(), n + 1);
    assert_eq!(
        apply_url(&mut state, &mut store, 0, "https://a.com/x", 0),
        (false, false)
    );
    assert_eq!(
        apply_url(&mut state, &mut store, 0, "tauri://localhost/history.html", 0),
        (true, false)
    );
    assert_eq!(
        (state.tabs[0].url.as_str(), state.tabs[0].page.as_str()),
        ("", "history.html")
    );
    assert_eq!(
        apply_url(&mut state, &mut store, 9, "https://a.com/", 0),
        (false, false)
    );
    state.tabs[1].discarded = true;
    assert_eq!(
        apply_url(&mut state, &mut store, 1, "https://z.com/", 0),
        (false, false)
    );
}

#[test]
fn favicons_fall_when_the_site_changes() {
    let (mut state, mut store) = three();
    assert_eq!(
        set_favicon(&mut state, &mut store, 0, "https://a.com/i.png"),
        (true, true)
    );
    assert_eq!(
        set_favicon(&mut state, &mut store, 0, "https://a.com/i.png"),
        (false, false)
    );
    assert_eq!(
        set_favicon(&mut state, &mut store, 0, "javascript:1"),
        (false, false)
    );
    assert_eq!(
        set_favicon(&mut state, &mut store, 1, "data:image/png;base64,AA"),
        (true, false)
    );
    apply_url(&mut state, &mut store, 0, "https://a.com/2", 0);
    assert_eq!(state.tabs[0].favicon, "https://a.com/i.png");
    apply_url(&mut state, &mut store, 0, "https://other.com/", 0);
    assert_eq!(state.tabs[0].favicon, "");
    assert_eq!(place_for("https://a.com/", "https://A.com/z"), Place::SameSite);
    assert_eq!(place_for("https://a.com/", "https://b.com/"), Place::OtherSite);
    assert_eq!(place_for("", "tauri://localhost/newtab.html"), Place::Bundled);
    let (t, moved) = relocate(&state.tabs[1], "x", "settings.html", Place::Bundled);
    assert!(moved && t.url.is_empty() && t.page == "settings.html");
}

#[test]
fn titles_reach_tab_and_history() {
    let (mut state, mut store) = three();
    assert_eq!(on_title(&mut state, &mut store, 1, "B", 0), (true, true));
    assert_eq!(on_title(&mut state, &mut store, 1, "B", 0), (false, false));
    assert_eq!(store.history[1].title, "B");
    let p = open(&mut state, &mut store, "https://p.com/", true);
    assert_eq!(on_title(&mut state, &mut store, p, "P", 0), (true, false));
    assert_eq!(on_title(&mut state, &mut store, 99, "P", 0), (false, false));
}

#[test]
fn navigation_state_and_loads() {
    let (mut state, mut store) = three();
    let nav = NavState {
        url: "https://a.com/spa".to_string(),
        can_back: true,
        can_forward: false,
    };
    assert_eq!(on_nav_state(&mut state, &mut store, 0, &nav, 0), (true, true));
    assert_eq!(
        on_nav_state(&mut state, &mut store, 0, &nav, 0),
        (false, false)
    );
    assert!(state.tabs[0].can_back);
    let l = on_page_loaded(&mut state, &mut store, 0, false, "https://a.com/next", 0).unwrap();
    assert!(l.visited && !l.wants_favicon && l.zoom.is_none());
    assert!(state.tabs[0].loading);
    let l = on_page_loaded(&mut state, &mut store, 0, true, "https://a.com/next", 0).unwrap();
    assert!(!l.visited && l.wants_favicon);
    assert_eq!(l.label, "tab-0");
    assert_eq!(l.zoom, Some(state.tabs[0].zoom));
    assert!(!state.tabs[0].loading);
    assert!(on_page_loaded(&mut state, &mut store, 9, true, "https://a.com/", 0).is_none());
}

#[test]
fn selecting_wakes_sleeping_tabs() {
    let (mut state, _) = three();
    assert_eq!(select_tab(&mut state, 9, 1), Selection::Missing);
    assert_eq!(select_tab(&mut state, 0, 1), Selection::Shown);
    assert_eq!(discard_tab(&mut state, 2), Some(true));
    assert_eq!(select_tab(&mut state, 2, 2), Selection::Woken);
    assert!(state.tabs[2].loading && !state.tabs[2].discarded);
    wake_failed(&mut state, 2);
    assert!(!state.tabs[2].loading && state.tabs[2].discarded);
    assert_eq!(select_index(&state, 1, false), Some(1));
    assert_eq!(select_index(&state, 0, true), Some(2));
    assert_eq!(select_index(&state, 7, false), None);
    assert_eq!(select_relative(&state, 1), Some(0));
    assert_eq!(select_relative(&state, -1), Some(1));
    assert_eq!(select_relative(&BrowserState::new(), 1), None);
}

#[test]
fn switching_by_use_and_by_strip() {
    let (mut state, _) = three();
    let v = switcher_step(&mut state, 1).unwrap();
    assert!(v.opened);
    assert_eq!(v.tabs.iter().map(|t| t.id).collect::<Vec<_>>(), [2, 1, 0]);
    assert_eq!(v.selected, 1);
    let v = switcher_step(&mut state, 1).unwrap();
    assert!(!v.opened);
    assert_eq!(v.selected, 2);
    assert_eq!(switcher_close(&mut state, None), Some(Some(0)));
    assert_eq!(switcher_close(&mut state, None), None);
    switcher_step(&mut state, 1);
    assert_eq!(switcher_close(&mut state, Some(2)), Some(Some(2)));
    switcher_step(&mut state, 1);
    assert!(switcher_cancel(&mut state));
    assert!(!switcher_cancel(&mut state));
    assert_eq!(cycle(&mut state, true, 1), Some(1));
    assert_eq!(cycle(&mut state, false, 1), Some(0));
    assert_eq!(
        on_key(&state, true, KeyAction::Cycle(-1)),
        (KeyStep::Step(-1), true)
    );
    assert_eq!(
        on_key(&state, false, KeyAction::Cycle(1)),
        (KeyStep::Nothing, false)
    );
    assert_eq!(
        on_key(&state, true, KeyAction::Escape),
        (KeyStep::Cancel, false)
    );
    assert_eq!(
        on_key(&state, true, KeyAction::ControlReleased),
        (KeyStep::Commit, false)
    );
}

#[test]
fn only_idle_background_tabs_sleep() {
    let (mut state, mut store) = three();
    let p = open(&mut state, &mut store, "https://p.com/", true);
    select_tab(&mut state, 2, MIN);
    state.tabs[1].last_active = Some(3 * MIN);
    assert_eq!(discard_idle(&state, 5, 5 * MIN), [0]);
    assert_eq!(discard_idle(&state, 5, 8 * MIN), [0, 1]);
    assert!(discard_idle(&state, 0, 100 * MIN).is_empty());
    assert_eq!(discard_all_background(&state), [0, 1]);
    assert_eq!(discard_tab(&mut state, 0), Some(true));
    assert_eq!(discard_all_background(&state), [1]);
    assert_eq!(discard_tab(&mut state, 77), None);
    assert_eq!(
        protected_labels(&state, 2),
        ["chrome", "tab-1", &format!("tab-{p}")]
    );
}

#[test]
fn shared_processes_are_not_terminated() {
    assert!(may_terminate(true, Some(7), &vec![1, 2]));
    assert!(!may_terminate(true, Some(2), &vec![1, 2]));
    assert!(!may_terminate(true, None, &vec![]));
    assert!(!may_terminate(false, Some(7), &vec![]));
}

#[test]
fn closing_and_reopening() {
    let (mut state, _) = three();
    assert_eq!(close_active(&state), Some(2));
    let c = close_tab(&mut state, 2, 1).unwrap();
    assert_eq!((c.external, c.incognito, c.was_discarded), (true, false, false));
    assert_eq!(c.next, Some(1));
    assert!(close_tab(&mut state, 2, 1).is_none());
    match reopen_closed(&mut state) {
        Some(Reopen::Web(u)) => assert_eq!(u.as_str(), "https://c.com/"),
        _ => panic!("the web page comes back"),
    }
    assert!(reopen_closed(&mut state).is_none());
    close_tab(&mut state, 0, 1);
    assert_eq!(close_tab(&mut state, 1, 1).unwrap().next, None);
    let closed = |url: &str, page: &str| ClosedTab {
        url: url.to_string(),
        page: page.to_string(),
    };
    assert!(matches!(reopen_as(closed("", ""), None), Reopen::Home));
    assert!(matches!(reopen_as(closed("", "newtab.html"), None), Reopen::Home));
    assert!(matches!(reopen_as(closed("", "history.html"), None), Reopen::Page(p) if p == "history.html"));
    assert!(matches!(reopen_as(closed("x", ""), None), Reopen::Nothing));
}

#[test]
fn the_active_tab() {
    let (mut state, _) = three();
    assert_eq!(active_label(&state).as_deref(), Some("tab-2"));
    state.tabs[2].title = "C".to_string();
    assert_eq!(
        active_url_title(&state),
        Some(("https://c.com/".to_string(), "C".to_string()))
    );
    assert_eq!(zoom_active(&mut state, 5).as_deref(), Some("tab-2"));
    assert_eq!(state.tabs[2].zoom, 5);
    assert!(active_label(&BrowserState::new()).is_none());
    assert!(set_vertical_tabs(&mut state, true));
    assert!(!set_vertical_tabs(&mut state, true));
}

#[test]
fn site_data_is_cleared_through_a_shared_view() {
    let (mut state, mut store) = three();
    let p = open(&mut state, &mut store, "https://p.com/", true);
    let labels = vec!["chrome".to_string(), format!("tab-{p}"), "tab-1".to_string()];
    assert_eq!(clear_site_data(&state, &labels), "tab-1");
    assert_eq!(clear_site_data(&state, &labels[..2].to_vec()), "chrome");
    assert!(tab_webview("tab-1") && !tab_webview("chrome"));
}

#[test]
fn new_windows_stay_private() {
    let u = |s: &str| to_url(s, "").unwrap();
    assert!(on_new_window(u("https://a.com/"), true).unwrap().1);
    assert!(!on_new_window(u("http://a.com/"), false).unwrap().1);
    assert!(on_new_window(u("about:blank"), false).is_none());
}

#[test]
fn sources_are_cut_between_characters() {
    assert_eq!(capture_source("short".to_string()), "short");
    let mut long = "x".repeat(SOURCE_CAP - 1);
    long.push('é');
    long.push_str("tail");
    let kept = capture_source(long);
    assert_eq!(kept.len(), SOURCE_CAP - 1 + CUT_NOTICE.len());
    assert!(kept.ends_with(CUT_NOTICE));
    let (mut state, _) = three();
    assert_eq!(
        source_of(&state),
        Some(("tab-2".to_string(), "https://c.com/".to_string()))
    );
    view_source(&mut state, "u".to_string(), "h".to_string());
    let taken = take_view_source(&mut state);
    assert_eq!(get_view_source(taken), ("u".to_string(), "h".to_string()));
    assert_eq!(
        get_view_source(take_view_source(&mut state)),
        (String::new(), String::new())
    );
    state.tabs[2].discarded = true;
    assert!(source_of(&state).is_none());
}

#[test]
fn memory_counts_a_shared_process_once() {
    let live = |id: usize, pid: i32, bytes: u64| LiveTab {
        id,
        title: format!("t{id}"),
        process: Reading { pid, bytes },
    };
    let r = memory_report(
        Reading { pid: 1, bytes: 10 },
        Some(Reading { pid: 2, bytes: 20 }),
        vec![live(0, 3, 100), live(1, 3, 100), live(2, 2, 20)],
        true,
    );
    assert_eq!(r.app_bytes, 30);
    assert_eq!(r.total_bytes, 130);
    assert_eq!(r.tabs.len(), 3);
    assert_eq!((r.tabs[1].id, r.tabs[1].bytes), (1, 100));
    assert!(r.available);
    let (mut state, _) = three();
    assert_eq!(display_title(&state.tabs[0]), "a.com");
    state.tabs[0].title = "A".to_string();
    assert_eq!(display_title(&state.tabs[0]), "A");
    assert_eq!(title_with(&state.tabs[1], None), "https://b.com/");
    state.tabs[1].discarded = true;
    let rows = awake_tabs(&state);
    assert_eq!(rows.len(), 2);
    assert_eq!((rows[1].label.as_str(), rows[1].title.as_str()), ("tab-2", "c.com"));
}

#[test]
fn pushes_are_coalesced() {
    let mut c = Coalescer::new();
    assert!(c.request());
    assert!(!c.request());
    c.deliver();
    assert!(c.request());
}

#[test]
fn settings_commands() {
    let mut store = Store::default();
    let same = store.settings.clone();
    assert!(set_settings(&mut store, same, true).is_none());
    let mut new = store.settings.clone();
    new.block_ads = false;
    new.user_agent = "x".to_string();
    new.wallpaper.value = "other".to_string();
    let c = set_settings(&mut store, new, true).unwrap();
    assert!(c.protections && !c.vertical);
    assert_eq!(c.user_agent.as_deref(), Some("x"));
    assert_eq!(store.settings.wallpaper.value, "aurora");
    assert!(toggle_vertical_tabs(&mut store));
    assert!(!toggle_vertical_tabs(&mut store));
    toggle_bookmarks_bar(&mut store);
    assert!(!store.settings.show_bookmarks_bar);
    assert!(is_upload("image") && !is_upload("url"));
    assert!(!set_wallpaper(&mut store, "image".to_string(), None));
    assert!(set_wallpaper(
        &mut store,
        "url".to_string(),
        Some("https://w/".to_string())
    ));
    let home = get_home_data(&store);
    assert_eq!(home.wallpaper.kind, "url");
    assert_eq!(home.theme, "dark");
}

#[test]
fn bookmark_toggle_and_limits() {
    let (mut state, mut store) = three();
    assert!(bookmark_current(&mut store, &state));
    assert_eq!(store.bookmarks[0].title, "https://c.com/");
    assert!(bookmark_current(&mut store, &state));
    assert!(store.bookmarks.is_empty());
    state.tabs[2].url = String::new();
    assert!(!bookmark_current(&mut store, &state));
    assert_eq!(suggestions(&store, "", 0).len(), 1);
    for i in 0..30 {
        store.record_visit(&format!("https://{i}.example/"), "", 0);
    }
    assert_eq!(suggestions(&store, "", 500).len(), 20);
    assert_eq!(get_history(&store, 0, 0, "").entries.len(), 1);
    assert_eq!(
        navigate(&store, "a b").unwrap().as_str(),
        "https://duckduckgo.com/?q=a+b"
    );
}

#[test]
fn urls_are_plain_values() {
    let u = WebUrl {
        href: "mailto:a@b".to_string(),
        scheme: "mailto".to_string(),
        host: None,
        path: "a@b".to_string(),
        query: None,
    };
    let n = download_notice(&Download::Finished {
        url: u,
        path: None,
        success: true,
    });
    assert_eq!(n.name, "mailto:a@b");
}

#[test]
fn tabs_clone_whole() {
    let (state, _) = three();
    let t: Tab = state.tabs[1].clone();
    assert_eq!((t.id, t.url.as_str()), (1, "https://b.com/"));
}
