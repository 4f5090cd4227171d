use foxlite::clock::secs_of;
use foxlite::saver::{
    debounce, flush_plan, history_text, newest, read_entries, read_lines, tick_at, Dirty, Job, Saver, Step,
};
use foxlite::startup::{
    chrome_page, corrupt_extension, file_name_of, is_old_layout, load, open_first_tabs, Saved,
};
use foxlite::icons::IconMap;
use foxlite::store::{
    HistoryEntry, SessionTab, Settings, Store, FAVICON_CAP, HISTORY_CAP, HISTORY_TRIM_AT,
};

fn store_with(urls: &[&str]) -> Store {
    let mut s = Store::default();
    for u in urls {
        s.record_visit(u, "", 0);
    }
    s
}

#[test]
fn suggest_prefers_bookmarks_then_count_then_shortest() {
    let mut s = store_with(&[
        "https://github.com/a",
        "https://gitlab.com/",
        "https://github.com/a",
        "https://www.giant.example/x/y",
    ]);
    assert_eq!(s.suggest("git").as_deref(), Some("github.com"));
    s.add_bookmark("GitLab", "https://gitlab.com/");
    assert_eq!(s.suggest("git").as_deref(), Some("gitlab.com"));
    assert_eq!(s.suggest("gia").as_deref(), Some("giant.example"));
    assert_eq!(
        s.suggest("giant.example/").as_deref(),
        Some("giant.example/x/y")
    );
    assert_eq!(s.suggest("g"), None);
    assert_eq!(s.suggest("GITH").as_deref(), Some("github.com"));
}

#[test]
fn suggestions_recent_then_ranked() {
    let mut s = store_with(&[
        "https://github.com/a",
        "https://duckduckgo.com/?q=rust+lang",
        "https://gitlab.com/",
        "https://github.com/a",
        "https://news.example/git-story",
    ]);
    s.set_title_for("https://news.example/git-story", "A story about git", 0);
    // Empty query: newest first, de-duplicated.
    let recent = s.suggestions("", 10);
    assert_eq!(
        recent.iter().map(|x| x.url.as_str()).collect::<Vec<_>>(),
        [
            "https://news.example/git-story",
            "https://github.com/a",
            "https://gitlab.com/",
            "https://duckduckgo.com/?q=rust+lang",
        ]
    );
    assert_eq!(recent[3].kind, "search");
    assert_eq!(recent[3].query, "rust lang");
    assert_eq!(recent[3].title, "rust lang");
    assert_eq!(s.suggestions("", 2).len(), 2);
    // Typed: host-prefix matches first (github: 2 visits beats gitlab),
    // then the title-only match.
    let git = s.suggestions("git", 10);
    assert_eq!(
        git.iter().map(|x| x.url.as_str()).collect::<Vec<_>>(),
        [
            "https://github.com/a",
            "https://gitlab.com/",
            "https://news.example/git-story",
        ]
    );
    // Bookmarks win; multi-word matches need every word.
    s.add_bookmark("GitLab", "https://gitlab.com/");
    assert_eq!(s.suggestions("git", 10)[0].kind, "bookmark");
    assert_eq!(s.suggestions("story git", 10).len(), 1);
    assert!(s.suggestions("zzz", 10).is_empty());
}

#[test]
fn record_visit_dedups_and_counts() {
    let mut s = store_with(&[
        "https://a.com/",
        "https://a.com/",
        "https://b.com/",
        "https://a.com/",
    ]);
    assert_eq!(s.history.len(), 3);
    assert_eq!(s.visit_count("https://a.com/"), 2);
    assert!(s.set_title_for("https://a.com/", "A", 0));
    assert_eq!(s.history[2].title, "A");
    assert!(s.history_rewrite_since.is_none()); // unsaved entries: no rewrite
    s.history_saved = 3;
    assert!(s.set_title_for("https://b.com/", "B", 0));
    assert!(s.history_rewrite_since.is_some());
}

#[test]
fn history_page_filters_and_pages() {
    let s = store_with(&["https://a.com/1", "https://b.com/2", "https://a.com/3"]);
    let p = s.history_page(0, 2, "");
    assert_eq!(p.total, 3);
    assert_eq!(p.entries[0].url, "https://a.com/3");
    let p = s.history_page(1, 10, "A.COM");
    assert_eq!(p.total, 2);
    assert_eq!(p.entries.len(), 1);
    assert_eq!(p.entries[0].url, "https://a.com/1");
}

#[test]
fn favicons_are_http_only_and_capped() {
    let mut s = Store::default();
    assert!(s.set_favicon("https://a.com/x", "https://a.com/favicon.ico"));
    assert!(!s.set_favicon("https://a.com/x", "https://a.com/favicon.ico"));
    assert!(!s.set_favicon("https://a.com/x", "data:image/png;base64,AAAA"));
    assert_eq!(
        s.favicon_for("https://a.com/other").as_deref(),
        Some("https://a.com/favicon.ico")
    );
    for i in 0..FAVICON_CAP + 10 {
        s.set_favicon(
            &format!("https://h{i}.com/"),
            &format!("https://h{i}.com/i.ico"),
        );
    }
    assert!(s.favicons.len() <= FAVICON_CAP);
}

#[test]
fn non_ascii_text_matches_whatever_the_case() {
    let mut s = store_with(&["https://a.com/"]);
    s.set_title_for("https://a.com/", "ÜBER Straße", 0);
    assert_eq!(s.history_page(0, 10, "über").total, 1);
    assert_eq!(s.suggestions("straße", 5).len(), 1);
    assert_eq!(s.suggest("ü"), None);
}

#[test]
fn visits_are_stamped_and_counts_follow_the_trim() {
    let mut s = Store::default();
    s.record_visit("https://now.example/", "", 0);
    assert!(s.history[0].ts > 1_600_000_000);
    assert_eq!(secs_of(None), 0);
    assert_eq!(secs_of(Some(5)), 5);
    let mut s = Store::default();
    s.history_saved = 0;
    for i in 0..HISTORY_TRIM_AT + 1 {
        let url = if i % 2 == 0 {
            "https://even.example/".to_string()
        } else {
            format!("https://odd.example/{i}")
        };
        s.record_visit_at(&url, "", i as u64, 9);
    }
    assert_eq!(s.history.len(), HISTORY_CAP);
    assert_eq!(s.history[0].ts, (HISTORY_TRIM_AT + 1 - HISTORY_CAP) as u64);
    assert_eq!(s.visit_count("https://odd.example/1"), 0);
    assert_eq!(
        s.visit_count("https://even.example/"),
        s.history
            .iter()
            .filter(|e| e.url == "https://even.example/")
            .count()
    );
    assert_eq!(s.history_rewrite_since, Some(9));
    s.clear_history(12);
    assert_eq!(s.visit_count("https://even.example/"), 0);
    assert_eq!(s.history_rewrite_since, Some(9));
}

#[test]
fn late_titles_and_unknown_pages() {
    let mut s = store_with(&["https://a.com/"]);
    assert!(!s.set_title_for("https://a.com/", "", 0));
    assert!(!s.set_title_for("https://none.com/", "x", 0));
    assert!(s.set_title_for("https://a.com/", "x", 0));
    assert!(!s.set_title_for("https://a.com/", "x", 0));
}

#[test]
fn history_page_carries_the_icons_of_its_hosts() {
    let mut s = store_with(&["https://a.com/1", "https://b.com/2"]);
    s.set_favicon("https://a.com/", "https://a.com/i.png");
    s.set_favicon("https://c.com/", "https://c.com/i.png");
    let p = s.history_page(0, 10, "");
    assert_eq!(p.favicons.len(), 1);
    assert_eq!(p.favicons.get("a.com").as_deref(), Some("https://a.com/i.png"));
    assert_eq!(s.history_page(5, 10, "").entries.len(), 0);
    assert_eq!(s.history_page(5, 10, "").total, 2);
}

#[test]
fn bookmarks_come_and_go() {
    let mut s = Store::default();
    s.add_bookmark("A", "https://a.com/");
    s.add_bookmark("again", "https://a.com/");
    s.add_bookmark("B", "https://b.com/");
    assert_eq!(s.bookmarks.len(), 2);
    assert!(s.is_bookmarked("https://a.com/"));
    s.set_favicon("https://b.com/", "https://b.com/i.png");
    let v = s.bookmarks_view();
    assert_eq!((v[0].title.as_str(), v[0].favicon.as_str()), ("A", ""));
    assert_eq!(v[1].favicon, "https://b.com/i.png");
    s.remove_bookmark("https://a.com/");
    assert_eq!(s.bookmarks.len(), 1);
    assert_eq!(s.bookmarks[0].url, "https://b.com/");
}

#[test]
fn bookmarked_hosts_keep_their_icons() {
    let mut s = Store::default();
    s.add_bookmark("K", "https://keep.example/");
    s.set_favicon("https://keep.example/", "https://keep.example/i.ico");
    for i in 0..FAVICON_CAP + 1 {
        s.set_favicon(
            &format!("https://h{i}.com/"),
            &format!("https://h{i}.com/i.ico"),
        );
    }
    assert_eq!(
        s.favicon_for("https://keep.example/x").as_deref(),
        Some("https://keep.example/i.ico")
    );
    assert_eq!(s.favicon_for("https://h0.com/"), None);
}

#[test]
fn the_dropdown_is_a_stable_ranking() {
    let mut s = Store::default();
    for (i, u) in [
        "https://x.example/one",
        "https://y.example/one",
        "https://z.example/one",
    ]
    .iter()
    .enumerate()
    {
        s.record_visit_at(u, "one", if i == 1 { 9 } else { 5 }, 0);
    }
    let urls: Vec<String> = s.suggestions("one", 10).into_iter().map(|x| x.url).collect();
    // The latest visit first; of equals, the newer entry first.
    assert_eq!(
        urls,
        [
            "https://y.example/one",
            "https://z.example/one",
            "https://x.example/one"
        ]
    );
    assert_eq!(s.suggestions("one", 2).len(), 2);
    assert_eq!(s.suggestions("", 0).len(), 1);
    assert_eq!(s.suggestions("one", 0).len(), 0);
}

#[test]
fn debounce_schedule() {
    let ms = 1_000_000u64;
    assert_eq!(debounce(Dirty::Settings), 400 * ms);
    assert_eq!(debounce(Dirty::Session), 2000 * ms);
    assert_eq!(debounce(Dirty::History), 3000 * ms);
    assert_eq!(debounce(Dirty::Favicons), 10_000 * ms);
    let mut s = Saver::new();
    assert!(matches!(s.next_step(0, None), Step::Wait));
    s.touch(Dirty::History, 0);
    s.touch(Dirty::Settings, 100 * ms);
    s.touch(Dirty::Settings, 300 * ms); // the first time counts
    match s.next_step(200 * ms, None) {
        Step::Sleep(d) => assert_eq!(d, (300 * ms) as u128),
        _ => panic!("should sleep"),
    }
    match s.next_step(500 * ms, None) {
        Step::Write(k) => assert_eq!(k, [Dirty::Settings]),
        _ => panic!("settings are due"),
    }
    match s.next_step(500 * ms, Some(600 * ms)) {
        Step::Sleep(d) => assert_eq!(d, (100 * ms) as u128),
        _ => panic!("the tick comes first"),
    }
    assert!(matches!(s.next_step(600 * ms, Some(600 * ms)), Step::Go));
    assert_eq!(s.flush(), [Dirty::History]);
    assert!(s.flush().is_empty());
    assert_eq!(tick_at(Some(5), Some(10), 7), (true, Some(17)));
    assert_eq!(tick_at(Some(9), Some(10), 7), (false, Some(9)));
    assert_eq!(tick_at(None, None, 7), (false, None));
}

#[test]
fn exit_writes_everything_dirty() {
    assert_eq!(
        flush_plan(Some(vec![Dirty::Session]), true),
        [Dirty::Session, Dirty::History]
    );
    assert_eq!(flush_plan(None, false).len(), 4);
}

#[test]
fn history_is_appended_and_rarely_rewritten() {
    let sec = 1_000_000_000u64;
    let mut s = store_with(&["https://a.com/", "https://b.com/"]);
    match s.history_job(false, 0) {
        (Job::Append(tail), false) => assert_eq!(tail.len(), 2),
        _ => panic!("append"),
    }
    assert!(matches!(s.history_job(false, 0), (Job::Nothing, false)));
    assert!(s.set_title_for("https://a.com/", "A", 10 * sec));
    s.record_visit("https://c.com/", "", 10 * sec);
    match s.history_job(false, 20 * sec) {
        (Job::Append(tail), true) => assert_eq!(tail[0].url, "https://c.com/"),
        _ => panic!("append, compaction pending"),
    }
    assert!(matches!(s.history_job(false, 39 * sec), (Job::Nothing, true)));
    match s.history_job(false, 40 * sec) {
        (Job::Rewrite(all), false) => assert_eq!(all.len(), 3),
        _ => panic!("rewrite"),
    }
    assert!(s.set_title_for("https://b.com/", "B", 41 * sec));
    assert!(matches!(s.history_job(true, 41 * sec), (Job::Rewrite(_), false)));
}

#[test]
fn history_files_read_back() {
    let lines = vec!["{\"url\":\"a\"}".to_string(), "{\"url\":\"b\"}".to_string()];
    let text = history_text(&lines);
    assert_eq!(text, "{\"url\":\"a\"}\n{\"url\":\"b\"}\n");
    assert_eq!(read_lines(&text), lines);
    assert_eq!(read_lines("\n  \r\nx\r\n\ny"), ["x", "y"]);
    let many: Vec<HistoryEntry> = (0..HISTORY_CAP + 3)
        .map(|i| HistoryEntry {
            url: format!("https://{i}/"),
            title: String::new(),
            ts: i as u64,
        })
        .collect();
    let kept = newest(many);
    assert_eq!((kept.len(), kept[0].ts), (HISTORY_CAP, 3));
}

#[test]
fn loading_builds_the_indexes() {
    let entry = |u: &str| HistoryEntry {
        url: u.to_string(),
        title: String::new(),
        ts: 1,
    };
    let s = load(Saved {
        settings: Settings::default(),
        bookmarks: Vec::new(),
        history: vec![entry("a"), entry("b"), entry("a")],
        session: Vec::new(),
        session_active: 0,
        favicons: IconMap::from_pairs(vec![
            ("h".to_string(), "1".to_string()),
            ("h".to_string(), "2".to_string()),
        ]),
    });
    assert_eq!(s.visit_count("a"), 2);
    assert_eq!(s.visit_count("c"), 0);
    assert_eq!(s.history_saved, 3);
    assert_eq!(s.favicons.get("h").as_deref(), Some("2"));
    assert_eq!(s.favicons.len(), 1);
}

#[test]
fn startup_choices() {
    assert!(is_old_layout(false, true));
    assert!(!is_old_layout(true, true));
    let tab = SessionTab {
        url: "https://a.com/".to_string(),
        title: String::new(),
        page: String::new(),
    };
    assert!(open_first_tabs("restore", &vec![tab.clone()]));
    assert!(!open_first_tabs("home", &vec![tab]));
    assert!(!open_first_tabs("restore", &Vec::new()));
    assert_eq!(chrome_page("macos", false), "index.html?os=macos");
    assert_eq!(chrome_page("linux", true), "index.html?os=linux&opaque=1");
    assert_eq!(file_name_of(Dirty::History), "history.jsonl");
    assert_eq!(corrupt_extension(17), "corrupt-17");
}

#[test]
fn default_settings() {
    let s = Settings::default();
    assert_eq!(
        (s.theme.as_str(), s.accent.as_str(), s.search_engine.as_str()),
        ("dark", "#d97b32", "duckduckgo")
    );
    assert_eq!(f64::from_bits(s.default_zoom), 1.0);
    assert_eq!(s.discard_after_min, 5);
    assert!(s.mru_tab_switching && !s.vertical_tabs);
    assert!(s.same(&s.clone(), true));
    assert!(!s.same(&s.clone(), false));
}

fn entry(url: &str) -> HistoryEntry {
    HistoryEntry {
        url: url.to_string(),
        title: String::new(),
        ts: 0,
    }
}

#[test]
fn lines_that_are_not_understood_are_skipped() {
    let written = history_text(&vec!["one".to_string(), "two".to_string()]);
    let file = format!("\n{}\r\n  \njunk\n{}", written, history_text(&vec!["three".to_string()]));
    let parsed: Vec<Option<HistoryEntry>> = read_lines(&file)
        .iter()
        .map(|l| if l == "junk" { None } else { Some(entry(l)) })
        .collect();
    assert_eq!(parsed.len(), 4);
    let urls: Vec<String> = read_entries(parsed).iter().map(|e| e.url.clone()).collect();
    assert_eq!(urls, ["one", "two", "three"]);
    assert!(read_entries(vec![]).is_empty());
    let many = (0..HISTORY_CAP + 3).map(|i| Some(entry(&i.to_string()))).collect();
    let kept = read_entries(many);
    assert_eq!(kept.len(), HISTORY_CAP);
    assert_eq!(kept[0].url, "3");
}

#[test]
fn the_first_of_equally_good_bookmarks_completes() {
    let mut s = Store::default();
    s.add_bookmark("One", "https://gita.com/");
    s.add_bookmark("Two", "https://gitb.com/");
    assert_eq!(s.suggest("git").as_deref(), Some("gita.com"));
    s.add_bookmark("Three", "https://git.c/");
    assert_eq!(s.suggest("git").as_deref(), Some("git.c"));
}

#[test]
fn migration_covers_accent_and_image() {
    let mut s = Store::default();
    let accent = s.settings.accent.clone();
    assert!(!s.migrate(None));
    s.settings.accent = foxlite::store::LEGACY_ACCENT.to_uppercase();
    assert!(s.migrate(Some("7".to_string())));
    assert_eq!(s.settings.accent, accent);
    assert_eq!(s.settings.wallpaper.kind, "preset");
    let image = "data:image/png;base64,AA==";
    s.settings.wallpaper.kind = "image".to_string();
    s.settings.wallpaper.value = image.to_string();
    assert_eq!(s.embedded_wallpaper().as_deref(), Some(image));
    assert!(s.migrate(Some("7".to_string())));
    assert_eq!(s.settings.wallpaper.kind, "image");
    assert_eq!(s.settings.wallpaper.value, "7");
    assert!(!s.migrate(None));
    s.settings.wallpaper.value = image.to_string();
    assert!(s.migrate(None));
    assert_eq!(s.settings.wallpaper.kind, "preset");
}
