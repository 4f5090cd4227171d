use foxlite::blocklist::{
    chunks, chunks_in, escape, fallback_json, fnv, meta_line, rule_set, ChunkMeta, Meta, DOMAINS,
};
use foxlite::layout::{apply, Applied, Placement};
use foxlite::menu::{
    handle, tab_item, window_menu, MenuAction, APP_MENU, BOOKMARKS_MENU, DEVELOP_MENU, EDIT_MENU,
    FILE_MENU, HISTORY_MENU, POPUP_MENU, VIEW_MENU,
};
use foxlite::native::{
    blocker_apply, blocker_status, chunk_identifier, key_action, phys_footprint, stale_list, swallows,
    system_reduce_transparency, Batch, Blocker, BlockerStatus, KeyAction, KeyEvent, KeyKind,
    Outcome, Phase, Task,
};
use foxlite::state::BrowserState;
use foxlite::store::Store;
use foxlite::tabs::register_tab;
use foxlite::wallpaper::{
    decode_wallpaper, image_of, load_wallpaper_image, serves_wallpaper, split_data_url,
    version_at, version_tag, wallpaper_answer, wallpaper_mime, WALLPAPER_MIMES,
};
use foxlite::watchdog::{report_name, report_text, Alarm, Watchdog};
use std::io::Write;

fn meta(categories: &[&str]) -> Meta {
    Meta {
        generated: String::new(),
        rules: 0,
        network: 0,
        hide: 0,
        exceptions: 0,
        categories: Vec::new(),
        chunks: categories
            .iter()
            .map(|c| ChunkMeta {
                category: c.to_string(),
                rules: 1,
            })
            .collect(),
        sources: Vec::new(),
    }
}

fn packed(text: &str) -> Vec<u8> {
    let mut out = Vec::new();
    {
        let mut w = brotli::CompressorWriter::new(&mut out, 4096, 5, 22);
        w.write_all(text.as_bytes()).unwrap();
    }
    out
}

#[test]
fn fallback_json_is_valid_and_escaped() {
    let v: serde_json::Value = serde_json::from_str(&fallback_json()).unwrap();
    let rules = v.as_array().unwrap();
    assert_eq!(rules.len(), DOMAINS.len());
    let first = rules[0]["trigger"]["url-filter"].as_str().unwrap();
    assert_eq!(first, r"^https?://([^/]+\.)?doubleclick\.net[/:]");
}

#[test]
fn wallpaper_mime_allowlist() {
    assert!(WALLPAPER_MIMES.contains(&"image/png"));
    assert!(!WALLPAPER_MIMES.contains(&"image/svg+xml"));
}

#[test]
fn packed_rule_sets_unpack() {
    let p = packed("{\"rules\":2}\n[1]\n\n[2]\n");
    assert_eq!(meta_line(&p), "{\"rules\":2}");
    assert_eq!(chunks(&p), ["[1]", "[2]"]);
    let long = format!("{}\n[3]", "m".repeat(100_000));
    let p = packed(&long);
    assert_eq!(meta_line(&p).len(), 100_000);
    assert_eq!(chunks(&p), ["[3]"]);
    assert!(chunks_in("").is_empty());
    assert!(chunks(&[]).is_empty());
}

#[test]
fn rule_set_identifiers() {
    assert_eq!(fnv(b""), 0xcbf2_9ce4_8422_2325);
    assert_eq!(fnv(b"a"), 0xaf63_dc4c_8601_ec8c);
    assert_eq!(escape("a.b"), "a\\\\.b");
    let set = rule_set(b"a", &meta(&["ads", "security"]));
    assert_eq!(set.identifier, "foxlite-rules-af63dc4c8601ec8c");
    assert!(set.fallback_identifier.starts_with("foxlite-fallback-"));
    assert_eq!(set.categories, ["ads", "security"]);
    assert_eq!(chunk_identifier(&set.identifier, 3), "foxlite-rules-af63dc4c8601ec8c-3");
    assert!(stale_list("foxlite-rules-00-1", "foxlite-rules-01", "foxlite-fallback-9"));
    assert!(!stale_list("foxlite-rules-01-1", "foxlite-rules-01", "foxlite-fallback-9"));
    assert!(!stale_list("foxlite-fallback-9", "foxlite-rules-01", "foxlite-fallback-9"));
    assert!(!stale_list("other-1", "foxlite-rules-01", "foxlite-fallback-9"));
}

#[test]
fn uploads_are_decoded() {
    let (mime, bytes) = decode_wallpaper("data:image/PNG;base64, aGVsbG8= ").unwrap();
    assert_eq!((mime.as_str(), bytes.as_slice()), ("image/png", b"hello".as_slice()));
    assert!(decode_wallpaper("data:image/png;base64,@@@").is_none());
    assert!(decode_wallpaper("data:image/svg+xml;base64,aGVsbG8=").is_none());
    assert!(decode_wallpaper("data:image/png,aGVsbG8=").is_none());
    assert!(decode_wallpaper("https://a.com/").is_none());
    assert!(split_data_url("data:image/png;base64").is_none());
    assert_eq!(
        split_data_url("data:image/gif;x;base64,AA,BB"),
        Some(("image/gif".to_string(), "AA,BB".to_string()))
    );
    assert!(image_of("image/png".to_string(), None).is_none());
    assert_eq!(version_at(1234), "1234");
    assert!(version_tag().len() >= 10);
    assert!(wallpaper_mime("image/avif") && !wallpaper_mime("text/html"));
}

#[test]
fn the_wallpaper_scheme_serves_one_path_sandboxed() {
    let image = || Some(("image/webp".to_string(), vec![1, 2, 3]));
    let a = wallpaper_answer("/current", image());
    assert_eq!(a.status, 200);
    assert_eq!(a.body, [1, 2, 3]);
    assert_eq!(a.headers[0], ("Content-Type", "image/webp".to_string()));
    assert!(a
        .headers
        .iter()
        .any(|(k, v)| *k == "Content-Security-Policy" && v == "sandbox; default-src 'none'"));
    assert_eq!(wallpaper_answer("/other", image()).status, 404);
    assert_eq!(wallpaper_answer("/current", None).status, 404);
    assert!(serves_wallpaper("//current") && !serves_wallpaper("/current/x"));
    let (mime, _) = load_wallpaper_image(Some(vec![1]), Some("text/html".to_string())).unwrap();
    assert_eq!(mime, "image/png");
    let (mime, _) = load_wallpaper_image(Some(vec![1]), Some("image/gif".to_string())).unwrap();
    assert_eq!(mime, "image/gif");
    assert!(load_wallpaper_image(None, None).is_none());
}

#[test]
fn older_profiles_are_migrated() {
    let mut s = Store::default();
    assert!(!s.migrate_accent());
    s.settings.accent = "#A78BFA".to_string();
    assert!(s.migrate_accent());
    assert_eq!(s.settings.accent, "#d97b32");
    assert!(s.embedded_wallpaper().is_none());
    s.settings.wallpaper.kind = "image".to_string();
    s.settings.wallpaper.value = "data:image/png;base64,AA".to_string();
    assert!(s.embedded_wallpaper().is_some());
    s.replace_embedded(Some("9".to_string()));
    assert_eq!(s.settings.wallpaper.value, "9");
    s.replace_embedded(None);
    assert_eq!(s.settings.wallpaper.value, "aurora");
}

#[test]
fn the_blocker_looks_up_compiles_and_falls_back() {
    let cats = || vec!["ads".to_string(), "security".to_string()];
    let (mut b, task) = Blocker::start(cats());
    assert_eq!(task, Task::LookUp);
    assert_eq!(b.report(1, true), Task::Wait);
    assert_eq!(b.report(0, true), Task::Install);
    assert_eq!(blocker_status(Some(&b)), BlockerStatus::Ready);
    assert_eq!(b.installed, ["ads", "security"]);
    assert_eq!(blocker_apply(&b.installed, &vec!["security"]), [1]);

    let (mut b, _) = Blocker::start(cats());
    b.report(0, true);
    assert_eq!(b.report(1, false), Task::Compile);
    assert_eq!(b.compile(2), Task::Compile);
    assert_eq!(b.phase, Phase::Compiling);
    b.report(0, false);
    assert_eq!(b.report(1, true), Task::CompileFallback);
    assert_eq!(b.fallback_done(true), Task::Install);
    assert_eq!(b.installed, ["ads"]);

    let (mut b, task) = Blocker::start(Vec::new());
    assert_eq!(task, Task::CompileFallback);
    assert_eq!(b.fallback_done(false), Task::GiveUp);
    assert_eq!(blocker_status(Some(&b)), BlockerStatus::Failed);
    assert_eq!(blocker_status(None), BlockerStatus::Unsupported);

    let (mut b, _) = Blocker::start(cats());
    assert_eq!(b.compile(3), Task::CompileFallback);
    let mut batch = Batch::new(1);
    assert_eq!(batch.report(0, false), Outcome::Incomplete);
    assert_eq!(phys_footprint(1), None);
    assert!(!system_reduce_transparency());
}

#[test]
fn keys_of_the_switcher() {
    let key = |kind, code, control, shift| KeyEvent {
        kind,
        code,
        control,
        command: false,
        option: false,
        shift,
    };
    assert_eq!(
        key_action(key(KeyKind::Down, 48, true, false)),
        Some(KeyAction::Cycle(1))
    );
    assert_eq!(
        key_action(key(KeyKind::Down, 48, true, true)),
        Some(KeyAction::Cycle(-1))
    );
    assert_eq!(key_action(key(KeyKind::Down, 48, false, false)), None);
    assert_eq!(
        key_action(key(KeyKind::Down, 53, false, false)),
        Some(KeyAction::Escape)
    );
    assert_eq!(
        key_action(key(KeyKind::ModifiersChanged, 0, false, false)),
        Some(KeyAction::ControlReleased)
    );
    assert_eq!(key_action(key(KeyKind::ModifiersChanged, 0, true, false)), None);
    assert_eq!(key_action(key(KeyKind::Other, 48, true, false)), None);
}

#[test]
fn frames_are_pushed_only_when_they_change() {
    let mut a = Applied::new();
    let both = Placement {
        set_frame: true,
        show: true,
    };
    let none = Placement {
        set_frame: false,
        show: false,
    };
    assert_eq!(a.place_visible("tab-0", 1, 2, 3, 4, false), both);
    assert_eq!(a.place_visible("tab-0", 1, 2, 3, 4, true), none);
    assert!(a.conceal("tab-0"));
    assert!(!a.conceal("tab-0"));
    assert_eq!(
        a.place_visible("tab-0", 1, 2, 3, 4, true),
        Placement {
            set_frame: false,
            show: true
        }
    );
    a.forget("tab-0");
    assert!(a.get("tab-0").is_none());
    a.note_created("tab-1", 5, 6, 7, 8);
    assert!(a.get("tab-1").unwrap().visible);
    assert!(a.conceal("tab-2"));
    assert_eq!(a.get("tab-2").unwrap().w, 0);
}

#[test]
fn background_tabs_are_hidden() {
    let mut state = BrowserState::new();
    let mut store = Store::default();
    assert!(apply(&state).show.is_none());
    for _ in 0..3 {
        register_tab(
            &mut state,
            &mut store,
            String::new(),
            "newtab.html".to_string(),
            false,
            0,
        );
    }
    state.tabs[0].discarded = true;
    let plan = apply(&state);
    assert_eq!(plan.show.as_deref(), Some("tab-2"));
    assert_eq!(plan.hidden, ["tab-1"]);
}

#[test]
fn menu_items_have_actions() {
    for menu in [
        &APP_MENU[..],
        &FILE_MENU[..],
        &EDIT_MENU[..],
        &VIEW_MENU[..],
        &HISTORY_MENU[..],
        &BOOKMARKS_MENU[..],
        &DEVELOP_MENU[..],
        &POPUP_MENU[..],
    ] {
        for (id, _, _) in menu {
            assert!(id.is_empty() || handle(id) != MenuAction::Nothing, "{id}");
        }
    }
    assert_eq!(handle("new-incognito"), MenuAction::OpenHome(true));
    assert_eq!(handle("prev-tab"), MenuAction::Cycle(-1));
    assert_eq!(handle("tab-last"), MenuAction::SelectLast);
    assert_eq!(handle("tab-3"), MenuAction::Select(3));
    assert_eq!(handle("tab-x"), MenuAction::Nothing);
    assert_eq!(handle("nope"), MenuAction::Nothing);
    let items = window_menu();
    assert_eq!(items.len(), 14);
    assert_eq!(items[5].id, "tab-0");
    assert_eq!(items[13].id, "tab-last");
    let five = tab_item(5);
    assert_eq!(
        (five.id.as_str(), five.text.as_str(), five.accelerator.as_str()),
        ("tab-4", "Tab 5", "CmdOrCtrl+5")
    );
}

#[test]
fn stalls_are_reported_once() {
    let mut w = Watchdog::new();
    assert_eq!(w.tick(100), Alarm::Ping);
    assert_eq!(w.tick(130), Alarm::Report(30));
    assert_eq!(w.tick(160), Alarm::Quiet);
    w.answered();
    assert_eq!(w.tick(190), Alarm::Ping);
    w.not_posted();
    assert_eq!(w.tick(220), Alarm::Ping);
    assert_eq!(report_name(7), "hang-7.txt");
    assert_eq!(report_text(31), "main thread unresponsive for ~31s\n");
}

#[test]
fn only_consumed_key_presses_are_swallowed() {
    assert!(swallows(KeyKind::Down, true));
    assert!(!swallows(KeyKind::Down, false));
    assert!(!swallows(KeyKind::ModifiersChanged, true));
    assert!(!swallows(KeyKind::Other, true));
}
