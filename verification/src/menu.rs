//! The menus: their items, and what each item does.

use crate::number::{decimal, digits, law_decimal_round_trip, lemma_digits, parse_number, parsed};
use crate::text::{chars_of, has_prefix, is_digit, starts_with, text_eq};
use vstd::prelude::*;
use vstd::slice::slice_subrange;

verus! {

/// What a menu item does.
#[derive(Clone, Copy, PartialEq, Eq, Debug, Structural)]
pub enum MenuAction {
    /// A new home tab, private or not.
    OpenHome(bool),
    ReopenClosed,
    CloseActive,
    Print,
    Reload,
    Stop,
    Back,
    Forward,
    ZoomIn,
    ZoomOut,
    ZoomReset,
    OpenHistory,
    OpenSettings,
    Bookmark,
    ToggleBookmarksBar,
    ToggleVerticalTabs,
    SleepBackground,
    ToggleDevtools,
    ViewSource,
    ReloadIgnoringCache,
    ClearSiteData,
    Cycle(isize),
    SelectLast,
    Select(usize),
    /// Forwarded to the chrome UI.
    Chrome,
    Nothing,
}

/// What the item with this id does.
pub open spec fn action_for(id: Seq<char>) -> MenuAction {
    if id == "new-tab"@ {
        MenuAction::OpenHome(false)
    } else if id == "new-incognito"@ {
        MenuAction::OpenHome(true)
    } else if id == "reopen-tab"@ {
        MenuAction::ReopenClosed
    } else if id == "close-tab"@ {
        MenuAction::CloseActive
    } else if id == "print"@ {
        MenuAction::Print
    } else if id == "reload"@ {
        MenuAction::Reload
    } else if id == "stop"@ {
        MenuAction::Stop
    } else if id == "back"@ {
        MenuAction::Back
    } else if id == "forward"@ {
        MenuAction::Forward
    } else if id == "zoom-in"@ {
        MenuAction::ZoomIn
    } else if id == "zoom-out"@ {
        MenuAction::ZoomOut
    } else if id == "zoom-reset"@ {
        MenuAction::ZoomReset
    } else if id == "show-history"@ {
        MenuAction::OpenHistory
    } else if id == "settings"@ {
        MenuAction::OpenSettings
    } else if id == "bookmark"@ {
        MenuAction::Bookmark
    } else if id == "toggle-bookmarks"@ {
        MenuAction::ToggleBookmarksBar
    } else if id == "toggle-vertical-tabs"@ {
        MenuAction::ToggleVerticalTabs
    } else if id == "free-memory"@ {
        MenuAction::SleepBackground
    } else if id == "devtools"@ {
        MenuAction::ToggleDevtools
    } else if id == "view-source"@ {
        MenuAction::ViewSource
    } else if id == "reload-nocache"@ {
        MenuAction::ReloadIgnoringCache
    } else if id == "clear-site-data"@ {
        MenuAction::ClearSiteData
    } else if id == "next-tab"@ {
        MenuAction::Cycle(1isize)
    } else if id == "prev-tab"@ {
        MenuAction::Cycle(-1isize)
    } else if id == "tab-last"@ {
        MenuAction::SelectLast
    } else if id == "find"@ || id == "focus-address"@ {
        MenuAction::Chrome
    } else {
        numbered(id)
    }
}

/// The items `tab-<n>` select the tab at place `n` of the strip.
pub open spec fn numbered(id: Seq<char>) -> MenuAction {
    if has_prefix(id, "tab-"@) {
        match parsed(id.skip("tab-"@.len() as int)) {
            Some(n) => MenuAction::Select(n),
            None => MenuAction::Nothing,
        }
    } else {
        MenuAction::Nothing
    }
}

fn numbered_item(id: &str) -> (r: MenuAction)
    ensures
        r == numbered(id@),
{
    let chars = chars_of(id);
    let head = chars_of("tab-");
    if starts_with(chars.as_slice(), head.as_slice()) {
        match parse_number(slice_subrange(chars.as_slice(), head.len(), chars.len())) {
            Some(n) => MenuAction::Select(n),
            None => MenuAction::Nothing,
        }
    } else {
        MenuAction::Nothing
    }
}

/// Dispatch a menu item by id. UI-only actions are forwarded to the chrome.
pub fn handle(id: &str) -> (r: MenuAction)
    ensures
        r == action_for(id@),
{
    if text_eq(id, "new-tab") {
        MenuAction::OpenHome(false)
    } else if text_eq(id, "new-incognito") {
        MenuAction::OpenHome(true)
    } else if text_eq(id, "reopen-tab") {
        MenuAction::ReopenClosed
    } else if text_eq(id, "close-tab") {
        MenuAction::CloseActive
    } else if text_eq(id, "print") {
        MenuAction::Print
    } else if text_eq(id, "reload") {
        MenuAction::Reload
    } else if text_eq(id, "stop") {
        MenuAction::Stop
    } else if text_eq(id, "back") {
        MenuAction::Back
    } else if text_eq(id, "forward") {
        MenuAction::Forward
    } else if text_eq(id, "zoom-in") {
        MenuAction::ZoomIn
    } else if text_eq(id, "zoom-out") {
        MenuAction::ZoomOut
    } else if text_eq(id, "zoom-reset") {
        MenuAction::ZoomReset
    } else if text_eq(id, "show-history") {
        MenuAction::OpenHistory
    } else if text_eq(id, "settings") {
        MenuAction::OpenSettings
    } else if text_eq(id, "bookmark") {
        MenuAction::Bookmark
    } else if text_eq(id, "toggle-bookmarks") {
        MenuAction::ToggleBookmarksBar
    } else if text_eq(id, "toggle-vertical-tabs") {
        MenuAction::ToggleVerticalTabs
    } else if text_eq(id, "free-memory") {
        MenuAction::SleepBackground
    } else if text_eq(id, "devtools") {
        MenuAction::ToggleDevtools
    } else if text_eq(id, "view-source") {
        MenuAction::ViewSource
    } else if text_eq(id, "reload-nocache") {
        MenuAction::ReloadIgnoringCache
    } else if text_eq(id, "clear-site-data") {
        MenuAction::ClearSiteData
    } else if text_eq(id, "next-tab") {
        MenuAction::Cycle(1)
    } else if text_eq(id, "prev-tab") {
        MenuAction::Cycle(-1)
    } else if text_eq(id, "tab-last") {
        MenuAction::SelectLast
    } else if text_eq(id, "find") || text_eq(id, "focus-address") {
        MenuAction::Chrome
    } else {
        numbered_item(id)
    }
}

// ---- the items ----------------------------------------------------------
//
// Each item is its id, its text and its accelerator (empty for none). An item
// without an id is one that the system provides, under the name in its text.

pub const APP_MENU: [(&'static str, &'static str, &'static str); 6] = [
    ("", "about", ""),
    ("", "separator", ""),
    ("settings", "Settings…", "CmdOrCtrl+,"),
    ("", "separator", ""),
    ("", "hide-app", ""),
    ("", "quit", ""),
];

pub const FILE_MENU: [(&'static str, &'static str, &'static str); 7] = [
    ("new-tab", "New Tab", "CmdOrCtrl+T"),
    ("new-incognito", "New Private Tab", "Shift+CmdOrCtrl+N"),
    ("reopen-tab", "Reopen Closed Tab", "Shift+CmdOrCtrl+T"),
    ("", "separator", ""),
    ("close-tab", "Close Tab", "CmdOrCtrl+W"),
    ("", "separator", ""),
    ("print", "Print…", "CmdOrCtrl+P"),
];

pub const EDIT_MENU: [(&'static str, &'static str, &'static str); 10] = [
    ("", "undo", ""),
    ("", "redo", ""),
    ("", "separator", ""),
    ("", "cut", ""),
    ("", "copy", ""),
    ("", "paste", ""),
    ("", "select-all", ""),
    ("", "separator", ""),
    ("find", "Find…", "CmdOrCtrl+F"),
    ("focus-address", "Open Location…", "CmdOrCtrl+L"),
];

pub const VIEW_MENU: [(&'static str, &'static str, &'static str); 9] = [
    ("reload", "Reload", "CmdOrCtrl+R"),
    ("stop", "Stop", "CmdOrCtrl+."),
    ("", "separator", ""),
    ("zoom-in", "Zoom In", "CmdOrCtrl+Equal"),
    ("zoom-out", "Zoom Out", "CmdOrCtrl+-"),
    ("zoom-reset", "Actual Size", "CmdOrCtrl+0"),
    ("", "separator", ""),
    ("toggle-bookmarks", "Toggle Bookmarks Bar", "Shift+CmdOrCtrl+B"),
    ("toggle-vertical-tabs", "Toggle Vertical Tabs", "Shift+CmdOrCtrl+S"),
];

pub const HISTORY_MENU: [(&'static str, &'static str, &'static str); 4] = [
    ("back", "Back", "CmdOrCtrl+["),
    ("forward", "Forward", "CmdOrCtrl+]"),
    ("", "separator", ""),
    ("show-history", "Show All History", "CmdOrCtrl+Y"),
];

pub const BOOKMARKS_MENU: [(&'static str, &'static str, &'static str); 1] = [
    ("bookmark", "Bookmark This Page", "CmdOrCtrl+D"),
];

pub const DEVELOP_MENU: [(&'static str, &'static str, &'static str); 5] = [
    ("devtools", "Toggle Web Inspector", "Alt+CmdOrCtrl+I"),
    ("view-source", "View Page Source", "Alt+CmdOrCtrl+U"),
    ("", "separator", ""),
    ("reload-nocache", "Reload Ignoring Cache", "Shift+CmdOrCtrl+R"),
    ("clear-site-data", "Clear Cookies & Site Data", ""),
];

/// The items before those that jump to a tab.
pub const WINDOW_MENU: [(&'static str, &'static str, &'static str); 5] = [
    ("", "minimize", ""),
    ("", "separator", ""),
    ("next-tab", "Show Next Tab", "Ctrl+Tab"),
    ("prev-tab", "Show Previous Tab", "Ctrl+Shift+Tab"),
    ("", "separator", ""),
];

/// The toolbar's menu. It shows no accelerators: they would widen it.
pub const POPUP_MENU: [(&'static str, &'static str, &'static str); 16] = [
    ("new-tab", "New Tab", ""),
    ("new-incognito", "New Private Tab", ""),
    ("reopen-tab", "Reopen Closed Tab", ""),
    ("", "separator", ""),
    ("find", "Find in Page…", ""),
    ("print", "Print…", ""),
    ("toggle-bookmarks", "Toggle Bookmarks Bar", ""),
    ("toggle-vertical-tabs", "Toggle Vertical Tabs", ""),
    ("", "separator", ""),
    ("free-memory", "Sleep Background Tabs", ""),
    ("", "separator", ""),
    ("devtools", "Web Inspector", ""),
    ("view-source", "View Page Source", ""),
    ("", "separator", ""),
    ("show-history", "History", ""),
    ("settings", "Settings…", ""),
];

/// A menu item: its id, its text and its accelerator.
pub struct Item {
    pub id: String,
    pub text: String,
    pub accelerator: String,
}

pub open spec fn item_texts(i: Item) -> (Seq<char>, Seq<char>, Seq<char>) {
    (i.id@, i.text@, i.accelerator@)
}

/// The item for the `n`th digit key: 1 to 8 jump to a tab, 9 to the last one.
pub open spec fn tab_item_texts(n: nat) -> (Seq<char>, Seq<char>, Seq<char>) {
    if n == 9 {
        ("tab-last"@, "Last Tab"@, "CmdOrCtrl+"@ + digits(9))
    } else {
        ("tab-"@ + digits((n - 1) as nat), "Tab "@ + digits(n), "CmdOrCtrl+"@ + digits(n))
    }
}

pub fn tab_item(n: u8) -> (r: Item)
    requires
        1 <= n <= 9,
    ensures
        item_texts(r) == tab_item_texts(n as nat),
{
    let mut accelerator = "CmdOrCtrl+".to_owned();
    accelerator.append(decimal(n as u64).as_str());
    if n == 9 {
        return Item { id: "tab-last".to_owned(), text: "Last Tab".to_owned(), accelerator };
    }
    let mut id = "tab-".to_owned();
    id.append(decimal((n - 1) as u64).as_str());
    let mut text = "Tab ".to_owned();
    text.append(decimal(n as u64).as_str());
    Item { id, text, accelerator }
}

fn items_of(list: &[(&'static str, &'static str, &'static str)]) -> (r: Vec<Item>)
    ensures
        r@.len() == list@.len(),
        forall|i: int|
            0 <= i < list@.len() ==> item_texts(#[trigger] r@[i]) == (
                list@[i].0@,
                list@[i].1@,
                list@[i].2@,
            ),
{
    let mut out: Vec<Item> = Vec::new();
    let mut i: usize = 0;
    while i < list.len()
        invariant
            i <= list@.len(),
            out@.len() == i,
            forall|j: int|
                0 <= j < i ==> item_texts(#[trigger] out@[j]) == (
                    list@[j].0@,
                    list@[j].1@,
                    list@[j].2@,
                ),
        decreases list@.len() - i,
    {
        let (id, text, accelerator) = list[i];
        out.push(
            Item {
                id: id.to_owned(),
                text: text.to_owned(),
                accelerator: accelerator.to_owned(),
            },
        );
        i += 1;
    }
    out
}

/// The whole Window menu: its own items, then one for each digit key.
pub fn window_menu() -> (r: Vec<Item>)
    ensures
        r@.len() == 14,
        forall|i: int|
            0 <= i < 5 ==> item_texts(#[trigger] r@[i]) == (
                WINDOW_MENU@[i].0@,
                WINDOW_MENU@[i].1@,
                WINDOW_MENU@[i].2@,
            ),
        forall|i: int|
            5 <= i < 14 ==> item_texts(#[trigger] r@[i]) == tab_item_texts((i - 4) as nat),
{
    let list = WINDOW_MENU;
    let mut out = items_of(list.as_slice());
    let mut n: u8 = 1;
    while n <= 9
        invariant
            1 <= n <= 10,
            list@ == WINDOW_MENU@,
            out@.len() == 4 + n,
            forall|i: int|
                0 <= i < 5 ==> item_texts(#[trigger] out@[i]) == (
                    list@[i].0@,
                    list@[i].1@,
                    list@[i].2@,
                ),
            forall|i: int|
                5 <= i < 4 + n ==> item_texts(#[trigger] out@[i]) == tab_item_texts(
                    (i - 4) as nat,
                ),
        decreases 10 - n,
    {
        out.push(tab_item(n));
        n += 1;
    }
    out
}

// ---- laws ---------------------------------------------------------------

/// An item that the app itself provides does something.
pub open spec fn is_live(item: (&'static str, &'static str, &'static str)) -> bool {
    item.0@ == ""@ || action_for(item.0@) !is Nothing
}

/// No item of the menus is dead: each has an action.
pub proof fn law_every_item_does_something(i: int)
    ensures
        0 <= i < 6 ==> is_live(APP_MENU@[i]),
        0 <= i < 7 ==> is_live(FILE_MENU@[i]),
        0 <= i < 10 ==> is_live(EDIT_MENU@[i]),
        0 <= i < 9 ==> is_live(VIEW_MENU@[i]),
        0 <= i < 4 ==> is_live(HISTORY_MENU@[i]),
        0 <= i < 1 ==> is_live(BOOKMARKS_MENU@[i]),
        0 <= i < 5 ==> is_live(DEVELOP_MENU@[i]),
        0 <= i < 5 ==> is_live(WINDOW_MENU@[i]),
        0 <= i < 16 ==> is_live(POPUP_MENU@[i]),
{
    assert(0 <= i < 16 ==> i == 0 || i == 1 || i == 2 || i == 3 || i == 4 || i == 5 || i == 6 || i
        == 7 || i == 8 || i == 9 || i == 10 || i == 11 || i == 12 || i == 13 || i == 14 || i == 15);
}

/// The digit keys jump to the tab with their number: the item for key `n`
/// selects place `n - 1` of the strip.
pub proof fn law_digit_keys_jump(n: usize)
    requires
        1 <= n <= 8,
    ensures
        action_for(tab_item_texts(n as nat).0) == MenuAction::Select((n - 1) as usize),
{
    let k = (n - 1) as usize;
    let id = "tab-"@ + digits(k as nat);
    law_decimal_round_trip(k);
    lemma_digits(k as nat);
    reveal_strlit("tab-");
    assert("tab-"@ =~= seq!['t', 'a', 'b', '-']);
    assert(id[0] == 't' && id[1] == 'a' && id[2] == 'b' && id[3] == '-');
    assert(id[4] == digits(k as nat)[0]);
    reveal_strlit("tab-last");
    assert("tab-last"@[4] == 'l');
    assert(is_digit(digits(k as nat)[0]));
    reveal_strlit("new-tab");
    assert("new-tab"@[0] != 't');
    reveal_strlit("new-incognito");
    assert("new-incognito"@[0] != 't');
    reveal_strlit("reopen-tab");
    assert("reopen-tab"@[0] != 't');
    reveal_strlit("close-tab");
    assert("close-tab"@[0] != 't');
    reveal_strlit("print");
    assert("print"@[0] != 't');
    reveal_strlit("reload");
    assert("reload"@[0] != 't');
    reveal_strlit("stop");
    assert("stop"@[0] != 't');
    reveal_strlit("back");
    assert("back"@[0] != 't');
    reveal_strlit("forward");
    assert("forward"@[0] != 't');
    reveal_strlit("zoom-in");
    assert("zoom-in"@[0] != 't');
    reveal_strlit("zoom-out");
    assert("zoom-out"@[0] != 't');
    reveal_strlit("zoom-reset");
    assert("zoom-reset"@[0] != 't');
    reveal_strlit("show-history");
    assert("show-history"@[0] != 't');
    reveal_strlit("settings");
    assert("settings"@[0] != 't');
    reveal_strlit("bookmark");
    assert("bookmark"@[0] != 't');
    reveal_strlit("toggle-bookmarks");
    assert("toggle-bookmarks"@[1] != 'a');
    reveal_strlit("toggle-vertical-tabs");
    assert("toggle-vertical-tabs"@[1] != 'a');
    reveal_strlit("free-memory");
    assert("free-memory"@[0] != 't');
    reveal_strlit("devtools");
    assert("devtools"@[0] != 't');
    reveal_strlit("view-source");
    assert("view-source"@[0] != 't');
    reveal_strlit("reload-nocache");
    assert("reload-nocache"@[0] != 't');
    reveal_strlit("clear-site-data");
    assert("clear-site-data"@[0] != 't');
    reveal_strlit("next-tab");
    assert("next-tab"@[0] != 't');
    reveal_strlit("prev-tab");
    assert("prev-tab"@[0] != 't');
    reveal_strlit("find");
    assert("find"@[0] != 't');
    reveal_strlit("focus-address");
    assert("focus-address"@[0] != 't');
    assert(id.take(4) =~= "tab-"@);
    assert(id.skip(4) =~= digits(k as nat));
}

/// Each item does what its id says.
pub proof fn law_items_do_what_they_say()
    ensures
        action_for("new-tab"@) == MenuAction::OpenHome(false),
        action_for("new-incognito"@) == MenuAction::OpenHome(true),
        action_for("reopen-tab"@) == MenuAction::ReopenClosed,
        action_for("close-tab"@) == MenuAction::CloseActive,
        action_for("print"@) == MenuAction::Print,
        action_for("reload"@) == MenuAction::Reload,
        action_for("stop"@) == MenuAction::Stop,
        action_for("back"@) == MenuAction::Back,
        action_for("forward"@) == MenuAction::Forward,
        action_for("zoom-in"@) == MenuAction::ZoomIn,
        action_for("zoom-out"@) == MenuAction::ZoomOut,
        action_for("zoom-reset"@) == MenuAction::ZoomReset,
        action_for("show-history"@) == MenuAction::OpenHistory,
        action_for("settings"@) == MenuAction::OpenSettings,
        action_for("bookmark"@) == MenuAction::Bookmark,
        action_for("toggle-bookmarks"@) == MenuAction::ToggleBookmarksBar,
        action_for("toggle-vertical-tabs"@) == MenuAction::ToggleVerticalTabs,
        action_for("free-memory"@) == MenuAction::SleepBackground,
        action_for("devtools"@) == MenuAction::ToggleDevtools,
        action_for("view-source"@) == MenuAction::ViewSource,
        action_for("reload-nocache"@) == MenuAction::ReloadIgnoringCache,
        action_for("clear-site-data"@) == MenuAction::ClearSiteData,
        action_for("next-tab"@) == MenuAction::Cycle(1isize),
        action_for("prev-tab"@) == MenuAction::Cycle(-1isize),
        action_for("tab-last"@) == MenuAction::SelectLast,
        action_for("find"@) == MenuAction::Chrome,
        action_for("focus-address"@) == MenuAction::Chrome,
{
    reveal_strlit("new-tab");
    reveal_strlit("new-incognito");
    reveal_strlit("reopen-tab");
    reveal_strlit("close-tab");
    reveal_strlit("print");
    reveal_strlit("reload");
    reveal_strlit("stop");
    reveal_strlit("back");
    reveal_strlit("forward");
    reveal_strlit("zoom-in");
    reveal_strlit("zoom-out");
    reveal_strlit("zoom-reset");
    reveal_strlit("show-history");
    reveal_strlit("settings");
    reveal_strlit("bookmark");
    reveal_strlit("toggle-bookmarks");
    reveal_strlit("toggle-vertical-tabs");
    reveal_strlit("free-memory");
    reveal_strlit("devtools");
    reveal_strlit("view-source");
    reveal_strlit("reload-nocache");
    reveal_strlit("clear-site-data");
    reveal_strlit("next-tab");
    reveal_strlit("prev-tab");
    reveal_strlit("tab-last");
    reveal_strlit("find");
    reveal_strlit("focus-address");
    assert("new-tab"@.len() == 7);
    assert("new-incognito"@.len() == 13);
    assert("reopen-tab"@.len() == 10);
    assert("close-tab"@.len() == 9);
    assert("print"@.len() == 5);
    assert("reload"@.len() == 6);
    assert("stop"@.len() == 4);
    assert("back"@.len() == 4);
    assert("forward"@.len() == 7);
    assert("zoom-in"@.len() == 7);
    assert("zoom-out"@.len() == 8);
    assert("zoom-reset"@.len() == 10);
    assert("show-history"@.len() == 12);
    assert("settings"@.len() == 8);
    assert("bookmark"@.len() == 8);
    assert("toggle-bookmarks"@.len() == 16);
    assert("toggle-vertical-tabs"@.len() == 20);
    assert("free-memory"@.len() == 11);
    assert("devtools"@.len() == 8);
    assert("view-source"@.len() == 11);
    assert("reload-nocache"@.len() == 14);
    assert("clear-site-data"@.len() == 15);
    assert("next-tab"@.len() == 8);
    assert("prev-tab"@.len() == 8);
    assert("tab-last"@.len() == 8);
    assert("find"@.len() == 4);
    assert("focus-address"@.len() == 13);
    assert("back"@[0] != "stop"@[0]);
    assert("forward"@[0] != "new-tab"@[0]);
    assert("zoom-in"@[0] != "new-tab"@[0]);
    assert("zoom-in"@[0] != "forward"@[0]);
    assert("zoom-reset"@[0] != "reopen-tab"@[0]);
    assert("settings"@[0] != "zoom-out"@[0]);
    assert("bookmark"@[0] != "zoom-out"@[0]);
    assert("bookmark"@[0] != "settings"@[0]);
    assert("devtools"@[0] != "zoom-out"@[0]);
    assert("devtools"@[0] != "settings"@[0]);
    assert("devtools"@[0] != "bookmark"@[0]);
    assert("view-source"@[0] != "free-memory"@[0]);
    assert("next-tab"@[0] != "zoom-out"@[0]);
    assert("next-tab"@[0] != "settings"@[0]);
    assert("next-tab"@[0] != "bookmark"@[0]);
    assert("next-tab"@[0] != "devtools"@[0]);
    assert("prev-tab"@[0] != "zoom-out"@[0]);
    assert("prev-tab"@[0] != "settings"@[0]);
    assert("prev-tab"@[0] != "bookmark"@[0]);
    assert("prev-tab"@[0] != "devtools"@[0]);
    assert("prev-tab"@[0] != "next-tab"@[0]);
    assert("tab-last"@[0] != "zoom-out"@[0]);
    assert("tab-last"@[0] != "settings"@[0]);
    assert("tab-last"@[0] != "bookmark"@[0]);
    assert("tab-last"@[0] != "devtools"@[0]);
    assert("tab-last"@[0] != "next-tab"@[0]);
    assert("tab-last"@[0] != "prev-tab"@[0]);
    assert("find"@[0] != "stop"@[0]);
    assert("find"@[0] != "back"@[0]);
    assert("focus-address"@[0] != "new-incognito"@[0]);
}

/// The shortcuts: each key of the menus does what its item says, on the place of
/// the menu where it stands.
pub proof fn law_shortcuts_do_what_they_say()
    ensures
        APP_MENU@[2].2@ == "CmdOrCtrl+,"@ && action_for(APP_MENU@[2].0@)
            == MenuAction::OpenSettings,
        FILE_MENU@[0].2@ == "CmdOrCtrl+T"@ && action_for(FILE_MENU@[0].0@)
            == MenuAction::OpenHome(false),
        FILE_MENU@[1].2@ == "Shift+CmdOrCtrl+N"@ && action_for(FILE_MENU@[1].0@)
            == MenuAction::OpenHome(true),
        FILE_MENU@[2].2@ == "Shift+CmdOrCtrl+T"@ && action_for(FILE_MENU@[2].0@)
            == MenuAction::ReopenClosed,
        FILE_MENU@[4].2@ == "CmdOrCtrl+W"@ && action_for(FILE_MENU@[4].0@)
            == MenuAction::CloseActive,
        FILE_MENU@[6].2@ == "CmdOrCtrl+P"@ && action_for(FILE_MENU@[6].0@)
            == MenuAction::Print,
        EDIT_MENU@[8].2@ == "CmdOrCtrl+F"@ && action_for(EDIT_MENU@[8].0@)
            == MenuAction::Chrome,
        EDIT_MENU@[9].2@ == "CmdOrCtrl+L"@ && action_for(EDIT_MENU@[9].0@)
            == MenuAction::Chrome,
        VIEW_MENU@[0].2@ == "CmdOrCtrl+R"@ && action_for(VIEW_MENU@[0].0@)
            == MenuAction::Reload,
        VIEW_MENU@[1].2@ == "CmdOrCtrl+."@ && action_for(VIEW_MENU@[1].0@)
            == MenuAction::Stop,
        VIEW_MENU@[3].2@ == "CmdOrCtrl+Equal"@ && action_for(VIEW_MENU@[3].0@)
            == MenuAction::ZoomIn,
        VIEW_MENU@[4].2@ == "CmdOrCtrl+-"@ && action_for(VIEW_MENU@[4].0@)
            == MenuAction::ZoomOut,
        VIEW_MENU@[5].2@ == "CmdOrCtrl+0"@ && action_for(VIEW_MENU@[5].0@)
            == MenuAction::ZoomReset,
        VIEW_MENU@[7].2@ == "Shift+CmdOrCtrl+B"@ && action_for(VIEW_MENU@[7].0@)
            == MenuAction::ToggleBookmarksBar,
        VIEW_MENU@[8].2@ == "Shift+CmdOrCtrl+S"@ && action_for(VIEW_MENU@[8].0@)
            == MenuAction::ToggleVerticalTabs,
        HISTORY_MENU@[0].2@ == "CmdOrCtrl+["@ && action_for(HISTORY_MENU@[0].0@)
            == MenuAction::Back,
        HISTORY_MENU@[1].2@ == "CmdOrCtrl+]"@ && action_for(HISTORY_MENU@[1].0@)
            == MenuAction::Forward,
        HISTORY_MENU@[3].2@ == "CmdOrCtrl+Y"@ && action_for(HISTORY_MENU@[3].0@)
            == MenuAction::OpenHistory,
        BOOKMARKS_MENU@[0].2@ == "CmdOrCtrl+D"@ && action_for(BOOKMARKS_MENU@[0].0@)
            == MenuAction::Bookmark,
        DEVELOP_MENU@[0].2@ == "Alt+CmdOrCtrl+I"@ && action_for(DEVELOP_MENU@[0].0@)
            == MenuAction::ToggleDevtools,
        DEVELOP_MENU@[1].2@ == "Alt+CmdOrCtrl+U"@ && action_for(DEVELOP_MENU@[1].0@)
            == MenuAction::ViewSource,
        DEVELOP_MENU@[3].2@ == "Shift+CmdOrCtrl+R"@ && action_for(DEVELOP_MENU@[3].0@)
            == MenuAction::ReloadIgnoringCache,
        WINDOW_MENU@[2].2@ == "Ctrl+Tab"@ && action_for(WINDOW_MENU@[2].0@)
            == MenuAction::Cycle(1isize),
        WINDOW_MENU@[3].2@ == "Ctrl+Shift+Tab"@ && action_for(WINDOW_MENU@[3].0@)
            == MenuAction::Cycle(-1isize),
{
    law_items_do_what_they_say();
}

/// The nine digit keys have an item each: the first eight for the tab at their
/// place, the ninth for the last one.
pub proof fn law_digit_keys_have_their_items(n: nat)
    requires
        1 <= n <= 9,
    ensures
        tab_item_texts(n).2 == "CmdOrCtrl+"@ + digits(n),
        n < 9 ==> tab_item_texts(n).1 == "Tab "@ + digits(n),
        n == 9 ==> tab_item_texts(n).1 == "Last Tab"@ && action_for(tab_item_texts(n).0)
            == MenuAction::SelectLast,
{
    law_items_do_what_they_say();
}

} // verus!
