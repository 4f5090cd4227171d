//! What the chrome UI and the bundled pages ask for.

use crate::dropdown::{all_offers, dropdown};
use crate::state::{BrowserState, Tab};
use crate::store::{
    bookmarked, found, hosts, not_at, page, Bookmark, HistoryPage, Settings, Store, Suggestion,
    Wallpaper,
};
use crate::tabs::active_url_title;
use crate::text::text_eq;
use crate::url_util::{destination, to_url};
use crate::web::{opt_url, WebUrl};
use vstd::prelude::*;

verus! {

/// `n`, brought into the range from `low` to `high`.
pub open spec fn clamped(n: int, low: int, high: int) -> int {
    if n < low {
        low
    } else if n > high {
        high
    } else {
        n
    }
}

fn clamp(n: usize, low: usize, high: usize) -> (r: usize)
    requires
        low <= high,
    ensures
        r == clamped(n as int, low as int, high as int),
{
    if n < low {
        low
    } else if n > high {
        high
    } else {
        n
    }
}

/// How many dropdown rows are shown where `limit` are asked for: at least one,
/// and at most twenty.
pub open spec fn rows_shown(limit: int) -> int {
    clamped(limit, 1, 20)
}

/// How many history entries are shown at a time where `limit` are asked for: at
/// least one, and at most a thousand.
pub open spec fn entries_shown(limit: int) -> int {
    clamped(limit, 1, 1000)
}

/// Where the text typed into the address bar leads, with the user's search
/// engine.
pub fn navigate(store: &Store, input: &str) -> (r: Option<WebUrl>)
    ensures
        opt_url(r) == destination(input@, store.settings.search_engine@),
{
    to_url(input, store.settings.search_engine.as_str())
}

/// Dropdown rows for the address bar and the home search box: at least one may
/// be asked for, and at most twenty.
pub fn suggestions(store: &Store, query: &str, limit: usize) -> (r: Vec<Suggestion>)
    requires
        store.wf(),
    ensures
        all_offers(r@) == dropdown(*store, query@, rows_shown(limit as int)),
{
    store.suggestions(query, clamp(limit, 1, 20))
}

/// A page of history, newest first, optionally filtered by `query`; at most a
/// thousand entries at a time.
pub fn get_history(store: &Store, offset: usize, limit: usize, query: &str) -> (r: HistoryPage)
    requires
        store.favicons.wf(),
    ensures
        r.entries@ == page(
            found(store.history@, query@),
            offset as int,
            entries_shown(limit as int),
        ),
        r.total == found(store.history@, query@).len(),
        r.favicons.wf(),
        r.favicons@ == store.favicons@.restrict(hosts(r.entries@)),
{
    store.history_page(offset, clamp(limit, 1, 1000), query)
}

/// Everything that the home page needs in one round-trip.
pub struct HomeData {
    pub wallpaper: Wallpaper,
    pub theme: String,
    pub accent: String,
}

pub fn get_home_data(store: &Store) -> (r: HomeData)
    ensures
        r.wallpaper == store.settings.wallpaper,
        r.theme == store.settings.theme,
        r.accent == store.settings.accent,
{
    HomeData {
        wallpaper: store.settings.wallpaper.clone(),
        theme: store.settings.theme.clone(),
        accent: store.settings.accent.clone(),
    }
}

// ---- settings -----------------------------------------------------------

/// What a change of the settings calls for.
pub struct Changes {
    /// The protections of every open tab are to be applied anew.
    pub protections: bool,
    /// The new User-Agent, where it changed.
    pub user_agent: Option<String>,
    /// How the tabs are now arranged.
    pub vertical: bool,
}

/// Do the protections of two settings differ?
pub open spec fn protections_differ(a: Settings, b: Settings) -> bool {
    a.block_ads != b.block_ads || a.block_malware != b.block_malware || a.block_annoyances
        != b.block_annoyances || a.block_popups != b.block_popups
}

/// `after` is `before` with new settings, all but the wallpaper, and `r` says
/// what that calls for; nothing where nothing changed.
pub open spec fn settings_taken(
    before: Store,
    after: Store,
    settings: Settings,
    same_zoom: bool,
    r: Option<Changes>,
) -> bool {
    let old_settings = before.settings;
    let new = Settings { wallpaper: old_settings.wallpaper, ..settings };
    if old_settings.matches_but_zoom(&new) && same_zoom {
        r is None && after == before
    } else {
        &&& after == (Store { settings: new, ..before })
        &&& r matches Some(c) && c.protections == protections_differ(old_settings, new)
            && c.vertical == new.vertical_tabs && (match c.user_agent {
            Some(ua) => ua == new.user_agent && old_settings.user_agent@ != new.user_agent@,
            None => old_settings.user_agent@ == new.user_agent@,
        })
    }
}

/// Take on new settings, all but the wallpaper, which is only ever changed by
/// `set_wallpaper`. `None` where nothing changed. `same_zoom` is how the old
/// and the new default zoom compare as numbers.
pub fn set_settings(store: &mut Store, settings: Settings, same_zoom: bool) -> (r: Option<Changes>)
    ensures
        settings_taken(*old(store), *final(store), settings, same_zoom, r),
{
    let wallpaper = store.settings.wallpaper.clone();
    let new = Settings { wallpaper, ..settings };
    if store.settings.same(&new, same_zoom) {
        return None;
    }
    let protections = store.settings.block_ads != new.block_ads || store.settings.block_malware
        != new.block_malware || store.settings.block_annoyances != new.block_annoyances
        || store.settings.block_popups != new.block_popups;
    let user_agent = if text_eq(store.settings.user_agent.as_str(), new.user_agent.as_str()) {
        None
    } else {
        Some(new.user_agent.clone())
    };
    let vertical = new.vertical_tabs;
    store.settings = new;
    Some(Changes { protections, user_agent, vertical })
}

/// Flip between the tab strip and the tab sidebar; returns the new arrangement.
pub fn toggle_vertical_tabs(store: &mut Store) -> (r: bool)
    ensures
        r == !old(store).settings.vertical_tabs,
        *final(store) == (Store {
            settings: Settings { vertical_tabs: r, ..old(store).settings },
            ..*old(store)
        }),
{
    store.settings.vertical_tabs = !store.settings.vertical_tabs;
    store.settings.vertical_tabs
}

/// Flip the bookmarks bar.
pub fn toggle_bookmarks_bar(store: &mut Store)
    ensures
        *final(store) == (Store {
            settings: Settings {
                show_bookmarks_bar: !old(store).settings.show_bookmarks_bar,
                ..old(store).settings
            },
            ..*old(store)
        }),
{
    store.settings.show_bookmarks_bar = !store.settings.show_bookmarks_bar;
}

/// Is the wallpaper an upload, whose bytes are to be written to disk first?
pub fn is_upload(kind: &str) -> (r: bool)
    ensures
        r == (kind@ == "image"@),
{
    text_eq(kind, "image")
}

/// `after` is `before` with a new wallpaper, where there is a value for it; `r` says
/// whether there is.
pub open spec fn wallpaper_set(
    before: Store,
    after: Store,
    kind: String,
    value: Option<String>,
    r: bool,
) -> bool {
    match value {
        Some(v) => r && after == (Store {
            settings: Settings { wallpaper: Wallpaper { kind, value: v }, ..before.settings },
            ..before
        }),
        None => !r && after == before,
    }
}

/// Set the wallpaper. For an upload, `value` is the version tag under which it
/// was written, or `None` where it could not be: nothing changes then. Returns
/// whether the wallpaper was set.
pub fn set_wallpaper(store: &mut Store, kind: String, value: Option<String>) -> (r: bool)
    ensures
        wallpaper_set(*old(store), *final(store), kind, value, r),
{
    match value {
        Some(value) => {
            store.settings.wallpaper = Wallpaper { kind, value };
            true
        },
        None => false,
    }
}

// ---- bookmarks ----------------------------------------------------------

/// The title under which a page is bookmarked: its own, or else its address.
pub open spec fn bookmark_title(url: Seq<char>, title: Seq<char>) -> Seq<char> {
    if title.len() == 0 {
        url
    } else {
        title
    }
}

/// `after` is `before` with the bookmark of a page toggled.
pub open spec fn toggled(
    before: Seq<Bookmark>,
    after: Seq<Bookmark>,
    url: Seq<char>,
    title: Seq<char>,
) -> bool {
    if bookmarked(before, url) {
        after == before.filter(not_at(url))
    } else {
        &&& after.len() == before.len() + 1
        &&& after.drop_last() == before
        &&& after.last().url@ == url
        &&& after.last().title@ == bookmark_title(url, title)
    }
}

/// `after` is `before` with the bookmark of the active tab's page toggled; `r` says
/// whether there is such a page.
pub open spec fn page_toggled(before: Store, after: Store, active: Option<Tab>, r: bool) -> bool {
    match active {
        Some(t) if t.url@.len() > 0 => r && toggled(
            before.bookmarks@,
            after.bookmarks@,
            t.url@,
            t.title@,
        ) && after == (Store { bookmarks: after.bookmarks, ..before }),
        _ => !r && after == before,
    }
}

/// Toggle a bookmark for the active tab's current page. Returns whether there
/// was such a page.
pub fn bookmark_current(store: &mut Store, state: &BrowserState) -> (r: bool)
    ensures
        page_toggled(*old(store), *final(store), state.active_tab_spec(), r),
{
    let (url, title) = match active_url_title(state) {
        Some(p) => p,
        None => {
            return false;
        },
    };
    if store.is_bookmarked(url.as_str()) {
        store.remove_bookmark(url.as_str());
    } else if title.as_str().is_empty() {
        store.add_bookmark(url.as_str(), url.as_str());
    } else {
        store.add_bookmark(title.as_str(), url.as_str());
    }
    true
}

/// The captured source of a page, or two empty texts where there is none.
pub fn get_view_source(pending: Option<(String, String)>) -> (r: (String, String))
    ensures
        match pending {
            Some(p) => r == p,
            None => r.0@.len() == 0 && r.1@.len() == 0,
        },
{
    match pending {
        Some(p) => p,
        None => (String::new(), String::new()),
    }
}

/// Toggling a bookmark twice leaves the bookmarks as they were, where the page
/// had none.
pub proof fn law_second_toggle_undoes_the_first(
    a: Seq<Bookmark>,
    b: Seq<Bookmark>,
    c: Seq<Bookmark>,
    url: Seq<char>,
    title: Seq<char>,
)
    requires
        !bookmarked(a, url),
        toggled(a, b, url, title),
        toggled(b, c, url, title),
    ensures
        c == a,
{
    assert(b[b.len() - 1].url@ == url);
    crate::store::law_bookmark_toggle(a, b, url);
}

/// However many rows or entries are asked for, at least one is shown and at most
/// twenty, or a thousand; within these limits, as many as were asked for.
pub proof fn law_requests_stay_in_range(limit: int)
    ensures
        1 <= rows_shown(limit) <= 20,
        1 <= limit <= 20 ==> rows_shown(limit) == limit,
        limit < 1 ==> rows_shown(limit) == 1,
        limit > 20 ==> rows_shown(limit) == 20,
        1 <= entries_shown(limit) <= 1000,
        1 <= limit <= 1000 ==> entries_shown(limit) == limit,
        limit < 1 ==> entries_shown(limit) == 1,
        limit > 1000 ==> entries_shown(limit) == 1000,
{
}

/// Each of the four switches is a protection of its own, and nothing else is.
pub proof fn law_each_switch_is_a_protection(a: Settings, b: Settings)
    ensures
        !protections_differ(
            a,
            Settings {
                block_ads: a.block_ads,
                block_malware: a.block_malware,
                block_annoyances: a.block_annoyances,
                block_popups: a.block_popups,
                ..b
            },
        ),
        protections_differ(a, Settings { block_ads: !a.block_ads, ..b }),
        protections_differ(a, Settings { block_malware: !a.block_malware, ..b }),
        protections_differ(a, Settings { block_annoyances: !a.block_annoyances, ..b }),
        protections_differ(a, Settings { block_popups: !a.block_popups, ..b }),
{
}

/// New settings never change the wallpaper, nor anything but the settings. The
/// open tabs' protections are applied anew exactly where one of the four switches
/// moved, and the User-Agent is set exactly where it is another one.
pub proof fn law_settings_spare_the_wallpaper(
    before: Store,
    after: Store,
    settings: Settings,
    same_zoom: bool,
    r: Option<Changes>,
)
    requires
        settings_taken(before, after, settings, same_zoom, r),
    ensures
        after.settings.wallpaper == before.settings.wallpaper,
        after.bookmarks == before.bookmarks,
        after.history == before.history,
        after.session == before.session,
        after.favicons == before.favicons,
        after.settings.theme@ == settings.theme@,
        after.settings.accent@ == settings.accent@,
        after.settings.search_engine@ == settings.search_engine@,
        after.settings.startup@ == settings.startup@,
        after.settings.user_agent@ == settings.user_agent@,
        after.settings.show_bookmarks_bar == settings.show_bookmarks_bar,
        after.settings.discard_after_min == settings.discard_after_min,
        after.settings.block_ads == settings.block_ads,
        after.settings.block_malware == settings.block_malware,
        after.settings.block_annoyances == settings.block_annoyances,
        after.settings.block_popups == settings.block_popups,
        after.settings.devtools == settings.devtools,
        after.settings.reduce_transparency == settings.reduce_transparency,
        after.settings.vertical_tabs == settings.vertical_tabs,
        after.settings.mru_tab_switching == settings.mru_tab_switching,
        !same_zoom ==> after.settings.default_zoom == settings.default_zoom,
        !same_zoom ==> r is Some,
        r is None ==> after == before,
        r matches Some(c) ==> (c.protections <==> before.settings.block_ads != settings.block_ads
            || before.settings.block_malware != settings.block_malware
            || before.settings.block_annoyances != settings.block_annoyances
            || before.settings.block_popups != settings.block_popups),
        r matches Some(c) ==> c.vertical == settings.vertical_tabs,
        r matches Some(c) ==> (c.user_agent is Some <==> before.settings.user_agent@
            != settings.user_agent@),
        r matches Some(c) ==> (c.user_agent matches Some(ua) ==> ua@ == settings.user_agent@),
{
}

/// Toggling turns a page with a bookmark into one without and back, under its
/// title where it has one and else under its address. The bookmarks of other
/// pages stay.
pub proof fn law_toggling_flips_one_page(
    before: Seq<Bookmark>,
    after: Seq<Bookmark>,
    url: Seq<char>,
    title: Seq<char>,
    other: Bookmark,
)
    requires
        toggled(before, after, url, title),
        before.contains(other),
    ensures
        bookmarked(after, url) <==> !bookmarked(before, url),
        !bookmarked(before, url) ==> after.last().url@ == url,
        !bookmarked(before, url) && title.len() > 0 ==> after.last().title@ == title,
        !bookmarked(before, url) && title.len() == 0 ==> after.last().title@ == url,
        other.url@ != url ==> after.contains(other),
{
    let k = choose|k: int| 0 <= k < before.len() && before[k] == other;
    if bookmarked(before, url) {
        let p = not_at(url);
        if bookmarked(after, url) {
            let i = choose|i: int| 0 <= i < after.len() && (#[trigger] after[i]).url@ == url;
            before.lemma_filter_pred(p, i);
        }
        if other.url@ != url {
            before.lemma_filter_contains(p, k);
        }
    } else {
        assert(after[after.len() - 1].url@ == url);
        assert(after.drop_last()[k] == after[k]);
    }
}

/// Bundled pages are not bookmarked, and the bookmark of a page on the web is
/// flipped; nothing else of the store changes.
pub proof fn law_only_web_pages_are_bookmarked(before: Store, after: Store, t: Tab, r: bool)
    requires
        page_toggled(before, after, Some(t), r),
    ensures
        r <==> t.url@.len() > 0,
        t.url@.len() == 0 ==> after == before,
        t.url@.len() > 0 ==> (bookmarked(after.bookmarks@, t.url@) <==> !bookmarked(
            before.bookmarks@,
            t.url@,
        )),
        after.history == before.history,
        after.settings == before.settings,
{
    if t.url@.len() > 0 {
        let p = not_at(t.url@);
        let b = before.bookmarks@;
        let a = after.bookmarks@;
        if bookmarked(b, t.url@) {
            if bookmarked(a, t.url@) {
                let i = choose|i: int| 0 <= i < a.len() && (#[trigger] a[i]).url@ == t.url@;
                b.lemma_filter_pred(p, i);
            }
        } else {
            assert(a[a.len() - 1].url@ == t.url@);
        }
    }
}

/// An upload that could not be written leaves the wallpaper as it was; any other
/// is set as it was given, and no other setting changes.
pub proof fn law_failed_uploads_change_nothing(
    before: Store,
    after: Store,
    kind: String,
    value: Option<String>,
    r: bool,
)
    requires
        wallpaper_set(before, after, kind, value, r),
    ensures
        value is None ==> !r && after == before,
        value matches Some(v) ==> r && after.settings.wallpaper.kind == kind
            && after.settings.wallpaper.value == v,
        after.settings.theme == before.settings.theme,
        after.settings.accent == before.settings.accent,
        after.bookmarks == before.bookmarks,
        after.history == before.history,
{
}

} // verus!
