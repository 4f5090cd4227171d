//! Tab controller: what opening, selecting, closing and sleeping do to the tab
//! list, and what is to be done to the webviews in turn.

use crate::native::KeyAction;
use crate::state::{
    active_after_removal, closed_after, find, ids, label_for, label_text, lemma_find, noted,
    promoted, step, stepped, touched, use_order, without, BrowserState, ClosedTab, Switcher, Tab,
};
use crate::store::{keeps_step, recorded, SessionTab, Settings, Store, Visit};
use crate::text::{
    begins, chars_of, has_prefix, split, split_on, string_of, strings, text_eq, texts,
};
use crate::url_util::NEW_TAB_PAGE;
use crate::web::{base_name, name_after_slash, opt_url, parse_url, url_parsed, UrlParts, WebUrl};
use vstd::prelude::*;

verus! {

// ---- updates of the chrome ----------------------------------------------

/// Updates of the chrome are coalesced: however many changes come in one turn,
/// one push goes out at the next.
pub struct Coalescer {
    pub pending: bool,
}

impl Coalescer {
    pub fn new() -> (r: Self)
        ensures
            !r.pending,
    {
        Coalescer { pending: false }
    }

    /// Something changed. Returns whether a push is to be scheduled: not where
    /// one is.
    pub fn request(&mut self) -> (r: bool)
        ensures
            r == !old(self).pending,
            final(self).pending,
    {
        let schedule = !self.pending;
        self.pending = true;
        schedule
    }

    /// The push goes out now.
    pub fn deliver(&mut self)
        ensures
            !final(self).pending,
    {
        self.pending = false;
    }
}

// ---- tab records --------------------------------------------------------

/// A fresh tab.
pub open spec fn is_fresh(
    t: Tab,
    zoom: u64,
    id: usize,
    url: Seq<char>,
    page: Seq<char>,
    incognito: bool,
    now: u64,
) -> bool {
    &&& t.id == id
    &&& t.url@ == url
    &&& t.title@.len() == 0
    &&& !t.loading
    &&& t.incognito == incognito
    &&& t.zoom == zoom
    &&& !t.discarded
    &&& t.page@ == page
    &&& t.favicon@.len() == 0
    &&& !t.can_back
    &&& !t.can_forward
    &&& t.last_active == Some(now)
}

pub fn new_tab_record(
    default_zoom: u64,
    id: usize,
    url: String,
    page: String,
    incognito: bool,
    now: u64,
) -> (r: Tab)
    ensures
        is_fresh(r, default_zoom, id, url@, page@, incognito, now),
{
    Tab {
        id,
        url,
        title: String::new(),
        loading: false,
        incognito,
        zoom: default_zoom,
        discarded: false,
        page,
        favicon: String::new(),
        can_back: false,
        can_forward: false,
        last_active: Some(now),
    }
}

/// `after` is `before` with a fresh tab at the end of the strip, active; the
/// tab that was active starts its idle clock.
pub open spec fn tab_added(
    before: BrowserState,
    after: BrowserState,
    zoom: u64,
    url: Seq<char>,
    page: Seq<char>,
    incognito: bool,
    now: u64,
) -> bool {
    let n = before.tabs@.len() as int;
    &&& after.tabs@.len() == n + 1
    &&& after.tabs@.drop_last() == touched(before.tabs@, before.active as int, now)
    &&& is_fresh(after.tabs@.last(), zoom, before.next_id, url, page, incognito, now)
    &&& after.active == n
    &&& after.next_id == before.next_id + 1
    &&& after.mru@ == promoted(before.mru@, before.next_id)
    &&& after == (BrowserState {
        tabs: after.tabs,
        active: after.active,
        next_id: after.next_id,
        mru: after.mru,
        ..before
    })
}

/// Is the opening of a tab a visit? It is on a URL, unless the tab is private.
pub open spec fn opens_with_visit(url: Seq<char>, incognito: bool) -> bool {
    url.len() > 0 && !incognito
}

/// Register a new tab and make it active; returns its id and whether a visit
/// was recorded. A tab opened straight on a URL is a visit too, unless it is
/// private.
pub fn register_tab(
    state: &mut BrowserState,
    store: &mut Store,
    url: String,
    page: String,
    incognito: bool,
    now: u64,
) -> (r: (usize, bool))
    requires
        old(state).next_id < usize::MAX,
        old(state).tabs@.len() < usize::MAX,
        old(store).wf(),
        old(store).history@.len() < usize::MAX,
    ensures
        r.0 == old(state).next_id,
        r.1 == opens_with_visit(url@, incognito),
        tab_added(
            *old(state),
            *final(state),
            old(store).settings.default_zoom,
            url@,
            page@,
            incognito,
            now,
        ),
        old(state).wf() ==> final(state).wf(),
        final(store).wf(),
        keeps_step(*old(store), *final(store)),
        !r.1 ==> *final(store) == *old(store),
        r.1 ==> exists|ts: u64| #[trigger]
            recorded(
                *old(store),
                *final(store),
                Visit { url: url@, title: Seq::empty(), ts },
                now,
            ),
{
    let zoom = store.settings.default_zoom;
    let visit = !url.as_str().is_empty() && !incognito;
    if visit {
        proof {
            reveal_strlit("");
            assert(""@ =~= Seq::<char>::empty());
        }
        store.record_visit(url.as_str(), "", now);
    }
    state.deactivate_current(now);
    let id = state.allocate_id();
    let tab = new_tab_record(zoom, id, url, page, incognito, now);
    let ghost before = state.tabs@;
    state.tabs.push(tab);
    state.active = state.tabs.len() - 1;
    assert(state.tabs@.drop_last() == before);
    proof {
        if old(state).wf() {
            crate::state::lemma_promoted(state.mru@, id);
        }
    }
    state.note_active();
    (id, visit)
}

/// Drop a tab whose webview could not be built. Returns whether none is left.
pub fn unregister_failed(state: &mut BrowserState, id: usize, now: u64) -> (r: bool)
    ensures
        r == (final(state).tabs@.len() == 0),
        removed(*old(state), *final(state), id, now),
        old(state).wf() ==> final(state).wf(),
{
    let _ = state.remove(id, now);
    state.tabs.len() == 0
}

/// `after` is `before` without the tab `id`; nothing changes where there is no
/// such tab.
pub open spec fn removed(before: BrowserState, after: BrowserState, id: usize, now: u64) -> bool {
    match find(before.tabs@, id) {
        Some(i) => {
            let rest = before.tabs@.remove(i);
            &&& after.active == active_after_removal(
                before.active as int,
                i,
                before.tabs@.len() - 1,
            )
            &&& after.tabs@ == touched(rest, after.active as int, now)
            &&& after.mru@ == noted(without(before.mru@, id), rest, after.active as int)
            &&& after == (BrowserState {
                tabs: after.tabs,
                active: after.active,
                mru: after.mru,
                ..before
            })
        },
        None => after == before,
    }
}

// ---- what a tab shows ---------------------------------------------------

/// What a tab's webview loads: a bundled page of the app, or the web.
pub enum Target {
    App(String),
    External(WebUrl),
}

/// ... as texts.
#[verifier::ext_equal]
pub enum Destination {
    App(Seq<char>),
    External(UrlParts),
}

impl View for Target {
    type V = Destination;

    open spec fn view(&self) -> Destination {
        match self {
            Target::App(path) => Destination::App(path@),
            Target::External(u) => Destination::External(u@),
        }
    }
}

/// The webview target that a tab should (re)load: its external URL, or the
/// bundled page that it was showing. The private home page is told that it is
/// private.
pub open spec fn target_of(url: Seq<char>, page: Seq<char>, incognito: bool) -> Destination {
    target_given(url, page, incognito, url_parsed(url))
}

/// ... given what the URL parses to.
pub open spec fn target_given(
    url: Seq<char>,
    page: Seq<char>,
    incognito: bool,
    parsed: Option<UrlParts>,
) -> Destination {
    if url.len() == 0 {
        let shown = if page.len() == 0 {
            NEW_TAB_PAGE@
        } else {
            page
        };
        Destination::App(
            if incognito && shown == NEW_TAB_PAGE@ {
                shown + "?incognito=1"@
            } else {
                shown
            },
        )
    } else {
        match parsed {
            Some(u) => Destination::External(u),
            None => Destination::App(NEW_TAB_PAGE@),
        }
    }
}

pub fn target_for(url: &str, page: &str, incognito: bool) -> (r: Target)
    ensures
        r@ == target_of(url@, page@, incognito),
{
    target_with(url, page, incognito, parse_url(url))
}

/// The webview target, given what the URL parses to.
pub fn target_with(url: &str, page: &str, incognito: bool, parsed: Option<WebUrl>) -> (r: Target)
    ensures
        r@ == target_given(url@, page@, incognito, opt_url(parsed)),
{
    if url.is_empty() {
        let shown = if page.is_empty() {
            NEW_TAB_PAGE
        } else {
            page
        };
        let mut path = shown.to_owned();
        if incognito && text_eq(shown, NEW_TAB_PAGE) {
            path.append("?incognito=1");
        }
        return Target::App(path);
    }
    match parsed {
        Some(u) => Target::External(u),
        None => Target::App(NEW_TAB_PAGE.to_owned()),
    }
}

/// Internal pages other than the home page render frosted (a transparent
/// webview) to match the chrome; the home page and web content stay opaque.
pub open spec fn is_frosted(url: Seq<char>, page: Seq<char>) -> bool {
    url.len() == 0 && page.len() > 0 && page != NEW_TAB_PAGE@
}

pub fn is_frosted_page(url: &str, page: &str) -> (r: bool)
    ensures
        r == is_frosted(url@, page@),
{
    url.is_empty() && !page.is_empty() && !text_eq(page, NEW_TAB_PAGE)
}

/// A colour with its opacity.
#[derive(Clone, Copy, PartialEq, Eq, Debug, Structural)]
pub struct Color {
    pub r: u8,
    pub g: u8,
    pub b: u8,
    pub a: u8,
}

/// Under-page tint for frosted webviews: what is painted where the page has not
/// been yet.
pub fn frame_tint() -> (r: Color)
    ensures
        r == (Color { r: 22, g: 21, b: 25, a: 110 }),
{
    Color { r: 22, g: 21, b: 25, a: 110 }
}

/// Solid frame colour for the current theme setting.
pub open spec fn solid_frame(dark: bool) -> Color {
    if dark {
        Color { r: 22, g: 21, b: 25, a: 255 }
    } else {
        Color { r: 236, g: 235, b: 241, a: 255 }
    }
}

pub fn frame_color(dark: bool) -> (r: Color)
    ensures
        r == solid_frame(dark),
{
    if dark {
        Color { r: 22, g: 21, b: 25, a: 255 }
    } else {
        Color { r: 236, g: 235, b: 241, a: 255 }
    }
}

/// What is behind a page.
#[derive(Clone, Copy, PartialEq, Eq, Debug, Structural)]
pub enum Backdrop {
    /// The webview's own background.
    Page,
    /// A solid colour.
    Solid(Color),
    /// The window's frosted glass, under a tint.
    Glass(Color),
}

/// How a tab's webview is to be built.
pub struct TabPlan {
    pub label: String,
    pub target: Target,
    pub incognito: bool,
    pub devtools: bool,
    /// Empty for the WebView's own.
    pub user_agent: String,
    pub backdrop: Backdrop,
}

/// Is the window opaque? Frosted glass is a feature of one platform, and both
/// the user and the system can turn it off.
pub open spec fn is_opaque(settings: Settings, glass: bool, system_reduces: bool) -> bool {
    !glass || settings.reduce_transparency || system_reduces
}

pub fn opaque_window(settings: &Settings, glass: bool, system_reduces: bool) -> (r: bool)
    ensures
        r == is_opaque(*settings, glass, system_reduces),
{
    !glass || settings.reduce_transparency || system_reduces
}

/// Everything but the light theme is dark.
pub open spec fn is_dark(settings: Settings) -> bool {
    settings.theme@ != "light"@
}

pub fn dark_theme(settings: &Settings) -> (r: bool)
    ensures
        r == is_dark(*settings),
{
    !text_eq(settings.theme.as_str(), "light")
}

/// What is behind the page of a tab.
pub open spec fn backdrop_of(t: Tab, settings: Settings, opaque: bool) -> Backdrop {
    if !is_frosted(t.url@, t.page@) {
        Backdrop::Page
    } else if opaque {
        Backdrop::Solid(solid_frame(is_dark(settings)))
    } else {
        Backdrop::Glass(Color { r: 22, g: 21, b: 25, a: 110 })
    }
}

/// `p` is how the webview of a tab is to be built.
pub open spec fn is_planned(t: Tab, settings: Settings, opaque: bool, p: TabPlan) -> bool {
    &&& p.label@ == label_text(t.id)
    &&& p.target@ == target_of(t.url@, t.page@, t.incognito)
    &&& p.incognito == t.incognito
    &&& p.devtools == settings.devtools
    &&& p.user_agent == settings.user_agent
    &&& p.backdrop == backdrop_of(t, settings, opaque)
}

/// Plan the webview for a registered tab, or `None` where there is no such tab.
pub fn build_tab(
    state: &BrowserState,
    settings: &Settings,
    id: usize,
    glass: bool,
    system_reduces: bool,
) -> (r: Option<TabPlan>)
    ensures
        match (r, find(state.tabs@, id)) {
            (Some(p), Some(i)) => is_planned(
                state.tabs@[i],
                *settings,
                is_opaque(*settings, glass, system_reduces),
                p,
            ),
            (None, None) => true,
            _ => false,
        },
{
    proof {
        lemma_find(state.tabs@, id);
    }
    let t = match state.tab(id) {
        Some(t) => t,
        None => {
            return None;
        },
    };
    let backdrop = if !is_frosted_page(t.url.as_str(), t.page.as_str()) {
        Backdrop::Page
    } else if opaque_window(settings, glass, system_reduces) {
        Backdrop::Solid(frame_color(dark_theme(settings)))
    } else {
        Backdrop::Glass(frame_tint())
    };
    Some(
        TabPlan {
            label: label_for(id),
            target: target_for(t.url.as_str(), t.page.as_str(), t.incognito),
            incognito: t.incognito,
            devtools: settings.devtools,
            user_agent: settings.user_agent.clone(),
            backdrop,
        },
    )
}

pub open spec fn is_http(scheme: Seq<char>) -> bool {
    scheme == "http"@ || scheme == "https"@
}

/// A page asks for a new window. It gets a tab, for a web address, and a
/// private page's stays private; any other address is refused.
pub fn on_new_window(url: WebUrl, incognito: bool) -> (r: Option<(WebUrl, bool)>)
    ensures
        match r {
            Some((u, private)) => is_http(url@.scheme) && u == url && private == incognito,
            None => !is_http(url@.scheme),
        },
{
    if text_eq(url.scheme.as_str(), "http") || text_eq(url.scheme.as_str(), "https") {
        Some((url, incognito))
    } else {
        None
    }
}

// ---- opening ------------------------------------------------------------

/// Does a tab show this bundled page, outside private browsing?
pub open spec fn shows_page(t: Tab, page: Seq<char>) -> bool {
    t.url@.len() == 0 && t.page@ == page && !t.incognito
}

/// The tab that already shows a bundled page, if any: the page is then switched
/// to instead of being opened again.
pub fn open_internal(state: &BrowserState, page: &str) -> (r: Option<usize>)
    ensures
        match r {
            Some(id) => exists|i: int|
                0 <= i < state.tabs@.len() && #[trigger] state.tabs@[i].id == id && shows_page(
                    state.tabs@[i],
                    page@,
                ) && forall|j: int| 0 <= j < i ==> !shows_page(#[trigger] state.tabs@[j], page@),
            None => forall|j: int|
                0 <= j < state.tabs@.len() ==> !shows_page(#[trigger] state.tabs@[j], page@),
        },
{
    let mut i: usize = 0;
    while i < state.tabs.len()
        invariant
            i <= state.tabs@.len(),
            forall|j: int| 0 <= j < i ==> !shows_page(#[trigger] state.tabs@[j], page@),
        decreases state.tabs@.len() - i,
    {
        let t = &state.tabs[i];
        if t.is_internal() && text_eq(t.page.as_str(), page) && !t.incognito {
            assert(state.tabs@[i as int].id == t.id);
            return Some(t.id);
        }
        i += 1;
    }
    None
}

/// A tab of the last session, as it is restored: asleep unless it is the one
/// to be shown.
pub open spec fn is_restored(
    t: Tab,
    s: SessionTab,
    zoom: u64,
    id: int,
    asleep: bool,
    now: u64,
) -> bool {
    &&& t.id == id
    &&& t.url == s.url
    &&& t.title == s.title
    &&& t.page == s.page
    &&& !t.loading
    &&& !t.incognito
    &&& t.zoom == zoom
    &&& t.discarded == asleep
    &&& t.favicon@.len() == 0
    &&& !t.can_back
    &&& !t.can_forward
    &&& t.last_active == Some(now)
}

/// Which tab of a session of `n` is shown.
pub open spec fn shown_tab(active: int, n: int) -> int {
    if active < n {
        active
    } else {
        n - 1
    }
}

/// `after` is `before` with the tabs of a session behind its own; `r` is the one
/// that is shown. Nothing changes where the session is empty.
pub open spec fn session_opened(
    before: BrowserState,
    after: BrowserState,
    session: Seq<SessionTab>,
    active: int,
    zoom: u64,
    now: u64,
    r: Option<usize>,
) -> bool {
    let n = before.tabs@.len() as int;
    let k = shown_tab(active, session.len() as int);
    if session.len() == 0 {
        r is None && after == before
    } else {
        &&& r == Some((before.next_id + k) as usize)
        &&& after.tabs@.len() == n + session.len()
        &&& after.tabs@.take(n) == before.tabs@
        &&& forall|i: int|
            0 <= i < session.len() ==> is_restored(
                #[trigger] after.tabs@[n + i],
                session[i],
                zoom,
                before.next_id + i,
                i != k,
                now,
            )
        &&& after.active == n + k
        &&& after.next_id == before.next_id + session.len()
        &&& after.mru@ == promoted(before.mru@, (before.next_id + k) as usize)
        &&& after == (BrowserState {
            tabs: after.tabs,
            active: after.active,
            next_id: after.next_id,
            mru: after.mru,
            ..before
        })
    }
}

/// Recreate the last session's tabs. Only the active one is to be loaded (its
/// id is returned); the rest are created asleep and load when they are first
/// selected, so restoring many tabs costs the memory of one. `None` for an
/// empty session: the home page is opened instead.
pub fn open_restored(
    state: &mut BrowserState,
    session: &Vec<SessionTab>,
    active: usize,
    default_zoom: u64,
    now: u64,
) -> (r: Option<usize>)
    requires
        old(state).wf(),
        old(state).next_id + session@.len() <= usize::MAX,
        old(state).tabs@.len() + session@.len() <= usize::MAX,
    ensures
        final(state).wf(),
        session_opened(
            *old(state),
            *final(state),
            session@,
            active as int,
            default_zoom,
            now,
            r,
        ),
{
    let m = session.len();
    if m == 0 {
        return None;
    }
    let shown = if active < m {
        active
    } else {
        m - 1
    };
    let first = state.next_id;
    let n = state.tabs.len();
    let ghost k = shown as int;
    let mut i: usize = 0;
    assert(state.tabs@.take(n as int) == state.tabs@);
    while i < m
        invariant
            i <= m,
            m == session@.len(),
            shown < m,
            k == shown,
            n == old(state).tabs@.len(),
            first == old(state).next_id,
            old(state).wf(),
            first + m <= usize::MAX,
            n + m <= usize::MAX,
            state.tabs@.len() == n + i,
            state.tabs@.take(n as int) == old(state).tabs@,
            state.next_id == first + i,
            forall|j: int|
                0 <= j < i ==> is_restored(
                    #[trigger] state.tabs@[n + j],
                    session@[j],
                    default_zoom,
                    first + j,
                    j != k,
                    now,
                ),
            *state == (BrowserState {
                tabs: state.tabs,
                next_id: state.next_id,
                ..*old(state)
            }),
        decreases m - i,
    {
        let id = state.next_id;
        state.next_id = id + 1;
        let s = &session[i];
        let fresh = new_tab_record(
            default_zoom,
            id,
            s.url.clone(),
            s.page.clone(),
            false,
            now,
        );
        let tab = Tab {
            url: s.url.clone(),
            page: s.page.clone(),
            title: s.title.clone(),
            discarded: i != shown,
            ..fresh
        };
        let ghost before = state.tabs@;
        state.tabs.push(tab);
        assert(state.tabs@.take(n as int) == before.take(n as int));
        i += 1;
    }
    state.active = n + shown;
    proof {
        let tabs = state.tabs@;
        assert forall|a: int, b: int| 0 <= a < b < tabs.len() implies (#[trigger] tabs[a]).id != (
        #[trigger] tabs[b]).id by {
            if b < n {
                assert(tabs[a] == tabs.take(n as int)[a] && tabs[b] == tabs.take(n as int)[b]);
            } else {
                assert(tabs[b] == tabs[n + (b - n)]);
                if a < n {
                    assert(tabs[a] == tabs.take(n as int)[a]);
                } else {
                    assert(tabs[a] == tabs[n + (a - n)]);
                }
            }
        }
        assert forall|a: int| 0 <= a < tabs.len() implies (#[trigger] tabs[a]).id
            < state.next_id by {
            if a < n {
                assert(tabs[a] == tabs.take(n as int)[a]);
            } else {
                assert(tabs[a] == tabs[n + (a - n)]);
            }
        }
        assert(tabs[n + k].id == first + k);
        crate::state::lemma_promoted(state.mru@, (first + k) as usize);
    }
    state.note_active();
    Some(first + shown)
}

/// Put a tab whose webview could not be built to sleep: it is built when it is
/// next selected.
pub fn leave_asleep(state: &mut BrowserState, id: usize)
    ensures
        match find(old(state).tabs@, id) {
            Some(i) => final(state).tabs@ == old(state).tabs@.update(
                i,
                Tab { discarded: true, ..old(state).tabs@[i] },
            ) && *final(state) == (BrowserState { tabs: final(state).tabs, ..*old(state) }),
            None => *final(state) == *old(state),
        },
{
    if let Some(t) = state.tab_mut(id) {
        t.discarded = true;
    }
}

// ---- selecting ----------------------------------------------------------

/// What selecting a tab comes to.
#[derive(Clone, Copy, PartialEq, Eq, Debug, Structural)]
pub enum Selection {
    /// There is no such tab.
    Missing,
    /// The tab is in front.
    Shown,
    /// The tab was asleep: its webview is to be built again.
    Woken,
}

/// The tabs once the one at `i` was selected, with `active` the one that was in
/// front: both have their idle clocks set, and a sleeping one wakes and loads.
pub open spec fn tabs_selected(tabs: Seq<Tab>, active: int, i: int, now: u64) -> Seq<Tab> {
    let seen = touched(touched(tabs, active, now), i, now);
    if tabs[i].discarded {
        seen.update(i, Tab { discarded: false, loading: true, ..seen[i] })
    } else {
        seen
    }
}

/// `after` is `before` with the tab `id` in front; `r` says what that comes to.
/// Nothing changes where there is no such tab.
pub open spec fn selected(
    before: BrowserState,
    after: BrowserState,
    id: usize,
    now: u64,
    r: Selection,
) -> bool {
    match find(before.tabs@, id) {
        Some(i) => {
            &&& r == (if before.tabs@[i].discarded {
                Selection::Woken
            } else {
                Selection::Shown
            })
            &&& after.tabs@ == tabs_selected(before.tabs@, before.active as int, i, now)
            &&& after.active == i
            &&& after.mru@ == promoted(before.mru@, id)
            &&& after == (BrowserState {
                tabs: after.tabs,
                active: after.active,
                mru: after.mru,
                ..before
            })
        },
        None => r is Missing && after == before,
    }
}

/// Switch to the tab with the given id. If it was asleep, its webview has to be
/// built first: it reloads the page that it was showing.
pub fn select_tab(state: &mut BrowserState, id: usize, now: u64) -> (r: Selection)
    ensures
        selected(*old(state), *final(state), id, now, r),
        old(state).wf() ==> final(state).wf(),
{
    proof {
        lemma_find(state.tabs@, id);
    }
    let i = match state.activate(id, now) {
        Some(i) => i,
        None => {
            return Selection::Missing;
        },
    };
    if state.tabs[i].discarded {
        let t = &mut state.tabs[i];
        t.discarded = false;
        t.loading = true;
        Selection::Woken
    } else {
        Selection::Shown
    }
}

/// The webview of a woken tab could not be built: it sleeps on.
pub fn wake_failed(state: &mut BrowserState, id: usize)
    ensures
        match find(old(state).tabs@, id) {
            Some(i) => final(state).tabs@ == old(state).tabs@.update(
                i,
                Tab { discarded: true, loading: false, ..old(state).tabs@[i] },
            ) && *final(state) == (BrowserState { tabs: final(state).tabs, ..*old(state) }),
            None => *final(state) == *old(state),
        },
{
    if let Some(t) = state.tab_mut(id) {
        t.discarded = true;
        t.loading = false;
    }
}

/// The tab at `index` of the strip, or its last one.
pub open spec fn tab_at(tabs: Seq<Tab>, index: int, last: bool) -> Option<usize> {
    let i = if last {
        tabs.len() - 1
    } else {
        index
    };
    if 0 <= i < tabs.len() {
        Some(tabs[i].id)
    } else {
        None
    }
}

/// The tab at `index` of the strip, or its last one.
pub fn select_index(state: &BrowserState, index: usize, last: bool) -> (r: Option<usize>)
    ensures
        r == tab_at(state.tabs@, index as int, last),
{
    let n = state.tabs.len();
    if last {
        if n == 0 {
            None
        } else {
            Some(state.tabs[n - 1].id)
        }
    } else if index < n {
        Some(state.tabs[index].id)
    } else {
        None
    }
}

/// The tab `delta` places after the active one in the strip, going round.
pub open spec fn tab_beside(state: BrowserState, delta: int) -> Option<usize> {
    let n = state.tabs@.len() as int;
    if n == 0 {
        None
    } else {
        Some(state.tabs@[stepped(state.active as int, delta, n)].id)
    }
}

/// The tab `delta` places after the active one in the strip, going round.
pub fn select_relative(state: &BrowserState, delta: isize) -> (r: Option<usize>)
    ensures
        r == tab_beside(*state, delta as int),
{
    let n = state.tabs.len();
    if n == 0 {
        return None;
    }
    let i = step(state.active, delta, n);
    Some(state.tabs[i].id)
}

// ---- the tab switcher (most recently used) ------------------------------

/// What the chrome renders for the switcher.
pub struct SwitcherView {
    pub tabs: Vec<Tab>,
    pub selected: usize,
    /// Was it opened just now?
    pub opened: bool,
}

/// The tabs with the given ids, as far as they are open.
pub open spec fn cards(ids: Seq<usize>, tabs: Seq<Tab>) -> Seq<Tab>
    decreases ids.len(),
{
    if ids.len() == 0 {
        Seq::empty()
    } else {
        let rest = cards(ids.drop_last(), tabs);
        match find(tabs, ids.last()) {
            Some(i) => rest.push(tabs[i]),
            None => rest,
        }
    }
}

fn cards_of(state: &BrowserState, ids: &Vec<usize>) -> (r: Vec<Tab>)
    ensures
        r@ == cards(ids@, state.tabs@),
{
    let mut out: Vec<Tab> = Vec::new();
    let mut i: usize = 0;
    while i < ids.len()
        invariant
            i <= ids@.len(),
            out@ == cards(ids@.take(i as int), state.tabs@),
        decreases ids@.len() - i,
    {
        assert(ids@.take(i + 1).drop_last() == ids@.take(i as int));
        if let Some(t) = state.tab(ids[i]) {
            out.push(t.clone());
        }
        i += 1;
    }
    assert(ids@.take(ids@.len() as int) == ids@);
    out
}

/// The switcher once its highlight moved by `delta`, or once it was opened.
pub open spec fn switcher_after(state: BrowserState, delta: int) -> (Seq<usize>, int) {
    match state.switcher {
        Some(s) if s.ids@.len() > 0 => (
            s.ids@,
            stepped(s.selected as int, delta, s.ids@.len() as int),
        ),
        _ => {
            let order = use_order(state.mru@, state.tabs@);
            (order, stepped(0, delta, order.len() as int))
        },
    }
}

pub open spec fn switcher_is(s: Option<Switcher>, ids: Seq<usize>, selected: int) -> bool {
    s matches Some(w) && w.ids@ == ids && w.selected == selected
}

/// Open the switcher (the previous tab highlighted) or move its highlight by
/// `delta`. A no-op with fewer than two tabs.
pub fn switcher_step(state: &mut BrowserState, delta: isize) -> (r: Option<SwitcherView>)
    ensures
        *final(state) == (BrowserState { switcher: final(state).switcher, ..*old(state) }),
        old(state).tabs@.len() < 2 ==> r is None && *final(state) == *old(state),
        old(state).tabs@.len() >= 2 ==> {
            let (ids, selected) = switcher_after(*old(state), delta as int);
            &&& switcher_is(final(state).switcher, ids, selected)
            &&& r matches Some(v) && v.tabs@ == cards(ids, old(state).tabs@) && v.selected
                == selected && v.opened == old(state).switcher is None
        },
{
    let opened = state.switcher.is_none();
    let selected: usize = match state.switcher_step(delta) {
        Some(s) => s.selected,
        None => {
            return None;
        },
    };
    let tabs = match &state.switcher {
        Some(s) => cards_of(state, &s.ids),
        None => Vec::new(),
    };
    Some(SwitcherView { tabs, selected, opened })
}

/// The tab that closing the switcher leads to: `pick`, or the highlighted one.
pub open spec fn picked(s: Switcher, pick: Option<usize>) -> Option<usize> {
    match pick {
        Some(id) => Some(id),
        None => s.selected_tab(),
    }
}

/// Close the switcher. Where it was open, says which tab to switch to: `pick`,
/// or the highlighted one.
pub fn switcher_close(state: &mut BrowserState, pick: Option<usize>) -> (r: Option<Option<usize>>)
    ensures
        match (r, old(state).switcher) {
            (Some(target), Some(s)) => target == picked(s, pick),
            (None, None) => true,
            _ => false,
        },
        *final(state) == (BrowserState { switcher: None, ..*old(state) }),
{
    let target: Option<usize> = match &state.switcher {
        Some(s) => match pick {
            Some(id) => Some(id),
            None => s.selected_id(),
        },
        None => {
            return None;
        },
    };
    state.switcher = None;
    Some(target)
}

/// Close the switcher without switching. Returns whether it was open.
pub fn switcher_cancel(state: &mut BrowserState) -> (r: bool)
    ensures
        r == old(state).switcher is Some,
        *final(state) == (BrowserState { switcher: None, ..*old(state) }),
{
    let open = state.switcher.is_some();
    state.switcher = None;
    open
}

/// The tab that "Show Next/Previous Tab" leads to.
pub open spec fn cycled(state: BrowserState, by_use: bool, delta: int) -> Option<usize> {
    if !by_use {
        tab_beside(state, delta)
    } else if state.tabs@.len() >= 2 {
        let (ids, selected) = switcher_after(state, delta);
        Some(ids[selected])
    } else {
        match state.switcher {
            Some(s) => s.selected_tab(),
            None => None,
        }
    }
}

/// "Show Next/Previous Tab": by recent use when the switcher is on (one step,
/// applied at once, as there is no modifier to release), else in strip order.
/// Returns the tab to switch to.
pub fn cycle(state: &mut BrowserState, by_use: bool, delta: isize) -> (r: Option<usize>)
    ensures
        !by_use ==> *final(state) == *old(state),
        by_use ==> *final(state) == (BrowserState { switcher: None, ..*old(state) }),
        r == cycled(*old(state), by_use, delta as int),
{
    if by_use {
        proof {
            crate::state::law_order_of_use(state.mru@, state.tabs@);
        }
        let _ = switcher_step(state, delta);
        match switcher_close(state, None) {
            Some(target) => target,
            None => None,
        }
    } else {
        select_relative(state, delta)
    }
}

/// What a key does.
#[derive(Clone, Copy, PartialEq, Eq, Debug, Structural)]
pub enum KeyStep {
    Nothing,
    /// Step the switcher.
    Step(isize),
    /// Close the switcher.
    Cancel,
    /// Switch to the highlighted tab.
    Commit,
}

/// What a key does, and whether it is consumed, given whether the switcher is open
/// and whether switching goes by use.
pub open spec fn key_step(open: bool, by_use: bool, action: KeyAction) -> (KeyStep, bool) {
    match action {
        KeyAction::Cycle(delta) => if by_use {
            (KeyStep::Step(delta), true)
        } else {
            (KeyStep::Nothing, false)
        },
        KeyAction::Escape => (KeyStep::Cancel, open),
        KeyAction::ControlReleased => (KeyStep::Commit, false),
    }
}

/// Control-Tab steps the switcher (opening it on the first press), Escape
/// cancels it, releasing Control commits. Says what to do and whether the key
/// is consumed: Control-Tab only when switching goes by use (else the menu's
/// accelerator handles it), Escape only while the switcher is open.
pub fn on_key(state: &BrowserState, by_use: bool, action: KeyAction) -> (r: (KeyStep, bool))
    ensures
        r == key_step(state.switcher is Some, by_use, action),
{
    match action {
        KeyAction::Cycle(delta) => if by_use {
            (KeyStep::Step(delta), true)
        } else {
            (KeyStep::Nothing, false)
        },
        KeyAction::Escape => (KeyStep::Cancel, state.switcher.is_some()),
        KeyAction::ControlReleased => (KeyStep::Commit, false),
    }
}

/// Settings changed the tab arrangement. Returns whether it differs.
pub fn set_vertical_tabs(state: &mut BrowserState, vertical: bool) -> (r: bool)
    ensures
        r == (old(state).vertical_tabs != vertical),
        *final(state) == (BrowserState { vertical_tabs: vertical, ..*old(state) }),
{
    let changed = state.vertical_tabs != vertical;
    state.vertical_tabs = vertical;
    changed
}

// ---- sleeping -----------------------------------------------------------

pub const NANOS_PER_MINUTE: u64 = 60_000_000_000;

/// A tab that may be put to sleep: in the background, awake and not private
/// (whose session would be lost).
pub open spec fn may_sleep(tabs: Seq<Tab>, active: int, i: int) -> bool {
    i != active && !tabs[i].incognito && !tabs[i].discarded
}

/// Has a tab been idle for so many minutes?
pub open spec fn is_idle(t: Tab, minutes: int, now: u64) -> bool {
    t.last_active matches Some(la) && la <= now && now - la >= minutes * NANOS_PER_MINUTE
}

/// The ids, in strip order, of the first `n` tabs that may sleep and that were
/// idle for `minutes`.
pub open spec fn sleepers(tabs: Seq<Tab>, active: int, n: int, minutes: int, now: u64) -> Seq<usize>
    decreases n,
{
    if n <= 0 {
        Seq::empty()
    } else {
        let rest = sleepers(tabs, active, n - 1, minutes, now);
        if may_sleep(tabs, active, n - 1) && is_idle(tabs[n - 1], minutes, now) {
            rest.push(tabs[n - 1].id)
        } else {
            rest
        }
    }
}

/// The ids of the tabs that the memory saver puts to sleep; none where the
/// configured time is zero.
pub open spec fn put_to_sleep(tabs: Seq<Tab>, active: int, minutes: u64, now: u64) -> Seq<usize> {
    if minutes == 0 {
        Seq::empty()
    } else {
        sleepers(tabs, active, tabs.len() as int, minutes as int, now)
    }
}

/// The ids, in strip order, of the first `n` tabs that may sleep.
pub open spec fn background(tabs: Seq<Tab>, active: int, n: int) -> Seq<usize>
    decreases n,
{
    if n <= 0 {
        Seq::empty()
    } else {
        let rest = background(tabs, active, n - 1);
        if may_sleep(tabs, active, n - 1) {
            rest.push(tabs[n - 1].id)
        } else {
            rest
        }
    }
}

/// Memory saver: the background tabs idle for the configured time, which are to
/// be put to sleep; none where the time is zero.
pub fn discard_idle(state: &BrowserState, threshold_min: u64, now: u64) -> (r: Vec<usize>)
    ensures
        r@ == put_to_sleep(state.tabs@, state.active as int, threshold_min, now),
{
    let mut out: Vec<usize> = Vec::new();
    if threshold_min == 0 {
        return out;
    }
    let threshold: u128 = threshold_min as u128 * 60_000_000_000;
    let mut i: usize = 0;
    while i < state.tabs.len()
        invariant
            i <= state.tabs@.len(),
            threshold == threshold_min * NANOS_PER_MINUTE,
            out@ == sleepers(
                state.tabs@,
                state.active as int,
                i as int,
                threshold_min as int,
                now,
            ),
        decreases state.tabs@.len() - i,
    {
        let t = &state.tabs[i];
        if i != state.active && !t.incognito && !t.discarded {
            let idle = match t.last_active {
                Some(la) => la <= now && (now - la) as u128 >= threshold,
                None => false,
            };
            if idle {
                out.push(t.id);
            }
        }
        i += 1;
    }
    out
}

/// Every background tab that may sleep ("Free memory now").
pub fn discard_all_background(state: &BrowserState) -> (r: Vec<usize>)
    ensures
        r@ == background(state.tabs@, state.active as int, state.tabs@.len() as int),
{
    let mut out: Vec<usize> = Vec::new();
    let mut i: usize = 0;
    while i < state.tabs.len()
        invariant
            i <= state.tabs@.len(),
            out@ == background(state.tabs@, state.active as int, i as int),
        decreases state.tabs@.len() - i,
    {
        let t = &state.tabs[i];
        if i != state.active && !t.incognito && !t.discarded {
            out.push(t.id);
        }
        i += 1;
    }
    out
}

/// A tab asleep: it keeps its place, its address and its title.
pub open spec fn asleep(t: Tab) -> Tab {
    Tab { discarded: true, loading: false, can_back: false, can_forward: false, ..t }
}

/// Mark a tab as asleep, before its webview is torn down. Says whether it shows
/// external content; `None` where there is no such tab.
pub fn discard_tab(state: &mut BrowserState, id: usize) -> (r: Option<bool>)
    ensures
        match find(old(state).tabs@, id) {
            Some(i) => r == Some(old(state).tabs@[i].url@.len() > 0) && final(state).tabs@
                == old(state).tabs@.update(i, asleep(old(state).tabs@[i])) && *final(state) == (BrowserState {
                tabs: final(state).tabs,
                ..*old(state)
            }),
            None => r is None && *final(state) == *old(state),
        },
{
    match state.tab_mut(id) {
        Some(t) => {
            t.discarded = true;
            t.loading = false;
            t.can_back = false;
            t.can_forward = false;
            Some(!t.url.as_str().is_empty())
        },
        None => None,
    }
}

/// Labels of the other tabs that are awake.
pub open spec fn others(tabs: Seq<Tab>, id: usize, n: int) -> Seq<Seq<char>>
    decreases n,
{
    if n <= 0 {
        Seq::empty()
    } else {
        let rest = others(tabs, id, n - 1);
        if tabs[n - 1].id != id && !tabs[n - 1].discarded {
            rest.push(label_text(tabs[n - 1].id))
        } else {
            rest
        }
    }
}

/// Labels of the webviews whose processes must outlive tab `id`: the chrome's,
/// and those of all other tabs that are awake.
pub open spec fn protected_views(tabs: Seq<Tab>, id: usize) -> Seq<Seq<char>> {
    seq!["chrome"@] + others(tabs, id, tabs.len() as int)
}

pub fn protected_labels(state: &BrowserState, id: usize) -> (r: Vec<String>)
    ensures
        strings(r@) == protected_views(state.tabs@, id),
{
    let mut out: Vec<String> = Vec::new();
    out.push("chrome".to_owned());
    let mut i: usize = 0;
    assert(strings(out@) =~= seq!["chrome"@] + Seq::<Seq<char>>::empty());
    while i < state.tabs.len()
        invariant
            i <= state.tabs@.len(),
            strings(out@) == seq!["chrome"@] + others(state.tabs@, id, i as int),
        decreases state.tabs@.len() - i,
    {
        let t = &state.tabs[i];
        if t.id != id && !t.discarded {
            let label = t.label();
            let ghost before = out@;
            out.push(label);
            assert(strings(out@) =~= strings(before).push(label@));
            assert(strings(out@) =~= seq!["chrome"@] + others(state.tabs@, id, i + 1));
        }
        i += 1;
    }
    out
}

/// Is the process of a closing page one that shows the web and that no protected
/// page runs in?
pub open spec fn expendable(external: bool, pid: Option<i32>, protected: Seq<i32>) -> bool {
    external && (pid matches Some(p) && !protected.contains(p))
}

/// May the process of a closing page be terminated? Only where the tab shows
/// external content (internal pages may share the chrome's process), its
/// process is known, and no other live webview runs in it.
pub fn may_terminate(external: bool, pid: Option<i32>, protected: &Vec<i32>) -> (r: bool)
    ensures
        r == expendable(external, pid, protected@),
{
    let own = match pid {
        Some(p) => p,
        None => {
            return false;
        },
    };
    let mut shared = false;
    let mut i: usize = 0;
    while i < protected.len()
        invariant
            i <= protected@.len(),
            shared == protected@.take(i as int).contains(own),
        decreases protected@.len() - i,
    {
        proof {
            let upto = protected@.take(i as int);
            let next = protected@.take(i + 1);
            assert(next == upto.push(protected@[i as int]));
            assert(next[i as int] == protected@[i as int]);
            if upto.contains(own) {
                let j = choose|j: int| 0 <= j < upto.len() && upto[j] == own;
                assert(next[j] == own);
            }
        }
        if protected[i] == own {
            shared = true;
        }
        i += 1;
    }
    assert(protected@.take(protected@.len() as int) == protected@);
    external && !shared
}

// ---- closing and reopening ----------------------------------------------

/// A tab that was closed, and what follows.
#[derive(Clone, Copy, PartialEq, Eq, Debug, Structural)]
pub struct Closing {
    pub was_discarded: bool,
    pub external: bool,
    pub incognito: bool,
    /// The tab to bring forward; `None` where none is left and a fresh home tab
    /// is opened.
    pub next: Option<usize>,
}

/// `after` is `before` with the tab `id` closed; `r` says what follows. Nothing
/// changes where there is no such tab.
pub open spec fn tab_closed(
    before: BrowserState,
    after: BrowserState,
    id: usize,
    now: u64,
    r: Option<Closing>,
) -> bool {
    match find(before.tabs@, id) {
        Some(i) => {
            let t = before.tabs@[i];
            let rest = before.tabs@.remove(i);
            &&& r == Some(
                Closing {
                    was_discarded: t.discarded,
                    external: t.url@.len() > 0,
                    incognito: t.incognito,
                    next: if rest.len() == 0 {
                        None
                    } else {
                        Some(rest[after.active as int].id)
                    },
                },
            )
            &&& removed(
                BrowserState { recently_closed: after.recently_closed, ..before },
                after,
                id,
                now,
            )
            &&& after.recently_closed@ == closed_after(before.recently_closed@, t)
        },
        None => r is None && after == before,
    }
}

/// Close the tab with the given id, remembering it for reopening unless it is
/// private. `None` where there is no such tab.
pub fn close_tab(state: &mut BrowserState, id: usize, now: u64) -> (r: Option<Closing>)
    ensures
        tab_closed(*old(state), *final(state), id, now, r),
        old(state).wf() ==> final(state).wf(),
{
    proof {
        lemma_find(state.tabs@, id);
    }
    let tab = match state.remove(id, now) {
        Some(t) => t,
        None => {
            return None;
        },
    };
    state.remember_closed(&tab);
    let next: Option<usize> = match state.active_tab() {
        Some(t) => Some(t.id),
        None => None,
    };
    Some(
        Closing {
            was_discarded: tab.discarded,
            external: !tab.is_internal(),
            incognito: tab.incognito,
            next,
        },
    )
}

/// The tab that "Close Tab" closes.
pub fn close_active(state: &BrowserState) -> (r: Option<usize>)
    ensures
        r == (match state.active_tab_spec() {
            Some(t) => Some(t.id),
            None => None,
        }),
{
    match state.active_tab() {
        Some(t) => Some(t.id),
        None => None,
    }
}

/// What reopening a closed tab opens.
pub enum Reopen {
    Home,
    Page(String),
    Web(WebUrl),
    /// Its address is none.
    Nothing,
}

/// `r` is what reopening `c` opens, where its address parses to `parsed`.
pub open spec fn reopens(c: ClosedTab, parsed: Option<UrlParts>, r: Reopen) -> bool {
    if c.url@.len() == 0 {
        if c.page@.len() == 0 || c.page@ == NEW_TAB_PAGE@ {
            r is Home
        } else {
            r matches Reopen::Page(p) && p == c.page
        }
    } else {
        match parsed {
            Some(u) => r matches Reopen::Web(w) && w@ == u,
            None => r is Nothing,
        }
    }
}

/// `after` is `before` with the most recently closed tab off the list; `r` says what
/// is opened for it. Nothing changes where the list is empty.
pub open spec fn last_reopened(before: BrowserState, after: BrowserState, r: Option<Reopen>) -> bool {
    let closed = before.recently_closed@;
    if closed.len() == 0 {
        r is None && after == before
    } else {
        &&& r matches Some(what) && reopens(closed.last(), url_parsed(closed.last().url@), what)
        &&& after.recently_closed@ == closed.drop_last()
        &&& after == (BrowserState { recently_closed: after.recently_closed, ..before })
    }
}

/// Take the most recently closed tab off the list and say what to open; `None`
/// where there is none.
pub fn reopen_closed(state: &mut BrowserState) -> (r: Option<Reopen>)
    ensures
        last_reopened(*old(state), *final(state), r),
{
    if state.recently_closed.len() == 0 {
        return None;
    }
    let closed = match state.recently_closed.pop() {
        Some(c) => c,
        None => {
            return None;
        },
    };
    let parsed = parse_url(closed.url.as_str());
    Some(reopen_as(closed, parsed))
}

/// What reopening a closed tab opens, given what its address parses to.
pub fn reopen_as(closed: ClosedTab, parsed: Option<WebUrl>) -> (r: Reopen)
    ensures
        reopens(closed, opt_url(parsed), r),
{
    if closed.url.as_str().is_empty() {
        if closed.page.as_str().is_empty() || text_eq(closed.page.as_str(), NEW_TAB_PAGE) {
            return Reopen::Home;
        }
        return Reopen::Page(closed.page);
    }
    match parsed {
        Some(u) => Reopen::Web(u),
        None => Reopen::Nothing,
    }
}

// ---- the active tab -----------------------------------------------------

/// Label of the active tab's webview.
pub fn active_label(state: &BrowserState) -> (r: Option<String>)
    ensures
        match (r, state.active_tab_spec()) {
            (Some(label), Some(t)) => label@ == label_text(t.id),
            (None, None) => true,
            _ => false,
        },
{
    match state.active_tab() {
        Some(t) => Some(t.label()),
        None => None,
    }
}

/// The tab whose address is asked for where the engine does not report it: the
/// active one, if it is awake. Its id, and the label of its webview.
pub fn polled_tab(state: &BrowserState) -> (r: Option<(usize, String)>)
    ensures
        match (r, state.active_tab_spec()) {
            (Some((id, label)), Some(t)) => !t.discarded && id == t.id && label@ == label_text(
                t.id,
            ),
            (None, Some(t)) => t.discarded,
            (None, None) => true,
            (Some(_), None) => false,
        },
{
    match state.active_tab() {
        Some(t) => if t.discarded {
            None
        } else {
            Some((t.id, t.label()))
        },
        None => None,
    }
}

/// URL and title of the active tab (for bookmarking the current page); `None`
/// on a bundled page.
pub fn active_url_title(state: &BrowserState) -> (r: Option<(String, String)>)
    ensures
        match (r, state.active_tab_spec()) {
            (Some((url, title)), Some(t)) => t.url@.len() > 0 && url == t.url && title == t.title,
            (None, Some(t)) => t.url@.len() == 0,
            (None, None) => true,
            (Some(_), None) => false,
        },
{
    match state.active_tab() {
        Some(t) => if t.url.as_str().is_empty() {
            None
        } else {
            Some((t.url.clone(), t.title.clone()))
        },
        None => None,
    }
}

/// Set the zoom (bits of a double) of the active tab; says where its webview
/// is.
pub fn zoom_active(state: &mut BrowserState, zoom: u64) -> (r: Option<String>)
    ensures
        match (r, old(state).active_tab_spec()) {
            (Some(label), Some(t)) => label@ == label_text(t.id) && final(state).tabs@
                == old(state).tabs@.update(old(state).active as int, Tab { zoom, ..t }) && *final(state) == (
            BrowserState { tabs: final(state).tabs, ..*old(state) }),
            (None, None) => *final(state) == *old(state),
            _ => false,
        },
{
    let i = state.active;
    if i < state.tabs.len() {
        let tab = Tab { zoom, ..state.tabs[i].clone() };
        let label = tab.label();
        state.tabs.set(i, tab);
        Some(label)
    } else {
        None
    }
}

/// Is this the label of a tab's webview?
pub open spec fn is_tab_label(label: Seq<char>) -> bool {
    has_prefix(label, "tab-"@)
}

pub fn tab_webview(label: &str) -> (r: bool)
    ensures
        r == is_tab_label(label@),
{
    begins(label, "tab-")
}

/// Does a private tab own the webview with this label?
pub open spec fn is_private_label(tabs: Seq<Tab>, label: Seq<char>) -> bool {
    exists|i: int|
        0 <= i < tabs.len() && (#[trigger] tabs[i]).incognito && label_text(tabs[i].id) == label
}

fn private_label(state: &BrowserState, label: &str) -> (r: bool)
    ensures
        r == is_private_label(state.tabs@, label@),
{
    let mut i: usize = 0;
    while i < state.tabs.len()
        invariant
            i <= state.tabs@.len(),
            forall|j: int|
                0 <= j < i ==> !((#[trigger] state.tabs@[j]).incognito && label_text(
                    state.tabs@[j].id,
                ) == label@),
        decreases state.tabs@.len() - i,
    {
        let t = &state.tabs[i];
        if t.incognito && text_eq(t.label().as_str(), label) {
            return true;
        }
        i += 1;
    }
    false
}

/// A webview of a tab that is not private.
pub open spec fn shares_data(tabs: Seq<Tab>, label: Seq<char>) -> bool {
    is_tab_label(label) && !is_private_label(tabs, label)
}

/// The label of the webview through which the shared site data is wiped.
pub open spec fn wiped_through(tabs: Seq<Tab>, labels: Seq<Seq<char>>) -> Seq<char> {
    match first_shared(tabs, labels) {
        Some(label) => label,
        None => "chrome"@,
    }
}

/// The webview through which the shared site data is wiped, among the live ones:
/// that of any tab that is not private, as they all share one data store with
/// the chrome; the chrome's where there is none.
pub fn clear_site_data(state: &BrowserState, live: &Vec<String>) -> (r: String)
    ensures
        r@ == wiped_through(state.tabs@, strings(live@)),
{
    let mut i: usize = 0;
    assert(strings(live@).skip(0) == strings(live@));
    while i < live.len()
        invariant
            i <= live@.len(),
            first_shared(state.tabs@, strings(live@)) == first_shared(
                state.tabs@,
                strings(live@).skip(i as int),
            ),
        decreases live@.len() - i,
    {
        let label = live[i].as_str();
        assert(strings(live@).skip(i as int)[0] == label@);
        if tab_webview(label) && !private_label(state, label) {
            return live[i].clone();
        }
        assert(strings(live@).skip(i as int).skip(1) == strings(live@).skip(i + 1));
        i += 1;
    }
    "chrome".to_owned()
}

/// The first label of a webview that shares its data.
pub open spec fn first_shared(tabs: Seq<Tab>, labels: Seq<Seq<char>>) -> Option<Seq<char>>
    decreases labels.len(),
{
    if labels.len() == 0 {
        None
    } else if shares_data(tabs, labels[0]) {
        Some(labels[0])
    } else {
        first_shared(tabs, labels.skip(1))
    }
}

// ---- the session --------------------------------------------------------

/// What a tab leaves in the session.
#[verifier::ext_equal]
pub struct Kept {
    pub url: Seq<char>,
    pub title: Seq<char>,
    pub page: Seq<char>,
}

impl View for SessionTab {
    type V = Kept;

    open spec fn view(&self) -> Kept {
        Kept { url: self.url@, title: self.title@, page: self.page@ }
    }
}

pub open spec fn session_view(s: Seq<SessionTab>) -> Seq<Kept> {
    s.map_values(|t: SessionTab| t@)
}

pub open spec fn kept(t: Tab) -> Kept {
    Kept { url: t.url@, title: t.title@, page: t.page@ }
}

/// The session of a tab list: every tab that is not private.
pub open spec fn session_of(tabs: Seq<Tab>) -> Seq<Kept>
    decreases tabs.len(),
{
    if tabs.len() == 0 {
        Seq::empty()
    } else if tabs.last().incognito {
        session_of(tabs.drop_last())
    } else {
        session_of(tabs.drop_last()).push(kept(tabs.last()))
    }
}

/// The place of the active tab in the session; the first where it is private or
/// there is none.
pub open spec fn session_active(tabs: Seq<Tab>, active: int) -> int {
    if 0 <= active < tabs.len() && !tabs[active].incognito {
        session_of(tabs.take(active)).len() as int
    } else {
        0
    }
}

/// `after` is `before` with the session that the open tabs make; `r` says whether
/// that is another one.
pub open spec fn session_synced(before: Store, after: Store, state: BrowserState, r: bool) -> bool {
    let open = session_of(state.tabs@);
    let front = session_active(state.tabs@, state.active as int);
    &&& session_view(after.session@) == open
    &&& after.session_active == front
    &&& after == (Store {
        session: after.session,
        session_active: after.session_active,
        ..before
    })
    &&& r == !(session_view(before.session@) == open && before.session_active == front)
    &&& !r ==> after == before
}

/// Keep the persisted session (for "restore tabs on startup") equal to the open
/// tabs that are not private. Returns whether it changed.
pub fn sync_session(state: &BrowserState, store: &mut Store) -> (r: bool)
    ensures
        session_synced(*old(store), *final(store), *state, r),
{
    let mut live: Vec<SessionTab> = Vec::new();
    let mut active: usize = 0;
    let n = state.tabs.len();
    let mut i: usize = 0;
    assert(session_view(live@) =~= session_of(state.tabs@.take(0)));
    while i < n
        invariant
            i <= n,
            n == state.tabs@.len(),
            session_view(live@) == session_of(state.tabs@.take(i as int)),
            active == (if state.active < i {
                session_active(state.tabs@, state.active as int)
            } else {
                0
            }),
        decreases n - i,
    {
        let t = &state.tabs[i];
        assert(state.tabs@.take(i + 1).drop_last() == state.tabs@.take(i as int));
        if !t.incognito {
            if i == state.active {
                active = live.len();
                assert(session_view(live@).len() == live@.len());
            }
            let entry = SessionTab {
                url: t.url.clone(),
                title: t.title.clone(),
                page: t.page.clone(),
            };
            let ghost before = live@;
            live.push(entry);
            assert(session_view(live@) =~= session_view(before).push(entry@));
        }
        i += 1;
    }
    assert(state.tabs@.take(n as int) == state.tabs@);
    if same_session(&store.session, &live) && store.session_active == active {
        return false;
    }
    store.session = live;
    store.session_active = active;
    true
}

fn same_session(a: &Vec<SessionTab>, b: &Vec<SessionTab>) -> (r: bool)
    ensures
        r == (session_view(a@) == session_view(b@)),
{
    let ghost x = session_view(a@);
    let ghost y = session_view(b@);
    if a.len() != b.len() {
        assert(x.len() != y.len());
        return false;
    }
    let mut i: usize = 0;
    while i < a.len()
        invariant
            i <= a@.len(),
            a@.len() == b@.len(),
            x == session_view(a@),
            y == session_view(b@),
            forall|j: int| 0 <= j < i ==> x[j] == y[j],
        decreases a@.len() - i,
    {
        assert(x[i as int] == a@[i as int]@ && y[i as int] == b@[i as int]@);
        if !(text_eq(a[i].url.as_str(), b[i].url.as_str()) && text_eq(
            a[i].title.as_str(),
            b[i].title.as_str(),
        ) && text_eq(a[i].page.as_str(), b[i].page.as_str())) {
            return false;
        }
        i += 1;
    }
    assert(x =~= y);
    true
}

// ---- downloads ----------------------------------------------------------

/// A download as the webview reports it.
pub enum Download {
    /// It begins: from where, and to which file.
    Requested { url: WebUrl, destination: String },
    /// It ended.
    Finished { url: WebUrl, path: Option<String>, success: bool },
}

/// Notification for the chrome's toast.
pub struct DownloadNotice {
    /// "started", "done" or "failed".
    pub status: &'static str,
    pub name: String,
    pub path: String,
}

/// The parts of a path that name something: not empty and not ".".
pub open spec fn named_parts(path: Seq<char>) -> Seq<Seq<char>> {
    split(path, '/').filter(|p: Seq<char>| names_something(p))
}

pub open spec fn names_something(p: Seq<char>) -> bool {
    p.len() > 0 && p != "."@
}

/// The file that a path leads to; none where it ends in "..".
pub open spec fn file_of(path: Seq<char>) -> Option<Seq<char>> {
    let parts = named_parts(path);
    if parts.len() == 0 || parts.last() == ".."@ {
        None
    } else {
        Some(parts.last())
    }
}

/// The name of the file that a path leads to.
pub fn file_name(path: &str) -> (r: Option<String>)
    ensures
        crate::web::opt_text(r) == file_of(path@),
{
    let parts = split_on(chars_of(path).as_slice(), '/');
    let ghost all = texts(parts@);
    let ghost p = |x: Seq<char>| names_something(x);
    let mut last: Option<usize> = None;
    let mut i: usize = 0;
    proof {
        reveal(Seq::filter);
        assert(all.take(0).filter(p).len() == 0);
    }
    while i < parts.len()
        invariant
            i <= parts@.len(),
            all == texts(parts@),
            p == (|x: Seq<char>| names_something(x)),
            match last {
                Some(k) => k < i && all.take(i as int).filter(p).len() > 0 && all.take(
                    i as int,
                ).filter(p).last() == all[k as int],
                None => all.take(i as int).filter(p).len() == 0,
            },
        decreases parts@.len() - i,
    {
        proof {
            reveal(Seq::filter);
            assert(all.take(i + 1).drop_last() == all.take(i as int));
            assert(all[i as int] == parts@[i as int]@);
        }
        let part = string_of(parts[i].as_slice());
        if !part.as_str().is_empty() && !text_eq(part.as_str(), ".") {
            last = Some(i);
        }
        i += 1;
    }
    assert(all.take(all.len() as int) == all);
    match last {
        Some(k) => {
            let name = string_of(parts[k].as_slice());
            if text_eq(name.as_str(), "..") {
                None
            } else {
                Some(name)
            }
        },
        None => None,
    }
}

/// The last part of a URL's path, where it has one; else the whole URL.
pub open spec fn name_in_url(u: UrlParts) -> Seq<char> {
    if u.path.len() > 0 && u.path[0] == '/' && base_name(u.path).len() > 0 {
        base_name(u.path)
    } else {
        u.href
    }
}

fn url_name(u: &WebUrl) -> (r: String)
    ensures
        r@ == name_in_url(u@),
{
    if begins(u.path.as_str(), "/") {
        proof {
            reveal_strlit("/");
            assert("/"@ =~= seq!['/']);
            assert(u.path@.take(1)[0] == u.path@[0]);
        }
        let name = name_after_slash(u.path.as_str());
        if !name.as_str().is_empty() {
            return name;
        }
    } else {
        proof {
            reveal_strlit("/");
            assert("/"@ =~= seq!['/']);
            if u.path@.len() > 0 && u.path@[0] == '/' {
                assert(u.path@.take(1) =~= seq!['/']);
            }
        }
    }
    u.href.clone()
}

/// `r` is the notice of a download event.
pub open spec fn announces(event: Download, r: DownloadNotice) -> bool {
    match event {
        Download::Requested { url, destination } => {
            &&& r.status@ == "started"@
            &&& r.name@ == (match file_of(destination@) {
                Some(name) => name,
                None => url@.href,
            })
            &&& r.path@ == destination@
        },
        Download::Finished { url, path, success } => {
            &&& r.status@ == (if success {
                "done"@
            } else {
                "failed"@
            })
            &&& r.name@ == name_in_url(url@)
            &&& r.path@ == (match path {
                Some(p) => p@,
                None => Seq::empty(),
            })
        },
    }
}

/// Turn a download event into the chrome's toast notice.
pub fn download_notice(event: &Download) -> (r: DownloadNotice)
    ensures
        announces(*event, r),
{
    match event {
        Download::Requested { url, destination } => {
            let name = match file_name(destination.as_str()) {
                Some(name) => name,
                None => url.href.clone(),
            };
            DownloadNotice { status: "started", name, path: destination.clone() }
        },
        Download::Finished { url, path, success } => {
            let status = if *success {
                "done"
            } else {
                "failed"
            };
            let path = match path {
                Some(p) => p.clone(),
                None => String::new(),
            };
            DownloadNotice { status, name: url_name(url), path }
        },
    }
}

// ---- laws ---------------------------------------------------------------

/// Only background tabs that are awake and not private are put to sleep, idle
/// or not.
pub proof fn law_only_background_tabs_sleep(
    tabs: Seq<Tab>,
    active: int,
    n: int,
    minutes: int,
    now: u64,
)
    requires
        0 <= n <= tabs.len(),
    ensures
        forall|id: usize| #[trigger]
            sleepers(tabs, active, n, minutes, now).contains(id) ==> background(
                tabs,
                active,
                n,
            ).contains(id),
        forall|id: usize| #[trigger]
            background(tabs, active, n).contains(id) ==> exists|i: int|
                0 <= i < n && (#[trigger] tabs[i]).id == id && may_sleep(tabs, active, i),
    decreases n,
{
    if n > 0 {
        law_only_background_tabs_sleep(tabs, active, n - 1, minutes, now);
        let s = sleepers(tabs, active, n - 1, minutes, now);
        let b = background(tabs, active, n - 1);
        assert forall|id: usize| #[trigger]
            sleepers(tabs, active, n, minutes, now).contains(id) implies background(
            tabs,
            active,
            n,
        ).contains(id) by {
            lemma_push_contains(s, tabs[n - 1].id, id);
            lemma_push_contains(b, tabs[n - 1].id, id);
            assert(s.contains(id) ==> b.contains(id));
        }
        assert forall|id: usize| #[trigger] background(tabs, active, n).contains(id) implies exists|
            i: int,
        |
            0 <= i < n && (#[trigger] tabs[i]).id == id && may_sleep(tabs, active, i) by {
            lemma_push_contains(b, tabs[n - 1].id, id);
            if b.contains(id) {
                let i = choose|i: int|
                    0 <= i < n - 1 && (#[trigger] tabs[i]).id == id && may_sleep(tabs, active, i);
                assert(tabs[i].id == id);
            } else {
                assert(tabs[n - 1].id == id);
            }
        }
    }
}

proof fn lemma_push_contains(s: Seq<usize>, x: usize, y: usize)
    ensures
        s.push(x).contains(y) <==> s.contains(y) || x == y,
{
    if s.contains(y) {
        let i = choose|i: int| 0 <= i < s.len() && s[i] == y;
        assert(s.push(x)[i] == y);
    }
    if x == y {
        assert(s.push(x)[s.len() as int] == y);
    }
    if s.push(x).contains(y) {
        let i = choose|i: int| 0 <= i < s.push(x).len() && s.push(x)[i] == y;
        if i < s.len() {
            assert(s[i] == y);
        }
    }
}

/// What a reopened tab shows; nothing is opened where the address is none.
pub open spec fn reopened_on(r: Reopen) -> Option<Destination> {
    match r {
        Reopen::Home => Some(Destination::App(NEW_TAB_PAGE@)),
        Reopen::Page(p) => Some(Destination::App(p@)),
        Reopen::Web(u) => Some(Destination::External(u@)),
        Reopen::Nothing => None,
    }
}

/// Closing a tab and reopening it gives it back: what was remembered last is
/// what was closed, it is opened on what the tab showed (unless its address is
/// none), and the list is then as it was before.
pub proof fn law_reopen_undoes_close(closed: Seq<ClosedTab>, t: Tab, r: Reopen)
    requires
        !t.incognito,
        reopens(closed_after(closed, t).last(), url_parsed(t.url@), r),
    ensures
        closed_after(closed, t).len() > 0,
        closed_after(closed, t).last() == (ClosedTab { url: t.url, page: t.page }),
        match reopened_on(r) {
            Some(d) => d == target_of(t.url@, t.page@, false),
            None => t.url@.len() > 0 && url_parsed(t.url@) is None,
        },
        closed.len() < crate::state::CLOSED_CAP ==> closed_after(closed, t).drop_last() == closed,
{
    assert(closed_after(closed, t).last() == (ClosedTab { url: t.url, page: t.page }));
    if closed.len() < crate::state::CLOSED_CAP {
        assert(closed_after(closed, t).drop_last() =~= closed);
    }
}

pub open spec fn is_public() -> spec_fn(Tab) -> bool {
    |t: Tab| !t.incognito
}

/// Private tabs leave no trace: not in the session, nor among the closed tabs.
pub proof fn law_private_tabs_leave_no_trace(tabs: Seq<Tab>, closed: Seq<ClosedTab>, t: Tab)
    ensures
        session_of(tabs) == session_of(tabs.filter(is_public())),
        t.incognito ==> closed_after(closed, t) == closed,
    decreases tabs.len(),
{
    reveal(Seq::filter);
    if tabs.len() > 0 {
        let init = tabs.drop_last();
        law_private_tabs_leave_no_trace(init, closed, t);
        if !tabs.last().incognito {
            assert(init.filter(is_public()).push(tabs.last()).drop_last() == init.filter(
                is_public(),
            ));
        }
    } else {
        assert(tabs.filter(is_public()) =~= tabs);
    }
}

/// Restoring a session and saving it gives the same session back.
pub proof fn law_session_round_trip(
    tabs: Seq<Tab>,
    session: Seq<SessionTab>,
    zoom: u64,
    first: int,
    shown: int,
    now: u64,
)
    requires
        tabs.len() == session.len(),
        0 <= shown < session.len(),
        forall|i: int|
            0 <= i < session.len() ==> is_restored(
                #[trigger] tabs[i],
                session[i],
                zoom,
                first + i,
                i != shown,
                now,
            ),
    ensures
        session_of(tabs) == session_view(session),
        session_active(tabs, shown) == shown,
{
    lemma_session_all(tabs, session, zoom, first, shown, now, session.len() as int);
    lemma_session_all(tabs, session, zoom, first, shown, now, shown);
    assert(tabs.take(tabs.len() as int) == tabs);
    assert(session_view(session).take(session.len() as int) == session_view(session));
    assert(!tabs[shown].incognito);
}

proof fn lemma_session_all(
    tabs: Seq<Tab>,
    session: Seq<SessionTab>,
    zoom: u64,
    first: int,
    shown: int,
    now: u64,
    n: int,
)
    requires
        tabs.len() == session.len(),
        0 <= n <= session.len(),
        forall|i: int|
            0 <= i < session.len() ==> is_restored(
                #[trigger] tabs[i],
                session[i],
                zoom,
                first + i,
                i != shown,
                now,
            ),
    ensures
        session_of(tabs.take(n)) == session_view(session).take(n),
    decreases n,
{
    if n == 0 {
        assert(session_of(tabs.take(0)) =~= session_view(session).take(0));
    } else {
        lemma_session_all(tabs, session, zoom, first, shown, now, n - 1);
        assert(tabs.take(n).drop_last() == tabs.take(n - 1));
        assert(is_restored(tabs[n - 1], session[n - 1], zoom, first + n - 1, n - 1 != shown, now));
        assert(session_view(session).take(n) =~= session_view(session).take(n - 1).push(
            kept(tabs[n - 1]),
        ));
    }
}

proof fn lemma_others_hold(tabs: Seq<Tab>, id: usize, n: int, i: int)
    requires
        0 <= i < n <= tabs.len(),
        tabs[i].id != id,
        !tabs[i].discarded,
    ensures
        others(tabs, id, n).contains(label_text(tabs[i].id)),
    decreases n,
{
    let rest = others(tabs, id, n - 1);
    if i == n - 1 {
        assert(others(tabs, id, n)[rest.len() as int] == label_text(tabs[i].id));
    } else {
        lemma_others_hold(tabs, id, n - 1, i);
        let j = choose|j: int| 0 <= j < rest.len() && rest[j] == label_text(tabs[i].id);
        assert(others(tabs, id, n)[j] == rest[j]);
    }
}

/// Closing or sleeping a tab spares the process of the chrome and of every other
/// tab that is awake.
pub proof fn law_live_pages_are_protected(tabs: Seq<Tab>, id: usize, i: int)
    requires
        0 <= i < tabs.len(),
        tabs[i].id != id,
        !tabs[i].discarded,
    ensures
        protected_views(tabs, id).contains("chrome"@),
        protected_views(tabs, id).contains(label_text(tabs[i].id)),
{
    let all = protected_views(tabs, id);
    let rest = others(tabs, id, tabs.len() as int);
    lemma_others_hold(tabs, id, tabs.len() as int, i);
    let j = choose|j: int| 0 <= j < rest.len() && rest[j] == label_text(tabs[i].id);
    assert(all[0] == "chrome"@);
    assert(all[j + 1] == rest[j]);
}

proof fn lemma_sleepers_hold(tabs: Seq<Tab>, active: int, n: int, minutes: int, now: u64, id: usize)
    requires
        0 <= n <= tabs.len(),
        minutes >= 0,
    ensures
        sleepers(tabs, active, n, minutes, now).contains(id) <==> exists|i: int|
            0 <= i < n && (#[trigger] tabs[i]).id == id && i != active && !tabs[i].incognito
                && !tabs[i].discarded && (tabs[i].last_active matches Some(la) && la + minutes
                * 60_000_000_000 <= now),
    decreases n,
{
    if n > 0 {
        lemma_sleepers_hold(tabs, active, n - 1, minutes, now, id);
        let rest = sleepers(tabs, active, n - 1, minutes, now);
        assert(0 <= minutes * 60_000_000_000) by (nonlinear_arith)
            requires
                minutes >= 0,
        ;
        lemma_push_contains(rest, tabs[n - 1].id, id);
        if rest.contains(id) {
            let i = choose|i: int|
                0 <= i < n - 1 && (#[trigger] tabs[i]).id == id && i != active
                    && !tabs[i].incognito && !tabs[i].discarded && (
                tabs[i].last_active matches Some(la) && la + minutes * 60_000_000_000 <= now);
            assert(tabs[i].id == id);
        }
    }
}

/// The memory saver puts a tab to sleep exactly where it is in the background,
/// awake and public, and where at least the configured number of minutes, of
/// sixty thousand million nanoseconds each, went by since it was last active. A
/// time of zero switches it off.
pub proof fn law_tabs_sleep_after_the_set_time(
    tabs: Seq<Tab>,
    active: int,
    minutes: u64,
    now: u64,
    id: usize,
)
    ensures
        put_to_sleep(tabs, active, minutes, now).contains(id) <==> minutes > 0 && exists|i: int|
            0 <= i < tabs.len() && (#[trigger] tabs[i]).id == id && i != active
                && !tabs[i].incognito && !tabs[i].discarded && (
            tabs[i].last_active matches Some(la) && la + minutes * 60_000_000_000 <= now),
{
    lemma_sleepers_hold(tabs, active, tabs.len() as int, minutes as int, now, id);
}

/// A longer time never puts a tab to sleep that a shorter one leaves awake.
pub proof fn law_longer_times_wake_no_fewer(
    tabs: Seq<Tab>,
    active: int,
    shorter: u64,
    longer: u64,
    now: u64,
    id: usize,
)
    requires
        0 < shorter <= longer,
        put_to_sleep(tabs, active, longer, now).contains(id),
    ensures
        put_to_sleep(tabs, active, shorter, now).contains(id),
{
    law_tabs_sleep_after_the_set_time(tabs, active, longer, now, id);
    law_tabs_sleep_after_the_set_time(tabs, active, shorter, now, id);
    assert(shorter * 60_000_000_000 <= longer * 60_000_000_000) by (nonlinear_arith)
        requires
            shorter <= longer,
    ;
    let i = choose|i: int|
        0 <= i < tabs.len() && (#[trigger] tabs[i]).id == id && i != active && !tabs[i].incognito
            && !tabs[i].discarded && (tabs[i].last_active matches Some(la) && la + longer
            * 60_000_000_000 <= now);
    assert(tabs[i].id == id);
}

/// A new tab comes last in the strip, in front, on what it was opened for and
/// with the default zoom, first in the order of use. No other tab changes, but
/// that the one in front so far is idle from now on.
pub proof fn law_new_tabs_come_in_front(
    before: BrowserState,
    after: BrowserState,
    zoom: u64,
    url: Seq<char>,
    page: Seq<char>,
    incognito: bool,
    now: u64,
    j: int,
)
    requires
        tab_added(before, after, zoom, url, page, incognito, now),
        0 <= j < before.tabs@.len(),
    ensures
        after.tabs@.len() == before.tabs@.len() + 1,
        after.active == before.tabs@.len(),
        after.tabs@.last().url@ == url,
        after.tabs@.last().page@ == page,
        after.tabs@.last().incognito == incognito,
        after.tabs@.last().zoom == zoom,
        after.tabs@.last().last_active == Some(now),
        !after.tabs@.last().discarded,
        !after.tabs@.last().loading,
        after.tabs@.last().title@ == Seq::<char>::empty(),
        after.tabs@.last().favicon@ == Seq::<char>::empty(),
        !after.tabs@.last().can_back && !after.tabs@.last().can_forward,
        after.mru@[0] == after.tabs@.last().id,
        j != before.active ==> after.tabs@[j] == before.tabs@[j],
        j == before.active ==> after.tabs@[j] == (Tab {
            last_active: Some(now),
            ..before.tabs@[j]
        }),
        after.recently_closed == before.recently_closed,
{
    assert(after.tabs@.drop_last()[j] == after.tabs@[j]);
}

/// A tab on the web loads its address, and the home page where that is none; a
/// tab without an address loads the bundled page that it shows, or else the
/// home page. Only the private home page is told that it is private.
pub proof fn law_tabs_load_what_they_show(
    url: Seq<char>,
    page: Seq<char>,
    incognito: bool,
    parsed: Option<UrlParts>,
)
    ensures
        url.len() > 0 ==> match parsed {
            Some(u) => target_given(url, page, incognito, parsed) == Destination::External(u),
            None => target_given(url, page, incognito, parsed) == Destination::App(
                "newtab.html"@,
            ),
        },
        url.len() == 0 && page.len() > 0 && page != "newtab.html"@ ==> target_given(
            url,
            page,
            incognito,
            parsed,
        ) == Destination::App(page),
        url.len() == 0 && (page.len() == 0 || page == "newtab.html"@) ==> target_given(
            url,
            page,
            incognito,
            parsed,
        ) == Destination::App(
            if incognito {
                "newtab.html?incognito=1"@
            } else {
                "newtab.html"@
            },
        ),
{
    reveal_strlit("newtab.html");
    reveal_strlit("?incognito=1");
    reveal_strlit("newtab.html?incognito=1");
    assert("newtab.html"@ + "?incognito=1"@ =~= "newtab.html?incognito=1"@);
}

/// The web and the home page have a background of their own. What is behind any
/// other bundled page is the window: its glass, where the platform has it and
/// neither the user nor the system asked for less transparency, and else a solid
/// colour, light with the light theme alone.
pub proof fn law_only_inner_pages_show_the_window(
    t: Tab,
    settings: Settings,
    glass: bool,
    system_reduces: bool,
    b: Backdrop,
)
    requires
        b == backdrop_of(t, settings, is_opaque(settings, glass, system_reduces)),
    ensures
        b is Page <==> t.url@.len() > 0 || t.page@.len() == 0 || t.page@ == "newtab.html"@,
        b !is Page ==> (b is Glass <==> glass && !settings.reduce_transparency && !system_reduces),
        b matches Backdrop::Solid(c) ==> c.a == 255 && (c.r == 236 <==> settings.theme@
            == "light"@) && (c.r == 22 <==> settings.theme@ != "light"@),
        b matches Backdrop::Glass(c) ==> c.a == 110,
{
}

/// Only the addresses of the two web schemes open a window.
pub proof fn law_windows_open_for_the_web(scheme: Seq<char>)
    ensures
        is_http(scheme) <==> scheme == seq!['h', 't', 't', 'p'] || scheme == seq![
            'h',
            't',
            't',
            'p',
            's',
        ],
{
    reveal_strlit("http");
    reveal_strlit("https");
    assert("http"@ =~= seq!['h', 't', 't', 'p']);
    assert("https"@ =~= seq!['h', 't', 't', 'p', 's']);
}

/// Switching to a bundled page never leads to a private tab, nor to one on the
/// web, nor to another page; and it finds every other tab that shows the page.
pub proof fn law_pages_are_found_outside_private_browsing(t: Tab, page: Seq<char>)
    ensures
        shows_page(t, page) ==> !t.incognito,
        shows_page(t, page) ==> t.url@ == Seq::<char>::empty(),
        shows_page(t, page) ==> t.page@ == page,
        !t.incognito && t.url@ == Seq::<char>::empty() ==> shows_page(t, t.page@),
{
    assert(t.url@.len() == 0 ==> t.url@ =~= Seq::<char>::empty());
}

/// A session is restored on the tab that was in front, or on its last one where
/// there is no such tab.
pub proof fn law_restoring_shows_a_tab(active: int, n: int)
    requires
        0 <= active,
        0 < n,
    ensures
        active < n ==> shown_tab(active, n) == active,
        active >= n ==> shown_tab(active, n) + 1 == n,
{
}

/// Selecting a tab wakes it, and makes it load where it slept. It keeps its
/// page, and the tabs that are not in front stay as they were, asleep or awake.
pub proof fn law_selecting_wakes_one_tab(tabs: Seq<Tab>, active: int, i: int, now: u64, j: int)
    requires
        0 <= active < tabs.len(),
        0 <= i < tabs.len(),
        0 <= j < tabs.len(),
    ensures
        tabs_selected(tabs, active, i, now).len() == tabs.len(),
        !tabs_selected(tabs, active, i, now)[i].discarded,
        tabs[i].discarded ==> tabs_selected(tabs, active, i, now)[i].loading,
        !tabs[i].discarded ==> tabs_selected(tabs, active, i, now)[i].loading == tabs[i].loading,
        tabs_selected(tabs, active, i, now)[i].url == tabs[i].url,
        tabs_selected(tabs, active, i, now)[i].page == tabs[i].page,
        tabs_selected(tabs, active, i, now)[i].title == tabs[i].title,
        tabs_selected(tabs, active, i, now)[i].last_active == Some(now),
        tabs_selected(tabs, active, i, now)[active].last_active == Some(now),
        j != i && j != active ==> tabs_selected(tabs, active, i, now)[j] == tabs[j],
        j != i ==> tabs_selected(tabs, active, i, now)[j].discarded == tabs[j].discarded,
        j != i ==> tabs_selected(tabs, active, i, now)[j].loading == tabs[j].loading,
{
}

/// A tab that is put to sleep and selected again shows the page that it showed;
/// in between it is neither loading nor able to go back or forward.
pub proof fn law_sleep_keeps_the_page(tabs: Seq<Tab>, active: int, i: int, now: u64)
    requires
        0 <= i < tabs.len(),
        0 <= active < tabs.len(),
    ensures
        asleep(tabs[i]).discarded,
        !asleep(tabs[i]).loading && !asleep(tabs[i]).can_back && !asleep(tabs[i]).can_forward,
        asleep(tabs[i]).id == tabs[i].id,
        asleep(tabs[i]).title == tabs[i].title,
        asleep(tabs[i]).favicon == tabs[i].favicon,
        asleep(tabs[i]).zoom == tabs[i].zoom,
        asleep(tabs[i]).last_active == tabs[i].last_active,
        kept(tabs_selected(tabs.update(i, asleep(tabs[i])), active, i, now)[i]) == kept(tabs[i]),
        tabs_selected(tabs.update(i, asleep(tabs[i])), active, i, now)[i].incognito
            == tabs[i].incognito,
        tabs_selected(tabs.update(i, asleep(tabs[i])), active, i, now)[i].loading,
{
}

proof fn lemma_cards(list: Seq<usize>, tabs: Seq<Tab>)
    requires
        forall|k: int| 0 <= k < list.len() ==> find(tabs, #[trigger] list[k]) is Some,
    ensures
        cards(list, tabs).len() == list.len(),
        forall|k: int| 0 <= k < list.len() ==> (#[trigger] cards(list, tabs)[k]).id == list[k],
        forall|k: int|
            0 <= k < list.len() ==> tabs.contains(#[trigger] cards(list, tabs)[k]),
    decreases list.len(),
{
    if list.len() > 0 {
        let init = list.drop_last();
        assert forall|k: int| 0 <= k < init.len() implies find(tabs, #[trigger] init[k]) is Some by {
            assert(init[k] == list[k]);
        }
        lemma_cards(init, tabs);
        assert(find(tabs, list[list.len() - 1]) is Some);
        lemma_find(tabs, list.last());
        let at = find(tabs, list.last())->0;
        assert(tabs.contains(tabs[at]));
        assert forall|k: int| 0 <= k < list.len() implies (#[trigger] cards(list, tabs)[k]).id
            == list[k] && tabs.contains(cards(list, tabs)[k]) by {
            if k < init.len() {
                assert(cards(list, tabs)[k] == cards(init, tabs)[k]);
                assert(init[k] == list[k]);
            }
        }
    }
}

/// The switcher opens on all tabs, one card for each: the tab in use comes
/// first, the highlight is one step on, on the tab used before it, and one more
/// step back from there leads to the tab in use again.
pub proof fn law_switcher_opens_on_the_previous_tab(
    state: BrowserState,
    used: Seq<usize>,
    current: usize,
    previous: usize,
)
    requires
        state.switcher is None,
        current != previous,
        find(state.tabs@, current) is Some,
        find(state.tabs@, previous) is Some,
        state.mru@ == promoted(promoted(used, previous), current),
        state.mru@.no_duplicates(),
        ids(state.tabs@).no_duplicates(),
    ensures
        switcher_after(state, 1).0.len() == state.tabs@.len(),
        switcher_after(state, 1).0[0] == current,
        switcher_after(state, 1).1 == 1,
        switcher_after(state, 1).0[1] == previous,
        switcher_after(state, -1).1 == state.tabs@.len() - 1,
        cards(switcher_after(state, 1).0, state.tabs@).len() == state.tabs@.len(),
        cards(switcher_after(state, 1).0, state.tabs@)[0].id == current,
        cards(switcher_after(state, 1).0, state.tabs@)[1].id == previous,
{
    let order = use_order(state.mru@, state.tabs@);
    crate::state::law_order_of_use(state.mru@, state.tabs@);
    crate::state::law_previous_tab_comes_second(used, state.tabs@, current, previous);
    lemma_find(state.tabs@, current);
    lemma_find(state.tabs@, previous);
    assert(state.tabs@.len() >= 2);
    crate::state::law_steps_go_round(0, 1, 0, order.len() as int);
    assert forall|k: int| 0 <= k < order.len() implies find(state.tabs@, #[trigger] order[k]) is Some by {
        assert(order.contains(order[k]));
    }
    lemma_cards(order, state.tabs@);
}

/// While the switcher is open its tabs stay as they were, and the highlight
/// moves among them, round at the ends.
pub proof fn law_open_switcher_keeps_its_tabs(state: BrowserState, s: Switcher, delta: int)
    requires
        state.switcher == Some(s),
        s.selected < s.ids@.len(),
    ensures
        switcher_is(state.switcher, s.ids@, s.selected as int),
        switcher_after(state, delta).0 == s.ids@,
        0 <= switcher_after(state, delta).1 < s.ids@.len(),
        switcher_after(state, 1).1 == (if s.selected + 1 == s.ids@.len() {
            0
        } else {
            s.selected + 1
        }),
        switcher_after(state, -1).1 == (if s.selected == 0 {
            s.ids@.len() - 1
        } else {
            s.selected - 1
        }),
{
    crate::state::law_steps_go_round(s.selected as int, delta, 0, s.ids@.len() as int);
}

proof fn lemma_background_hold(tabs: Seq<Tab>, active: int, n: int, id: usize)
    requires
        0 <= n <= tabs.len(),
    ensures
        background(tabs, active, n).contains(id) <==> exists|i: int|
            0 <= i < n && (#[trigger] tabs[i]).id == id && i != active && !tabs[i].incognito
                && !tabs[i].discarded,
    decreases n,
{
    if n > 0 {
        lemma_background_hold(tabs, active, n - 1, id);
        let rest = background(tabs, active, n - 1);
        lemma_push_contains(rest, tabs[n - 1].id, id);
        if rest.contains(id) {
            let i = choose|i: int|
                0 <= i < n - 1 && (#[trigger] tabs[i]).id == id && i != active
                    && !tabs[i].incognito && !tabs[i].discarded;
            assert(tabs[i].id == id);
        }
    }
}

/// "Free memory now" puts to sleep every tab that is in the background, awake
/// and public, and no other.
pub proof fn law_freeing_memory_spares_no_background_tab(tabs: Seq<Tab>, active: int, id: usize)
    ensures
        background(tabs, active, tabs.len() as int).contains(id) <==> exists|i: int|
            0 <= i < tabs.len() && (#[trigger] tabs[i]).id == id && i != active
                && !tabs[i].incognito && !tabs[i].discarded,
{
    lemma_background_hold(tabs, active, tabs.len() as int, id);
}

proof fn lemma_others_are_awake(tabs: Seq<Tab>, id: usize, n: int, k: int)
    requires
        0 <= n <= tabs.len(),
        0 <= k < others(tabs, id, n).len(),
    ensures
        exists|i: int|
            0 <= i < n && (#[trigger] tabs[i]).id != id && !tabs[i].discarded && label_text(
                tabs[i].id,
            ) == others(tabs, id, n)[k],
    decreases n,
{
    let rest = others(tabs, id, n - 1);
    if k < rest.len() {
        lemma_others_are_awake(tabs, id, n - 1, k);
        let i = choose|i: int|
            0 <= i < n - 1 && (#[trigger] tabs[i]).id != id && !tabs[i].discarded && label_text(
                tabs[i].id,
            ) == rest[k];
        assert(tabs[i].id != id);
    } else {
        assert(tabs[n - 1].id != id);
    }
}

/// Besides the chrome's, only the processes of other tabs that are awake are
/// spared.
pub proof fn law_only_live_pages_are_protected(tabs: Seq<Tab>, id: usize, k: int)
    requires
        0 <= k < protected_views(tabs, id).len(),
    ensures
        protected_views(tabs, id)[k] == "chrome"@ || exists|i: int|
            0 <= i < tabs.len() && (#[trigger] tabs[i]).id != id && !tabs[i].discarded
                && label_text(tabs[i].id) == protected_views(tabs, id)[k],
{
    if k > 0 {
        lemma_others_are_awake(tabs, id, tabs.len() as int, k - 1);
    }
}

proof fn lemma_session_at(tabs: Seq<Tab>, n: int, i: int)
    requires
        0 <= i < n <= tabs.len(),
        !tabs[i].incognito,
    ensures
        session_of(tabs.take(i)).len() < session_of(tabs.take(n)).len(),
        session_of(tabs.take(n))[session_of(tabs.take(i)).len() as int] == kept(tabs[i]),
    decreases n,
{
    assert(tabs.take(n).drop_last() =~= tabs.take(n - 1));
    if i < n - 1 {
        lemma_session_at(tabs, n - 1, i);
    }
}

/// The session holds every public tab with its address, title and page, in the
/// order of the strip, and remembers which of them was in front: the first,
/// where that was a private one.
pub proof fn law_session_remembers_the_tab_in_front(tabs: Seq<Tab>, active: int)
    requires
        0 <= active < tabs.len(),
    ensures
        tabs[active].incognito ==> session_active(tabs, active) == 0,
        !tabs[active].incognito ==> 0 <= session_active(tabs, active) < session_of(tabs).len(),
        !tabs[active].incognito ==> session_of(tabs)[session_active(tabs, active)].url
            == tabs[active].url@,
        !tabs[active].incognito ==> session_of(tabs)[session_active(tabs, active)].title
            == tabs[active].title@,
        !tabs[active].incognito ==> session_of(tabs)[session_active(tabs, active)].page
            == tabs[active].page@,
        forall|later: int|
            active < later < tabs.len() && !tabs[active].incognito && !tabs[later].incognito
                ==> session_active(tabs, active) < #[trigger] session_active(tabs, later),
{
    assert(tabs.take(tabs.len() as int) =~= tabs);
    if !tabs[active].incognito {
        lemma_session_at(tabs, tabs.len() as int, active);
        assert forall|later: int|
            active < later < tabs.len() && !tabs[later].incognito implies session_active(
            tabs,
            active,
        ) < #[trigger] session_active(tabs, later) by {
            lemma_session_at(tabs, later, active);
        }
    }
}

/// A download is announced under the last part of its path, whatever directory
/// it goes to and whether or not a slash ends it; a path that ends in the parent
/// directory names no file.
pub proof fn law_downloads_are_named_by_their_last_part(dir: Seq<char>, name: Seq<char>)
    requires
        !name.contains('/'),
        name.len() > 0,
        name != seq!['.'],
    ensures
        name != seq!['.', '.'] ==> file_of(dir + seq!['/'] + name) == Some(name),
        name != seq!['.', '.'] ==> file_of(dir + seq!['/'] + name + seq!['/']) == Some(name),
        name == seq!['.', '.'] ==> file_of(dir + seq!['/'] + name) is None,
        name != seq!['.', '.'] ==> file_of(name) == Some(name),
{
    reveal(Seq::filter);
    reveal_strlit(".");
    reveal_strlit("..");
    assert("."@ =~= seq!['.']);
    assert(".."@ =~= seq!['.', '.']);
    let none = Seq::<char>::empty();
    let d = dir + seq!['/'];
    assert(d.drop_last() =~= dir);
    let p = |x: Seq<char>| names_something(x);
    crate::text::lemma_split_append(d, name, '/');
    assert(none + name =~= name);
    let parts = split(d + name, '/');
    assert(parts =~= split(dir, '/').push(name));
    assert(parts.drop_last() =~= split(dir, '/'));
    let slashed = d + name + seq!['/'];
    assert(slashed.drop_last() =~= d + name);
    let more = split(slashed, '/');
    assert(more =~= parts.push(none));
    assert(more.drop_last() =~= parts);
    crate::text::lemma_split_append(none, name, '/');
    let alone = split(name, '/');
    assert(none + name =~= name);
    assert(alone =~= seq![name]);
    assert(alone.drop_last() =~= Seq::<Seq<char>>::empty());
}

/// A finished download is named by what follows the last slash of its URL's
/// path, and by the whole URL where nothing does.
pub proof fn law_finished_downloads_are_named(u: UrlParts, dir: Seq<char>, name: Seq<char>)
    requires
        u.path == seq!['/'] + dir + name,
        dir == Seq::<char>::empty() || dir.last() == '/',
        !name.contains('/'),
    ensures
        name.len() > 0 ==> name_in_url(u) == name,
        name.len() == 0 ==> name_in_url(u) == u.href,
{
    let head = seq!['/'] + dir;
    lemma_last_slash(head, name);
    assert(u.path =~= head + name);
    assert(base_name(u.path) =~= name);
}

proof fn lemma_last_slash(head: Seq<char>, name: Seq<char>)
    requires
        head.len() > 0,
        head.last() == '/',
        !name.contains('/'),
    ensures
        crate::text::last_of(head + name, '/') == head.len() - 1,
    decreases name.len(),
{
    let s = head + name;
    if name.len() == 0 {
        assert(s =~= head);
    } else {
        let init = name.drop_last();
        assert(name[name.len() - 1] != '/');
        assert forall|k: int| 0 <= k < init.len() implies init[k] != '/' by {
            assert(name[k] != '/');
        }
        lemma_last_slash(head, init);
        assert(s.drop_last() =~= head + init);
    }
}

/// Site data is never wiped through the webview of a private tab, nor through
/// one that is no tab's, and it is wiped through a tab's wherever one will do.
pub proof fn law_site_data_is_wiped_through_a_public_tab(
    tabs: Seq<Tab>,
    labels: Seq<Seq<char>>,
    i: int,
)
    requires
        0 <= i < tabs.len(),
    ensures
        match first_shared(tabs, labels) {
            Some(l) => labels.contains(l) && l.take(4) == seq!['t', 'a', 'b', '-'] && (
            tabs[i].incognito ==> l != label_text(tabs[i].id)),
            None => forall|k: int|
                0 <= k < labels.len() && (#[trigger] labels[k]).len() >= 4 && labels[k].take(4)
                    == seq!['t', 'a', 'b', '-'] ==> is_private_label(tabs, labels[k]),
        },
    decreases labels.len(),
{
    reveal_strlit("tab-");
    assert("tab-"@ =~= seq!['t', 'a', 'b', '-']);
    if labels.len() > 0 && !shares_data(tabs, labels[0]) {
        let rest = labels.skip(1);
        law_site_data_is_wiped_through_a_public_tab(tabs, rest, i);
        match first_shared(tabs, rest) {
            Some(l) => {
                let k = choose|k: int| 0 <= k < rest.len() && rest[k] == l;
                assert(labels[k + 1] == l);
            },
            None => {
                assert forall|k: int|
                    0 <= k < labels.len() && (#[trigger] labels[k]).len() >= 4 && labels[k].take(4)
                        == seq!['t', 'a', 'b', '-'] implies is_private_label(tabs, labels[k]) by {
                    if k > 0 {
                        assert(rest[k - 1] == labels[k]);
                    }
                }
            },
        }
    }
}

/// Only a private tab's own webview counts as private.
pub proof fn law_private_labels_belong_to_private_tabs(tabs: Seq<Tab>, id: usize)
    ensures
        is_private_label(tabs, label_text(id)) <==> exists|i: int|
            0 <= i < tabs.len() && (#[trigger] tabs[i]).id == id && tabs[i].incognito,
{
    if is_private_label(tabs, label_text(id)) {
        let i = choose|i: int|
            0 <= i < tabs.len() && (#[trigger] tabs[i]).incognito && label_text(tabs[i].id)
                == label_text(id);
        if tabs[i].id != id {
            crate::layout::lemma_labels_differ(tabs[i].id, id);
        }
        assert(tabs[i].id == id && tabs[i].incognito);
    }
    if exists|i: int|
        0 <= i < tabs.len() && (#[trigger] tabs[i]).id == id && tabs[i].incognito {
        let i = choose|i: int|
            0 <= i < tabs.len() && (#[trigger] tabs[i]).id == id && tabs[i].incognito;
        assert(tabs[i].incognito && label_text(tabs[i].id) == label_text(id));
    }
}

/// Closing a tab takes out that tab and no other, keeps the page in front where
/// another one is closed, and restarts the clock of the one that is then in
/// front; the closed tab leaves the order of use.
pub proof fn law_closing_takes_out_one_tab(
    before: BrowserState,
    after: BrowserState,
    id: usize,
    i: int,
    now: u64,
)
    requires
        before.wf(),
        find(before.tabs@, id) == Some(i),
        removed(before, after, id, now),
    ensures
        after.tabs@.len() + 1 == before.tabs@.len(),
        find(after.tabs@, id) is None,
        !after.mru@.contains(id),
        before.tabs@.len() > 1 ==> after.mru@[0] == after.tabs@[after.active as int].id,
        before.tabs@.len() > 1 ==> after.tabs@[after.active as int].last_active == Some(now),
        before.active != i ==> after.tabs@[after.active as int].id
            == before.tabs@[before.active as int].id,
        forall|j: int|
            0 <= j < after.tabs@.len() ==> (#[trigger] after.tabs@[j]).url == before.tabs@[if j
                < i {
                j
            } else {
                j + 1
            }].url,
        after.recently_closed == before.recently_closed,
{
    lemma_find(before.tabs@, id);
    lemma_find(after.tabs@, id);
    let rest = before.tabs@.remove(i);
    crate::state::lemma_promoted(before.mru@, id);
    let left = without(before.mru@, id);
    assert(!left.contains(id));
    if rest.len() > 0 {
        let next = rest[after.active as int].id;
        crate::state::lemma_promoted(left, next);
        assert(next != id);
        assert(!promoted(left, next).contains(id));
    }
    if let Some(k) = find(after.tabs@, id) {
        assert(after.tabs@[k].id == rest[k].id);
    }
}

/// The digit keys lead to the tab at their place of the strip, or to its last
/// one; to none where there is no such place.
pub proof fn law_places_lead_to_their_tabs(tabs: Seq<Tab>, index: int)
    requires
        0 <= index,
    ensures
        index < tabs.len() ==> tab_at(tabs, index, false) == Some(tabs[index].id),
        index >= tabs.len() ==> tab_at(tabs, index, false) is None,
        tabs.len() > 0 ==> tab_at(tabs, index, true) == Some(tabs.last().id),
        tabs.len() == 0 ==> tab_at(tabs, index, true) is None,
{
}

/// In strip order the next tab is the one to the right, or the first behind the
/// last; the previous one is to the left, or the last before the first.
pub proof fn law_neighbours_in_the_strip(state: BrowserState)
    requires
        state.active < state.tabs@.len(),
    ensures
        cycled(state, false, 1) == Some(
            state.tabs@[if state.active + 1 < state.tabs@.len() {
                state.active + 1
            } else {
                0
            }].id,
        ),
        cycled(state, false, -1) == Some(
            state.tabs@[if state.active > 0 {
                state.active - 1
            } else {
                state.tabs@.len() - 1
            }].id,
        ),
{
    crate::state::law_steps_go_round(state.active as int, 0, 0, state.tabs@.len() as int);
}

/// By recent use, one step leads to the tab that was used before this one.
pub proof fn law_one_step_leads_to_the_previous_tab(
    state: BrowserState,
    used: Seq<usize>,
    current: usize,
    previous: usize,
)
    requires
        state.switcher is None,
        current != previous,
        find(state.tabs@, current) is Some,
        find(state.tabs@, previous) is Some,
        state.mru@ == promoted(promoted(used, previous), current),
        state.mru@.no_duplicates(),
        ids(state.tabs@).no_duplicates(),
    ensures
        cycled(state, true, 1) == Some(previous),
{
    law_switcher_opens_on_the_previous_tab(state, used, current, previous);
    lemma_find(state.tabs@, current);
    lemma_find(state.tabs@, previous);
}

/// A tab that is picked is switched to, whatever is highlighted; without one it
/// is the highlighted tab.
pub proof fn law_a_pick_overrules_the_highlight(s: Switcher, id: usize)
    ensures
        picked(s, Some(id)) == Some(id),
        s.selected < s.ids@.len() ==> picked(s, None) == Some(s.ids@[s.selected as int]),
{
}

/// Control-Tab steps the switcher and is consumed exactly where switching goes
/// by use; Escape cancels, and is consumed exactly where the switcher is open;
/// releasing Control commits, and is never consumed.
pub proof fn law_keys_step_cancel_and_commit(open: bool, by_use: bool, delta: isize)
    ensures
        key_step(open, by_use, KeyAction::Cycle(delta)).1 <==> by_use,
        key_step(open, true, KeyAction::Cycle(delta)).0 == KeyStep::Step(delta),
        key_step(open, false, KeyAction::Cycle(delta)).0 == KeyStep::Nothing,
        key_step(open, by_use, KeyAction::Escape).0 == KeyStep::Cancel,
        key_step(open, by_use, KeyAction::Escape).1 <==> open,
        key_step(open, by_use, KeyAction::ControlReleased).0 == KeyStep::Commit,
        !key_step(open, by_use, KeyAction::ControlReleased).1,
{
}

/// A process is ended only where it is known, shows the web and no protected page
/// runs in it; and it is ended there.
pub proof fn law_shared_processes_live_on(external: bool, pid: i32, protected: Seq<i32>, i: int)
    ensures
        0 <= i < protected.len() && protected[i] == pid ==> !expendable(
            external,
            Some(pid),
            protected,
        ),
        !expendable(false, Some(pid), protected),
        !expendable(external, None, protected),
        (forall|j: int| 0 <= j < protected.len() ==> protected[j] != pid) ==> expendable(
            true,
            Some(pid),
            protected,
        ),
{
    if 0 <= i < protected.len() && protected[i] == pid {
        assert(protected.contains(pid));
    }
}

/// Where no public tab has a webview, site data is wiped through the chrome's; and
/// never through a private tab's.
pub proof fn law_site_data_is_never_wiped_through_a_private_tab(
    tabs: Seq<Tab>,
    labels: Seq<Seq<char>>,
    i: int,
)
    requires
        0 <= i < tabs.len(),
        tabs[i].incognito,
    ensures
        wiped_through(tabs, labels) != label_text(tabs[i].id),
        labels.len() == 0 ==> wiped_through(tabs, labels) == "chrome"@,
        wiped_through(tabs, labels) == "chrome"@ || labels.contains(wiped_through(tabs, labels)),
{
    law_site_data_is_wiped_through_a_public_tab(tabs, labels, i);
    reveal_strlit("chrome");
    reveal_strlit("tab-");
    assert("chrome"@[0] == 'c');
    assert(label_text(tabs[i].id)[0] == 't');
}

/// A download is announced when it begins, under the name of its file, and again
/// when it ended, as done exactly where it succeeded.
pub proof fn law_downloads_are_announced(
    url: WebUrl,
    destination: String,
    path: Option<String>,
    success: bool,
    begun: DownloadNotice,
    ended: DownloadNotice,
)
    requires
        announces(Download::Requested { url, destination }, begun),
        announces(Download::Finished { url, path, success }, ended),
    ensures
        begun.status@ == "started"@,
        begun.path@ == destination@,
        file_of(destination@) matches Some(name) ==> begun.name@ == name,
        file_of(destination@) is None ==> begun.name@ == url@.href,
        success ==> ended.status@ == "done"@,
        !success ==> ended.status@ == "failed"@,
        path matches Some(p) ==> ended.path@ == p@,
        path is None ==> ended.path@ == Seq::<char>::empty(),
        ended.name@ == name_in_url(url@),
{
}

/// Selecting a tab brings it to the front, of the strip's tabs and of the order of
/// use, and says whether its webview is to be built again: exactly where it
/// slept.
pub proof fn law_the_selected_tab_is_in_front(
    before: BrowserState,
    after: BrowserState,
    id: usize,
    i: int,
    now: u64,
    r: Selection,
)
    requires
        before.wf(),
        find(before.tabs@, id) == Some(i),
        selected(before, after, id, now, r),
    ensures
        after.active == i,
        after.tabs@[after.active as int].id == id,
        !after.tabs@[after.active as int].discarded,
        after.mru@[0] == id,
        r is Woken <==> before.tabs@[i].discarded,
        r is Shown <==> !before.tabs@[i].discarded,
        after.tabs@.len() == before.tabs@.len(),
        after.switcher == before.switcher,
        after.recently_closed == before.recently_closed,
{
    lemma_find(before.tabs@, id);
}

/// Closing a tab says which one is in front then, and none where it was the last;
/// it is remembered for reopening exactly where it is public.
pub proof fn law_closing_says_what_follows(
    before: BrowserState,
    after: BrowserState,
    id: usize,
    i: int,
    now: u64,
    c: Closing,
)
    requires
        before.wf(),
        find(before.tabs@, id) == Some(i),
        before.recently_closed@.len() <= 20,
        tab_closed(before, after, id, now, Some(c)),
    ensures
        after.tabs@.len() + 1 == before.tabs@.len(),
        find(after.tabs@, id) is None,
        after.tabs@.len() == 0 ==> c.next is None,
        after.tabs@.len() > 0 ==> c.next == Some(after.tabs@[after.active as int].id),
        c.external <==> before.tabs@[i].url@.len() > 0,
        c.incognito == before.tabs@[i].incognito,
        c.was_discarded == before.tabs@[i].discarded,
        before.tabs@[i].incognito ==> after.recently_closed@ == before.recently_closed@,
        !before.tabs@[i].incognito ==> after.recently_closed@.last().url == before.tabs@[i].url,
        !before.tabs@[i].incognito ==> after.recently_closed@.last().page == before.tabs@[i].page,
        after.recently_closed@.len() <= 20,
{
    let start = BrowserState { recently_closed: after.recently_closed, ..before };
    lemma_find(before.tabs@, id);
    law_closing_takes_out_one_tab(start, after, id, i, now);
    crate::state::law_twenty_closed_tabs_are_kept(before.recently_closed@, before.tabs@[i]);
}

/// A restored session stands behind the open tabs, in its order: the tab that was
/// in front is in front again and is the only one of them awake. A session of no
/// tabs opens none.
pub proof fn law_only_one_restored_tab_is_awake(
    before: BrowserState,
    after: BrowserState,
    session: Seq<SessionTab>,
    active: int,
    zoom: u64,
    now: u64,
    r: Option<usize>,
    i: int,
)
    requires
        session_opened(before, after, session, active, zoom, now, r),
        before.next_id + session.len() <= usize::MAX,
        0 <= i < session.len(),
        0 <= active,
    ensures
        after.tabs@.len() == before.tabs@.len() + session.len(),
        after.tabs@[before.tabs@.len() + i].url == session[i].url,
        after.tabs@[before.tabs@.len() + i].title == session[i].title,
        after.tabs@[before.tabs@.len() + i].page == session[i].page,
        after.tabs@[before.tabs@.len() + i].zoom == zoom,
        !after.tabs@[before.tabs@.len() + i].incognito,
        !after.tabs@[before.tabs@.len() + i].loading,
        after.tabs@[before.tabs@.len() + i].favicon@ == Seq::<char>::empty(),
        after.tabs@[before.tabs@.len() + i].last_active == Some(now),
        after.tabs@[before.tabs@.len() + i].discarded <==> after.active != before.tabs@.len() + i,
        active < session.len() ==> after.active == before.tabs@.len() + active,
        active >= session.len() ==> after.active + 1 == after.tabs@.len(),
        r == Some(after.tabs@[after.active as int].id),
        after.mru@[0] == after.tabs@[after.active as int].id,
        forall|j: int| 0 <= j < before.tabs@.len() ==> #[trigger] after.tabs@[j] == before.tabs@[j],
{
    let n = before.tabs@.len() as int;
    let k = shown_tab(active, session.len() as int);
    assert(is_restored(after.tabs@[n + i], session[i], zoom, before.next_id + i, i != k, now));
    assert(is_restored(after.tabs@[n + k], session[k], zoom, before.next_id + k, k != k, now));
    assert forall|j: int| 0 <= j < n implies #[trigger] after.tabs@[j] == before.tabs@[j] by {
        assert(after.tabs@.take(n)[j] == after.tabs@[j]);
    }
}

/// Opening a public tab on the web is a visit; opening a private one is none, nor
/// is opening a bundled page.
pub proof fn law_private_tabs_open_without_a_visit(url: Seq<char>)
    ensures
        !opens_with_visit(url, true),
        opens_with_visit(url, false) <==> url != Seq::<char>::empty(),
{
    assert(url.len() == 0 ==> url =~= Seq::<char>::empty());
}

/// The webview of a tab is private exactly where the tab is, loads what the tab
/// shows, and has the inspector and the User-Agent of the settings.
pub proof fn law_webviews_are_built_for_their_tab(
    t: Tab,
    settings: Settings,
    opaque: bool,
    p: TabPlan,
)
    requires
        is_planned(t, settings, opaque, p),
    ensures
        p.incognito <==> t.incognito,
        p.devtools <==> settings.devtools,
        p.user_agent@ == settings.user_agent@,
        p.label@ == label_text(t.id),
        t.url@.len() > 0 ==> match url_parsed(t.url@) {
            Some(u) => p.target@ == Destination::External(u),
            None => p.target@ == Destination::App("newtab.html"@),
        },
        t.url@.len() == 0 && t.page@.len() > 0 && t.page@ != "newtab.html"@ ==> p.target@
            == Destination::App(t.page@),
        t.url@.len() > 0 ==> p.backdrop is Page,
{
    law_tabs_load_what_they_show(t.url@, t.page@, t.incognito, url_parsed(t.url@));
}

/// Once the session is in step with the tabs nothing is left to write; and only
/// the session changes.
pub proof fn law_sessions_are_written_once(
    before: Store,
    after: Store,
    again: Store,
    state: BrowserState,
    r: bool,
    s: bool,
)
    requires
        session_synced(before, after, state, r),
        session_synced(after, again, state, s),
    ensures
        !s,
        again == after,
        !r ==> after == before,
        r ==> session_view(after.session@) != session_view(before.session@)
            || after.session_active != before.session_active,
        session_view(after.session@) == session_of(state.tabs@),
        after.history == before.history,
        after.settings == before.settings,
{
}

/// Tabs are reopened in the reverse of the order in which they were closed: the
/// last one first, and each once.
pub proof fn law_the_last_closed_is_reopened_first(
    before: BrowserState,
    after: BrowserState,
    r: Option<Reopen>,
)
    requires
        last_reopened(before, after, r),
    ensures
        r is None <==> before.recently_closed@.len() == 0,
        before.recently_closed@.len() > 0 ==> after.recently_closed@.len() + 1
            == before.recently_closed@.len(),
        forall|i: int|
            0 <= i < after.recently_closed@.len() ==> #[trigger] after.recently_closed@[i]
                == before.recently_closed@[i],
        r matches Some(Reopen::Web(u)) ==> url_parsed(before.recently_closed@.last().url@) == Some(
            u@,
        ),
        r matches Some(Reopen::Page(p)) ==> before.recently_closed@.last().url@.len() == 0 && p
            == before.recently_closed@.last().page,
        after.tabs == before.tabs,
{
}

} // verus!
