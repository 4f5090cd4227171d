//! What the callbacks of a tab's webview do to the tab and to the history:
//! addresses, titles, loading, favicons. Whatever the page of a private tab
//! reports, nothing of it is stored.

use crate::native::NavState;
use crate::state::{find, label_text, lemma_find, BrowserState, Tab};
use crate::store::{icon_set, keeps_step, recorded, titled, Store, Visit};
use crate::text::{begins, byte_len, has_prefix, text_eq, utf8_len};
use crate::url_util::{is_internal, is_internal_url, page_at, page_of, NEW_TAB_PAGE};
use crate::web::{host_of, host_text, opt_text};
use vstd::prelude::*;

verus! {

/// Largest `data:` favicon kept per tab (bigger ones are ignored: they would be
/// copied into every update of the chrome).
pub const FAVICON_DATA_CAP: usize = 8192;

/// Addresses that a tab takes on: bundled pages, the web and files. Others
/// (about:blank, data:, blob:) never clobber the page's address.
pub open spec fn is_address(url: Seq<char>) -> bool {
    is_internal_url(url) || has_prefix(url, "http"@) || has_prefix(url, "file"@)
}

/// The bundled page at an internal URL.
pub open spec fn bundled_page(url: Seq<char>) -> Seq<char> {
    match page_at(url) {
        Some(p) => p,
        None => NEW_TAB_PAGE@,
    }
}

/// What an address turned out to be.
#[derive(Clone, Copy, PartialEq, Eq, Debug, Structural)]
pub enum Place {
    /// A bundled page of the app.
    Bundled,
    /// The web or a file, on the site where the tab is.
    SameSite,
    /// ... on another site.
    OtherSite,
}

/// What `url` is to a tab that is at `at`.
pub open spec fn place_of(at: Seq<char>, url: Seq<char>) -> Place {
    if is_internal_url(url) {
        Place::Bundled
    } else if host_text(at) == host_text(url) {
        Place::SameSite
    } else {
        Place::OtherSite
    }
}

/// Does taking on `url` change where the tab is? `page` is the bundled page
/// there.
pub open spec fn moves_to(t: Tab, url: Seq<char>, page: Seq<char>, place: Place) -> bool {
    if place is Bundled {
        t.url@.len() > 0 || t.page@ != page
    } else {
        t.url@ != url
    }
}

pub open spec fn moves(t: Tab, url: Seq<char>) -> bool {
    moves_to(t, url, bundled_page(url), place_of(t.url@, url))
}

/// `after` is tab `t` once it took on `url`: internal pages keep the address
/// bar blank and remember which page they are; web pages take the URL, and drop
/// the favicon when the site changes.
pub open spec fn located_at(
    t: Tab,
    after: Tab,
    url: Seq<char>,
    page: Seq<char>,
    place: Place,
) -> bool {
    &&& after == (Tab { url: after.url, page: after.page, favicon: after.favicon, ..t })
    &&& if place is Bundled {
        after.url@.len() == 0 && after.page@ == page && after.favicon@.len() == 0
    } else if t.url@ != url {
        &&& after.url@ == url
        &&& after.page@.len() == 0
        &&& if place is OtherSite {
            after.favicon@.len() == 0
        } else {
            after.favicon == t.favicon
        }
    } else {
        after == t
    }
}

pub open spec fn located(t: Tab, after: Tab, url: Seq<char>) -> bool {
    located_at(t, after, url, bundled_page(url), place_of(t.url@, url))
}

/// Is a tab there and awake?
pub open spec fn awake(state: BrowserState, id: usize) -> bool {
    find(state.tabs@, id) matches Some(i) && !state.tabs@[i].discarded
}

/// Is a tab private?
pub open spec fn private(state: BrowserState, id: usize) -> bool {
    find(state.tabs@, id) matches Some(i) && state.tabs@[i].incognito
}

/// Does taking on `url` count as a visit?
pub open spec fn visits_page(t: Tab, url: Seq<char>) -> bool {
    !is_internal_url(url) && t.url@ != url && !t.incognito
}

/// What a tab's taking on `url` does to the store: a visit is recorded, unless
/// the page stays the same, is bundled, or the tab is private.
pub open spec fn visit_noted(
    before: Store,
    after: Store,
    visit: bool,
    url: Seq<char>,
    now: u64,
) -> bool {
    if visit {
        exists|ts: u64| #[trigger]
            recorded(before, after, Visit { url, title: Seq::empty(), ts }, now)
    } else {
        after == before
    }
}

/// Only the tab at `i` changed.
pub open spec fn only_tab(before: BrowserState, after: BrowserState, i: int) -> bool {
    &&& after.tabs@ == before.tabs@.update(i, after.tabs@[i])
    &&& after == (BrowserState { tabs: after.tabs, ..before })
}

fn same_host(a: &Option<String>, b: &Option<String>) -> (r: bool)
    ensures
        r == (opt_text(*a) == opt_text(*b)),
{
    match (a, b) {
        (Some(x), Some(y)) => text_eq(x.as_str(), y.as_str()),
        (None, None) => true,
        _ => false,
    }
}

/// The tab's record for a new address, given what that address is, and whether
/// the tab is somewhere else then.
pub fn relocate(t: &Tab, url: &str, page: &str, place: Place) -> (r: (Tab, bool))
    ensures
        located_at(*t, r.0, url@, page@, place),
        r.1 == moves_to(*t, url@, page@, place),
{
    let mut tab = t.clone();
    if let Place::Bundled = place {
        let changed = !t.url.as_str().is_empty() || !text_eq(t.page.as_str(), page);
        tab.url = String::new();
        tab.page = page.to_owned();
        tab.favicon = String::new();
        return (tab, changed);
    }
    if text_eq(t.url.as_str(), url) {
        return (tab, false);
    }
    if let Place::OtherSite = place {
        tab.favicon = String::new();
    }
    tab.url = url.to_owned();
    tab.page = String::new();
    (tab, true)
}

/// What `url` is to a tab that is at `at`.
pub fn place_for(at: &str, url: &str) -> (r: Place)
    ensures
        r == place_of(at@, url@),
{
    if is_internal(url) {
        Place::Bundled
    } else if same_host(&host_of(at), &host_of(url)) {
        Place::SameSite
    } else {
        Place::OtherSite
    }
}

/// Apply a main-frame URL to a tab. Returns whether the tab's address changed,
/// and whether a visit was recorded.
pub fn apply_url(state: &mut BrowserState, store: &mut Store, id: usize, url: &str, now: u64) -> (r:
    (bool, bool))
    requires
        old(store).wf(),
        old(store).history@.len() < usize::MAX,
    ensures
        final(store).wf(),
        keeps_step(*old(store), *final(store)),
        is_address(url@) && awake(*old(state), id) ==> {
            let i = find(old(state).tabs@, id)->Some_0;
            let t = old(state).tabs@[i];
            &&& r == (moves(t, url@), visits_page(t, url@))
            &&& only_tab(*old(state), *final(state), i)
            &&& located(t, final(state).tabs@[i], url@)
            &&& visit_noted(*old(store), *final(store), r.1, url@, now)
        },
        !(is_address(url@) && awake(*old(state), id)) ==> r == (false, false) && *final(state)
            == *old(state) && *final(store) == *old(store),
        private(*old(state), id) ==> *final(store) == *old(store),
        old(state).wf() ==> final(state).wf(),
{
    if !(is_internal(url) || begins(url, "http") || begins(url, "file")) {
        return (false, false);
    }
    proof {
        lemma_find(state.tabs@, id);
    }
    let i = match state.index_of(id) {
        Some(i) => i,
        None => {
            return (false, false);
        },
    };
    if state.tabs[i].discarded {
        return (false, false);
    }
    let place = place_for(state.tabs[i].url.as_str(), url);
    let page = match page_of(url) {
        Some(p) => p,
        None => NEW_TAB_PAGE,
    };
    let incognito = state.tabs[i].incognito;
    let (tab, changed) = relocate(&state.tabs[i], url, page, place);
    let visit = changed && !incognito && match place {
        Place::Bundled => false,
        _ => true,
    };
    state.tabs.set(i, tab);
    if visit {
        proof {
            reveal_strlit("");
            assert(""@ =~= Seq::<char>::empty());
        }
        store.record_visit(url, "", now);
    }
    (changed, visit)
}

/// What the title that the page of tab `id` reports does: the tab takes it, and
/// so does the newest visit to the page, unless the page is bundled or the tab
/// private. `r` says whether the tab changed, and whether the history did.
pub open spec fn title_taken(
    before: (BrowserState, Store),
    after: (BrowserState, Store),
    id: usize,
    title: Seq<char>,
    now: u64,
    r: (bool, bool),
) -> bool {
    match find(before.0.tabs@, id) {
        Some(i) if !before.0.tabs@[i].discarded && before.0.tabs@[i].title@ != title => {
            let t = before.0.tabs@[i];
            let f = after.0.tabs@[i];
            &&& r.0
            &&& only_tab(before.0, after.0, i)
            &&& f == (Tab { title: f.title, ..t })
            &&& f.title@ == title
            &&& if t.url@.len() > 0 && !t.incognito {
                titled(before.1, after.1, t.url@, title, now, r.1)
            } else {
                !r.1 && after.1 == before.1
            }
        },
        _ => untouched(before, after, r),
    }
}

/// A page's title arrived. Returns whether the tab changed, and whether the
/// history did.
pub fn on_title(state: &mut BrowserState, store: &mut Store, id: usize, title: &str, now: u64) -> (r:
    (bool, bool))
    requires
        old(store).wf(),
    ensures
        final(store).wf(),
        keeps_step(*old(store), *final(store)),
        title_taken(
            (*old(state), *old(store)),
            (*final(state), *final(store)),
            id,
            title@,
            now,
            r,
        ),
        private(*old(state), id) ==> *final(store) == *old(store),
        old(state).wf() ==> final(state).wf(),
{
    proof {
        lemma_find(state.tabs@, id);
    }
    let i = match state.index_of(id) {
        Some(i) => i,
        None => {
            return (false, false);
        },
    };
    if state.tabs[i].discarded || text_eq(state.tabs[i].title.as_str(), title) {
        return (false, false);
    }
    let tab = Tab { title: title.to_owned(), ..state.tabs[i].clone() };
    let visit = !tab.url.as_str().is_empty() && !tab.incognito;
    let url = tab.url.clone();
    state.tabs.set(i, tab);
    if visit {
        let noted = store.set_title_for(url.as_str(), title, now);
        (true, noted)
    } else {
        (true, false)
    }
}

/// A tab with its back and forward buttons set.
pub open spec fn with_buttons(t: Tab, back: bool, forward: bool) -> Tab {
    Tab { can_back: back, can_forward: forward, ..t }
}

/// Nothing changed, and nothing is reported.
pub open spec fn untouched(
    before: (BrowserState, Store),
    after: (BrowserState, Store),
    r: (bool, bool),
) -> bool {
    r == (false, false) && after == before
}

/// What an update of the navigation state of tab `id` does: the buttons are set,
/// and an address that a tab takes on is taken on. `r` says whether the tab
/// changed, and whether a visit was recorded.
pub open spec fn navigated(
    before: (BrowserState, Store),
    after: (BrowserState, Store),
    id: usize,
    url: Seq<char>,
    back: bool,
    forward: bool,
    now: u64,
    r: (bool, bool),
) -> bool {
    if awake(before.0, id) {
        let i = find(before.0.tabs@, id)->Some_0;
        let t = before.0.tabs@[i];
        let f = after.0.tabs@[i];
        let buttons = t.can_back != back || t.can_forward != forward;
        let here = with_buttons(t, back, forward);
        &&& only_tab(before.0, after.0, i)
        &&& if url.len() > 0 && is_address(url) {
            &&& located(here, f, url)
            &&& r == (buttons || moves(t, url), visits_page(t, url))
            &&& visit_noted(before.1, after.1, r.1, url, now)
        } else {
            f == here && r == (buttons, false) && after.1 == before.1
        }
    } else {
        untouched(before, after, r)
    }
}

/// Native update of the navigation state: it catches single-page-app URL
/// changes that never trigger a page load, and what back and forward can do.
/// Returns whether the tab changed, and whether a visit was recorded.
pub fn on_nav_state(
    state: &mut BrowserState,
    store: &mut Store,
    id: usize,
    nav: &NavState,
    now: u64,
) -> (r: (bool, bool))
    requires
        old(store).wf(),
        old(store).history@.len() < usize::MAX,
    ensures
        final(store).wf(),
        keeps_step(*old(store), *final(store)),
        navigated(
            (*old(state), *old(store)),
            (*final(state), *final(store)),
            id,
            nav.url@,
            nav.can_back,
            nav.can_forward,
            now,
            r,
        ),
        private(*old(state), id) ==> *final(store) == *old(store),
        old(state).wf() ==> final(state).wf(),
{
    proof {
        lemma_find(state.tabs@, id);
    }
    let i = match state.index_of(id) {
        Some(i) => i,
        None => {
            return (false, false);
        },
    };
    if state.tabs[i].discarded {
        return (false, false);
    }
    let buttons = state.tabs[i].can_back != nav.can_back || state.tabs[i].can_forward
        != nav.can_forward;
    let ghost before = state.tabs@;
    let tab = Tab {
        can_back: nav.can_back,
        can_forward: nav.can_forward,
        ..state.tabs[i].clone()
    };
    state.tabs.set(i, tab);
    if nav.url.as_str().is_empty() {
        return (buttons, false);
    }
    proof {
        lemma_found_again(before, state.tabs@, id);
    }
    let (moved, visit) = apply_url(state, store, id, nav.url.as_str(), now);
    assert(state.tabs@ == before.update(i as int, state.tabs@[i as int]));
    (buttons || moved, visit)
}

/// A tab is found where it was, as long as no id changed.
proof fn lemma_found_again(a: Seq<Tab>, b: Seq<Tab>, id: usize)
    requires
        a.len() == b.len(),
        forall|i: int| 0 <= i < a.len() ==> (#[trigger] a[i]).id == b[i].id,
    ensures
        find(a, id) == find(b, id),
    decreases a.len(),
{
    if a.len() > 0 {
        assert(a[0].id == b[0].id);
        assert forall|i: int| 0 <= i < a.len() - 1 implies (#[trigger] a.skip(1)[i]).id == b.skip(
            1,
        )[i].id by {
            assert(a[i + 1].id == b[i + 1].id);
        }
        lemma_found_again(a.skip(1), b.skip(1), id);
    }
}

/// What follows a page load.
pub struct Loaded {
    /// A visit was recorded.
    pub visited: bool,
    pub label: String,
    /// The page is to be asked for its favicon.
    pub wants_favicon: bool,
    /// The zoom to set again, so that it survives the navigation.
    pub zoom: Option<u64>,
}

/// What the loading of a page does to tab `id`: it loads or has loaded, and takes
/// on the page's address; `r` says what follows.
pub open spec fn page_loaded(
    before: (BrowserState, Store),
    after: (BrowserState, Store),
    id: usize,
    finished: bool,
    url: Seq<char>,
    now: u64,
    r: Option<Loaded>,
) -> bool {
    if awake(before.0, id) {
        let i = find(before.0.tabs@, id)->Some_0;
        let t = before.0.tabs@[i];
        let f = after.0.tabs@[i];
        &&& only_tab(before.0, after.0, i)
        &&& f.loading == !finished
        &&& if is_address(url) {
            located(t, Tab { loading: t.loading, ..f }, url)
        } else {
            t == (Tab { loading: t.loading, ..f })
        }
        &&& r matches Some(l) && l.visited == (is_address(url) && visits_page(t, url))
            && visit_noted(before.1, after.1, l.visited, url, now) && l.label@ == label_text(id)
            && l.wants_favicon == (finished && f.url@.len() > 0) && l.zoom == (if finished {
            Some(t.zoom)
        } else {
            None
        })
    } else {
        r is None && after == before
    }
}

/// A page began or finished loading at `url`. `None` where the tab is gone or
/// asleep.
pub fn on_page_loaded(
    state: &mut BrowserState,
    store: &mut Store,
    id: usize,
    finished: bool,
    url: &str,
    now: u64,
) -> (r: Option<Loaded>)
    requires
        old(store).wf(),
        old(store).history@.len() < usize::MAX,
    ensures
        final(store).wf(),
        keeps_step(*old(store), *final(store)),
        page_loaded(
            (*old(state), *old(store)),
            (*final(state), *final(store)),
            id,
            finished,
            url@,
            now,
            r,
        ),
        private(*old(state), id) ==> *final(store) == *old(store),
        old(state).wf() ==> final(state).wf(),
{
    proof {
        lemma_find(state.tabs@, id);
    }
    let ghost before = state.tabs@;
    let (_, visited) = apply_url(state, store, id, url, now);
    proof {
        lemma_find(before, id);
        if awake(*old(state), id) {
            lemma_found_again(before, state.tabs@, id);
            lemma_find(state.tabs@, id);
        }
    }
    let i = match state.index_of(id) {
        Some(i) => i,
        None => {
            return None;
        },
    };
    if state.tabs[i].discarded {
        return None;
    }
    let tab = Tab { loading: !finished, ..state.tabs[i].clone() };
    let wants_favicon = finished && !tab.url.as_str().is_empty();
    let zoom: Option<u64> = if finished {
        Some(tab.zoom)
    } else {
        None
    };
    let label = tab.label();
    state.tabs.set(i, tab);
    assert(state.tabs@ == before.update(i as int, state.tabs@[i as int]));
    Some(Loaded { visited, label, wants_favicon, zoom })
}

/// Icons that a tab shows: http(s) URLs, and images in a data URL of a sensible
/// size.
pub open spec fn is_icon(href: Seq<char>) -> bool {
    ||| has_prefix(href, "http://"@) || has_prefix(href, "https://"@)
    ||| has_prefix(href, "data:image"@) && utf8_len(href) <= FAVICON_DATA_CAP
}

/// What a favicon that the page of tab `id` reports does: the tab shows it, and
/// it is cached for the page's host unless the tab is private. `r` says whether
/// the tab changed, and whether the icon was cached.
pub open spec fn icon_shown(
    before: (BrowserState, Store),
    after: (BrowserState, Store),
    id: usize,
    href: Seq<char>,
    r: (bool, bool),
) -> bool {
    match find(before.0.tabs@, id) {
        Some(i) if is_icon(href) && !before.0.tabs@[i].discarded && before.0.tabs@[i].favicon@
            != href => {
            let t = before.0.tabs@[i];
            let f = after.0.tabs@[i];
            &&& r.0
            &&& only_tab(before.0, after.0, i)
            &&& f == (Tab { favicon: f.favicon, ..t })
            &&& f.favicon@ == href
            &&& if t.incognito {
                !r.1 && after.1 == before.1
            } else {
                icon_set(before.1, after.1, t.url@, href, r.1)
            }
        },
        _ => untouched(before, after, r),
    }
}

/// A page reported its favicon. Returns whether the tab changed, and whether
/// the icon was cached for the page's host (which a private tab never does).
pub fn set_favicon(state: &mut BrowserState, store: &mut Store, id: usize, href: &str) -> (r: (
    bool,
    bool,
))
    requires
        old(store).wf(),
    ensures
        final(store).wf(),
        keeps_step(*old(store), *final(store)),
        icon_shown(
            (*old(state), *old(store)),
            (*final(state), *final(store)),
            id,
            href@,
            r,
        ),
        private(*old(state), id) ==> *final(store) == *old(store),
        old(state).wf() ==> final(state).wf(),
{
    let is_http = begins(href, "http://") || begins(href, "https://");
    let is_data = begins(href, "data:image") && byte_len(href) <= FAVICON_DATA_CAP;
    if !(is_http || is_data) {
        return (false, false);
    }
    proof {
        lemma_find(state.tabs@, id);
    }
    let i = match state.index_of(id) {
        Some(i) => i,
        None => {
            return (false, false);
        },
    };
    if state.tabs[i].discarded || text_eq(state.tabs[i].favicon.as_str(), href) {
        return (false, false);
    }
    let tab = Tab { favicon: href.to_owned(), ..state.tabs[i].clone() };
    let incognito = tab.incognito;
    let url = tab.url.clone();
    state.tabs.set(i, tab);
    if incognito {
        (true, false)
    } else {
        let cached = store.set_favicon(url.as_str(), href);
        (true, cached)
    }
}

// ---- laws ---------------------------------------------------------------

/// A tab takes on the addresses of bundled pages, and those that begin as a web
/// address or a file's does; no other.
pub proof fn law_tabs_take_on_pages_and_files(url: Seq<char>)
    ensures
        is_address(url) <==> is_internal_url(url) || url.len() >= 4 && (url.take(4) == seq![
            'h',
            't',
            't',
            'p',
        ] || url.take(4) == seq!['f', 'i', 'l', 'e']),
{
    reveal_strlit("http");
    reveal_strlit("file");
    assert("http"@ =~= seq!['h', 't', 't', 'p']);
    assert("file"@ =~= seq!['f', 'i', 'l', 'e']);
}

/// On the web a tab has the address of its page, and keeps its icon as long as
/// the host stays the same, and no longer.
pub proof fn law_icons_stay_on_their_site(t: Tab, after: Tab, url: Seq<char>)
    requires
        located(t, after, url),
        !is_internal_url(url),
    ensures
        after.url@ == url,
        host_text(t.url@) == host_text(url) ==> after.favicon == t.favicon,
        host_text(t.url@) != host_text(url) ==> after.favicon@ == Seq::<char>::empty(),
        t.url@ != url ==> after.page@ == Seq::<char>::empty(),
        t.url@ == url ==> after == t,
        after.id == t.id,
        after.title == t.title,
        after.zoom == t.zoom,
        after.incognito == t.incognito,
        after.loading == t.loading,
{
    assert(after.favicon@.len() == 0 ==> after.favicon@ =~= Seq::<char>::empty());
    assert(after.page@.len() == 0 ==> after.page@ =~= Seq::<char>::empty());
}

/// On a bundled page the address bar is blank, the tab has no icon, and it
/// remembers which page it is on: the home page where the address names none.
pub proof fn law_bundled_pages_leave_the_address_blank(t: Tab, after: Tab, url: Seq<char>)
    requires
        located(t, after, url),
        is_internal_url(url),
    ensures
        after.url@ == Seq::<char>::empty(),
        after.favicon@ == Seq::<char>::empty(),
        page_at(url) matches Some(p) ==> after.page@ == p,
        page_at(url) is None ==> after.page@ == "newtab.html"@,
        after.title == t.title,
        after.incognito == t.incognito,
{
    assert(after.favicon@ =~= Seq::<char>::empty());
    assert(after.url@ =~= Seq::<char>::empty());
}

/// A tab is said to have moved exactly where its address or its page changed,
/// and a visit is counted exactly where a public tab moved to the web.
pub proof fn law_moves_and_visits_are_told(t: Tab, after: Tab, url: Seq<char>)
    requires
        located(t, after, url),
    ensures
        moves(t, url) <==> after.url@ != t.url@ || after.page@ != t.page@,
        visits_page(t, url) <==> after.url@ != t.url@ && after.url@.len() > 0 && !t.incognito,
        visits_page(t, url) ==> moves(t, url),
{
    if is_internal_url(url) {
        assert(t.url@.len() == 0 ==> t.url@ =~= after.url@);
    }
}

/// Icons are http and https URLs, and images in a data URL of at most 8192
/// bytes.
pub proof fn law_icons_are_web_urls_or_small_images(href: Seq<char>)
    ensures
        is_icon(href) <==> has_prefix(href, "http://"@) || has_prefix(href, "https://"@) || (
        has_prefix(href, "data:image"@) && utf8_len(href) <= 8192),
        is_icon(href) && utf8_len(href) > 8192 ==> href.len() >= 4 && href.take(4) == seq![
            'h',
            't',
            't',
            'p',
        ],
{
    reveal_strlit("http://");
    reveal_strlit("https://");
    if has_prefix(href, "http://"@) {
        assert(href.take(4) =~= href.take(7).take(4));
        assert("http://"@.take(4) =~= seq!['h', 't', 't', 'p']);
    }
    if has_prefix(href, "https://"@) {
        assert(href.take(4) =~= href.take(8).take(4));
        assert("https://"@.take(4) =~= seq!['h', 't', 't', 'p']);
    }
}

/// A report of the navigation state sets the buttons of a tab that is awake, and
/// its address where it brings one; the tab is said to have changed exactly where
/// one of these did. No other tab changes, nor anything of one that is asleep or
/// gone, and a private tab leaves the store as it is.
pub proof fn law_navigation_changes_one_tab(
    before: (BrowserState, Store),
    after: (BrowserState, Store),
    id: usize,
    i: int,
    url: Seq<char>,
    back: bool,
    forward: bool,
    now: u64,
    r: (bool, bool),
    j: int,
)
    requires
        navigated(before, after, id, url, back, forward, now, r),
        find(before.0.tabs@, id) == Some(i),
        0 <= j < before.0.tabs@.len(),
    ensures
        before.0.tabs@[i].discarded ==> after == before && r == (false, false),
        !before.0.tabs@[i].discarded ==> {
            let t = before.0.tabs@[i];
            let f = after.0.tabs@[i];
            &&& f.can_back == back
            &&& f.can_forward == forward
            &&& r.0 <==> f.url@ != t.url@ || f.page@ != t.page@ || t.can_back != back
                || t.can_forward != forward
            &&& is_address(url) && !is_internal_url(url) ==> f.url@ == url
            &&& !is_address(url) || url.len() == 0 ==> f.url == t.url && f.page == t.page
            &&& r.1 <==> f.url@ != t.url@ && f.url@.len() > 0 && !t.incognito
            &&& f.title == t.title && f.loading == t.loading && f.discarded == t.discarded
        },
        before.0.tabs@[i].incognito ==> after.1 == before.1,
        !r.1 ==> after.1 == before.1,
        j != i ==> after.0.tabs@[j] == before.0.tabs@[j],
        after.0.active == before.0.active,
{
    lemma_find(before.0.tabs@, id);
    if !before.0.tabs@[i].discarded {
        let t = before.0.tabs@[i];
        let f = after.0.tabs@[i];
        let here = with_buttons(t, back, forward);
        assert(after.0.tabs@.len() == before.0.tabs@.len());
        if url.len() > 0 && is_address(url) {
            law_moves_and_visits_are_told(here, f, url);
            assert(moves(here, url) == moves(t, url));
            assert(visits_page(here, url) == visits_page(t, url));
        }
    }
}

/// A title goes to the tab that reports it, awake or not at all, and to the
/// newest visit to its page: never from a private tab, nor for a bundled page.
pub proof fn law_titles_go_to_one_tab(
    before: (BrowserState, Store),
    after: (BrowserState, Store),
    id: usize,
    i: int,
    title: Seq<char>,
    now: u64,
    r: (bool, bool),
    j: int,
)
    requires
        title_taken(before, after, id, title, now, r),
        find(before.0.tabs@, id) == Some(i),
        0 <= j < before.0.tabs@.len(),
    ensures
        before.0.tabs@[i].discarded ==> after == before,
        !before.0.tabs@[i].discarded ==> after.0.tabs@[i].title@ == title,
        r.0 <==> !before.0.tabs@[i].discarded && before.0.tabs@[i].title@ != title,
        after.0.tabs@[i].url == before.0.tabs@[i].url,
        after.0.tabs@[i].loading == before.0.tabs@[i].loading,
        before.0.tabs@[i].incognito ==> after.1 == before.1,
        before.0.tabs@[i].url@.len() == 0 ==> after.1 == before.1,
        r.0 && !before.0.tabs@[i].incognito && before.0.tabs@[i].url@.len() > 0 ==> titled(
            before.1,
            after.1,
            before.0.tabs@[i].url@,
            title,
            now,
            r.1,
        ),
        j != i ==> after.0.tabs@[j] == before.0.tabs@[j],
{
    lemma_find(before.0.tabs@, id);
}

/// A page that began to load is loading until it has finished. Only then is it
/// asked for its icon, unless it is bundled, and its zoom set again. A tab that
/// is asleep stays as it is, and no private tab leaves a visit.
pub proof fn law_loading_ends_when_finished(
    before: (BrowserState, Store),
    after: (BrowserState, Store),
    id: usize,
    i: int,
    finished: bool,
    url: Seq<char>,
    now: u64,
    r: Option<Loaded>,
    j: int,
)
    requires
        page_loaded(before, after, id, finished, url, now, r),
        find(before.0.tabs@, id) == Some(i),
        0 <= j < before.0.tabs@.len(),
    ensures
        before.0.tabs@[i].discarded ==> after == before && r is None,
        !before.0.tabs@[i].discarded ==> {
            let t = before.0.tabs@[i];
            let f = after.0.tabs@[i];
            &&& f.loading <==> !finished
            &&& f.title == t.title && f.zoom == t.zoom && f.id == t.id
            &&& is_address(url) && !is_internal_url(url) ==> f.url@ == url
            &&& !is_address(url) ==> f.url == t.url && f.favicon == t.favicon
            &&& r matches Some(l) && l.label@ == label_text(id) && (l.wants_favicon <==> finished
                && f.url@.len() > 0) && (l.zoom matches Some(z) ==> finished && z == t.zoom) && (finished ==> l.zoom is Some)
                && (l.visited <==> f.url@ != t.url@ && f.url@.len() > 0 && !t.incognito)
        },
        before.0.tabs@[i].incognito ==> after.1 == before.1,
        j != i ==> after.0.tabs@[j] == before.0.tabs@[j],
{
    lemma_find(before.0.tabs@, id);
    if !before.0.tabs@[i].discarded && is_address(url) {
        let t = before.0.tabs@[i];
        let f = after.0.tabs@[i];
        law_moves_and_visits_are_told(t, Tab { loading: t.loading, ..f }, url);
    }
}

/// A tab that is awake shows the icon that its page reports, where that is one;
/// a private tab's is never cached.
pub proof fn law_private_icons_are_not_cached(
    before: (BrowserState, Store),
    after: (BrowserState, Store),
    id: usize,
    i: int,
    href: Seq<char>,
    r: (bool, bool),
    j: int,
)
    requires
        icon_shown(before, after, id, href, r),
        find(before.0.tabs@, id) == Some(i),
        0 <= j < before.0.tabs@.len(),
    ensures
        before.0.tabs@[i].discarded || !is_icon(href) ==> after == before,
        !before.0.tabs@[i].discarded && is_icon(href) ==> after.0.tabs@[i].favicon@ == href,
        r.0 <==> !before.0.tabs@[i].discarded && is_icon(href) && before.0.tabs@[i].favicon@
            != href,
        before.0.tabs@[i].incognito ==> after.1 == before.1 && !r.1,
        r.0 && !before.0.tabs@[i].incognito ==> icon_set(
            before.1,
            after.1,
            before.0.tabs@[i].url@,
            href,
            r.1,
        ),
        after.0.tabs@[i].url == before.0.tabs@[i].url,
        j != i ==> after.0.tabs@[j] == before.0.tabs@[j],
{
    lemma_find(before.0.tabs@, id);
}

} // verus!
