//! What pages answer to the scripts that they are asked with: each answer is the
//! JSON of a text, or of something else, which counts as no answer.

use crate::native::NavState;
use crate::page::{icon_shown, navigated, on_nav_state, private, set_favicon, untouched};
use crate::source::{is_kept, view_source};
use crate::state::{find, BrowserState};
use crate::store::{keeps_step, Store};
use crate::web::opt_text;
use vstd::prelude::*;

verus! {

/// The text that a JSON string stands for; nothing for any other text.
pub uninterp spec fn json_string(text: Seq<char>) -> Option<Seq<char>>;

/// `serde_json::from_str` of the `serde_json` crate, reading a `String`. The
/// contract says that the result depends on the text alone; the JSON grammar is
/// not spelled out.
#[verifier::external_body]
fn read_json(text: &str) -> (r: Option<String>)
    ensures
        opt_text(r) == json_string(text@),
{
    serde_json::from_str::<String>(text).ok()
}

// ---- the polled address -------------------------------------------------

/// What an answered address does to tab `id`, whose buttons cannot be read and
/// are both on. Without an answer nothing changes.
pub open spec fn address_taken(
    before: (BrowserState, Store),
    after: (BrowserState, Store),
    id: usize,
    url: Option<Seq<char>>,
    now: u64,
    r: (bool, bool),
) -> bool {
    match url {
        Some(u) => navigated(before, after, id, u, true, true, now, r),
        None => untouched(before, after, r),
    }
}

/// The address of a tab's page was polled. Returns whether the tab changed, and
/// whether a visit was recorded.
pub fn take_address(
    state: &mut BrowserState,
    store: &mut Store,
    id: usize,
    url: Option<String>,
    now: u64,
) -> (r: (bool, bool))
    requires
        old(store).wf(),
        old(store).history@.len() < usize::MAX,
    ensures
        final(store).wf(),
        keeps_step(*old(store), *final(store)),
        address_taken(
            (*old(state), *old(store)),
            (*final(state), *final(store)),
            id,
            opt_text(url),
            now,
            r,
        ),
        private(*old(state), id) ==> *final(store) == *old(store),
        old(state).wf() ==> final(state).wf(),
{
    match url {
        Some(url) => {
            let nav = NavState { url, can_back: true, can_forward: true };
            on_nav_state(state, store, id, &nav, now)
        },
        None => (false, false),
    }
}

/// The page of a tab answered with its address (see [`take_address`]).
pub fn address_answered(
    state: &mut BrowserState,
    store: &mut Store,
    id: usize,
    answer: &str,
    now: u64,
) -> (r: (bool, bool))
    requires
        old(store).wf(),
        old(store).history@.len() < usize::MAX,
    ensures
        final(store).wf(),
        keeps_step(*old(store), *final(store)),
        address_taken(
            (*old(state), *old(store)),
            (*final(state), *final(store)),
            id,
            json_string(answer@),
            now,
            r,
        ),
        private(*old(state), id) ==> *final(store) == *old(store),
        old(state).wf() ==> final(state).wf(),
{
    let url = read_json(answer);
    take_address(state, store, id, url, now)
}

// ---- the favicon --------------------------------------------------------

/// What an answered favicon does to tab `id`. Without an answer nothing changes.
pub open spec fn icon_taken(
    before: (BrowserState, Store),
    after: (BrowserState, Store),
    id: usize,
    href: Option<Seq<char>>,
    r: (bool, bool),
) -> bool {
    match href {
        Some(h) => icon_shown(before, after, id, h, r),
        None => untouched(before, after, r),
    }
}

/// A page was asked for its favicon. Returns whether the tab changed, and whether
/// the icon was cached.
pub fn take_icon(state: &mut BrowserState, store: &mut Store, id: usize, href: Option<String>) -> (r:
    (bool, bool))
    requires
        old(store).wf(),
    ensures
        final(store).wf(),
        keeps_step(*old(store), *final(store)),
        icon_taken(
            (*old(state), *old(store)),
            (*final(state), *final(store)),
            id,
            opt_text(href),
            r,
        ),
        private(*old(state), id) ==> *final(store) == *old(store),
        old(state).wf() ==> final(state).wf(),
{
    match href {
        Some(href) => set_favicon(state, store, id, href.as_str()),
        None => (false, false),
    }
}

/// The page of a tab answered with its favicon (see [`take_icon`]).
pub fn icon_answered(state: &mut BrowserState, store: &mut Store, id: usize, answer: &str) -> (r: (
    bool,
    bool,
))
    requires
        old(store).wf(),
    ensures
        final(store).wf(),
        keeps_step(*old(store), *final(store)),
        icon_taken(
            (*old(state), *old(store)),
            (*final(state), *final(store)),
            id,
            json_string(answer@),
            r,
        ),
        private(*old(state), id) ==> *final(store) == *old(store),
        old(state).wf() ==> final(state).wf(),
{
    let href = read_json(answer);
    take_icon(state, store, id, href)
}

// ---- the source ---------------------------------------------------------

/// An answered source; empty without an answer.
pub open spec fn source_text(html: Option<Seq<char>>) -> Seq<char> {
    match html {
        Some(h) => h,
        None => Seq::empty(),
    }
}

/// A page at `url` was asked for its source, which is kept for the next source
/// page.
pub fn take_source(state: &mut BrowserState, url: String, html: Option<String>)
    ensures
        final(state).pending_source matches Some(p) && p.0 == url && is_kept(
            source_text(opt_text(html)),
            p.1@,
        ),
        *final(state) == (BrowserState {
            pending_source: final(state).pending_source,
            ..*old(state)
        }),
{
    let html = match html {
        Some(h) => h,
        None => String::new(),
    };
    view_source(state, url, html);
}

/// The page at `url` answered with its source (see [`take_source`]).
pub fn source_answered(state: &mut BrowserState, url: String, answer: &str)
    ensures
        final(state).pending_source matches Some(p) && p.0 == url && is_kept(
            source_text(json_string(answer@)),
            p.1@,
        ),
        *final(state) == (BrowserState {
            pending_source: final(state).pending_source,
            ..*old(state)
        }),
{
    let html = read_json(answer);
    take_source(state, url, html);
}

/// A page that does not answer changes nothing; one that answers is taken at its
/// word.
pub proof fn law_no_answer_changes_nothing(
    before: (BrowserState, Store),
    after: (BrowserState, Store),
    id: usize,
    now: u64,
    r: (bool, bool),
    html: Seq<char>,
)
    ensures
        address_taken(before, after, id, None, now, r) ==> after == before && r == (false, false),
        icon_taken(before, after, id, None, r) ==> after == before && r == (false, false),
        source_text(None) == Seq::<char>::empty(),
        source_text(Some(html)) == html,
{
}

/// A tab whose address was polled can go back and forward: its buttons cannot be
/// read, so both are on.
pub proof fn law_polled_tabs_keep_their_buttons_on(
    before: (BrowserState, Store),
    after: (BrowserState, Store),
    id: usize,
    i: int,
    url: Seq<char>,
    now: u64,
    r: (bool, bool),
)
    requires
        address_taken(before, after, id, Some(url), now, r),
        find(before.0.tabs@, id) == Some(i),
        !before.0.tabs@[i].discarded,
    ensures
        after.0.tabs@[i].can_back,
        after.0.tabs@[i].can_forward,
{
    crate::state::lemma_find(before.0.tabs@, id);
    crate::page::law_navigation_changes_one_tab(before, after, id, i, url, true, true, now, r, i);
}

} // verus!
