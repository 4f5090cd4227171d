//! Pure browser state: the tabs, which one is active, the order in which they
//! were last used, and the tab switcher.

use crate::number::{decimal, digits};
use vstd::prelude::*;

verus! {

/// One open tab. The page itself lives in a webview labelled `tab-{id}`; this
/// is just the metadata that the chrome UI needs to render. An empty `url`
/// means that the tab is showing an internal page (home, settings, history),
/// in which case the address bar stays blank.
pub struct Tab {
    pub id: usize,
    pub url: String,
    pub title: String,
    pub loading: bool,
    pub incognito: bool,
    /// Page zoom: the bits of an IEEE 754 double.
    pub zoom: u64,
    /// Memory saver: the tab's webview has been closed to free its process;
    /// it is recreated (and reloads its URL) when selected again.
    pub discarded: bool,
    /// Which bundled internal page this tab shows when `url` is empty.
    pub page: String,
    /// Absolute URL of the page's favicon (empty until the page reports one).
    pub favicon: String,
    pub can_back: bool,
    pub can_forward: bool,
    /// When this tab last stopped being the active tab, or was created, on the
    /// monotonic clock in nanoseconds.
    pub last_active: Option<u64>,
}

impl Clone for Tab {
    fn clone(&self) -> (r: Self)
        ensures
            r == *self,
    {
        Tab {
            id: self.id,
            url: self.url.clone(),
            title: self.title.clone(),
            loading: self.loading,
            incognito: self.incognito,
            zoom: self.zoom,
            discarded: self.discarded,
            page: self.page.clone(),
            favicon: self.favicon.clone(),
            can_back: self.can_back,
            can_forward: self.can_forward,
            last_active: self.last_active,
        }
    }
}

/// The webview label of a tab id.
pub open spec fn label_text(id: usize) -> Seq<char> {
    "tab-"@ + digits(id as nat)
}

/// Webview label for a tab id.
pub fn label_for(id: usize) -> (r: String)
    ensures
        r@ == label_text(id),
{
    let mut s = "tab-".to_owned();
    s.append(decimal(id as u64).as_str());
    s
}

impl Tab {
    /// Label of the webview hosting this tab's page.
    pub fn label(&self) -> (r: String)
        ensures
            r@ == label_text(self.id),
    {
        label_for(self.id)
    }

    /// True when the tab shows one of our bundled pages rather than the web.
    pub fn is_internal(&self) -> (r: bool)
        ensures
            r == (self.url@.len() == 0),
    {
        self.url.as_str().is_empty()
    }

    /// The tab with its idle clock set.
    pub open spec fn seen(self, now: u64) -> Tab {
        Tab { last_active: Some(now), ..self }
    }
}

/// A closed tab remembered for "Reopen Closed Tab".
pub struct ClosedTab {
    pub url: String,
    pub page: String,
}

/// Default on-screen chrome height: 88 logical pixels, as the bits of an
/// IEEE 754 double. Lengths and zoom factors are stored and handed back in this
/// form; nothing here computes with them.
pub const DEFAULT_CHROME_HEIGHT: u64 = 0x4056_0000_0000_0000;

/// The zoom factor 1, as the bits of an IEEE 754 double.
pub const NATURAL_ZOOM: u64 = 0x3ff0_0000_0000_0000;

/// Largest "View Source" capture kept in memory (bytes).
pub const SOURCE_CAP: usize = 8388608;

/// How many closed tabs to remember for reopening.
pub const CLOSED_CAP: usize = 20;

/// The open tab switcher: the tabs in order of use, and the highlighted one.
pub struct Switcher {
    pub ids: Vec<usize>,
    pub selected: usize,
}

impl Switcher {
    /// The tab under the highlight.
    pub open spec fn selected_tab(&self) -> Option<usize> {
        if self.selected < self.ids@.len() {
            Some(self.ids@[self.selected as int])
        } else {
            None
        }
    }

    pub fn selected_id(&self) -> (r: Option<usize>)
        ensures
            r == self.selected_tab(),
    {
        if self.selected < self.ids.len() {
            Some(self.ids[self.selected])
        } else {
            None
        }
    }
}

pub struct BrowserState {
    pub tabs: Vec<Tab>,
    pub active: usize,
    /// Live chrome height (bits of a double), reported by the chrome UI.
    pub chrome_height: u64,
    /// Most recently closed last.
    pub recently_closed: Vec<ClosedTab>,
    /// URL and HTML captured for the next "View Source" page to display.
    pub pending_source: Option<(String, String)>,
    /// Tabs in a sidebar instead of a strip.
    pub vertical_tabs: bool,
    /// Width and height (bits of doubles) that the address-bar dropdown needs
    /// over the page.
    pub dropdown_overlay: Option<(u64, u64)>,
    pub switcher: Option<Switcher>,
    /// Ids of the tabs that were active, most recent first.
    pub mru: Vec<usize>,
    /// The id that the next tab gets.
    pub next_id: usize,
}

// ---- the model ----------------------------------------------------------

/// Index of the first tab with this id.
pub open spec fn find(tabs: Seq<Tab>, id: usize) -> Option<int>
    decreases tabs.len(),
{
    if tabs.len() == 0 {
        None
    } else if tabs[0].id == id {
        Some(0int)
    } else {
        match find(tabs.skip(1), id) {
            Some(i) => Some(i + 1),
            None => None,
        }
    }
}

/// The ids of the tabs, in strip order.
pub open spec fn ids(tabs: Seq<Tab>) -> Seq<usize> {
    tabs.map_values(|t: Tab| t.id)
}

/// The tabs, with the idle clock of the one at `i` set.
pub open spec fn touched(tabs: Seq<Tab>, i: int, now: u64) -> Seq<Tab> {
    if 0 <= i < tabs.len() {
        tabs.update(i, tabs[i].seen(now))
    } else {
        tabs
    }
}

pub open spec fn other_than(id: usize) -> spec_fn(usize) -> bool {
    |x: usize| x != id
}

pub open spec fn without(s: Seq<usize>, id: usize) -> Seq<usize> {
    s.filter(other_than(id))
}

pub open spec fn listed(s: Seq<usize>) -> spec_fn(usize) -> bool {
    |x: usize| s.contains(x)
}

pub open spec fn unlisted(s: Seq<usize>) -> spec_fn(usize) -> bool {
    |x: usize| !s.contains(x)
}

/// `s` with `id` moved to the front.
pub open spec fn promoted(s: Seq<usize>, id: usize) -> Seq<usize> {
    seq![id] + without(s, id)
}

/// The use order once the tab at `active` is in use.
pub open spec fn noted(mru: Seq<usize>, tabs: Seq<Tab>, active: int) -> Seq<usize> {
    if 0 <= active < tabs.len() {
        promoted(mru, tabs[active].id)
    } else {
        mru
    }
}

/// Open tabs by last use, then the tabs never used, in strip order.
pub open spec fn use_order(mru: Seq<usize>, tabs: Seq<Tab>) -> Seq<usize> {
    mru.filter(listed(ids(tabs))) + ids(tabs).filter(unlisted(mru))
}

/// Where `active` points once the tab at `i` is gone and `n` tabs are left.
pub open spec fn active_after_removal(active: int, i: int, n: int) -> int {
    let a = if i < active {
        active - 1
    } else {
        active
    };
    if a < n {
        a
    } else if n > 0 {
        n - 1
    } else {
        0
    }
}

/// `tabs` with the one at `from` moved to `to`.
pub open spec fn relocated(tabs: Seq<Tab>, from: int, to: int) -> Seq<Tab> {
    tabs.remove(from).insert(to, tabs[from])
}

pub open spec fn clamped(to: int, n: int) -> int {
    if to < n {
        to
    } else if n > 0 {
        n - 1
    } else {
        0
    }
}

/// `after` is `before` with the tab `id` at place `to`, or at the end of the strip;
/// `r` says whether it moved. The active tab stays active.
pub open spec fn tab_moved(
    before: BrowserState,
    after: BrowserState,
    id: usize,
    to: int,
    r: bool,
) -> bool {
    let place = clamped(to, before.tabs@.len() as int);
    match find(before.tabs@, id) {
        Some(from) if from != place => {
            &&& r
            &&& after.tabs@ == relocated(before.tabs@, from, place)
            &&& after == (BrowserState { tabs: after.tabs, active: after.active, ..before })
            &&& match before.active_tab_spec() {
                Some(t) => find(after.tabs@, t.id) == Some(after.active as int),
                None => after.active == before.active,
            }
        },
        _ => !r && after == before,
    }
}

impl BrowserState {
    /// Tab ids are distinct and were all handed out, `active` points at a tab
    /// unless there is none, and the order of use names no tab twice.
    pub open spec fn wf(&self) -> bool {
        &&& forall|i: int, j: int|
            0 <= i < j < self.tabs@.len() ==> (#[trigger] self.tabs@[i]).id != (
            #[trigger] self.tabs@[j]).id
        &&& forall|i: int|
            0 <= i < self.tabs@.len() ==> (#[trigger] self.tabs@[i]).id < self.next_id
        &&& self.active < self.tabs@.len() || (self.tabs@.len() == 0 && self.active == 0)
        &&& self.mru@.no_duplicates()
    }

    /// The tab that `active` points at.
    pub open spec fn active_tab_spec(&self) -> Option<Tab> {
        if self.active < self.tabs@.len() {
            Some(self.tabs@[self.active as int])
        } else {
            None
        }
    }
}

/// What `find` gives back: the first tab with the id, or none has it.
pub proof fn lemma_find(tabs: Seq<Tab>, id: usize)
    ensures
        match find(tabs, id) {
            Some(i) => 0 <= i < tabs.len() && tabs[i].id == id && forall|j: int|
                0 <= j < i ==> (#[trigger] tabs[j]).id != id,
            None => forall|j: int| 0 <= j < tabs.len() ==> (#[trigger] tabs[j]).id != id,
        },
    decreases tabs.len(),
{
    if tabs.len() > 0 && tabs[0].id != id {
        lemma_find(tabs.skip(1), id);
        assert forall|j: int| 0 < j < tabs.len() implies (#[trigger] tabs[j]).id == tabs.skip(
            1,
        )[j - 1].id by {}
    }
}

// ---- helpers on id lists ------------------------------------------------

fn drop_id(s: &Vec<usize>, id: usize) -> (r: Vec<usize>)
    ensures
        r@ == without(s@, id),
{
    let mut r: Vec<usize> = Vec::new();
    let mut i: usize = 0;
    proof {
        reveal(Seq::filter);
        assert(r@ == s@.take(0).filter(other_than(id)));
    }
    while i < s.len()
        invariant
            i <= s@.len(),
            r@ == s@.take(i as int).filter(other_than(id)),
        decreases s@.len() - i,
    {
        proof {
            reveal(Seq::filter);
            assert(s@.take(i + 1).drop_last() == s@.take(i as int));
        }
        if s[i] != id {
            r.push(s[i]);
        }
        i += 1;
    }
    assert(s@.take(s@.len() as int) == s@);
    r
}

pub fn has_id(s: &Vec<usize>, id: usize) -> (r: bool)
    ensures
        r == s@.contains(id),
{
    let mut i: usize = 0;
    while i < s.len()
        invariant
            i <= s@.len(),
            forall|j: int| 0 <= j < i ==> s@[j] != id,
        decreases s@.len() - i,
    {
        if s[i] == id {
            return true;
        }
        i += 1;
    }
    false
}

fn promote(s: &Vec<usize>, id: usize) -> (r: Vec<usize>)
    ensures
        r@ == promoted(s@, id),
{
    let rest = drop_id(s, id);
    let mut r: Vec<usize> = Vec::new();
    r.push(id);
    let mut i: usize = 0;
    while i < rest.len()
        invariant
            i <= rest@.len(),
            r@ == seq![id] + rest@.take(i as int),
        decreases rest@.len() - i,
    {
        r.push(rest[i]);
        assert(rest@.take(i + 1) == rest@.take(i as int).push(rest@[i as int]));
        i += 1;
    }
    assert(rest@.take(rest@.len() as int) == rest@);
    r
}

/// The place `delta` steps after `at` in a ring of `n` places.
pub open spec fn stepped(at: int, delta: int, n: int) -> int {
    (at + delta) % n
}

/// The place `delta` steps after `at` in a ring of `n` places.
pub fn step(at: usize, delta: isize, n: usize) -> (r: usize)
    requires
        n > 0,
    ensures
        r == stepped(at as int, delta as int, n as int),
        r < n,
{
    let sum: i128 = at as i128 + delta as i128;
    let m: i128 = n as i128;
    match sum.checked_rem_euclid(m) {
        Some(r) => r as usize,
        None => 0,
    }
}

// ---- operations ---------------------------------------------------------

impl BrowserState {
    pub fn new() -> (r: Self)
        ensures
            r.tabs@ == Seq::<Tab>::empty(),
            r.active == 0,
            r.chrome_height == DEFAULT_CHROME_HEIGHT,
            r.recently_closed@ == Seq::<ClosedTab>::empty(),
            r.pending_source is None,
            !r.vertical_tabs,
            r.dropdown_overlay is None,
            r.switcher is None,
            r.mru@ == Seq::<usize>::empty(),
            r.next_id == 0,
            r.wf(),
    {
        BrowserState {
            tabs: Vec::new(),
            active: 0,
            chrome_height: DEFAULT_CHROME_HEIGHT,
            recently_closed: Vec::new(),
            pending_source: None,
            vertical_tabs: false,
            dropdown_overlay: None,
            switcher: None,
            mru: Vec::new(),
            next_id: 0,
        }
    }

    /// Is there a tab id left to hand out?
    pub fn can_allocate(&self) -> (r: bool)
        ensures
            r == (self.next_id < usize::MAX),
    {
        self.next_id < usize::MAX
    }

    /// Hand out a unique, monotonically increasing tab id.
    pub fn allocate_id(&mut self) -> (id: usize)
        requires
            old(self).next_id < usize::MAX,
        ensures
            id == old(self).next_id,
            *final(self) == (BrowserState { next_id: (id + 1) as usize, ..*old(self) }),
            old(self).wf() ==> final(self).wf(),
    {
        let id = self.next_id;
        self.next_id += 1;
        id
    }

    pub fn active_tab(&self) -> (r: Option<&Tab>)
        ensures
            match r {
                Some(t) => self.active_tab_spec() == Some(*t),
                None => self.active_tab_spec() is None,
            },
    {
        if self.active < self.tabs.len() {
            Some(&self.tabs[self.active])
        } else {
            None
        }
    }

    fn touch(&mut self, i: usize, now: u64)
        ensures
            final(self).tabs@ == touched(old(self).tabs@, i as int, now),
            *final(self) == (BrowserState { tabs: final(self).tabs, ..*old(self) }),
    {
        if i < self.tabs.len() {
            let tab = Tab { last_active: Some(now), ..self.tabs[i].clone() };
            self.tabs.set(i, tab);
        }
    }

    /// Mark the active tab as just deactivated: its idle clock (for the memory
    /// saver) starts now. Call right before changing `active`.
    pub fn deactivate_current(&mut self, now: u64)
        ensures
            final(self).tabs@ == touched(old(self).tabs@, old(self).active as int, now),
            *final(self) == (BrowserState { tabs: final(self).tabs, ..*old(self) }),
    {
        self.touch(self.active, now);
    }

    pub fn index_of(&self, id: usize) -> (r: Option<usize>)
        ensures
            match r {
                Some(i) => i < self.tabs@.len() && find(self.tabs@, id) == Some(i as int),
                None => find(self.tabs@, id) is None,
            },
    {
        let mut i: usize = 0;
        assert(self.tabs@.skip(0) == self.tabs@);
        while i < self.tabs.len()
            invariant
                i <= self.tabs@.len(),
                find(self.tabs@, id) == (match find(self.tabs@.skip(i as int), id) {
                    Some(k) => Some(k + i),
                    None => None::<int>,
                }),
            decreases self.tabs@.len() - i,
        {
            if self.tabs[i].id == id {
                return Some(i);
            }
            assert(self.tabs@.skip(i as int).skip(1) == self.tabs@.skip(i + 1));
            i += 1;
        }
        None
    }

    pub fn tab(&self, id: usize) -> (r: Option<&Tab>)
        ensures
            match r {
                Some(t) => find(self.tabs@, id) matches Some(i) && *t == self.tabs@[i],
                None => find(self.tabs@, id) is None,
            },
    {
        match self.index_of(id) {
            Some(i) => Some(&self.tabs[i]),
            None => None,
        }
    }

    pub fn tab_mut(&mut self, id: usize) -> (r: Option<&mut Tab>)
        ensures
            match r {
                Some(t) => find(old(self).tabs@, id) matches Some(i) && *t == old(self).tabs@[i]
                    && final(self).tabs@ == old(self).tabs@.update(i, *final(t)) && *final(self)
                    == (BrowserState { tabs: final(self).tabs, ..*old(self) }),
                None => find(old(self).tabs@, id) is None && *final(self) == *old(self),
            },
    {
        match self.index_of(id) {
            Some(i) => Some(&mut self.tabs[i]),
            None => None,
        }
    }

    /// Put the active tab first in the order of use.
    pub fn note_active(&mut self)
        ensures
            final(self).mru@ == noted(old(self).mru@, old(self).tabs@, old(self).active as int),
            *final(self) == (BrowserState { mru: final(self).mru, ..*old(self) }),
    {
        if self.active < self.tabs.len() {
            self.mru = promote(&self.mru, self.tabs[self.active].id);
        }
    }

    /// Make `id` the active tab (and start the idle clock of the previous
    /// one). Returns the tab's index, or `None` if there is no such tab.
    pub fn activate(&mut self, id: usize, now: u64) -> (r: Option<usize>)
        ensures
            match r {
                Some(i) => find(old(self).tabs@, id) == Some(i as int) && *final(self) == (
                BrowserState {
                    tabs: final(self).tabs,
                    active: i,
                    mru: final(self).mru,
                    ..*old(self)
                }) && final(self).tabs@ == touched(
                    touched(old(self).tabs@, old(self).active as int, now),
                    i as int,
                    now,
                ) && final(self).mru@ == promoted(old(self).mru@, id),
                None => find(old(self).tabs@, id) is None && *final(self) == *old(self),
            },
            old(self).wf() ==> final(self).wf(),
    {
        match self.index_of(id) {
            None => None,
            Some(i) => {
                proof {
                    lemma_find(self.tabs@, id);
                    lemma_promoted(self.mru@, id);
                }
                self.deactivate_current(now);
                self.active = i;
                self.touch(i, now);
                self.note_active();
                Some(i)
            },
        }
    }

    /// Remove tab `id`, keeping `active` pointing at a sensible neighbour:
    /// closing the active tab selects its right-hand neighbour (or the new
    /// last tab); closing another tab keeps the active one. Returns the
    /// removed tab.
    pub fn remove(&mut self, id: usize, now: u64) -> (r: Option<Tab>)
        ensures
            match r {
                Some(tab) => find(old(self).tabs@, id) matches Some(i) && tab == old(self).tabs@[i]
                    && *final(self) == (BrowserState {
                    tabs: final(self).tabs,
                    active: final(self).active,
                    mru: final(self).mru,
                    ..*old(self)
                }) && final(self).active == active_after_removal(
                    old(self).active as int,
                    i,
                    old(self).tabs@.len() - 1,
                ) && final(self).tabs@ == touched(
                    old(self).tabs@.remove(i),
                    final(self).active as int,
                    now,
                ) && final(self).mru@ == noted(
                    without(old(self).mru@, id),
                    old(self).tabs@.remove(i),
                    final(self).active as int,
                ),
                None => find(old(self).tabs@, id) is None && *final(self) == *old(self),
            },
            old(self).wf() ==> final(self).wf(),
    {
        match self.index_of(id) {
            None => None,
            Some(i) => {
                proof {
                    lemma_find(self.tabs@, id);
                    lemma_promoted(self.mru@, id);
                }
                let tab = self.tabs.remove(i);
                if i < self.active {
                    self.active = self.active - 1;
                }
                let n = self.tabs.len();
                if self.active >= n {
                    self.active = if n > 0 {
                        n - 1
                    } else {
                        0
                    };
                }
                self.mru = drop_id(&self.mru, id);
                proof {
                    if self.active < self.tabs@.len() {
                        lemma_promoted(self.mru@, self.tabs@[self.active as int].id);
                    }
                }
                self.note_active();
                self.touch(self.active, now);
                Some(tab)
            },
        }
    }

    /// Move tab `id` to position `to` (clamped), preserving the active tab.
    /// Returns whether anything moved.
    pub fn move_tab(&mut self, id: usize, to: usize) -> (r: bool)
        ensures
            tab_moved(*old(self), *final(self), id, to as int, r),
            old(self).wf() ==> final(self).wf(),
    {
        let from = match self.index_of(id) {
            Some(i) => i,
            None => {
                return false;
            },
        };
        proof {
            lemma_find(self.tabs@, id);
        }
        let n = self.tabs.len();
        let to = if to < n {
            to
        } else {
            n - 1
        };
        if from == to {
            return false;
        }
        let active_id: Option<usize> = match self.active_tab() {
            Some(t) => Some(t.id),
            None => None,
        };
        let ghost before = self.tabs@;
        let tab = self.tabs.remove(from);
        self.tabs.insert(to, tab);
        assert(self.tabs@ == relocated(before, from as int, to as int));
        if let Some(aid) = active_id {
            proof {
                let a = self.active as int;
                let moved = if a == from {
                    to as int
                } else {
                    let b = if a > from {
                        a - 1
                    } else {
                        a
                    };
                    if b >= to {
                        b + 1
                    } else {
                        b
                    }
                };
                assert(self.tabs@[moved] == before[a]);
                lemma_find(self.tabs@, aid);
            }
            self.active = match self.index_of(aid) {
                Some(i) => i,
                None => 0,
            };
        }
        proof {
            if old(self).wf() {
                lemma_moved_ids(before, from as int, to as int, self.next_id);
            }
        }
        true
    }

    /// Remember a closed tab for reopening, unless it is private.
    pub fn remember_closed(&mut self, tab: &Tab)
        ensures
            final(self).recently_closed@ == closed_after(old(self).recently_closed@, *tab),
            old(self).recently_closed@.len() <= CLOSED_CAP ==> final(self).recently_closed@.len()
                <= CLOSED_CAP,
            *final(self) == (BrowserState {
                recently_closed: final(self).recently_closed,
                ..*old(self)
            }),
    {
        if tab.incognito {
            return ;
        }
        self.recently_closed.push(ClosedTab { url: tab.url.clone(), page: tab.page.clone() });
        if self.recently_closed.len() > CLOSED_CAP {
            self.recently_closed.remove(0);
        }
    }

    /// Ids of the open tabs by last use, most recent first; tabs never used
    /// follow in strip order.
    pub fn mru_order(&self) -> (r: Vec<usize>)
        ensures
            r@ == use_order(self.mru@, self.tabs@),
    {
        let mut r: Vec<usize> = Vec::new();
        let ghost all = ids(self.tabs@);
        proof {
            reveal(Seq::filter);
            assert(r@ == self.mru@.take(0).filter(listed(all)));
        }
        let mut i: usize = 0;
        while i < self.mru.len()
            invariant
                i <= self.mru@.len(),
                all == ids(self.tabs@),
                r@ == self.mru@.take(i as int).filter(listed(all)),
            decreases self.mru@.len() - i,
        {
            proof {
                reveal(Seq::filter);
                assert(self.mru@.take(i + 1).drop_last() == self.mru@.take(i as int));
                lemma_find(self.tabs@, self.mru@[i as int]);
                lemma_listed(self.tabs@, self.mru@[i as int]);
            }
            if self.index_of(self.mru[i]).is_some() {
                r.push(self.mru[i]);
            }
            i += 1;
        }
        assert(self.mru@.take(self.mru@.len() as int) == self.mru@);
        let ghost head = r@;
        proof {
            reveal(Seq::filter);
            assert(r@ == head + all.take(0).filter(unlisted(self.mru@)));
        }
        let mut j: usize = 0;
        while j < self.tabs.len()
            invariant
                j <= self.tabs@.len(),
                all == ids(self.tabs@),
                r@ == head + all.take(j as int).filter(unlisted(self.mru@)),
            decreases self.tabs@.len() - j,
        {
            proof {
                reveal(Seq::filter);
                assert(all.take(j + 1).drop_last() == all.take(j as int));
            }
            if !has_id(&self.mru, self.tabs[j].id) {
                r.push(self.tabs[j].id);
            }
            j += 1;
        }
        assert(all.take(all.len() as int) == all);
        r
    }

    /// Open the switcher on the tabs by recent use (the previous tab
    /// highlighted for one step forward), or move its highlight by `delta`. A
    /// no-op with fewer than two tabs.
    pub fn switcher_step(&mut self, delta: isize) -> (r: Option<&Switcher>)
        ensures
            match r {
                Some(s) => final(self).switcher == Some(*s) && *final(self) == (BrowserState {
                    switcher: final(self).switcher,
                    ..*old(self)
                }) && old(self).tabs@.len() >= 2 && match old(self).switcher {
                    Some(o) if o.ids@.len() > 0 => s.ids == o.ids && s.selected == stepped(
                        o.selected as int,
                        delta as int,
                        o.ids@.len() as int,
                    ),
                    _ => s.ids@ == use_order(old(self).mru@, old(self).tabs@) && s.selected
                        == stepped(0, delta as int, s.ids@.len() as int),
                },
                None => old(self).tabs@.len() < 2 && *final(self) == *old(self),
            },
    {
        if self.tabs.len() < 2 {
            return None;
        }
        let open = match &self.switcher {
            Some(s) => s.ids.len() > 0,
            None => false,
        };
        if open {
            if let Some(s) = &mut self.switcher {
                s.selected = step(s.selected, delta, s.ids.len());
            }
        } else {
            let order = self.mru_order();
            proof {
                law_order_of_use(self.mru@, self.tabs@);
            }
            let selected = step(0, delta, order.len());
            self.switcher = Some(Switcher { ids: order, selected });
        }
        self.switcher.as_ref()
    }
}

/// The order of use names every open tab, and no other; where ids are distinct
/// it names each once.
pub proof fn law_order_of_use(mru: Seq<usize>, tabs: Seq<Tab>)
    ensures
        forall|id: usize| #[trigger]
            use_order(mru, tabs).contains(id) <==> find(tabs, id) is Some,
        tabs.len() > 0 ==> use_order(mru, tabs).len() > 0,
        mru.no_duplicates() && ids(tabs).no_duplicates() ==> use_order(
            mru,
            tabs,
        ).no_duplicates() && use_order(mru, tabs).len() == tabs.len(),
{
    let a = mru.filter(listed(ids(tabs)));
    let b = ids(tabs).filter(unlisted(mru));
    let r = use_order(mru, tabs);
    lemma_filter(mru, listed(ids(tabs)));
    lemma_filter(ids(tabs), unlisted(mru));
    assert forall|id: usize| #[trigger] r.contains(id) <==> find(tabs, id) is Some by {
        lemma_listed(tabs, id);
        if r.contains(id) {
            let k = choose|k: int| 0 <= k < r.len() && r[k] == id;
            if k < a.len() {
                assert(a[k] == id);
                assert(a.contains(id));
            } else {
                assert(b[k - a.len()] == id);
                assert(b.contains(id));
            }
        }
        if ids(tabs).contains(id) {
            if mru.contains(id) {
                assert(a.contains(id));
                let k = choose|k: int| 0 <= k < a.len() && a[k] == id;
                assert(r[k] == id);
            } else {
                assert(b.contains(id));
                let k = choose|k: int| 0 <= k < b.len() && b[k] == id;
                assert(r[a.len() + k] == id);
            }
        }
    }
    if tabs.len() > 0 {
        lemma_find(tabs, tabs[0].id);
        assert(r.contains(tabs[0].id));
    }
    if mru.no_duplicates() && ids(tabs).no_duplicates() {
        assert forall|i: int, j: int| 0 <= i < j < r.len() implies r[i] != r[j] by {
            if i < a.len() && j >= a.len() {
                assert(a.contains(r[i]));
                assert(b[j - a.len()] == r[j]);
                assert(b.contains(r[j]));
            }
        }
        r.unique_seq_to_set();
        ids(tabs).unique_seq_to_set();
        assert forall|id: usize| r.to_set().contains(id) <==> ids(tabs).to_set().contains(id) by {
            lemma_listed(tabs, id);
            assert(r.contains(id) <==> find(tabs, id) is Some);
        }
        assert(r.to_set() =~= ids(tabs).to_set());
    }
}

pub proof fn lemma_promoted(s: Seq<usize>, id: usize)
    ensures
        s.no_duplicates() ==> without(s, id).no_duplicates() && promoted(s, id).no_duplicates(),
        forall|x: usize| without(s, id).contains(x) <==> s.contains(x) && x != id,
        forall|x: usize| promoted(s, id).contains(x) <==> s.contains(x) || x == id,
{
    lemma_filter(s, other_than(id));
    assert forall|x: usize| promoted(s, id).contains(x) <==> s.contains(x) || x == id by {
        if promoted(s, id).contains(x) {
            let k = choose|k: int| 0 <= k < promoted(s, id).len() && promoted(s, id)[k] == x;
            if k > 0 {
                assert(without(s, id)[k - 1] == x);
                assert(without(s, id).contains(x));
            }
        }
        if x == id {
            assert(promoted(s, id)[0] == x);
        } else if s.contains(x) {
            assert(without(s, id).contains(x));
            let k = choose|k: int| 0 <= k < without(s, id).len() && without(s, id)[k] == x;
            assert(promoted(s, id)[k + 1] == x);
        }
    }
    if s.no_duplicates() {
        let p = promoted(s, id);
        assert forall|a: int, b: int| 0 <= a < b < p.len() implies p[a] != p[b] by {
            assert(p[b] == without(s, id)[b - 1]);
            assert(without(s, id).contains(p[b]));
            if a > 0 {
                assert(p[a] == without(s, id)[a - 1]);
            }
        }
    }
}

/// A filtered list holds the same elements that satisfy the predicate, each at
/// most as often.
proof fn lemma_filter(s: Seq<usize>, p: spec_fn(usize) -> bool)
    ensures
        forall|x: usize| #[trigger] s.filter(p).contains(x) <==> s.contains(x) && p(x),
        s.no_duplicates() ==> s.filter(p).no_duplicates(),
    decreases s.len(),
{
    reveal(Seq::filter);
    if s.len() > 0 {
        let init = s.drop_last();
        lemma_filter(init, p);
        let f = init.filter(p);
        assert forall|x: usize| s.contains(x) <==> init.contains(x) || x == s.last() by {
            if s.contains(x) {
                let k = choose|k: int| 0 <= k < s.len() && s[k] == x;
                if k < init.len() {
                    assert(init[k] == x);
                }
            }
            if init.contains(x) {
                let k = choose|k: int| 0 <= k < init.len() && init[k] == x;
                assert(s[k] == x);
            }
        }
        if p(s.last()) {
            let g = f.push(s.last());
            assert(s.filter(p) == g);
            assert forall|x: usize| g.contains(x) <==> f.contains(x) || x == s.last() by {
                if g.contains(x) {
                    let k = choose|k: int| 0 <= k < g.len() && g[k] == x;
                    if k < f.len() {
                        assert(f[k] == x);
                    }
                }
                if f.contains(x) {
                    let k = choose|k: int| 0 <= k < f.len() && f[k] == x;
                    assert(g[k] == x);
                }
                assert(g[f.len() as int] == s.last());
            }
            if s.no_duplicates() {
                assert(init.no_duplicates());
                assert(!init.contains(s.last()));
                assert forall|a: int, b: int| 0 <= a < b < g.len() implies g[a] != g[b] by {
                    if b == f.len() {
                        assert(f.contains(g[a]));
                    }
                }
            }
        } else {
            assert(s.filter(p) == f);
        }
    }
}

/// Moving a tab keeps the tabs: each is still there, once, the moved one at its
/// new place and the others in their order.
pub proof fn law_moving_keeps_tabs(tabs: Seq<Tab>, from: int, to: int)
    requires
        0 <= from < tabs.len(),
        0 <= to < tabs.len(),
    ensures
        relocated(tabs, from, to).len() == tabs.len(),
        relocated(tabs, from, to)[to] == tabs[from],
        relocated(tabs, from, to).to_multiset() == tabs.to_multiset(),
        forall|i: int| 0 <= i < tabs.len() && i != to ==> #[trigger] relocated(tabs, from, to)[i]
            == tabs[unmoved(i, from, to)],
{
    broadcast use vstd::seq_lib::group_to_multiset_ensures;
    assert(tabs.contains(tabs[from]));
    assert(relocated(tabs, from, to).to_multiset() =~= tabs.to_multiset());
}

proof fn lemma_moved_ids(tabs: Seq<Tab>, from: int, to: int, next: usize)
    requires
        0 <= from < tabs.len(),
        0 <= to < tabs.len(),
        forall|i: int, j: int|
            0 <= i < j < tabs.len() ==> (#[trigger] tabs[i]).id != (#[trigger] tabs[j]).id,
        forall|i: int| 0 <= i < tabs.len() ==> (#[trigger] tabs[i]).id < next,
    ensures
        forall|i: int, j: int|
            0 <= i < j < tabs.len() ==> (#[trigger] relocated(tabs, from, to)[i]).id != (
            #[trigger] relocated(tabs, from, to)[j]).id,
        forall|i: int|
            0 <= i < tabs.len() ==> (#[trigger] relocated(tabs, from, to)[i]).id < next,
        relocated(tabs, from, to).len() == tabs.len(),
{
    let moved = relocated(tabs, from, to);
    law_moving_keeps_tabs(tabs, from, to);
    assert forall|i: int| 0 <= i < tabs.len() implies (#[trigger] moved[i]) == tabs[if i == to {
        from
    } else {
        unmoved(i, from, to)
    }] by {}
    assert forall|i: int, j: int| 0 <= i < j < tabs.len() implies (#[trigger] moved[i]).id != (
    #[trigger] moved[j]).id by {
        let a = if i == to {
            from
        } else {
            unmoved(i, from, to)
        };
        let b = if j == to {
            from
        } else {
            unmoved(j, from, to)
        };
        if a < b {
            assert(tabs[a].id != tabs[b].id);
        } else {
            assert(tabs[b].id != tabs[a].id);
        }
    }
}

/// Where the tab now at `i` stood before the one at `from` moved to `to`.
pub open spec fn unmoved(i: int, from: int, to: int) -> int {
    let gap = if i > to {
        i - 1
    } else {
        i
    };
    if gap >= from {
        gap + 1
    } else {
        gap
    }
}

/// The closed tabs remembered once `tab` is closed too.
pub open spec fn closed_after(closed: Seq<ClosedTab>, tab: Tab) -> Seq<ClosedTab> {
    if tab.incognito {
        closed
    } else {
        let all = closed.push(ClosedTab { url: tab.url, page: tab.page });
        if all.len() > CLOSED_CAP {
            all.skip(1)
        } else {
            all
        }
    }
}

proof fn lemma_listed(tabs: Seq<Tab>, id: usize)
    ensures
        ids(tabs).contains(id) == (find(tabs, id) is Some),
{
    lemma_find(tabs, id);
    if let Some(i) = find(tabs, id) {
        assert(ids(tabs)[i] == id);
    } else if ids(tabs).contains(id) {
        let j = choose|j: int| 0 <= j < ids(tabs).len() && ids(tabs)[j] == id;
        assert(tabs[j].id == id);
    }
}

/// Closing a tab other than the active one keeps the active one.
pub proof fn law_closing_another_keeps_active(tabs: Seq<Tab>, active: int, i: int)
    requires
        0 <= i < tabs.len(),
        0 <= active < tabs.len(),
        i != active,
    ensures
        tabs.remove(i)[active_after_removal(active, i, tabs.len() - 1)] == tabs[active],
{
}

/// Closing the active tab selects its right-hand neighbour, or the new last tab
/// where it had none.
pub proof fn law_closing_active_selects_neighbour(tabs: Seq<Tab>, active: int)
    requires
        0 <= active < tabs.len(),
        tabs.len() >= 2,
    ensures
        tabs.remove(active)[active_after_removal(active, active, tabs.len() - 1)] == (if active + 1
            < tabs.len() {
            tabs[active + 1]
        } else {
            tabs[active - 1]
        }),
{
}

/// The tab just activated comes first in the order of use, and the one used
/// before it comes second: that is the one the switcher opens on.
pub proof fn law_previous_tab_comes_second(
    mru: Seq<usize>,
    tabs: Seq<Tab>,
    current: usize,
    previous: usize,
)
    requires
        find(tabs, current) is Some,
        find(tabs, previous) is Some,
        current != previous,
    ensures
        use_order(promoted(mru, current), tabs)[0] == current,
        use_order(promoted(promoted(mru, previous), current), tabs)[0] == current,
        use_order(promoted(promoted(mru, previous), current), tabs)[1] == previous,
{
    reveal_with_fuel(Seq::filter, 2);
    let open = listed(ids(tabs));
    lemma_listed(tabs, current);
    lemma_listed(tabs, previous);
    Seq::filter_distributes_over_add(seq![current], without(mru, current), open);
    assert(seq![current].drop_last() == Seq::<usize>::empty());
    assert(seq![previous].drop_last() == Seq::<usize>::empty());
    assert(seq![current].filter(open) == seq![current]);
    assert(seq![previous].filter(open) == seq![previous]);
    assert(seq![previous].filter(other_than(current)) == seq![previous]);
    let m = promoted(mru, previous);
    Seq::filter_distributes_over_add(
        seq![previous],
        without(mru, previous),
        other_than(current),
    );
    let rest = without(without(mru, previous), current);
    assert(without(m, current) == seq![previous] + rest);
    Seq::filter_distributes_over_add(seq![current], without(m, current), open);
    Seq::filter_distributes_over_add(seq![previous], rest, open);
    assert(promoted(m, current).filter(open) == seq![current] + (seq![previous] + rest.filter(
        open,
    )));
}

/// Moving the switcher's highlight forth and back leaves it where it was.
pub proof fn law_steps_cancel(at: int, delta: int, n: int)
    requires
        0 <= at < n,
    ensures
        stepped(stepped(at, delta, n), -delta, n) == at,
{
    vstd::arithmetic::div_mod::lemma_sub_mod_noop(at + delta, delta, n);
    vstd::arithmetic::div_mod::lemma_sub_mod_noop_right((at + delta) % n, delta, n);
    vstd::arithmetic::div_mod::lemma_small_mod(at as nat, n as nat);
}

/// Steps go from one place to the next and round at the ends, never out of the
/// ring; two moves one after the other are one move by their sum.
pub proof fn law_steps_go_round(at: int, a: int, b: int, n: int)
    requires
        0 <= at < n,
    ensures
        0 <= stepped(at, a, n) < n,
        stepped(at, 0, n) == at,
        stepped(at, 1, n) == (if at + 1 == n {
            0
        } else {
            at + 1
        }),
        stepped(at, -1, n) == (if at == 0 {
            n - 1
        } else {
            at - 1
        }),
        stepped(stepped(at, a, n), b, n) == stepped(at, a + b, n),
{
    vstd::arithmetic::div_mod::lemma_small_mod(at as nat, n as nat);
    vstd::arithmetic::div_mod::lemma_add_mod_noop(at + a, b, n);
    vstd::arithmetic::div_mod::lemma_add_mod_noop((at + a) % n, b, n);
    vstd::arithmetic::div_mod::lemma_mod_twice(at + a, n);
    vstd::arithmetic::div_mod::lemma_mod_self_0(n);
    if at + 1 < n {
        vstd::arithmetic::div_mod::lemma_small_mod((at + 1) as nat, n as nat);
    }
    if at == 0 {
        vstd::arithmetic::div_mod::lemma_mod_add_multiples_vanish(-1, n);
        vstd::arithmetic::div_mod::lemma_small_mod((n - 1) as nat, n as nat);
    } else {
        vstd::arithmetic::div_mod::lemma_small_mod((at - 1) as nat, n as nat);
    }
}

/// The last twenty public tabs that were closed can be reopened: a closed tab
/// joins the end of the list with its address and its page, and the oldest one
/// leaves only where there were twenty. A private tab leaves the list as it is.
pub proof fn law_twenty_closed_tabs_are_kept(closed: Seq<ClosedTab>, t: Tab)
    requires
        closed.len() <= 20,
    ensures
        closed_after(closed, t).len() == (if t.incognito || closed.len() == 20 {
            closed.len()
        } else {
            closed.len() + 1
        }),
        t.incognito ==> closed_after(closed, t) == closed,
        !t.incognito ==> closed_after(closed, t).last().url == t.url && closed_after(
            closed,
            t,
        ).last().page == t.page,
        !t.incognito ==> forall|k: int|
            1 <= k < closed_after(closed, t).len() ==> #[trigger] closed_after(closed, t)[closed_after(
                closed,
                t,
            ).len() - 1 - k] == closed[closed.len() - k],
{
}

/// Setting the idle clock of a tab changes nothing else, of it or of another.
pub proof fn law_clocks_are_set_alone(tabs: Seq<Tab>, i: int, now: u64)
    requires
        0 <= i < tabs.len(),
    ensures
        touched(tabs, i, now).len() == tabs.len(),
        touched(tabs, i, now)[i].last_active == Some(now),
        forall|j: int|
            0 <= j < tabs.len() ==> (Tab {
                last_active: tabs[j].last_active,
                ..#[trigger] touched(tabs, i, now)[j]
            }) == tabs[j],
        forall|j: int|
            0 <= j < tabs.len() && j != i ==> #[trigger] touched(tabs, i, now)[j] == tabs[j],
{
}

/// A tab is moved to the place that was asked for, or to the end of the strip
/// where there is no such place.
pub proof fn law_moves_end_in_the_strip(to: int, n: int)
    requires
        0 <= to,
        0 < n,
    ensures
        0 <= clamped(to, n) < n,
        to < n ==> clamped(to, n) == to,
        to >= n ==> clamped(to, n) == n - 1,
{
}

proof fn lemma_without_none(s: Seq<usize>, id: usize)
    requires
        !s.contains(id),
    ensures
        without(s, id) == s,
    decreases s.len(),
{
    reveal(Seq::filter);
    if s.len() > 0 {
        let init = s.drop_last();
        assert(s[s.len() - 1] != id);
        assert forall|k: int| 0 <= k < init.len() implies init[k] != id by {
            assert(s[k] != id);
        }
        lemma_without_none(init, id);
        assert(s =~= init.push(s.last()));
    } else {
        assert(without(s, id) =~= s);
    }
}

/// Using a tab moves it to the front of the order of use, from wherever it
/// stood; the others keep their order.
pub proof fn law_use_moves_one_to_the_front(s: Seq<usize>, k: int)
    requires
        s.no_duplicates(),
        0 <= k < s.len(),
    ensures
        promoted(s, s[k]) == seq![s[k]] + s.take(k) + s.skip(k + 1),
{
    let id = s[k];
    let a = s.take(k);
    let b = s.skip(k + 1);
    assert forall|i: int| 0 <= i < a.len() implies a[i] != id by {
        assert(s[i] != s[k]);
    }
    assert forall|i: int| 0 <= i < b.len() implies b[i] != id by {
        assert(s[k] != s[k + 1 + i]);
    }
    lemma_without_none(a, id);
    lemma_without_none(b, id);
    assert(s =~= (a + seq![id]) + b);
    Seq::filter_distributes_over_add(a + seq![id], b, other_than(id));
    Seq::filter_distributes_over_add(a, seq![id], other_than(id));
    reveal_with_fuel(Seq::filter, 2);
    assert(seq![id].drop_last() =~= Seq::<usize>::empty());
    assert(seq![id].filter(other_than(id)) =~= Seq::<usize>::empty());
    assert(promoted(s, id) =~= seq![id] + a + b);
}

/// A tab used for the first time comes before all others.
pub proof fn law_first_use_comes_to_the_front(s: Seq<usize>, id: usize)
    requires
        !s.contains(id),
    ensures
        promoted(s, id) == seq![id] + s,
{
    lemma_without_none(s, id);
}

/// Tabs that were never used stand in the order of the strip.
pub proof fn law_unused_tabs_follow_the_strip(tabs: Seq<Tab>)
    ensures
        use_order(Seq::empty(), tabs) == tabs.map_values(|t: Tab| t.id),
{
    reveal(Seq::filter);
    lemma_all_unlisted(ids(tabs));
    assert(Seq::<usize>::empty().filter(listed(ids(tabs))) =~= Seq::<usize>::empty());
    assert(use_order(Seq::empty(), tabs) =~= ids(tabs));
}

proof fn lemma_all_unlisted(s: Seq<usize>)
    ensures
        s.filter(unlisted(Seq::empty())) == s,
    decreases s.len(),
{
    reveal(Seq::filter);
    if s.len() > 0 {
        lemma_all_unlisted(s.drop_last());
        assert(s =~= s.drop_last().push(s.last()));
    } else {
        assert(s.filter(unlisted(Seq::empty())) =~= s);
    }
}

/// A tab that is moved stands where it was moved to, or at the end of the strip,
/// and the tab in front stays in front. The strip is said to have changed exactly
/// where the tab was elsewhere.
pub proof fn law_moving_keeps_the_tab_in_front(
    before: BrowserState,
    after: BrowserState,
    id: usize,
    from: int,
    to: int,
    r: bool,
)
    requires
        before.wf(),
        find(before.tabs@, id) == Some(from),
        0 <= to,
        tab_moved(before, after, id, to, r),
    ensures
        after.tabs@.len() == before.tabs@.len(),
        to < before.tabs@.len() ==> after.tabs@[to].id == id,
        to >= before.tabs@.len() ==> after.tabs@.last().id == id,
        after.tabs@[after.active as int].id == before.tabs@[before.active as int].id,
        after.mru == before.mru,
        to < before.tabs@.len() ==> (r <==> from != to),
        to >= before.tabs@.len() ==> (r <==> from + 1 != before.tabs@.len()),
        !r ==> after == before,
{
    lemma_find(before.tabs@, id);
    let place = clamped(to, before.tabs@.len() as int);
    law_moving_keeps_tabs(before.tabs@, from, place);
    if r {
        lemma_find(after.tabs@, before.tabs@[before.active as int].id);
    }
}

} // verus!
