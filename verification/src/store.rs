//! Browser data: settings, bookmarks, history, favicons and the last session,
//! with the rules for what is kept, found and suggested.

use crate::clock::now_secs;
use crate::icons::IconMap;
use crate::state::NATURAL_ZOOM;
use crate::text::{
    begins, byte_len, chars_of, contains, has_part, has_prefix, lowercase, string_of, text_eq,
    to_lowercase, trim, trimmed, utf8_len,
};
use crate::web::{host_of, host_text, opt_text};
use vstd::hash_map::StringHashMap;
use vstd::hash_set::StringHashSet;
use vstd::prelude::*;

verus! {

broadcast use vstd::hash_map::group_hash_map_axioms, vstd::hash_set::group_hash_set_axioms;

/// Keep at most this many history entries (the oldest are dropped past the
/// cap).
pub const HISTORY_CAP: usize = 5000;

/// Trim in batches, so that the list is not shifted on every visit.
pub const HISTORY_TRIM_AT: usize = 5500;

/// Default UI accent (warm amber).
pub const DEFAULT_ACCENT: &'static str = "#d97b32";

/// The accent that used to be the default; stores that still carry it are
/// moved to the new one on load.
pub const LEGACY_ACCENT: &'static str = "#a78bfa";

/// Cap on the favicon cache (hosts).
pub const FAVICON_CAP: usize = 600;

/// User-customizable background for the home page. `kind` is "preset", "url"
/// or "image"; `value` is the preset id, a remote URL, or, for an uploaded
/// image, a version tag.
pub struct Wallpaper {
    pub kind: String,
    pub value: String,
}

impl Wallpaper {
    /// Equal texts in both fields.
    pub open spec fn matches_spec(&self, other: &Wallpaper) -> bool {
        self.kind@ == other.kind@ && self.value@ == other.value@
    }

    pub fn same(&self, other: &Wallpaper) -> (r: bool)
        ensures
            r == self.matches_spec(other),
    {
        text_eq(self.kind.as_str(), other.kind.as_str()) && text_eq(
            self.value.as_str(),
            other.value.as_str(),
        )
    }
}

impl Clone for Wallpaper {
    fn clone(&self) -> (r: Self)
        ensures
            r == *self,
    {
        Wallpaper { kind: self.kind.clone(), value: self.value.clone() }
    }
}

impl Default for Wallpaper {
    fn default() -> (r: Self)
        ensures
            r.kind@ == "preset"@,
            r.value@ == "aurora"@,
    {
        Wallpaper { kind: "preset".to_owned(), value: "aurora".to_owned() }
    }
}

/// All user preferences.
pub struct Settings {
    /// "dark", "light" or "system".
    pub theme: String,
    /// UI accent colour in hex.
    pub accent: String,
    pub search_engine: String,
    pub show_bookmarks_bar: bool,
    pub wallpaper: Wallpaper,
    /// "home" or "restore".
    pub startup: String,
    /// Page zoom for new tabs: the bits of an IEEE 754 double.
    pub default_zoom: u64,
    /// Memory saver: put background tabs idle this many minutes to sleep (zero
    /// for never).
    pub discard_after_min: u64,
    /// Block ads and trackers.
    pub block_ads: bool,
    /// Block known malware and phishing hosts and warn on fraudulent sites.
    pub block_malware: bool,
    /// Hide cookie banners and other consent pop-ups.
    pub block_annoyances: bool,
    /// Refuse pop-ups that the user did not ask for.
    pub block_popups: bool,
    /// Developer: enable the Web Inspector.
    pub devtools: bool,
    /// Developer: custom User-Agent string (empty for the WebView's own).
    pub user_agent: String,
    /// Opaque window instead of frosted glass.
    pub reduce_transparency: bool,
    /// Tabs in a sidebar instead of a strip across the top.
    pub vertical_tabs: bool,
    /// The tab switcher goes by most recent use instead of strip order.
    pub mru_tab_switching: bool,
}

/// The preferences of a fresh profile.
pub open spec fn is_default(s: Settings) -> bool {
    &&& s.theme@ == "dark"@
    &&& s.accent@ == DEFAULT_ACCENT@
    &&& s.search_engine@ == "duckduckgo"@
    &&& s.show_bookmarks_bar
    &&& s.wallpaper.kind@ == "preset"@
    &&& s.wallpaper.value@ == "aurora"@
    &&& s.startup@ == "home"@
    &&& s.default_zoom == NATURAL_ZOOM
    &&& s.discard_after_min == 5
    &&& s.block_ads
    &&& s.block_malware
    &&& s.block_annoyances
    &&& s.block_popups
    &&& s.devtools
    &&& s.user_agent@.len() == 0
    &&& !s.reduce_transparency
    &&& !s.vertical_tabs
    &&& s.mru_tab_switching
}

impl Default for Settings {
    fn default() -> (r: Self)
        ensures
            is_default(r),
    {
        Settings {
            theme: "dark".to_owned(),
            accent: DEFAULT_ACCENT.to_owned(),
            search_engine: "duckduckgo".to_owned(),
            show_bookmarks_bar: true,
            wallpaper: Wallpaper::default(),
            startup: "home".to_owned(),
            default_zoom: NATURAL_ZOOM,
            discard_after_min: 5,
            block_ads: true,
            block_malware: true,
            block_annoyances: true,
            block_popups: true,
            devtools: true,
            user_agent: String::new(),
            reduce_transparency: false,
            vertical_tabs: false,
            mru_tab_switching: true,
        }
    }
}

impl Clone for Settings {
    fn clone(&self) -> (r: Self)
        ensures
            r == *self,
    {
        Settings {
            theme: self.theme.clone(),
            accent: self.accent.clone(),
            search_engine: self.search_engine.clone(),
            show_bookmarks_bar: self.show_bookmarks_bar,
            wallpaper: self.wallpaper.clone(),
            startup: self.startup.clone(),
            default_zoom: self.default_zoom,
            discard_after_min: self.discard_after_min,
            block_ads: self.block_ads,
            block_malware: self.block_malware,
            block_annoyances: self.block_annoyances,
            block_popups: self.block_popups,
            devtools: self.devtools,
            user_agent: self.user_agent.clone(),
            reduce_transparency: self.reduce_transparency,
            vertical_tabs: self.vertical_tabs,
            mru_tab_switching: self.mru_tab_switching,
        }
    }
}

impl Settings {
    /// Equal in every preference but the default zoom.
    pub open spec fn matches_but_zoom(&self, o: &Settings) -> bool {
        &&& self.theme@ == o.theme@
        &&& self.accent@ == o.accent@
        &&& self.search_engine@ == o.search_engine@
        &&& self.show_bookmarks_bar == o.show_bookmarks_bar
        &&& self.wallpaper.matches_spec(&o.wallpaper)
        &&& self.startup@ == o.startup@
        &&& self.discard_after_min == o.discard_after_min
        &&& self.block_ads == o.block_ads
        &&& self.block_malware == o.block_malware
        &&& self.block_annoyances == o.block_annoyances
        &&& self.block_popups == o.block_popups
        &&& self.devtools == o.devtools
        &&& self.user_agent@ == o.user_agent@
        &&& self.reduce_transparency == o.reduce_transparency
        &&& self.vertical_tabs == o.vertical_tabs
        &&& self.mru_tab_switching == o.mru_tab_switching
    }

    /// Are these the same preferences? `same_zoom` is how the two default
    /// zooms compare as numbers.
    pub fn same(&self, o: &Settings, same_zoom: bool) -> (r: bool)
        ensures
            r == (self.matches_but_zoom(o) && same_zoom),
    {
        text_eq(self.theme.as_str(), o.theme.as_str()) && text_eq(
            self.accent.as_str(),
            o.accent.as_str(),
        ) && text_eq(self.search_engine.as_str(), o.search_engine.as_str())
            && self.show_bookmarks_bar == o.show_bookmarks_bar && self.wallpaper.same(
            &o.wallpaper,
        ) && text_eq(self.startup.as_str(), o.startup.as_str()) && same_zoom
            && self.discard_after_min == o.discard_after_min && self.block_ads == o.block_ads
            && self.block_malware == o.block_malware && self.block_annoyances
            == o.block_annoyances && self.block_popups == o.block_popups && self.devtools
            == o.devtools && text_eq(self.user_agent.as_str(), o.user_agent.as_str())
            && self.reduce_transparency == o.reduce_transparency && self.vertical_tabs
            == o.vertical_tabs && self.mru_tab_switching == o.mru_tab_switching
    }
}

pub struct Bookmark {
    pub title: String,
    pub url: String,
}

impl Clone for Bookmark {
    fn clone(&self) -> (r: Self)
        ensures
            r == *self,
    {
        Bookmark { title: self.title.clone(), url: self.url.clone() }
    }
}

/// A bookmark plus its cached favicon (for the UI).
pub struct BookmarkView {
    pub title: String,
    pub url: String,
    pub favicon: String,
}

/// One visit.
pub struct HistoryEntry {
    pub url: String,
    pub title: String,
    /// Epoch seconds.
    pub ts: u64,
}

impl Clone for HistoryEntry {
    fn clone(&self) -> (r: Self)
        ensures
            r == *self,
    {
        HistoryEntry { url: self.url.clone(), title: self.title.clone(), ts: self.ts }
    }
}

/// One page of history for the History UI (newest first).
pub struct HistoryPage {
    pub entries: Vec<HistoryEntry>,
    pub total: usize,
    /// Icon URLs for the hosts in `entries`.
    pub favicons: IconMap,
}

/// One row of the address-bar / home-page suggestion dropdown.
pub struct Suggestion {
    /// "search" (a past web search: `query` holds the terms), "bookmark" or
    /// "history".
    pub kind: &'static str,
    pub url: String,
    pub title: String,
    pub favicon: String,
    pub query: String,
}

/// A tab of the last session (for "restore tabs on startup").
pub struct SessionTab {
    pub url: String,
    pub title: String,
    pub page: String,
}

impl Clone for SessionTab {
    fn clone(&self) -> (r: Self)
        ensures
            r == *self,
    {
        SessionTab { url: self.url.clone(), title: self.title.clone(), page: self.page.clone() }
    }
}

pub struct Store {
    pub settings: Settings,
    pub bookmarks: Vec<Bookmark>,
    /// Visits, oldest first.
    pub history: Vec<HistoryEntry>,
    pub session: Vec<SessionTab>,
    pub session_active: usize,
    /// Icon URL per host (http and https only).
    pub favicons: IconMap,
    /// Visit count per distinct URL, kept in step with `history`.
    pub url_counts: StringHashMap<usize>,
    /// `history[history_saved..]` has not been appended to the history file
    /// yet.
    pub history_saved: usize,
    /// Lines already on disk were changed (late title, trim, clear): the file
    /// needs a full rewrite. Holds the time at which that was first flagged,
    /// on the monotonic clock in nanoseconds.
    pub history_rewrite_since: Option<u64>,
}

// ---- the model ----------------------------------------------------------

/// How often `url` occurs among the visits.
pub open spec fn occurrences(h: Seq<HistoryEntry>, url: Seq<char>) -> nat
    decreases h.len(),
{
    if h.len() == 0 {
        0
    } else {
        occurrences(h.drop_last(), url) + if h.last().url@ == url {
            1nat
        } else {
            0nat
        }
    }
}

/// The counts say how often each URL occurs, and name no other URL.
pub open spec fn counted(counts: Map<Seq<char>, usize>, h: Seq<HistoryEntry>) -> bool {
    forall|u: Seq<char>|
        #![trigger counts.contains_key(u)]
        #![trigger occurrences(h, u)]
        counts.contains_key(u) == (occurrences(h, u) > 0) && (counts.contains_key(u) ==> counts[u]
            == occurrences(h, u))
}

/// Index of the most recent visit to `url`.
pub open spec fn last_visit(h: Seq<HistoryEntry>, url: Seq<char>) -> Option<int>
    decreases h.len(),
{
    if h.len() == 0 {
        None
    } else if h.last().url@ == url {
        Some(h.len() - 1)
    } else {
        last_visit(h.drop_last(), url)
    }
}

/// What an entry says.
#[verifier::ext_equal]
pub struct Visit {
    pub url: Seq<char>,
    pub title: Seq<char>,
    pub ts: u64,
}

impl View for HistoryEntry {
    type V = Visit;

    open spec fn view(&self) -> Visit {
        Visit { url: self.url@, title: self.title@, ts: self.ts }
    }
}

pub open spec fn visits(h: Seq<HistoryEntry>) -> Seq<Visit> {
    h.map_values(|e: HistoryEntry| e@)
}

/// Would a visit to `url` repeat the last one?
pub open spec fn repeats(h: Seq<HistoryEntry>, url: Seq<char>) -> bool {
    h.len() > 0 && h.last().url@ == url
}

/// A list of visits once it was cut down to its cap, if it had grown past the
/// limit: the oldest are gone.
pub open spec fn capped<T>(h: Seq<T>) -> Seq<T> {
    if h.len() > HISTORY_TRIM_AT {
        h.skip(h.len() - HISTORY_CAP)
    } else {
        h
    }
}

/// How many entries of a list of `n`, cut down to its cap if need be, are on
/// disk.
pub open spec fn saved_after(saved: int, n: nat) -> int {
    if n <= HISTORY_TRIM_AT {
        saved
    } else if saved > n - HISTORY_CAP {
        saved - (n - HISTORY_CAP)
    } else {
        0
    }
}

/// `after` is `before` with a visit recorded: nothing changes where it repeats
/// the last one, else it comes last, and a list past its limit is cut down.
pub open spec fn recorded(before: Store, after: Store, v: Visit, now: u64) -> bool {
    if repeats(before.history@, v.url) {
        after == before
    } else {
        let n = before.history@.len() + 1;
        &&& visits(after.history@) == capped(visits(before.history@).push(v))
        &&& after.history_saved == saved_after(before.history_saved as int, n)
        &&& after.history_rewrite_since == (if n > HISTORY_TRIM_AT {
            flagged(before.history_rewrite_since, now)
        } else {
            before.history_rewrite_since
        })
        &&& after == (Store {
            history: after.history,
            url_counts: after.url_counts,
            history_saved: after.history_saved,
            history_rewrite_since: after.history_rewrite_since,
            ..before
        })
    }
}

/// `after` is `before` with the title of the most recent visit to `url` filled
/// in; `r` says whether that changed anything.
pub open spec fn titled(
    before: Store,
    after: Store,
    url: Seq<char>,
    title: Seq<char>,
    now: u64,
    r: bool,
) -> bool {
    match last_visit(before.history@, url) {
        Some(i) if title.len() > 0 && before.history@[i].title@ != title => {
            &&& r
            &&& visits(after.history@) == visits(before.history@).update(
                i,
                Visit { title, ..before.history@[i]@ },
            )
            &&& after.history_rewrite_since == (if i < before.history_saved {
                flagged(before.history_rewrite_since, now)
            } else {
                before.history_rewrite_since
            })
            &&& after == (Store {
                history: after.history,
                history_rewrite_since: after.history_rewrite_since,
                ..before
            })
        },
        _ => !r && after == before,
    }
}

/// A history file with these visits holds what the store takes to be saved,
/// unless a rewrite is flagged.
pub open spec fn in_step(file: Seq<Visit>, s: Store) -> bool {
    s.history_rewrite_since is None ==> file == visits(s.history@.take(s.history_saved as int))
}

/// Whatever `after` changed of the lines on disk, it flagged for a rewrite: a
/// file in step with `before` is in step with `after`.
pub open spec fn keeps_step(before: Store, after: Store) -> bool {
    forall|file: Seq<Visit>| in_step(file, before) ==> #[trigger] in_step(file, after)
}

/// A rewrite stays flagged from the first time.
pub open spec fn flagged(since: Option<u64>, now: u64) -> Option<u64> {
    match since {
        Some(t) => Some(t),
        None => Some(now),
    }
}

impl Store {
    /// The indexes agree with the history, and no more of it is on disk than
    /// there is.
    pub open spec fn wf(&self) -> bool {
        &&& counted(self.url_counts@, self.history@)
        &&& self.history_saved <= self.history@.len()
        &&& self.favicons.wf()
    }
}

pub proof fn lemma_occurrences_add(a: Seq<HistoryEntry>, b: Seq<HistoryEntry>, url: Seq<char>)
    ensures
        occurrences(a + b, url) == occurrences(a, url) + occurrences(b, url),
    decreases b.len(),
{
    if b.len() == 0 {
        assert(a + b == a);
    } else {
        lemma_occurrences_add(a, b.drop_last(), url);
        assert((a + b).drop_last() == a + b.drop_last());
    }
}

pub proof fn lemma_occurrences_bound(h: Seq<HistoryEntry>, url: Seq<char>)
    ensures
        occurrences(h, url) <= h.len(),
    decreases h.len(),
{
    if h.len() > 0 {
        lemma_occurrences_bound(h.drop_last(), url);
    }
}

pub proof fn lemma_last_visit(h: Seq<HistoryEntry>, url: Seq<char>)
    ensures
        match last_visit(h, url) {
            Some(i) => 0 <= i < h.len() && h[i].url@ == url && forall|j: int|
                i < j < h.len() ==> (#[trigger] h[j]).url@ != url,
            None => forall|j: int| 0 <= j < h.len() ==> (#[trigger] h[j]).url@ != url,
        },
        (last_visit(h, url) is Some) == (occurrences(h, url) > 0),
    decreases h.len(),
{
    if h.len() > 0 {
        lemma_last_visit(h.drop_last(), url);
        assert forall|j: int| 0 <= j < h.len() - 1 implies h[j] == #[trigger] h.drop_last()[j] by {}
        if h.last().url@ != url {
            assert forall|j: int|
                (match last_visit(h, url) {
                    Some(i) => i < j < h.len(),
                    None => 0 <= j < h.len(),
                }) implies (#[trigger] h[j]).url@ != url by {
                if j < h.len() - 1 {
                    assert(h.drop_last()[j] == h[j]);
                }
            }
        }
    }
}

// ---- visit counts -------------------------------------------------------

/// One more visit to `url`.
fn count(counts: &mut StringHashMap<usize>, url: &str, h: Ghost<Seq<HistoryEntry>>)
    requires
        counted(old(counts)@, h@),
        h@.len() < usize::MAX,
    ensures
        final(counts)@ == old(counts)@.insert(url@, (occurrences(h@, url@) + 1) as usize),
{
    proof {
        lemma_occurrences_bound(h@, url@);
    }
    let n: usize = match counts.get(url) {
        Some(c) => *c,
        None => 0,
    };
    counts.insert(url.to_owned(), n + 1);
}

/// One visit fewer to `url`.
fn uncount(counts: &mut StringHashMap<usize>, url: &str)
    requires
        old(counts)@.contains_key(url@) ==> old(counts)@[url@] > 0,
    ensures
        final(counts)@ == (if !old(counts)@.contains_key(url@) {
            old(counts)@
        } else if old(counts)@[url@] == 1 {
            old(counts)@.remove(url@)
        } else {
            old(counts)@.insert(url@, (old(counts)@[url@] - 1) as usize)
        }),
{
    let n: Option<usize> = match counts.get(url) {
        Some(c) => Some(*c),
        None => None,
    };
    if let Some(c) = n {
        if c == 1 {
            counts.remove(url);
        } else {
            counts.insert(url.to_owned(), c - 1);
        }
    }
}

impl Store {
    fn flag_rewrite(&mut self, now: u64)
        ensures
            *final(self) == (Store {
                history_rewrite_since: flagged(old(self).history_rewrite_since, now),
                ..*old(self)
            }),
    {
        if self.history_rewrite_since.is_none() {
            self.history_rewrite_since = Some(now);
        }
    }

    /// Cut the history down to its cap, if it has grown past the limit.
    fn trim_history(&mut self, now: u64)
        requires
            old(self).wf(),
        ensures
            final(self).wf(),
            final(self).history@ == capped(old(self).history@),
            old(self).history@.len() > HISTORY_TRIM_AT ==> final(self).history_rewrite_since
                == flagged(old(self).history_rewrite_since, now),
            final(self).history_saved == saved_after(
                old(self).history_saved as int,
                old(self).history@.len(),
            ),
            old(self).history@.len() <= HISTORY_TRIM_AT ==> *final(self) == *old(self),
            *final(self) == (Store {
                history: final(self).history,
                url_counts: final(self).url_counts,
                history_saved: final(self).history_saved,
                history_rewrite_since: final(self).history_rewrite_since,
                ..*old(self)
            }),
    {
        let n = self.history.len();
        if n <= HISTORY_TRIM_AT {
            return ;
        }
        let excess: usize = n - HISTORY_CAP;
        let ghost all = self.history@;
        let mut i: usize = 0;
        assert(all.skip(0) == all);
        while i < excess
            invariant
                i <= excess,
                excess < n,
                n == self.history@.len(),
                self.history@ == all,
                counted(self.url_counts@, all.skip(i as int)),
                *self == (Store { url_counts: self.url_counts, ..*old(self) }),
            decreases excess - i,
        {
            let ghost rest = all.skip(i as int);
            let ghost next = all.skip(i + 1);
            proof {
                assert(rest == seq![all[i as int]] + next);
                assert forall|u: Seq<char>| occurrences(rest, u) == occurrences(next, u) + if all[i as int].url@
                    == u {
                    1nat
                } else {
                    0nat
                } by {
                    lemma_occurrences_add(seq![all[i as int]], next, u);
                    reveal_with_fuel(occurrences, 2);
                    assert(seq![all[i as int]].drop_last() == Seq::<HistoryEntry>::empty());
                    lemma_occurrences_bound(rest, u);
                }
                lemma_occurrences_bound(rest, all[i as int].url@);
                assert(occurrences(rest, all[i as int].url@) > 0);
            }
            uncount(&mut self.url_counts, self.history[i].url.as_str());
            assert(counted(self.url_counts@, next));
            i += 1;
        }
        let tail = self.history.split_off(excess);
        self.history = tail;
        self.history_saved = if self.history_saved > excess {
            self.history_saved - excess
        } else {
            0
        };
        self.flag_rewrite(now);
    }

    /// Record a page visit at `ts`. Skips an immediate duplicate of the last
    /// entry so that reloads and redirects do not pile up.
    pub fn record_visit_at(&mut self, url: &str, title: &str, ts: u64, now: u64)
        requires
            old(self).wf(),
            old(self).history@.len() < usize::MAX,
        ensures
            final(self).wf(),
            keeps_step(*old(self), *final(self)),
            recorded(*old(self), *final(self), Visit { url: url@, title: title@, ts }, now),
    {
        let n = self.history.len();
        if n > 0 && text_eq(self.history[n - 1].url.as_str(), url) {
            return ;
        }
        let ghost before = self.history@;
        let ghost counts = self.url_counts@;
        count(&mut self.url_counts, url, Ghost(before));
        self.history.push(HistoryEntry { url: url.to_owned(), title: title.to_owned(), ts });
        assert(self.history@.drop_last() == before);
        assert(counted(self.url_counts@, self.history@)) by {
            lemma_occurrences_bound(before, url@);
            assert forall|u: Seq<char>|
                #![trigger self.url_counts@.contains_key(u)]
                #![trigger occurrences(self.history@, u)]
                self.url_counts@.contains_key(u) == (occurrences(self.history@, u) > 0) && (
                self.url_counts@.contains_key(u) ==> self.url_counts@[u] == occurrences(
                    self.history@,
                    u,
                )) by {
                assert(counts.contains_key(u) == (occurrences(before, u) > 0));
            }
        }
        let ghost grown = self.history@;
        self.trim_history(now);
        assert(visits(grown) == visits(before).push(Visit { url: url@, title: title@, ts }));
        assert(visits(capped(grown)) == capped(visits(grown)));
        assert(before.take(old(self).history_saved as int) == grown.take(
            old(self).history_saved as int,
        ));
    }

    /// Record a page visit now.
    pub fn record_visit(&mut self, url: &str, title: &str, now: u64)
        requires
            old(self).wf(),
            old(self).history@.len() < usize::MAX,
        ensures
            final(self).wf(),
            keeps_step(*old(self), *final(self)),
            exists|ts: u64| #[trigger]
                recorded(*old(self), *final(self), Visit { url: url@, title: title@, ts }, now),
    {
        let ts = now_secs();
        self.record_visit_at(url, title, ts, now);
    }

    /// How often `url` was visited, as far as the history goes back.
    pub fn visit_count(&self, url: &str) -> (r: usize)
        requires
            self.wf(),
        ensures
            r == occurrences(self.history@, url@),
    {
        match self.url_counts.get(url) {
            Some(c) => *c,
            None => 0,
        }
    }

    /// Fill in the title of the most recent visit to `url` (titles arrive after
    /// the navigation that created the entry). Returns whether anything
    /// changed.
    pub fn set_title_for(&mut self, url: &str, title: &str, now: u64) -> (r: bool)
        requires
            old(self).wf(),
        ensures
            final(self).wf(),
            keeps_step(*old(self), *final(self)),
            titled(*old(self), *final(self), url@, title@, now, r),
    {
        if title.is_empty() {
            return false;
        }
        let i = match self.last_visit_to(url) {
            Some(i) => i,
            None => {
                return false;
            },
        };
        if text_eq(self.history[i].title.as_str(), title) {
            return false;
        }
        let entry = HistoryEntry {
            url: self.history[i].url.clone(),
            title: title.to_owned(),
            ts: self.history[i].ts,
        };
        let ghost before = self.history@;
        self.history.set(i, entry);
        assert forall|u: Seq<char>| #[trigger]
            occurrences(self.history@, u) == occurrences(before, u) by {
            lemma_same_urls(before, self.history@, u);
        }
        assert(visits(self.history@) == visits(before).update(
            i as int,
            Visit { title: title@, ..before[i as int]@ },
        ));
        assert(i >= self.history_saved ==> before.take(self.history_saved as int)
            == self.history@.take(self.history_saved as int));
        if i < self.history_saved {
            self.flag_rewrite(now);
        }
        true
    }

    fn last_visit_to(&self, url: &str) -> (r: Option<usize>)
        ensures
            match r {
                Some(i) => i < self.history@.len() && last_visit(self.history@, url@) == Some(
                    i as int,
                ),
                None => last_visit(self.history@, url@) is None,
            },
    {
        let mut n = self.history.len();
        assert(self.history@.take(n as int) == self.history@);
        while n > 0
            invariant
                n <= self.history@.len(),
                last_visit(self.history@, url@) == last_visit(self.history@.take(n as int), url@),
            decreases n,
        {
            let ghost upto = self.history@.take(n as int);
            if text_eq(self.history[n - 1].url.as_str(), url) {
                return Some(n - 1);
            }
            assert(upto.drop_last() == self.history@.take(n - 1));
            n -= 1;
        }
        None
    }

    /// Forget every visit.
    pub fn clear_history(&mut self, now: u64)
        requires
            old(self).wf(),
        ensures
            final(self).wf(),
            keeps_step(*old(self), *final(self)),
            final(self).history@ == Seq::<HistoryEntry>::empty(),
            *final(self) == (Store {
                history: final(self).history,
                url_counts: final(self).url_counts,
                history_saved: 0,
                history_rewrite_since: flagged(old(self).history_rewrite_since, now),
                ..*old(self)
            }),
    {
        self.history.clear();
        self.url_counts.clear();
        self.history_saved = 0;
        self.flag_rewrite(now);
    }

    /// Rebuild the indexes after (re)loading the history.
    pub fn reindex(&mut self)
        requires
            old(self).favicons.wf(),
        ensures
            final(self).wf(),
            final(self).history_saved == old(self).history@.len(),
            *final(self) == (Store {
                url_counts: final(self).url_counts,
                history_saved: final(self).history_saved,
                history_rewrite_since: None,
                ..*old(self)
            }),
    {
        self.url_counts.clear();
        let n = self.history.len();
        let mut i: usize = 0;
        while i < n
            invariant
                i <= n,
                n == self.history@.len(),
                counted(self.url_counts@, self.history@.take(i as int)),
                *self == (Store { url_counts: self.url_counts, ..*old(self) }),
            decreases n - i,
        {
            let ghost before = self.history@.take(i as int);
            let ghost counts = self.url_counts@;
            let ghost after = self.history@.take(i + 1);
            let url = self.history[i].url.clone();
            count(&mut self.url_counts, url.as_str(), Ghost(before));
            proof {
                assert(after.drop_last() == before);
                lemma_occurrences_bound(before, url@);
                assert forall|u: Seq<char>|
                    #![trigger self.url_counts@.contains_key(u)]
                    #![trigger occurrences(after, u)]
                    self.url_counts@.contains_key(u) == (occurrences(after, u) > 0) && (
                    self.url_counts@.contains_key(u) ==> self.url_counts@[u] == occurrences(
                        after,
                        u,
                    )) by {
                    assert(counts.contains_key(u) == (occurrences(before, u) > 0));
                }
            }
            i += 1;
        }
        assert(self.history@.take(n as int) == self.history@);
        self.history_saved = n;
        self.history_rewrite_since = None;
    }
}

// ---- history page -------------------------------------------------------

/// Does a page with this address and title (all in lower case) match the search
/// text `q`?
pub open spec fn shows_in(q: Seq<char>, url: Seq<char>, title: Seq<char>) -> bool {
    q.len() == 0 || has_part(url, q) || has_part(title, q)
}

/// Does a visit match the (trimmed, lower-case) search text `q`?
pub open spec fn shows(q: Seq<char>, v: Visit) -> bool {
    shows_in(q, lowercase(v.url), lowercase(v.title))
}

pub open spec fn showing(q: Seq<char>) -> spec_fn(HistoryEntry) -> bool {
    |e: HistoryEntry| shows(q, e@)
}

/// The visits that match a search, newest first.
pub open spec fn found(h: Seq<HistoryEntry>, query: Seq<char>) -> Seq<HistoryEntry> {
    h.reverse().filter(showing(lowercase(trimmed(query))))
}

/// At most `limit` elements of `s` from `offset` on.
pub open spec fn page<T>(s: Seq<T>, offset: int, limit: int) -> Seq<T> {
    if offset >= s.len() {
        Seq::empty()
    } else if offset + limit >= s.len() {
        s.skip(offset)
    } else {
        s.subrange(offset, offset + limit)
    }
}

/// The hosts that the visits were to.
pub open spec fn hosts(h: Seq<HistoryEntry>) -> Set<Seq<char>>
    decreases h.len(),
{
    if h.len() == 0 {
        Set::empty()
    } else {
        with_host(hosts(h.drop_last()), h.last().url@)
    }
}

/// `set` and the host of `url`, where it has one.
pub open spec fn with_host(set: Set<Seq<char>>, url: Seq<char>) -> Set<Seq<char>> {
    match host_text(url) {
        Some(host) => set.insert(host),
        None => set,
    }
}

/// Does a page match a search text? All three texts are in lower case.
pub fn shown_in(q: &[char], url: &[char], title: &[char]) -> (r: bool)
    ensures
        r == shows_in(q@, url@, title@),
{
    q.len() == 0 || contains(url, q) || contains(title, q)
}

fn shown(q: &[char], e: &HistoryEntry) -> (r: bool)
    ensures
        r == shows(q@, e@),
{
    let url = chars_of(to_lowercase(e.url.as_str()).as_str());
    let title = chars_of(to_lowercase(e.title.as_str()).as_str());
    shown_in(q, url.as_slice(), title.as_slice())
}

impl Store {
    /// Newest-first page of history, optionally filtered by a case-insensitive
    /// part of URL or title.
    pub fn history_page(&self, offset: usize, limit: usize, query: &str) -> (r: HistoryPage)
        requires
            self.favicons.wf(),
        ensures
            r.entries@ == page(found(self.history@, query@), offset as int, limit as int),
            r.total == found(self.history@, query@).len(),
            r.favicons.wf(),
            r.favicons@ == self.favicons@.restrict(hosts(r.entries@)),
    {
        let typed = chars_of(query);
        let low = to_lowercase(string_of(trim(typed.as_slice())).as_str());
        let q = chars_of(low.as_str());
        let ghost newest = self.history@.reverse();
        let ghost p = showing(q@);
        let n = self.history.len();
        let mut total: usize = 0;
        let mut entries: Vec<HistoryEntry> = Vec::new();
        let mut k: usize = 0;
        proof {
            reveal(Seq::filter);
            assert(newest.take(0).filter(p) == Seq::<HistoryEntry>::empty());
        }
        while k < n
            invariant
                k <= n,
                n == self.history@.len(),
                newest == self.history@.reverse(),
                p == showing(q@),
                total <= k,
                total == newest.take(k as int).filter(p).len(),
                entries@ == page(newest.take(k as int).filter(p), offset as int, limit as int),
            decreases n - k,
        {
            let e = &self.history[n - 1 - k];
            proof {
                reveal(Seq::filter);
                assert(newest.take(k + 1).drop_last() == newest.take(k as int));
                assert(newest[k as int] == *e);
            }
            if shown(q.as_slice(), e) {
                if total >= offset && entries.len() < limit {
                    entries.push(e.clone());
                }
                total += 1;
            }
            k += 1;
        }
        assert(newest.take(n as int) == newest);
        let favicons = self.icons_of(&entries);
        HistoryPage { entries, total, favicons }
    }

    /// The cached icons of the hosts that were visited.
    fn icons_of(&self, entries: &Vec<HistoryEntry>) -> (r: IconMap)
        ensures
            r.wf(),
            r@ == self.favicons@.restrict(hosts(entries@)),
    {
        let mut icons = IconMap::new();
        let mut i: usize = 0;
        assert(icons@ =~= self.favicons@.restrict(hosts(entries@.take(0))));
        while i < entries.len()
            invariant
                i <= entries@.len(),
                icons.wf(),
                icons@ == self.favicons@.restrict(hosts(entries@.take(i as int))),
            decreases entries@.len() - i,
        {
            proof {
                assert(entries@.take(i + 1).drop_last() == entries@.take(i as int));
            }
            if let Some(host) = host_of(entries[i].url.as_str()) {
                if let Some(icon) = self.favicons.get(host.as_str()) {
                    icons.insert(host, icon);
                }
            }
            assert(icons@ =~= self.favicons@.restrict(hosts(entries@.take(i + 1))));
            i += 1;
        }
        assert(entries@.take(entries@.len() as int) == entries@);
        icons
    }
}

// ---- bookmarks and favicons ---------------------------------------------

pub open spec fn bookmarked(b: Seq<Bookmark>, url: Seq<char>) -> bool {
    exists|i: int| 0 <= i < b.len() && (#[trigger] b[i]).url@ == url
}

pub open spec fn not_at(url: Seq<char>) -> spec_fn(Bookmark) -> bool {
    |b: Bookmark| b.url@ != url
}

/// The icon of a page, by its host.
pub open spec fn icon_for(icons: Map<Seq<char>, Seq<char>>, url: Seq<char>) -> Option<Seq<char>> {
    match host_text(url) {
        Some(host) => if icons.contains_key(host) {
            Some(icons[host])
        } else {
            None
        },
        None => None,
    }
}

/// A text, or the empty one where there is none.
pub open spec fn or_empty(t: Option<Seq<char>>) -> Seq<char> {
    match t {
        Some(s) => s,
        None => Seq::empty(),
    }
}

/// Icons worth caching: http(s) URLs of a sensible size.
pub open spec fn cacheable(icon: Seq<char>) -> bool {
    (has_prefix(icon, "http://"@) || has_prefix(icon, "https://"@)) && utf8_len(icon) <= 2048
}

/// The hosts of the bookmarks.
pub open spec fn bookmark_hosts(b: Seq<Bookmark>) -> Set<Seq<char>>
    decreases b.len(),
{
    if b.len() == 0 {
        Set::empty()
    } else {
        with_host(bookmark_hosts(b.drop_last()), b.last().url@)
    }
}

/// `keep` and the most recently visited hosts, until there are half as many as
/// the cache may hold.
pub open spec fn with_recent_hosts(keep: Set<Seq<char>>, h: Seq<HistoryEntry>) -> Set<Seq<char>>
    decreases h.len(),
{
    if h.len() == 0 || keep.len() >= FAVICON_CAP / 2 {
        keep
    } else {
        with_recent_hosts(with_host(keep, h.last().url@), h.drop_last())
    }
}

/// The hosts whose icons survive when the cache is cut down.
pub open spec fn kept_hosts(b: Seq<Bookmark>, h: Seq<HistoryEntry>) -> Set<Seq<char>> {
    with_recent_hosts(bookmark_hosts(b), h)
}

/// The cache once `icon` was set for `host`.
pub open spec fn icons_after(
    icons: Map<Seq<char>, Seq<char>>,
    host: Seq<char>,
    icon: Seq<char>,
    keep: Set<Seq<char>>,
) -> Map<Seq<char>, Seq<char>> {
    let all = icons.insert(host, icon);
    if all.dom().len() > FAVICON_CAP {
        all.restrict(keep)
    } else {
        all
    }
}

/// `after` is `before` with `icon` remembered for the host of `url`; `r` says
/// whether the cache was written.
pub open spec fn icon_set(
    before: Store,
    after: Store,
    url: Seq<char>,
    icon: Seq<char>,
    r: bool,
) -> bool {
    icon_set_for(before, after, host_text(url), icon, r)
}

/// ... given the host, where there is one.
pub open spec fn icon_set_for(
    before: Store,
    after: Store,
    host: Option<Seq<char>>,
    icon: Seq<char>,
    r: bool,
) -> bool {
    match host {
        Some(host) if cacheable(icon) && !(before.favicons@.contains_key(host)
            && before.favicons@[host] == icon) => {
            &&& r
            &&& after.favicons@ == icons_after(
                before.favicons@,
                host,
                icon,
                kept_hosts(before.bookmarks@, before.history@),
            )
            &&& after == (Store { favicons: after.favicons, ..before })
        },
        _ => !r && after == before,
    }
}

impl Store {
    pub fn is_bookmarked(&self, url: &str) -> (r: bool)
        ensures
            r == bookmarked(self.bookmarks@, url@),
    {
        let mut i: usize = 0;
        while i < self.bookmarks.len()
            invariant
                i <= self.bookmarks@.len(),
                forall|j: int| 0 <= j < i ==> (#[trigger] self.bookmarks@[j]).url@ != url@,
            decreases self.bookmarks@.len() - i,
        {
            if text_eq(self.bookmarks[i].url.as_str(), url) {
                return true;
            }
            i += 1;
        }
        false
    }

    /// Add a bookmark, unless the page has one.
    pub fn add_bookmark(&mut self, title: &str, url: &str)
        ensures
            bookmarked(old(self).bookmarks@, url@) ==> *final(self) == *old(self),
            !bookmarked(old(self).bookmarks@, url@) ==> {
                &&& final(self).bookmarks@.len() == old(self).bookmarks@.len() + 1
                &&& final(self).bookmarks@.drop_last() == old(self).bookmarks@
                &&& final(self).bookmarks@.last().title@ == title@
                &&& final(self).bookmarks@.last().url@ == url@
            },
            bookmarked(final(self).bookmarks@, url@),
            *final(self) == (Store { bookmarks: final(self).bookmarks, ..*old(self) }),
    {
        if !self.is_bookmarked(url) {
            self.bookmarks.push(Bookmark { title: title.to_owned(), url: url.to_owned() });
            assert(self.bookmarks@.last().url@ == url@);
        }
    }

    /// Remove every bookmark of a page; the others stay in their order.
    pub fn remove_bookmark(&mut self, url: &str)
        ensures
            final(self).bookmarks@ == old(self).bookmarks@.filter(not_at(url@)),
            !bookmarked(final(self).bookmarks@, url@),
            *final(self) == (Store { bookmarks: final(self).bookmarks, ..*old(self) }),
    {
        let mut kept: Vec<Bookmark> = Vec::new();
        let mut i: usize = 0;
        proof {
            reveal(Seq::filter);
            assert(self.bookmarks@.take(0).filter(not_at(url@)) == Seq::<Bookmark>::empty());
        }
        while i < self.bookmarks.len()
            invariant
                i <= self.bookmarks@.len(),
                kept@ == self.bookmarks@.take(i as int).filter(not_at(url@)),
                forall|j: int| 0 <= j < kept@.len() ==> (#[trigger] kept@[j]).url@ != url@,
            decreases self.bookmarks@.len() - i,
        {
            proof {
                reveal(Seq::filter);
                assert(self.bookmarks@.take(i + 1).drop_last() == self.bookmarks@.take(i as int));
            }
            if !text_eq(self.bookmarks[i].url.as_str(), url) {
                kept.push(self.bookmarks[i].clone());
            }
            i += 1;
        }
        assert(self.bookmarks@.take(self.bookmarks@.len() as int) == self.bookmarks@);
        self.bookmarks = kept;
    }

    /// Bookmarks with their cached favicons, for the UI.
    pub fn bookmarks_view(&self) -> (r: Vec<BookmarkView>)
        ensures
            r@.len() == self.bookmarks@.len(),
            forall|i: int|
                0 <= i < r@.len() ==> (#[trigger] r@[i]).title == self.bookmarks@[i].title
                    && r@[i].url == self.bookmarks@[i].url && r@[i].favicon@ == or_empty(
                    icon_for(self.favicons@, self.bookmarks@[i].url@),
                ),
    {
        let mut views: Vec<BookmarkView> = Vec::new();
        let mut i: usize = 0;
        while i < self.bookmarks.len()
            invariant
                i <= self.bookmarks@.len(),
                views@.len() == i,
                forall|j: int|
                    0 <= j < i ==> (#[trigger] views@[j]).title == self.bookmarks@[j].title
                        && views@[j].url == self.bookmarks@[j].url && views@[j].favicon@
                        == or_empty(icon_for(self.favicons@, self.bookmarks@[j].url@)),
            decreases self.bookmarks@.len() - i,
        {
            let b = &self.bookmarks[i];
            let favicon = match self.favicon_for(b.url.as_str()) {
                Some(icon) => icon,
                None => String::new(),
            };
            views.push(BookmarkView { title: b.title.clone(), url: b.url.clone(), favicon });
            i += 1;
        }
        views
    }

    /// Cached favicon URL for a page URL's host.
    pub fn favicon_for(&self, url: &str) -> (r: Option<String>)
        ensures
            opt_text(r) == icon_for(self.favicons@, url@),
    {
        match host_of(url) {
            Some(host) => self.favicons.get(host.as_str()),
            None => None,
        }
    }

    /// Remember `icon` (an http(s) URL) for `page_url`'s host. Returns whether
    /// the cache was written. Data URLs and oversized values are not stored.
    pub fn set_favicon(&mut self, page_url: &str, icon: &str) -> (r: bool)
        requires
            old(self).favicons.wf(),
        ensures
            final(self).favicons.wf(),
            icon_set(*old(self), *final(self), page_url@, icon@, r),
    {
        let host = host_of(page_url);
        self.cache_icon(host, icon)
    }

    /// Remember `icon` for a host, where there is one.
    pub fn cache_icon(&mut self, host: Option<String>, icon: &str) -> (r: bool)
        requires
            old(self).favicons.wf(),
        ensures
            final(self).favicons.wf(),
            icon_set_for(*old(self), *final(self), opt_text(host), icon@, r),
    {
        if !(begins(icon, "http://") || begins(icon, "https://")) || byte_len(icon) > 2048 {
            return false;
        }
        let host = match host {
            Some(host) => host,
            None => {
                return false;
            },
        };
        if let Some(known) = self.favicons.get(host.as_str()) {
            if text_eq(known.as_str(), icon) {
                return false;
            }
        }
        self.favicons.insert(host, icon.to_owned());
        if self.favicons.len() > FAVICON_CAP {
            self.prune_favicons();
        }
        true
    }

    /// Keep icons for bookmarked hosts and the most recently visited hosts.
    fn prune_favicons(&mut self)
        requires
            old(self).favicons.wf(),
        ensures
            final(self).favicons.wf(),
            final(self).favicons@ == old(self).favicons@.restrict(
                kept_hosts(old(self).bookmarks@, old(self).history@),
            ),
            *final(self) == (Store { favicons: final(self).favicons, ..*old(self) }),
    {
        let mut keep = StringHashSet::new();
        let mut i: usize = 0;
        assert(keep@ =~= bookmark_hosts(self.bookmarks@.take(0)));
        while i < self.bookmarks.len()
            invariant
                i <= self.bookmarks@.len(),
                keep@ == bookmark_hosts(self.bookmarks@.take(i as int)),
            decreases self.bookmarks@.len() - i,
        {
            assert(self.bookmarks@.take(i + 1).drop_last() == self.bookmarks@.take(i as int));
            if let Some(host) = host_of(self.bookmarks[i].url.as_str()) {
                keep.insert(host);
            }
            i += 1;
        }
        assert(self.bookmarks@.take(self.bookmarks@.len() as int) == self.bookmarks@);
        let mut n = self.history.len();
        assert(self.history@.take(n as int) == self.history@);
        while n > 0 && keep.len() < FAVICON_CAP / 2
            invariant
                n <= self.history@.len(),
                kept_hosts(self.bookmarks@, self.history@) == with_recent_hosts(
                    keep@,
                    self.history@.take(n as int),
                ),
            decreases n,
        {
            let ghost upto = self.history@.take(n as int);
            assert(upto.drop_last() == self.history@.take(n - 1));
            if let Some(host) = host_of(self.history[n - 1].url.as_str()) {
                keep.insert(host);
            }
            n -= 1;
        }
        self.favicons.keep_only(&keep);
    }
}

/// Changing a title changes no count.
proof fn lemma_same_urls(a: Seq<HistoryEntry>, b: Seq<HistoryEntry>, url: Seq<char>)
    requires
        a.len() == b.len(),
        forall|i: int| 0 <= i < a.len() ==> (#[trigger] a[i]).url@ == b[i].url@,
    ensures
        occurrences(a, url) == occurrences(b, url),
    decreases a.len(),
{
    if a.len() > 0 {
        assert forall|i: int| 0 <= i < a.len() - 1 implies (#[trigger] a.drop_last()[i]).url@
            == b.drop_last()[i].url@ by {
            assert(a[i].url@ == b[i].url@);
        }
        lemma_same_urls(a.drop_last(), b.drop_last(), url);
    }
}

impl Default for Store {
    fn default() -> (r: Self)
        ensures
            r.wf(),
            r.bookmarks@.len() == 0,
            r.history@.len() == 0,
            r.session@.len() == 0,
            r.session_active == 0,
            r.favicons@ == Map::<Seq<char>, Seq<char>>::empty(),
            r.history_saved == 0,
            r.history_rewrite_since is None,
            is_default(r.settings),
    {
        Store {
            settings: Settings::default(),
            bookmarks: Vec::new(),
            history: Vec::new(),
            session: Vec::new(),
            session_active: 0,
            favicons: IconMap::new(),
            url_counts: StringHashMap::new(),
            history_saved: 0,
            history_rewrite_since: None,
        }
    }
}

// ---- laws ---------------------------------------------------------------

/// The history never outgrows its limit, and past it only the newest visits
/// are kept.
pub proof fn law_history_is_capped(h: Seq<Visit>, v: Visit)
    requires
        h.len() <= HISTORY_TRIM_AT,
    ensures
        capped(h.push(v)).len() <= HISTORY_TRIM_AT,
        capped(h.push(v)).last() == v,
        exists|k: int| 0 <= k <= h.len() && capped(h.push(v)) == #[trigger] h.push(v).skip(k),
{
    if h.len() < HISTORY_TRIM_AT {
        assert(h.push(v).skip(0) == capped(h.push(v)));
    } else {
        assert(capped(h.push(v)) == h.push(v).skip(h.len() + 1 - HISTORY_CAP));
    }
}

proof fn lemma_bookmark_hosts_finite(b: Seq<Bookmark>)
    ensures
        bookmark_hosts(b).finite(),
    decreases b.len(),
{
    if b.len() > 0 {
        lemma_bookmark_hosts_finite(b.drop_last());
    }
}

proof fn lemma_recent_hosts(keep: Set<Seq<char>>, h: Seq<HistoryEntry>)
    requires
        keep.finite(),
    ensures
        with_recent_hosts(keep, h).finite(),
        with_recent_hosts(keep, h).len() <= keep.len() || with_recent_hosts(keep, h).len()
            <= FAVICON_CAP / 2,
    decreases h.len(),
{
    if h.len() > 0 && keep.len() < FAVICON_CAP / 2 {
        lemma_recent_hosts(with_host(keep, h.last().url@), h.drop_last());
    }
}

/// The icon cache stays within its cap, as long as no more hosts than that are
/// bookmarked (bookmarked hosts always keep their icons).
pub proof fn law_icon_cache_is_capped(
    icons: Map<Seq<char>, Seq<char>>,
    host: Seq<char>,
    icon: Seq<char>,
    b: Seq<Bookmark>,
    h: Seq<HistoryEntry>,
)
    requires
        icons.dom().finite(),
        bookmark_hosts(b).len() <= FAVICON_CAP,
    ensures
        icons_after(icons, host, icon, kept_hosts(b, h)).dom().len() <= FAVICON_CAP,
{
    lemma_bookmark_hosts_finite(b);
    lemma_recent_hosts(bookmark_hosts(b), h);
    let all = icons.insert(host, icon);
    let kept = all.restrict(kept_hosts(b, h));
    assert(kept.dom() =~= all.dom().intersect(kept_hosts(b, h)));
    vstd::set_lib::lemma_len_intersect(kept_hosts(b, h), all.dom());
    assert(kept.dom() =~= kept_hosts(b, h).intersect(all.dom()));
}

/// Every cached icon is an http(s) URL of a sensible size, if it was so before.
pub proof fn law_cached_icons_are_web_urls(
    icons: Map<Seq<char>, Seq<char>>,
    host: Seq<char>,
    icon: Seq<char>,
    keep: Set<Seq<char>>,
)
    requires
        cacheable(icon),
        forall|k: Seq<char>| #[trigger] icons.contains_key(k) ==> cacheable(icons[k]),
    ensures
        forall|k: Seq<char>| #[trigger]
            icons_after(icons, host, icon, keep).contains_key(k) ==> cacheable(
                icons_after(icons, host, icon, keep)[k],
            ),
{
    let all = icons.insert(host, icon);
    assert forall|k: Seq<char>| #[trigger]
        icons_after(icons, host, icon, keep).contains_key(k) implies cacheable(
        icons_after(icons, host, icon, keep)[k],
    ) by {
        assert(all.contains_key(k));
        assert(k != host ==> icons.contains_key(k));
    }
}

/// Adding a bookmark and removing it again leaves the bookmarks as they were,
/// where the page had none.
pub proof fn law_bookmark_toggle(b: Seq<Bookmark>, added: Seq<Bookmark>, url: Seq<char>)
    requires
        !bookmarked(b, url),
        added.len() == b.len() + 1,
        added.drop_last() == b,
        added.last().url@ == url,
    ensures
        added.filter(not_at(url)) == b,
{
    lemma_filter_all(b, url);
    reveal(Seq::filter);
}

proof fn lemma_filter_all(b: Seq<Bookmark>, url: Seq<char>)
    requires
        !bookmarked(b, url),
    ensures
        b.filter(not_at(url)) == b,
    decreases b.len(),
{
    reveal(Seq::filter);
    if b.len() > 0 {
        assert(!bookmarked(b.drop_last(), url)) by {
            if bookmarked(b.drop_last(), url) {
                let i = choose|i: int|
                    0 <= i < b.drop_last().len() && (#[trigger] b.drop_last()[i]).url@ == url;
                assert(b[i].url@ == url);
            }
        }
        assert(b[b.len() - 1].url@ != url);
        lemma_filter_all(b.drop_last(), url);
        assert(b.drop_last().push(b.last()) == b);
    } else {
        assert(b.filter(not_at(url)) =~= b);
    }
}

/// A visit comes last in the history, unless it is to the page visited last,
/// when nothing changes. Up to 5500 visits stay as they are; the one after that
/// leaves the newest 5000, and asks for the history file to be written anew.
pub proof fn law_visits_are_recorded(before: Store, after: Store, v: Visit, now: u64)
    requires
        recorded(before, after, v, now),
        before.history_saved <= before.history@.len() <= 5500,
    ensures
        before.history@.len() > 0 && before.history@.last().url@ == v.url ==> after == before,
        before.history@.len() == 0 || before.history@.last().url@ != v.url ==> {
            &&& visits(after.history@).last() == v
            &&& after.history@.len() == (if before.history@.len() == 5500 {
                5000
            } else {
                before.history@.len() + 1
            })
            &&& forall|k: int|
                1 <= k < after.history@.len() ==> #[trigger] visits(
                    after.history@,
                )[after.history@.len() - 1 - k] == visits(before.history@)[before.history@.len()
                    - k]
            &&& before.history@.len() < 5500 ==> after.history_rewrite_since
                == before.history_rewrite_since && after.history_saved == before.history_saved
            &&& before.history@.len() == 5500 ==> after.history_rewrite_since is Some
            &&& before.history@.len() == 5500 && before.history_saved >= 501
                ==> after.history_saved == before.history_saved - 501
            &&& before.history@.len() == 5500 && before.history_saved < 501
                ==> after.history_saved == 0
        },
        before.history_rewrite_since is Some ==> after.history_rewrite_since
            == before.history_rewrite_since,
{
    assert(visits(after.history@).len() == after.history@.len());
    assert(visits(before.history@).len() == before.history@.len());
}

/// A title that arrives late goes to the newest visit to its page and to no
/// other, and leaves the visit's address and time alone. An empty title changes
/// nothing, nor does one that the visit has already. The file is to be written
/// anew only where it holds that visit.
pub proof fn law_late_titles_go_to_the_newest_visit(
    before: Store,
    after: Store,
    url: Seq<char>,
    title: Seq<char>,
    now: u64,
    r: bool,
    i: int,
)
    requires
        titled(before, after, url, title, now, r),
        0 <= i < before.history@.len(),
        before.history@[i].url@ == url,
        forall|j: int| i < j < before.history@.len() ==> (#[trigger] before.history@[j]).url@ != url,
    ensures
        r <==> title.len() > 0 && before.history@[i].title@ != title,
        !r ==> after == before,
        after.history@.len() == before.history@.len(),
        r ==> visits(after.history@)[i].title == title,
        visits(after.history@)[i].url == url,
        visits(after.history@)[i].ts == before.history@[i].ts,
        forall|j: int|
            0 <= j < before.history@.len() && j != i ==> #[trigger] visits(after.history@)[j]
                == visits(before.history@)[j],
        before.history_rewrite_since is None ==> (after.history_rewrite_since is Some <==> r && i
            < before.history_saved),
        before.history_rewrite_since is Some ==> after.history_rewrite_since
            == before.history_rewrite_since,
{
    lemma_last_visit(before.history@, url);
    assert(visits(after.history@).len() == after.history@.len());
    assert(visits(before.history@).len() == before.history@.len());
    assert(before.history@[i].url@ == url);
}

/// A title for a page that was never visited changes nothing.
pub proof fn law_titles_need_a_visit(
    before: Store,
    after: Store,
    url: Seq<char>,
    title: Seq<char>,
    now: u64,
    r: bool,
)
    requires
        titled(before, after, url, title, now, r),
        forall|j: int| 0 <= j < before.history@.len() ==> (#[trigger] before.history@[j]).url@ != url,
    ensures
        !r,
        after == before,
{
    lemma_last_visit(before.history@, url);
}

/// Each visit counts once, for its own page.
pub proof fn law_visits_count_for_their_page(h: Seq<HistoryEntry>, e: HistoryEntry, url: Seq<char>)
    ensures
        occurrences(Seq::empty(), url) == 0,
        occurrences(h.push(e), e.url@) == occurrences(h, e.url@) + 1,
        e.url@ != url ==> occurrences(h.push(e), url) == occurrences(h, url),
{
    assert(h.push(e).drop_last() =~= h);
}

/// The newest visit leads the search results where it matches: where the text
/// typed, trimmed and in lower case, is part of its address or its title in
/// lower case, or is empty. Otherwise the results are those without it.
pub proof fn law_search_results_come_newest_first(
    h: Seq<HistoryEntry>,
    e: HistoryEntry,
    query: Seq<char>,
    q: Seq<char>,
)
    requires
        q == lowercase(trimmed(query)),
    ensures
        found(Seq::empty(), query) == Seq::<HistoryEntry>::empty(),
        q.len() == 0 || has_part(lowercase(e.url@), q) || has_part(lowercase(e.title@), q)
            ==> found(h.push(e), query) == seq![e] + found(h, query),
        q.len() > 0 && !has_part(lowercase(e.url@), q) && !has_part(lowercase(e.title@), q)
            ==> found(h.push(e), query) == found(h, query),
{
    reveal_with_fuel(Seq::filter, 2);
    let p = showing(q);
    assert(Seq::<HistoryEntry>::empty().reverse() =~= Seq::<HistoryEntry>::empty());
    assert(found(Seq::empty(), query) =~= Seq::<HistoryEntry>::empty());
    assert(h.push(e).reverse() =~= seq![e] + h.reverse());
    Seq::filter_distributes_over_add(seq![e], h.reverse(), p);
    assert(seq![e].drop_last() =~= Seq::<HistoryEntry>::empty());
    if p(e) {
        assert(seq![e].filter(p) =~= seq![e]);
    } else {
        assert(seq![e].filter(p) =~= Seq::<HistoryEntry>::empty());
        assert(Seq::<HistoryEntry>::empty() + h.reverse().filter(p) =~= h.reverse().filter(p));
    }
}

/// Pages of a list follow each other without gap or overlap, each in the list's
/// order, and together they are the list.
pub proof fn law_pages_follow_each_other<T>(s: Seq<T>, offset: int, limit: int, more: int)
    requires
        0 <= offset,
        0 <= limit,
        0 <= more,
    ensures
        page(s, offset, limit) + page(s, offset + limit, more) == page(s, offset, limit + more),
        page(s, 0, s.len() as int) == s,
        page(s, offset, limit).len() <= limit,
        offset + limit <= s.len() ==> page(s, offset, limit).len() == limit,
        forall|i: int|
            0 <= i < page(s, offset, limit).len() ==> #[trigger] page(s, offset, limit)[i]
                == s[offset + i],
{
    assert(page(s, offset, limit) + page(s, offset + limit, more) =~= page(
        s,
        offset,
        limit + more,
    ));
    assert(page(s, 0, s.len() as int) =~= s);
}

/// The hosts of some visits are those of their addresses, and no others.
pub proof fn law_hosts_are_those_visited(h: Seq<HistoryEntry>, host: Seq<char>)
    ensures
        hosts(h).contains(host) <==> exists|i: int|
            0 <= i < h.len() && host_text((#[trigger] h[i]).url@) == Some(host),
    decreases h.len(),
{
    if h.len() > 0 {
        let init = h.drop_last();
        law_hosts_are_those_visited(init, host);
        if hosts(init).contains(host) {
            let i = choose|i: int|
                0 <= i < init.len() && host_text((#[trigger] init[i]).url@) == Some(host);
            assert(host_text(h[i].url@) == Some(host));
        }
        if exists|i: int| 0 <= i < h.len() && host_text((#[trigger] h[i]).url@) == Some(host) {
            let i = choose|i: int|
                0 <= i < h.len() && host_text((#[trigger] h[i]).url@) == Some(host);
            if i < init.len() {
                assert(host_text(init[i].url@) == Some(host));
            }
        }
        assert(host_text(h[h.len() - 1].url@) == host_text(h.last().url@));
    }
}

/// An icon is worth caching where it is an http or https URL of at most 2048
/// bytes.
pub proof fn law_icons_are_short_web_urls(icon: Seq<char>)
    ensures
        cacheable(icon) ==> utf8_len(icon) <= 2048,
        cacheable(icon) ==> icon.len() >= 7 && icon.take(4) == seq!['h', 't', 't', 'p'],
        cacheable(icon) ==> icon.subrange(4, 7) == seq![':', '/', '/'] || (icon.len() >= 8
            && icon.subrange(4, 8) == seq!['s', ':', '/', '/']),
        utf8_len(icon) <= 2048 && icon.len() >= 7 && icon.take(4) == seq!['h', 't', 't', 'p'] && (
        icon.subrange(4, 7) == seq![':', '/', '/'] || (icon.len() >= 8 && icon.subrange(4, 8)
            == seq!['s', ':', '/', '/'])) ==> cacheable(icon),
{
    reveal_strlit("http://");
    reveal_strlit("https://");
    let a = "http://"@;
    let b = "https://"@;
    let h = seq!['h', 't', 't', 'p'];
    assert(a =~= h + seq![':', '/', '/']);
    assert(b =~= h + seq!['s', ':', '/', '/']);
    if has_prefix(icon, a) {
        assert(icon.take(4) =~= icon.take(7).take(4));
        assert(a.take(4) =~= h);
        assert(icon.subrange(4, 7) =~= icon.take(7).subrange(4, 7));
        assert(a.subrange(4, 7) =~= seq![':', '/', '/']);
    }
    if has_prefix(icon, b) {
        assert(icon.take(4) =~= icon.take(8).take(4));
        assert(b.take(4) =~= h);
        assert(icon.subrange(4, 8) =~= icon.take(8).subrange(4, 8));
        assert(b.subrange(4, 8) =~= seq!['s', ':', '/', '/']);
    }
    if icon.len() >= 7 && icon.take(4) == h {
        if icon.subrange(4, 7) == seq![':', '/', '/'] {
            assert(icon.take(7) =~= icon.take(4) + icon.subrange(4, 7));
        }
        if icon.len() >= 8 && icon.subrange(4, 8) == seq!['s', ':', '/', '/'] {
            assert(icon.take(8) =~= icon.take(4) + icon.subrange(4, 8));
        }
    }
}

/// Where the cache holds fewer than 600 hosts, a new icon is shown for every page
/// of its host, and no other host's changes.
pub proof fn law_icons_go_by_host(
    before: Store,
    after: Store,
    url: Seq<char>,
    other: Seq<char>,
    icon: Seq<char>,
    r: bool,
)
    requires
        icon_set(before, after, url, icon, r),
        cacheable(icon),
        host_text(url) is Some,
        before.favicons@.dom().finite(),
        before.favicons@.dom().len() < 600,
    ensures
        host_text(other) == host_text(url) ==> icon_for(after.favicons@, other) == Some(icon),
        host_text(other) != host_text(url) ==> icon_for(after.favicons@, other) == icon_for(
            before.favicons@,
            other,
        ),
        after.bookmarks == before.bookmarks,
        after.history == before.history,
{
}

proof fn lemma_keep_grows(keep: Set<Seq<char>>, h: Seq<HistoryEntry>, host: Seq<char>)
    requires
        keep.contains(host),
    ensures
        with_recent_hosts(keep, h).contains(host),
    decreases h.len(),
{
    if h.len() > 0 && keep.len() < FAVICON_CAP / 2 {
        lemma_keep_grows(with_host(keep, h.last().url@), h.drop_last(), host);
    }
}

proof fn lemma_bookmark_host(b: Seq<Bookmark>, i: int)
    requires
        0 <= i < b.len(),
        host_text(b[i].url@) is Some,
    ensures
        bookmark_hosts(b).contains(host_text(b[i].url@)->0),
    decreases b.len(),
{
    if i < b.len() - 1 {
        lemma_bookmark_host(b.drop_last(), i);
    }
}

/// A cache that is cut down keeps the icon of every bookmarked host, and, with
/// fewer than 300 hosts bookmarked, that of the host visited last.
pub proof fn law_bookmarked_hosts_keep_their_icons(
    icons: Map<Seq<char>, Seq<char>>,
    host: Seq<char>,
    icon: Seq<char>,
    b: Seq<Bookmark>,
    h: Seq<HistoryEntry>,
    kept: Seq<char>,
    i: int,
)
    requires
        icons.contains_key(kept),
        kept != host,
        0 <= i < b.len() && host_text(b[i].url@) == Some(kept) || bookmark_hosts(b).len() < 300
            && h.len() > 0 && host_text(h.last().url@) == Some(kept),
    ensures
        icons_after(icons, host, icon, kept_hosts(b, h)).contains_key(kept),
        icons_after(icons, host, icon, kept_hosts(b, h))[kept] == icons[kept],
{
    if 0 <= i < b.len() && host_text(b[i].url@) == Some(kept) {
        lemma_bookmark_host(b, i);
        lemma_keep_grows(bookmark_hosts(b), h, kept);
    } else {
        lemma_keep_grows(with_host(bookmark_hosts(b), h.last().url@), h.drop_last(), kept);
    }
    assert(kept_hosts(b, h).contains(kept));
    assert(icons.insert(host, icon).contains_key(kept));
}

/// No host is kept that was neither bookmarked nor visited; where fewer than 300
/// are kept, every host visited is among them; and where fewer than 300 were
/// bookmarked, no more than 300 are.
pub proof fn law_recent_hosts_fill_half_the_cache(
    keep: Set<Seq<char>>,
    h: Seq<HistoryEntry>,
    host: Seq<char>,
)
    requires
        keep.finite(),
    ensures
        keep.contains(host) ==> with_recent_hosts(keep, h).contains(host),
        with_recent_hosts(keep, h).contains(host) ==> keep.contains(host) || exists|i: int|
            0 <= i < h.len() && host_text((#[trigger] h[i]).url@) == Some(host),
        with_recent_hosts(keep, h).len() < 300 ==> forall|i: int|
            0 <= i < h.len() && host_text((#[trigger] h[i]).url@) is Some ==> with_recent_hosts(
                keep,
                h,
            ).contains(host_text(h[i].url@)->0),
        keep.len() >= 300 ==> with_recent_hosts(keep, h) == keep,
        keep.len() <= 300 ==> with_recent_hosts(keep, h).len() <= 300,
    decreases h.len(),
{
    if keep.contains(host) {
        lemma_keep_grows(keep, h, host);
    }
    if h.len() > 0 && keep.len() < 300 {
        let init = h.drop_last();
        let next = with_host(keep, h.last().url@);
        law_recent_hosts_fill_half_the_cache(next, init, host);
        assert(next.len() <= keep.len() + 1);
        assert(h[h.len() - 1] == h.last());
        if with_recent_hosts(keep, h).contains(host) && !next.contains(host) {
            let i = choose|i: int|
                0 <= i < init.len() && host_text((#[trigger] init[i]).url@) == Some(host);
            assert(host_text(h[i].url@) == Some(host));
        }
        if with_recent_hosts(keep, h).len() < 300 {
            assert forall|i: int|
                0 <= i < h.len() && host_text((#[trigger] h[i]).url@) is Some implies with_recent_hosts(
                keep,
                h,
            ).contains(host_text(h[i].url@)->0) by {
                if i < init.len() {
                    assert(init[i] == h[i]);
                } else {
                    lemma_keep_grows(next, init, host_text(h[i].url@)->0);
                }
            }
        }
    }
}

/// Removing the bookmark of a page takes out that page's and no other, and keeps
/// the order of the rest.
pub proof fn law_removal_spares_other_bookmarks(b: Seq<Bookmark>, x: Bookmark, url: Seq<char>)
    ensures
        Seq::<Bookmark>::empty().filter(not_at(url)) == Seq::<Bookmark>::empty(),
        x.url@ == url ==> b.push(x).filter(not_at(url)) == b.filter(not_at(url)),
        x.url@ != url ==> b.push(x).filter(not_at(url)) == b.filter(not_at(url)).push(x),
{
    reveal(Seq::filter);
    assert(b.push(x).drop_last() =~= b);
    assert(Seq::<Bookmark>::empty().filter(not_at(url)) =~= Seq::<Bookmark>::empty());
}

/// A fresh profile is protected in every way, puts idle tabs to sleep after five
/// minutes, searches with a private engine, opens the home page at its natural
/// size, dark and in amber, and switches between tabs by recent use.
pub proof fn law_fresh_profiles_are_protected(s: Settings)
    requires
        is_default(s),
    ensures
        s.block_ads && s.block_malware && s.block_annoyances && s.block_popups,
        s.discard_after_min == 5,
        s.search_engine@ == "duckduckgo"@,
        s.startup@ == "home"@,
        s.theme@ == "dark"@,
        s.accent@ == "#d97b32"@,
        s.wallpaper.kind@ == "preset"@,
        s.wallpaper.value@ == "aurora"@,
        s.default_zoom == 0x3ff0_0000_0000_0000,
        s.show_bookmarks_bar && s.devtools && s.mru_tab_switching,
        !s.reduce_transparency && !s.vertical_tabs,
        s.user_agent@ == Seq::<char>::empty(),
{
    assert(s.user_agent@ =~= Seq::<char>::empty());
}

/// A change of any one preference is a change, and only the zoom is compared
/// elsewhere.
pub proof fn law_every_preference_counts(s: Settings, o: Settings, text: String, n: u64)
    ensures
        s.matches_but_zoom(&(Settings { theme: text, ..s })) <==> text@ == s.theme@,
        s.matches_but_zoom(&(Settings { accent: text, ..s })) <==> text@ == s.accent@,
        s.matches_but_zoom(&(Settings { search_engine: text, ..s })) <==> text@
            == s.search_engine@,
        s.matches_but_zoom(&(Settings { startup: text, ..s })) <==> text@ == s.startup@,
        s.matches_but_zoom(&(Settings { user_agent: text, ..s })) <==> text@ == s.user_agent@,
        s.matches_but_zoom(&(Settings { wallpaper: o.wallpaper, ..s })) <==> o.wallpaper.kind@
            == s.wallpaper.kind@ && o.wallpaper.value@ == s.wallpaper.value@,
        s.matches_but_zoom(&(Settings { discard_after_min: n, ..s })) <==> n
            == s.discard_after_min,
        s.matches_but_zoom(&(Settings { default_zoom: n, ..s })),
        !s.matches_but_zoom(&(Settings { show_bookmarks_bar: !s.show_bookmarks_bar, ..s })),
        !s.matches_but_zoom(&(Settings { block_ads: !s.block_ads, ..s })),
        !s.matches_but_zoom(&(Settings { block_malware: !s.block_malware, ..s })),
        !s.matches_but_zoom(&(Settings { block_annoyances: !s.block_annoyances, ..s })),
        !s.matches_but_zoom(&(Settings { block_popups: !s.block_popups, ..s })),
        !s.matches_but_zoom(&(Settings { devtools: !s.devtools, ..s })),
        !s.matches_but_zoom(&(Settings { reduce_transparency: !s.reduce_transparency, ..s })),
        !s.matches_but_zoom(&(Settings { vertical_tabs: !s.vertical_tabs, ..s })),
        !s.matches_but_zoom(&(Settings { mru_tab_switching: !s.mru_tab_switching, ..s })),
{
}

} // verus!
