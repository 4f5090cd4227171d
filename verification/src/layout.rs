//! Which webviews are shown and where: frames and visibility are pushed to a
//! webview only when they change, as every push is a repaint.
//!
//! Background tabs are hidden, not parked off-screen: a hidden view is
//! throttled by the engine, an off-screen one is not.

use crate::number::{digits, law_decimal_round_trip};
use crate::state::{label_text, BrowserState, Tab};
use crate::text::{strings, text_eq};
use vstd::prelude::*;

verus! {

/// Last state applied to a webview. The four lengths are the bits of IEEE 754
/// doubles.
#[derive(Clone, Copy, PartialEq, Eq, Debug, Structural)]
pub struct Frame {
    pub x: u64,
    pub y: u64,
    pub w: u64,
    pub h: u64,
    pub visible: bool,
}

/// Frame cache keyed by webview label.
pub struct Applied {
    pub frames: Vec<(String, Frame)>,
}

/// The frame cached for a label.
pub open spec fn cached(frames: Seq<(String, Frame)>, label: Seq<char>) -> Option<Frame>
    decreases frames.len(),
{
    if frames.len() == 0 {
        None
    } else if frames.last().0@ == label {
        Some(frames.last().1)
    } else {
        cached(frames.drop_last(), label)
    }
}

/// `after` is `before` with the frame of one label set (or forgotten).
pub open spec fn frame_set(
    before: Applied,
    after: Applied,
    label: Seq<char>,
    frame: Option<Frame>,
) -> bool {
    &&& after.at(label) == frame
    &&& forall|l: Seq<char>| l != label ==> #[trigger] after.at(l) == before.at(l)
}

/// What to push to a webview that is to be seen.
#[derive(Clone, Copy, PartialEq, Eq, Debug, Structural)]
pub struct Placement {
    pub set_frame: bool,
    pub show: bool,
}

/// What is pushed to show a webview whose last state is `last`, at the same
/// place or at another.
pub open spec fn placement(last: Option<Frame>, same: bool) -> Placement {
    match last {
        Some(p) => Placement { set_frame: !same, show: !p.visible },
        None => Placement { set_frame: true, show: true },
    }
}

/// The state of a webview once it is hidden.
pub open spec fn concealed(last: Option<Frame>) -> Frame {
    match last {
        Some(f) => Frame { visible: false, ..f },
        None => Frame { x: 0, y: 0, w: 0, h: 0, visible: false },
    }
}

impl Applied {
    pub open spec fn at(&self, label: Seq<char>) -> Option<Frame> {
        cached(self.frames@, label)
    }

    pub fn new() -> (r: Self)
        ensures
            forall|l: Seq<char>| #[trigger] r.at(l) is None,
    {
        Applied { frames: Vec::new() }
    }

    /// The frame last applied to a webview.
    pub fn get(&self, label: &str) -> (r: Option<Frame>)
        ensures
            r == self.at(label@),
    {
        let mut n = self.frames.len();
        assert(self.frames@.take(n as int) == self.frames@);
        while n > 0
            invariant
                n <= self.frames@.len(),
                cached(self.frames@, label@) == cached(self.frames@.take(n as int), label@),
            decreases n,
        {
            let ghost upto = self.frames@.take(n as int);
            if text_eq(self.frames[n - 1].0.as_str(), label) {
                return Some(self.frames[n - 1].1);
            }
            assert(upto.drop_last() == self.frames@.take(n - 1));
            n -= 1;
        }
        None
    }

    /// Forget a webview's cached frame (when it is closed), so that one made
    /// anew with the same label is positioned afresh.
    pub fn forget(&mut self, label: &str)
        ensures
            frame_set(*old(self), *final(self), label@, None),
    {
        let mut kept: Vec<(String, Frame)> = Vec::new();
        let mut i: usize = 0;
        while i < self.frames.len()
            invariant
                i <= self.frames@.len(),
                cached(kept@, label@) is None,
                forall|l: Seq<char>| l != label@ ==> #[trigger] cached(kept@, l) == cached(
                    self.frames@.take(i as int),
                    l,
                ),
            decreases self.frames@.len() - i,
        {
            let ghost before = kept@;
            assert(self.frames@.take(i + 1).drop_last() == self.frames@.take(i as int));
            if !text_eq(self.frames[i].0.as_str(), label) {
                kept.push((self.frames[i].0.clone(), self.frames[i].1));
                assert(kept@.drop_last() == before);
            }
            assert forall|l: Seq<char>| l != label@ implies #[trigger] cached(kept@, l) == cached(
                self.frames@.take(i + 1),
                l,
            ) by {
                assert(cached(before, l) == cached(self.frames@.take(i as int), l));
            }
            i += 1;
        }
        assert(self.frames@.take(self.frames@.len() as int) == self.frames@);
        self.frames = kept;
    }

    fn put(&mut self, label: &str, frame: Frame)
        ensures
            frame_set(*old(self), *final(self), label@, Some(frame)),
    {
        self.forget(label);
        let ghost before = *self;
        self.frames.push((label.to_owned(), frame));
        assert(self.frames@.drop_last() == before.frames@);
        assert forall|l: Seq<char>| l != label@ implies #[trigger] self.at(l) == old(self).at(
            l,
        ) by {
            assert(before.at(l) == old(self).at(l));
        }
    }

    /// Record the frame with which a webview was created (visible), so that the
    /// layout that follows does not set it again.
    pub fn note_created(&mut self, label: &str, x: u64, y: u64, w: u64, h: u64)
        ensures
            frame_set(
                *old(self),
                *final(self),
                label@,
                Some(Frame { x, y, w, h, visible: true }),
            ),
    {
        self.put(label, Frame { x, y, w, h, visible: true });
    }

    /// Show a webview at a place, touching only what changed. `same` is how the
    /// place compares, as numbers, to the one last applied.
    pub fn place_visible(
        &mut self,
        label: &str,
        x: u64,
        y: u64,
        w: u64,
        h: u64,
        same: bool,
    ) -> (r: Placement)
        ensures
            r == placement(old(self).at(label@), same),
            if r.set_frame || r.show {
                frame_set(
                    *old(self),
                    *final(self),
                    label@,
                    Some(Frame { x, y, w, h, visible: true }),
                )
            } else {
                *final(self) == *old(self)
            },
    {
        let r = match self.get(label) {
            Some(p) => Placement { set_frame: !same, show: !p.visible },
            None => Placement { set_frame: true, show: true },
        };
        if r.set_frame || r.show {
            self.put(label, Frame { x, y, w, h, visible: true });
        }
        r
    }

    /// Hide a webview, keeping its last frame so that showing it again needs no
    /// resize. Returns whether there is something to do.
    pub fn conceal(&mut self, label: &str) -> (r: bool)
        ensures
            match old(self).at(label@) {
                Some(f) if !f.visible => !r && *final(self) == *old(self),
                last => r && frame_set(
                    *old(self),
                    *final(self),
                    label@,
                    Some(concealed(last)),
                ),
            },
    {
        match self.get(label) {
            Some(f) => if !f.visible {
                false
            } else {
                self.put(label, Frame { visible: false, ..f });
                true
            },
            None => {
                self.put(label, Frame { x: 0, y: 0, w: 0, h: 0, visible: false });
                true
            },
        }
    }
}

/// Which webviews to show and to hide. The active tab comes first, so that
/// there is never a moment without a visible page.
pub struct Plan {
    pub show: Option<String>,
    pub hidden: Vec<String>,
}

/// Labels of the background tabs, among the first `n`, that are awake.
pub open spec fn background_labels(tabs: Seq<Tab>, active: int, n: int) -> Seq<Seq<char>>
    decreases n,
{
    if n <= 0 {
        Seq::empty()
    } else if n - 1 == active || tabs[n - 1].discarded {
        background_labels(tabs, active, n - 1)
    } else {
        background_labels(tabs, active, n - 1).push(label_text(tabs[n - 1].id))
    }
}

pub fn apply(state: &BrowserState) -> (r: Plan)
    ensures
        match (r.show, state.active_tab_spec()) {
            (Some(label), Some(t)) => label@ == label_text(t.id),
            (None, None) => true,
            _ => false,
        },
        strings(r.hidden@) == background_labels(
            state.tabs@,
            state.active as int,
            state.tabs@.len() as int,
        ),
{
    let show = match state.active_tab() {
        Some(t) => Some(t.label()),
        None => None,
    };
    let mut hidden: Vec<String> = Vec::new();
    let mut i: usize = 0;
    assert(strings(hidden@) =~= Seq::<Seq<char>>::empty());
    while i < state.tabs.len()
        invariant
            i <= state.tabs@.len(),
            strings(hidden@) == background_labels(state.tabs@, state.active as int, i as int),
        decreases state.tabs@.len() - i,
    {
        if i != state.active && !state.tabs[i].discarded {
            let label = state.tabs[i].label();
            let ghost before = hidden@;
            hidden.push(label);
            assert(strings(hidden@) =~= strings(before).push(label@));
        }
        i += 1;
    }
    Plan { show, hidden }
}

/// Tabs with different ids have different labels.
pub proof fn lemma_labels_differ(a: usize, b: usize)
    requires
        a != b,
    ensures
        label_text(a) != label_text(b),
{
    law_decimal_round_trip(a);
    law_decimal_round_trip(b);
    if label_text(a) == label_text(b) {
        let n = "tab-"@.len() as int;
        assert(label_text(a).skip(n) =~= digits(a as nat));
        assert(label_text(b).skip(n) =~= digits(b as nat));
    }
}

/// Every other page that is awake is hidden.
pub proof fn law_background_pages_are_hidden(tabs: Seq<Tab>, active: int, n: int, i: int)
    requires
        0 <= i < n <= tabs.len(),
        i != active,
        !tabs[i].discarded,
    ensures
        background_labels(tabs, active, n).contains(label_text(tabs[i].id)),
    decreases n,
{
    let rest = background_labels(tabs, active, n - 1);
    let own = label_text(tabs[i].id);
    if i == n - 1 {
        assert(rest.push(own)[rest.len() as int] == own);
    } else {
        law_background_pages_are_hidden(tabs, active, n - 1, i);
        let j = choose|j: int| 0 <= j < rest.len() && rest[j] == own;
        assert(rest.push(label_text(tabs[n - 1].id))[j] == own);
    }
}

/// The page in front is never among those that are hidden.
pub proof fn law_active_page_stays_visible(state: BrowserState, n: int)
    requires
        state.wf(),
        state.active < state.tabs@.len(),
        0 <= n <= state.tabs@.len(),
    ensures
        !background_labels(state.tabs@, state.active as int, n).contains(
            label_text(state.tabs@[state.active as int].id),
        ),
    decreases n,
{
    if n > 0 {
        law_active_page_stays_visible(state, n - 1);
        let a = state.active as int;
        let rest = background_labels(state.tabs@, a, n - 1);
        let own = label_text(state.tabs@[a].id);
        if n - 1 != a && !state.tabs@[n - 1].discarded {
            if a < n - 1 {
                assert(state.tabs@[a].id != state.tabs@[n - 1].id);
            } else {
                assert(state.tabs@[n - 1].id != state.tabs@[a].id);
            }
            lemma_labels_differ(state.tabs@[a].id, state.tabs@[n - 1].id);
            let all = rest.push(label_text(state.tabs@[n - 1].id));
            if all.contains(own) {
                let j = choose|j: int| 0 <= j < all.len() && all[j] == own;
                if j < rest.len() {
                    assert(rest[j] == own);
                }
            }
        }
    }
}

/// A webview that is seen where it is to be gets nothing pushed; one that moves
/// gets its frame alone, and a hidden one is shown. One of which nothing is known
/// gets both.
pub proof fn law_only_changes_are_pushed(x: u64, y: u64, w: u64, h: u64, same: bool)
    ensures
        ({
            let seen = placement(Some(Frame { x, y, w, h, visible: true }), same);
            !seen.show && (seen.set_frame <==> !same)
        }),
        ({
            let hidden = placement(Some(Frame { x, y, w, h, visible: false }), same);
            hidden.show && (hidden.set_frame <==> !same)
        }),
        placement(None, same).set_frame && placement(None, same).show,
{
}

/// A hidden webview keeps its frame: shown again at the same place it needs no
/// resize, only to be shown.
pub proof fn law_hidden_views_keep_their_frame(f: Frame)
    ensures
        !concealed(Some(f)).visible,
        concealed(None) == (Frame { x: 0, y: 0, w: 0, h: 0, visible: false }),
        concealed(Some(f)).x == f.x && concealed(Some(f)).y == f.y && concealed(Some(f)).w == f.w
            && concealed(Some(f)).h == f.h,
        !placement(Some(concealed(Some(f))), true).set_frame,
        placement(Some(concealed(Some(f))), true).show,
{
}

/// The frame noted last for a webview is the one that counts, and it is that of
/// no other.
pub proof fn law_the_last_frame_counts(
    frames: Seq<(String, Frame)>,
    label: String,
    f: Frame,
    other: Seq<char>,
)
    ensures
        cached(Seq::empty(), other) is None,
        cached(frames.push((label, f)), label@) == Some(f),
        other != label@ ==> cached(frames.push((label, f)), other) == cached(frames, other),
{
    assert(frames.push((label, f)).drop_last() =~= frames);
}

/// Only tabs in the background that are awake are hidden.
pub proof fn law_only_live_background_pages_are_hidden(tabs: Seq<Tab>, active: int, n: int, k: int)
    requires
        0 <= n <= tabs.len(),
        0 <= k < background_labels(tabs, active, n).len(),
    ensures
        exists|i: int|
            0 <= i < n && i != active && !(#[trigger] tabs[i]).discarded && label_text(tabs[i].id)
                == background_labels(tabs, active, n)[k],
    decreases n,
{
    let rest = background_labels(tabs, active, n - 1);
    if n > 0 {
        if k < rest.len() {
            law_only_live_background_pages_are_hidden(tabs, active, n - 1, k);
            let i = choose|i: int|
                0 <= i < n - 1 && i != active && !(#[trigger] tabs[i]).discarded && label_text(
                    tabs[i].id,
                ) == rest[k];
            assert(!tabs[i].discarded);
        } else {
            assert(!tabs[n - 1].discarded);
        }
    }
}

/// Setting the frame of a webview changes that of no other.
pub proof fn law_frames_are_set_alone(
    before: Applied,
    after: Applied,
    label: Seq<char>,
    other: Seq<char>,
    frame: Option<Frame>,
)
    requires
        frame_set(before, after, label, frame),
    ensures
        after.at(label) == frame,
        other != label ==> after.at(other) == before.at(other),
{
}

} // verus!
