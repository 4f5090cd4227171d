//! What the native hooks report, in plain values, and what is decided from it:
//! navigation state, keys, and the course of the content blocker.

use crate::blocklist::{
    CATEGORY_ADS, CATEGORY_ANNOYANCES, CATEGORY_PRIVACY, CATEGORY_SECURITY,
};
use crate::number::{decimal, digits};
use crate::store::Settings;
use crate::text::{begins, has_prefix, strings, text_eq};
use vstd::prelude::*;

verus! {

/// Snapshot of navigation state read from the native webview.
pub struct NavState {
    pub url: String,
    pub can_back: bool,
    pub can_forward: bool,
}

// ---- keys ---------------------------------------------------------------

/// Keyboard events that the app-wide key monitor reports.
#[derive(Clone, Copy, Debug, PartialEq, Eq, Structural)]
pub enum KeyAction {
    /// Control-Tab (+1) or Control-Shift-Tab (-1).
    Cycle(isize),
    /// Escape.
    Escape,
    /// The Control key was released (any change of modifiers that leaves it
    /// up).
    ControlReleased,
}

#[derive(Clone, Copy, Debug, PartialEq, Eq, Structural)]
pub enum KeyKind {
    Down,
    ModifiersChanged,
    Other,
}

/// A key event, as the system reports it.
#[derive(Clone, Copy, Debug, PartialEq, Eq, Structural)]
pub struct KeyEvent {
    pub kind: KeyKind,
    pub code: u16,
    pub control: bool,
    pub command: bool,
    pub option: bool,
    pub shift: bool,
}

pub const KEY_TAB: u16 = 48;

pub const KEY_ESC: u16 = 53;

pub open spec fn action_of(e: KeyEvent) -> Option<KeyAction> {
    match e.kind {
        KeyKind::Down => if e.code == KEY_TAB && e.control && !e.command && !e.option {
            if e.shift {
                Some(KeyAction::Cycle(-1isize))
            } else {
                Some(KeyAction::Cycle(1isize))
            }
        } else if e.code == KEY_ESC {
            Some(KeyAction::Escape)
        } else {
            None
        },
        KeyKind::ModifiersChanged => if e.control {
            None
        } else {
            Some(KeyAction::ControlReleased)
        },
        KeyKind::Other => None,
    }
}

/// What a key event means for the tab switcher, whichever webview has focus.
pub fn key_action(e: KeyEvent) -> (r: Option<KeyAction>)
    ensures
        r == action_of(e),
{
    match e.kind {
        KeyKind::Down => if e.code == KEY_TAB && e.control && !e.command && !e.option {
            if e.shift {
                Some(KeyAction::Cycle(-1))
            } else {
                Some(KeyAction::Cycle(1))
            }
        } else if e.code == KEY_ESC {
            Some(KeyAction::Escape)
        } else {
            None
        },
        KeyKind::ModifiersChanged => if e.control {
            None
        } else {
            Some(KeyAction::ControlReleased)
        },
        KeyKind::Other => None,
    }
}

pub open spec fn is_swallowed(kind: KeyKind, consumed: bool) -> bool {
    consumed && kind is Down
}

/// Is a key event kept from the menu and the focused webview? A key press is, where
/// it was consumed; changes of the modifiers always pass through.
pub fn swallows(kind: KeyKind, consumed: bool) -> (r: bool)
    ensures
        r == is_swallowed(kind, consumed),
{
    match kind {
        KeyKind::Down => consumed,
        _ => false,
    }
}

// ---- the content blocker ------------------------------------------------

/// State of the ad/tracker blocker rule list.
#[derive(Clone, Copy, Debug, PartialEq, Eq, Structural)]
pub enum BlockerStatus {
    /// Compiled and attachable.
    Ready,
    /// Still compiling (first launch, or the list changed).
    Compiling,
    /// The engine rejected the rule list.
    Failed,
    /// No content-blocker support on this platform.
    Unsupported,
}

/// Progress of a batch of store operations (lookups or compiles), which end in
/// any order.
pub struct Batch {
    /// For each operation that ended, whether it gave a list.
    pub results: Vec<bool>,
    pub done: usize,
}

/// Where a batch stands.
#[derive(Clone, Copy, Debug, PartialEq, Eq, Structural)]
pub enum Outcome {
    Waiting,
    /// Every operation gave a list.
    Complete,
    /// Some operation gave none.
    Incomplete,
}

pub open spec fn all_true(v: Seq<bool>) -> bool {
    forall|i: int| 0 <= i < v.len() ==> #[trigger] v[i]
}

pub open spec fn outcome(b: Batch) -> Outcome {
    if b.done < b.results@.len() {
        Outcome::Waiting
    } else if all_true(b.results@) {
        Outcome::Complete
    } else {
        Outcome::Incomplete
    }
}

impl Batch {
    pub fn new(n: usize) -> (r: Self)
        ensures
            r.done == 0,
            r.results@ == Seq::new(n as nat, |i: int| false),
    {
        let mut results: Vec<bool> = Vec::new();
        let mut i: usize = 0;
        while i < n
            invariant
                i <= n,
                results@ == Seq::new(i as nat, |j: int| false),
            decreases n - i,
        {
            results.push(false);
            assert(results@ =~= Seq::new((i + 1) as nat, |j: int| false));
            i += 1;
        }
        Batch { results, done: 0 }
    }

    /// Operation `i` ended.
    pub fn report(&mut self, i: usize, found: bool) -> (r: Outcome)
        requires
            i < old(self).results@.len(),
            old(self).done < old(self).results@.len(),
        ensures
            final(self).results@ == old(self).results@.update(i as int, found),
            final(self).done == old(self).done + 1,
            r == outcome(*final(self)),
    {
        let n = self.results.len();
        self.results.set(i, found);
        self.done = self.done + 1;
        if self.done < n {
            Outcome::Waiting
        } else if every(&self.results) {
            Outcome::Complete
        } else {
            Outcome::Incomplete
        }
    }
}

fn every(v: &Vec<bool>) -> (r: bool)
    ensures
        r == all_true(v@),
{
    let mut i: usize = 0;
    while i < v.len()
        invariant
            i <= v@.len(),
            forall|j: int| 0 <= j < i ==> #[trigger] v@[j],
        decreases v@.len() - i,
    {
        if !v[i] {
            return false;
        }
        i += 1;
    }
    true
}

/// What is under way.
#[derive(Clone, Copy, Debug, PartialEq, Eq, Structural)]
pub enum Phase {
    /// Looking every chunk up in the engine's cache.
    LookingUp,
    /// Compiling every chunk.
    Compiling,
    /// Compiling the fallback list.
    Fallback,
    Done,
}

/// What to do next.
#[derive(Clone, Copy, Debug, PartialEq, Eq, Structural)]
pub enum Task {
    /// Wait for the operations under way.
    Wait,
    /// Look every chunk up.
    LookUp,
    /// Compile every chunk.
    Compile,
    /// Compile the fallback list.
    CompileFallback,
    /// Attach the lists to the open tabs.
    Install,
    /// Give up.
    GiveUp,
}

/// The course of the content blocker: compiled lists are cached by the engine,
/// so each chunk is looked up first, and compiled only where this rule set
/// never was; if the engine rejects one, the fallback list takes their place.
pub struct Blocker {
    pub phase: Phase,
    pub batch: Batch,
    pub status: BlockerStatus,
    /// Category of each chunk.
    pub categories: Vec<String>,
    /// Categories of the lists that can be attached, in order.
    pub installed: Vec<String>,
}

/// What the end of the operation on chunk `i` does to the blocker, and what is to
/// be done next.
pub open spec fn chunk_done(before: Blocker, after: Blocker, i: int, found: bool, r: Task) -> bool {
    &&& after.categories == before.categories
    &&& after.batch.results@ == before.batch.results@.update(i, found)
    &&& after.batch.done == before.batch.done + 1
    &&& match outcome(after.batch) {
        Outcome::Waiting => r is Wait && after.wf() && after.phase == before.phase && after.status
            == before.status && after.installed == before.installed,
        Outcome::Complete => r is Install && after.wf() && after.phase is Done
            && after.status is Ready && strings(after.installed@) == strings(before.categories@),
        Outcome::Incomplete => after.status is Compiling && after.installed == before.installed
            && if before.phase is LookingUp {
            r is Compile && after.phase is LookingUp
        } else {
            r is CompileFallback && after.phase is Fallback && after.wf()
        },
    }
}

/// What the unpacking of the rule set into `n` chunks does to the blocker.
pub open spec fn set_unpacked(before: Blocker, after: Blocker, n: nat, r: Task) -> bool {
    &&& after.categories == before.categories
    &&& after.status is Compiling
    &&& if n == 0 || n != before.categories@.len() {
        r is CompileFallback && after.phase is Fallback && after.batch == before.batch
    } else {
        r is Compile && after.phase is Compiling && after.batch.done == 0
            && after.batch.results@ == Seq::new(n, |i: int| false)
    }
    &&& after.installed == before.installed
}

/// What the end of the fallback's compile does to the blocker.
pub open spec fn fallback_ended(before: Blocker, after: Blocker, found: bool, r: Task) -> bool {
    &&& after.phase is Done
    &&& after.categories == before.categories
    &&& if found {
        r is Install && after.status is Ready && strings(after.installed@) == seq![CATEGORY_ADS@]
    } else {
        r is GiveUp && after.status is Failed && after.installed@.len() == 0
    }
}

impl Blocker {
    /// In each phase, the batch and the status are those of the phase.
    pub open spec fn wf(&self) -> bool {
        &&& match self.phase {
            Phase::LookingUp | Phase::Compiling => self.batch.results@.len()
                == self.categories@.len() && self.batch.done < self.batch.results@.len(),
            _ => true,
        }
        &&& match self.phase {
            Phase::Done => self.status is Ready || self.status is Failed,
            _ => self.status is Compiling,
        }
        &&& self.status is Ready <==> self.installed@.len() > 0
    }

    /// Start with the chunks of these categories.
    pub fn start(categories: Vec<String>) -> (r: (Blocker, Task))
        ensures
            r.0.wf(),
            r.0.categories == categories,
            r.0.status is Compiling,
            r.0.batch.results@ == Seq::new(categories@.len(), |i: int| false),
            r.0.installed@.len() == 0,
            if categories@.len() == 0 {
                r.0.phase is Fallback && r.1 is CompileFallback
            } else {
                r.0.phase is LookingUp && r.1 is LookUp && r.0.batch.done == 0
            },
    {
        let n = categories.len();
        let batch = Batch::new(n);
        let (phase, task) = if n == 0 {
            (Phase::Fallback, Task::CompileFallback)
        } else {
            (Phase::LookingUp, Task::LookUp)
        };
        (
            Blocker {
                phase,
                batch,
                status: BlockerStatus::Compiling,
                categories,
                installed: Vec::new(),
            },
            task,
        )
    }

    /// The engine's store of compiled lists cannot be had.
    pub fn unavailable() -> (r: Blocker)
        ensures
            r.wf(),
            r.phase is Done,
            r.status is Failed,
            r.installed@.len() == 0,
            r.categories@.len() == 0,
    {
        Blocker {
            phase: Phase::Done,
            batch: Batch::new(0),
            status: BlockerStatus::Failed,
            categories: Vec::new(),
            installed: Vec::new(),
        }
    }

    /// The lookup or the compile of chunk `i` ended.
    pub fn report(&mut self, i: usize, found: bool) -> (r: Task)
        requires
            old(self).wf(),
            old(self).phase is LookingUp || old(self).phase is Compiling,
            i < old(self).categories@.len(),
        ensures
            chunk_done(*old(self), *final(self), i as int, found, r),
    {
        let outcome = self.batch.report(i, found);
        match outcome {
            Outcome::Waiting => Task::Wait,
            Outcome::Complete => {
                self.installed = copy_texts(&self.categories);
                self.phase = Phase::Done;
                self.status = BlockerStatus::Ready;
                assert(strings(self.installed@).len() == self.installed@.len());
                assert(strings(self.categories@).len() == self.categories@.len());
                Task::Install
            },
            Outcome::Incomplete => match self.phase {
                Phase::LookingUp => Task::Compile,
                _ => {
                    self.phase = Phase::Fallback;
                    Task::CompileFallback
                },
            },
        }
    }

    /// The rule set was unpacked into `n` chunks, to be compiled. A set whose
    /// chunks do not fit what it says of itself is not used.
    pub fn compile(&mut self, n: usize) -> (r: Task)
        requires
            old(self).status is Compiling,
            old(self).installed@.len() == 0,
        ensures
            final(self).wf(),
            set_unpacked(*old(self), *final(self), n as nat, r),
    {
        if n == 0 || n != self.categories.len() {
            self.phase = Phase::Fallback;
            return Task::CompileFallback;
        }
        self.batch = Batch::new(n);
        self.phase = Phase::Compiling;
        Task::Compile
    }

    /// The compile of the fallback list ended.
    pub fn fallback_done(&mut self, found: bool) -> (r: Task)
        requires
            old(self).wf(),
            old(self).phase is Fallback,
        ensures
            final(self).wf(),
            fallback_ended(*old(self), *final(self), found, r),
    {
        self.phase = Phase::Done;
        if found {
            let mut one: Vec<String> = Vec::new();
            one.push(CATEGORY_ADS.to_owned());
            assert(strings(one@) =~= seq![CATEGORY_ADS@]);
            self.installed = one;
            self.status = BlockerStatus::Ready;
            Task::Install
        } else {
            self.status = BlockerStatus::Failed;
            Task::GiveUp
        }
    }
}

/// Availability of the blocker, for the settings page; `None` stands for a
/// platform that has none.
pub fn blocker_status(b: Option<&Blocker>) -> (r: BlockerStatus)
    ensures
        r == (match b {
            Some(b) => b.status,
            None => BlockerStatus::Unsupported,
        }),
{
    match b {
        Some(b) => b.status,
        None => BlockerStatus::Unsupported,
    }
}

fn copy_texts(v: &Vec<String>) -> (r: Vec<String>)
    ensures
        strings(r@) == strings(v@),
{
    let mut out: Vec<String> = Vec::new();
    let mut i: usize = 0;
    assert(strings(out@) =~= strings(v@).take(0));
    while i < v.len()
        invariant
            i <= v@.len(),
            strings(out@) == strings(v@).take(i as int),
        decreases v@.len() - i,
    {
        let t = v[i].clone();
        let ghost before = out@;
        out.push(t);
        assert(strings(out@) =~= strings(before).push(t@));
        assert(strings(v@).take(i + 1) == strings(v@).take(i as int).push(t@));
        i += 1;
    }
    assert(strings(v@).take(v@.len() as int) == strings(v@));
    out
}

/// Identifier of a compiled chunk.
pub open spec fn chunk_name(prefix: Seq<char>, i: usize) -> Seq<char> {
    prefix + "-"@ + digits(i as nat)
}

pub fn chunk_identifier(prefix: &str, i: usize) -> (r: String)
    ensures
        r@ == chunk_name(prefix@, i),
{
    let mut s = prefix.to_owned();
    s.append("-");
    s.append(decimal(i as u64).as_str());
    s
}

/// A compiled list left over from another version of the rule set.
pub open spec fn is_stale(id: Seq<char>, prefix: Seq<char>, fallback: Seq<char>) -> bool {
    has_prefix(id, "foxlite-"@) && !has_prefix(id, prefix + "-"@) && id != fallback
}

/// Is this compiled list to be removed?
pub fn stale_list(id: &str, identifier: &str, fallback: &str) -> (r: bool)
    ensures
        r == is_stale(id@, identifier@, fallback@),
{
    let mut prefix = identifier.to_owned();
    prefix.append("-");
    begins(id, "foxlite-") && !begins(id, prefix.as_str()) && !text_eq(id, fallback)
}

/// Pruning never removes a chunk of the current rule set, nor its fallback.
pub proof fn law_current_lists_are_kept(prefix: Seq<char>, fallback: Seq<char>, i: usize)
    ensures
        !is_stale(chunk_name(prefix, i), prefix, fallback),
        !is_stale(fallback, prefix, fallback),
{
    let name = chunk_name(prefix, i);
    assert(name.take((prefix + "-"@).len() as int) =~= prefix + "-"@);
}

// ---- protections --------------------------------------------------------

/// Rule categories enabled by the current settings.
pub open spec fn categories_on(s: Settings) -> Seq<Seq<char>> {
    (if s.block_ads {
        seq![CATEGORY_ADS@, CATEGORY_PRIVACY@]
    } else {
        Seq::empty()
    }) + (if s.block_malware {
        seq![CATEGORY_SECURITY@]
    } else {
        Seq::empty()
    }) + (if s.block_annoyances {
        seq![CATEGORY_ANNOYANCES@]
    } else {
        Seq::empty()
    })
}

pub open spec fn names(v: Seq<&'static str>) -> Seq<Seq<char>> {
    v.map_values(|x: &'static str| x@)
}

pub fn enabled_categories(settings: &Settings) -> (r: Vec<&'static str>)
    ensures
        names(r@) == categories_on(*settings),
{
    let mut on: Vec<&'static str> = Vec::new();
    if settings.block_ads {
        on.push(CATEGORY_ADS);
        on.push(CATEGORY_PRIVACY);
    }
    if settings.block_malware {
        on.push(CATEGORY_SECURITY);
    }
    if settings.block_annoyances {
        on.push(CATEGORY_ANNOYANCES);
    }
    assert(names(on@) =~= categories_on(*settings));
    on
}

/// The places, among the installed lists, of those whose category is on.
pub open spec fn attached(installed: Seq<Seq<char>>, on: Seq<Seq<char>>, n: int) -> Seq<usize>
    decreases n,
{
    if n <= 0 {
        Seq::empty()
    } else if on.contains(installed[n - 1]) {
        attached(installed, on, n - 1).push((n - 1) as usize)
    } else {
        attached(installed, on, n - 1)
    }
}

/// Which of the installed lists to attach: exactly those whose category is on.
pub fn blocker_apply(installed: &Vec<String>, on: &Vec<&'static str>) -> (r: Vec<usize>)
    ensures
        r@ == attached(strings(installed@), names(on@), installed@.len() as int),
{
    let mut out: Vec<usize> = Vec::new();
    let mut i: usize = 0;
    while i < installed.len()
        invariant
            i <= installed@.len(),
            out@ == attached(strings(installed@), names(on@), i as int),
        decreases installed@.len() - i,
    {
        assert(strings(installed@)[i as int] == installed@[i as int]@);
        if is_named(on, installed[i].as_str()) {
            out.push(i);
        }
        i += 1;
    }
    out
}

/// A list is attached exactly where its category is on.
pub proof fn law_enabled_lists_are_attached(
    installed: Seq<Seq<char>>,
    on: Seq<Seq<char>>,
    n: int,
    i: usize,
)
    requires
        0 <= n <= installed.len() <= usize::MAX,
    ensures
        attached(installed, on, n).contains(i) <==> i < n && on.contains(installed[i as int]),
    decreases n,
{
    if n > 0 {
        law_enabled_lists_are_attached(installed, on, n - 1, i);
        let rest = attached(installed, on, n - 1);
        let last = (n - 1) as usize;
        if on.contains(installed[n - 1]) {
            let all = rest.push(last);
            assert(all[rest.len() as int] == last);
            if rest.contains(i) {
                let j = choose|j: int| 0 <= j < rest.len() && rest[j] == i;
                assert(all[j] == i);
            }
            if all.contains(i) {
                let j = choose|j: int| 0 <= j < all.len() && all[j] == i;
                if j < rest.len() {
                    assert(rest[j] == i);
                }
            }
        }
    }
}

fn is_named(on: &Vec<&'static str>, name: &str) -> (r: bool)
    ensures
        r == names(on@).contains(name@),
{
    let mut i: usize = 0;
    while i < on.len()
        invariant
            i <= on@.len(),
            forall|j: int| 0 <= j < i ==> names(on@)[j] != name@,
        decreases on@.len() - i,
    {
        assert(names(on@)[i as int] == on@[i as int]@);
        if text_eq(on[i], name) {
            return true;
        }
        i += 1;
    }
    false
}

// ---- platforms without the hooks ----------------------------------------

/// Physical memory footprint of a process, where it cannot be read.
pub fn phys_footprint(_pid: i32) -> (r: Option<u64>)
    ensures
        r is None,
{
    None
}

/// The system's wish for reduced transparency, where there is none.
pub fn system_reduce_transparency() -> (r: bool)
    ensures
        !r,
{
    false
}

/// Each switch in Settings rules its own categories: ads and trackers, malware,
/// and cookie banners.
pub proof fn law_each_switch_rules_its_lists(s: Settings)
    ensures
        categories_on(s).contains("ads"@) <==> s.block_ads,
        categories_on(s).contains("privacy"@) <==> s.block_ads,
        categories_on(s).contains("security"@) <==> s.block_malware,
        categories_on(s).contains("annoyances"@) <==> s.block_annoyances,
        forall|i: int|
            0 <= i < categories_on(s).len() ==> (#[trigger] categories_on(s)[i] == "ads"@
                || categories_on(s)[i] == "privacy"@ || categories_on(s)[i] == "security"@
                || categories_on(s)[i] == "annoyances"@),
{
    reveal_strlit("ads");
    reveal_strlit("privacy");
    reveal_strlit("security");
    reveal_strlit("annoyances");
    assert("ads"@.len() == 3 && "privacy"@.len() == 7 && "security"@.len() == 8
        && "annoyances"@.len() == 10);
    let on = categories_on(s);
    let ads: int = if s.block_ads {
        2
    } else {
        0
    };
    let security: int = if s.block_malware {
        1
    } else {
        0
    };
    if s.block_ads {
        assert(on[0] == "ads"@ && on[1] == "privacy"@);
    }
    if s.block_malware {
        assert(on[ads] == "security"@);
    }
    if s.block_annoyances {
        assert(on[ads + security] == "annoyances"@);
    }
}

/// Control-Tab, without Command or Option, steps the switcher: forward, and
/// backward with Shift. Escape is taken with any modifiers, and a change of the
/// modifiers counts where it leaves Control up. Nothing else is.
pub proof fn law_keys_of_the_switcher(e: KeyEvent)
    ensures
        action_of(e) == Some(KeyAction::Cycle(1isize)) <==> e.kind is Down && e.code == 48
            && e.control && !e.command && !e.option && !e.shift,
        action_of(e) == Some(KeyAction::Cycle(-1isize)) <==> e.kind is Down && e.code == 48
            && e.control && !e.command && !e.option && e.shift,
        action_of(e) == Some(KeyAction::Escape) <==> e.kind is Down && e.code == 53,
        action_of(e) == Some(KeyAction::ControlReleased) <==> e.kind is ModifiersChanged
            && !e.control,
        action_of(e) matches Some(KeyAction::Cycle(d)) ==> d == 1 || d == -1,
{
}

/// A batch waits until as many operations ended as it has; it is complete where
/// each of them gave a list, and one that gave none spoils it.
pub proof fn law_one_missing_list_spoils_a_batch(b: Batch, i: int)
    requires
        0 <= i < b.results@.len(),
    ensures
        outcome(b) is Waiting <==> b.done < b.results@.len(),
        !b.results@[i] ==> !(outcome(b) is Complete),
        outcome(b) is Complete ==> b.results@[i],
        outcome(b) is Incomplete ==> exists|j: int|
            0 <= j < b.results@.len() && !(#[trigger] b.results@[j]),
{
}

/// Lists are installed only once every chunk gave its own, and then under the
/// chunks' categories. Where a lookup found none, all are compiled; where a
/// compile failed, the fallback takes their place.
pub proof fn law_lists_are_installed_together(
    before: Blocker,
    after: Blocker,
    i: int,
    found: bool,
    r: Task,
)
    requires
        before.wf(),
        before.phase is LookingUp || before.phase is Compiling,
        0 <= i < before.categories@.len(),
        chunk_done(before, after, i, found, r),
    ensures
        r is Install ==> found && after.status is Ready && strings(after.installed@) == strings(
            before.categories@,
        ),
        r is Install ==> forall|j: int|
            0 <= j < before.batch.results@.len() && j != i ==> #[trigger] before.batch.results@[j],
        before.batch.done + 1 < before.categories@.len() ==> r is Wait && after.phase
            == before.phase,
        before.batch.done + 1 == before.categories@.len() && !found && before.phase is LookingUp
            ==> r is Compile,
        before.batch.done + 1 == before.categories@.len() && !found && before.phase is Compiling
            ==> r is CompileFallback,
        !(r is Install) ==> !(after.status is Ready) && after.installed == before.installed,
{
    assert(after.batch.results@[i] == found);
    if r is Install {
        assert forall|j: int|
            0 <= j < before.batch.results@.len() && j != i implies #[trigger] before.batch.results@[j] by {
            assert(after.batch.results@[j]);
        }
    }
}

/// The chunks of a rule set are told apart by their names, and the lists of
/// another set, with a name as long, are removed; those of another program are
/// not.
pub proof fn law_old_lists_are_removed(
    prefix: Seq<char>,
    other: Seq<char>,
    fallback: Seq<char>,
    i: usize,
    j: usize,
    id: Seq<char>,
)
    requires
        other.len() == prefix.len(),
        other != prefix,
        other.len() >= 8,
        other.take(8) == seq!['f', 'o', 'x', 'l', 'i', 't', 'e', '-'],
        chunk_name(other, i) != fallback,
    ensures
        is_stale(chunk_name(other, i), prefix, fallback),
        i != j ==> chunk_name(prefix, i) != chunk_name(prefix, j),
        id.len() < 8 || id.take(8) != seq!['f', 'o', 'x', 'l', 'i', 't', 'e', '-'] ==> !is_stale(
            id,
            prefix,
            fallback,
        ),
{
    reveal_strlit("foxlite-");
    reveal_strlit("-");
    assert("foxlite-"@ =~= seq!['f', 'o', 'x', 'l', 'i', 't', 'e', '-']);
    let name = chunk_name(other, i);
    assert(name.take(8) =~= other.take(8));
    let head = prefix + "-"@;
    if has_prefix(name, head) {
        assert(other =~= name.take(head.len() as int).take(prefix.len() as int));
        assert(prefix =~= head.take(prefix.len() as int));
    }
    if i != j {
        crate::number::law_decimal_round_trip(i);
        crate::number::law_decimal_round_trip(j);
        let n = head.len() as int;
        assert(chunk_name(prefix, i).skip(n) =~= digits(i as nat));
        assert(chunk_name(prefix, j).skip(n) =~= digits(j as nat));
    }
}

/// A rule set that does not hold as many chunks as it says is not compiled: the
/// fallback is, and no list is installed yet in either case.
pub proof fn law_odd_rule_sets_are_not_compiled(before: Blocker, after: Blocker, n: nat, r: Task)
    requires
        set_unpacked(before, after, n, r),
    ensures
        r is Compile <==> n > 0 && n == before.categories@.len(),
        r is CompileFallback <==> n == 0 || n != before.categories@.len(),
        r is Compile ==> after.batch.done == 0 && after.batch.results@.len() == n,
        after.status is Compiling,
        after.installed == before.installed,
{
}

/// The fallback is installed as a list of ads where it compiled; where it did not,
/// there is nothing left to try.
pub proof fn law_the_fallback_blocks_ads(before: Blocker, after: Blocker, found: bool, r: Task)
    requires
        fallback_ended(before, after, found, r),
    ensures
        found <==> after.status is Ready,
        found <==> r is Install,
        found ==> strings(after.installed@) == seq!["ads"@],
        !found ==> after.status is Failed && r is GiveUp && after.installed@.len() == 0,
{
}

/// Only a key press that was consumed is kept from the rest of the app.
pub proof fn law_only_presses_are_swallowed(consumed: bool)
    ensures
        is_swallowed(KeyKind::Down, consumed) <==> consumed,
        !is_swallowed(KeyKind::ModifiersChanged, consumed),
        !is_swallowed(KeyKind::Other, consumed),
{
}

} // verus!
