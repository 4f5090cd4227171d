//! When and what to write: dirty flags with their debounce, the schedule of the
//! housekeeping thread, and the history file that grows by appending.

use crate::store::{in_step, visits, HistoryEntry, Store, Visit, HISTORY_CAP};
use crate::text::{
    chars_of, is_space, law_trimming_takes_only_white_space, lines, split, split_lines, strings,
    trim, trimmed, without_cr,
};
use vstd::prelude::*;

verus! {

/// Which part of the store changed (drives what gets written).
#[derive(Clone, Copy, PartialEq, Eq, Debug, Structural)]
pub enum Dirty {
    Settings,
    Session,
    History,
    Favicons,
}

// Coalesce windows per kind of data, in nanoseconds.
pub const DEBOUNCE_SETTINGS: u64 = 400_000_000;

pub const DEBOUNCE_SESSION: u64 = 2_000_000_000;

/// Long enough that a page's title usually arrives before its visit line is
/// appended, so that late-title compactions stay rare.
pub const DEBOUNCE_HISTORY: u64 = 3_000_000_000;

pub const DEBOUNCE_FAVICONS: u64 = 10_000_000_000;

/// Minimum spacing between full rewrites of the history file while browsing.
pub const HISTORY_REWRITE_DELAY: u64 = 30_000_000_000;

pub open spec fn window(kind: Dirty) -> u64 {
    match kind {
        Dirty::Settings => DEBOUNCE_SETTINGS,
        Dirty::Session => DEBOUNCE_SESSION,
        Dirty::History => DEBOUNCE_HISTORY,
        Dirty::Favicons => DEBOUNCE_FAVICONS,
    }
}

/// How long changes of a kind are gathered before they are written.
pub fn debounce(kind: Dirty) -> (r: u64)
    ensures
        r == window(kind),
{
    match kind {
        Dirty::Settings => DEBOUNCE_SETTINGS,
        Dirty::Session => DEBOUNCE_SESSION,
        Dirty::History => DEBOUNCE_HISTORY,
        Dirty::Favicons => DEBOUNCE_FAVICONS,
    }
}

/// All the kinds, in the order in which they are written.
pub const KINDS: [Dirty; 4] = [
    Dirty::Settings,
    Dirty::Session,
    Dirty::History,
    Dirty::Favicons,
];

/// When each kind was first dirtied (`None` for clean), on the monotonic clock
/// in nanoseconds.
#[derive(Clone, Copy, PartialEq, Eq, Debug, Structural)]
pub struct Pending {
    pub settings: Option<u64>,
    pub session: Option<u64>,
    pub history: Option<u64>,
    pub favicons: Option<u64>,
}

impl Pending {
    pub open spec fn since(self, kind: Dirty) -> Option<u64> {
        match kind {
            Dirty::Settings => self.settings,
            Dirty::Session => self.session,
            Dirty::History => self.history,
            Dirty::Favicons => self.favicons,
        }
    }

    /// The flags with that of one kind set anew.
    pub open spec fn with(self, kind: Dirty, t: Option<u64>) -> Pending {
        match kind {
            Dirty::Settings => Pending { settings: t, ..self },
            Dirty::Session => Pending { session: t, ..self },
            Dirty::History => Pending { history: t, ..self },
            Dirty::Favicons => Pending { favicons: t, ..self },
        }
    }

    /// Is a kind dirty, and its window over at `now`?
    pub open spec fn due(self, kind: Dirty, now: u64) -> bool {
        self.since(kind) matches Some(t) && t + window(kind) <= now
    }

    /// Nothing to write.
    pub fn clean() -> (r: Self)
        ensures
            forall|k: Dirty| #[trigger] r.since(k) is None,
    {
        Pending { settings: None, session: None, history: None, favicons: None }
    }

    /// The flag of one kind.
    pub fn slot(&mut self, kind: Dirty) -> (r: &mut Option<u64>)
        ensures
            *r == old(self).since(kind),
            *final(self) == old(self).with(kind, *final(r)),
    {
        match kind {
            Dirty::Settings => &mut self.settings,
            Dirty::Session => &mut self.session,
            Dirty::History => &mut self.history,
            Dirty::Favicons => &mut self.favicons,
        }
    }

    fn get(&self, kind: Dirty) -> (r: Option<u64>)
        ensures
            r == self.since(kind),
    {
        match kind {
            Dirty::Settings => self.settings,
            Dirty::Session => self.session,
            Dirty::History => self.history,
            Dirty::Favicons => self.favicons,
        }
    }
}

/// Dirty flags of the background saver.
pub struct Saver {
    pub pending: Pending,
}

/// What the housekeeping thread does next.
pub enum Step {
    /// Write these parts.
    Write(Vec<Dirty>),
    /// Sleep for so many nanoseconds, or until woken.
    Sleep(u128),
    /// Sleep until woken.
    Wait,
    /// The periodic job is due.
    Go,
}

/// The kinds that satisfy a predicate, in their order.
pub open spec fn kinds_where(p: spec_fn(Dirty) -> bool) -> Seq<Dirty> {
    KINDS@.filter(p)
}

pub open spec fn due_at(pending: Pending, now: u64) -> spec_fn(Dirty) -> bool {
    |k: Dirty| pending.due(k, now)
}

pub open spec fn is_dirty(pending: Pending) -> spec_fn(Dirty) -> bool {
    |k: Dirty| pending.since(k) is Some
}

/// The flags once part of the store changed: a flag that is up stays as it is.
pub open spec fn dirtied(pending: Pending, kind: Dirty, now: u64) -> Pending {
    match pending.since(kind) {
        Some(_) => pending,
        None => pending.with(kind, Some(now)),
    }
}

/// The flags once the kinds in `done` were taken for writing.
pub open spec fn cleared(pending: Pending, done: Seq<Dirty>) -> Pending {
    Pending {
        settings: if done.contains(Dirty::Settings) {
            None
        } else {
            pending.settings
        },
        session: if done.contains(Dirty::Session) {
            None
        } else {
            pending.session
        },
        history: if done.contains(Dirty::History) {
            None
        } else {
            pending.history
        },
        favicons: if done.contains(Dirty::Favicons) {
            None
        } else {
            pending.favicons
        },
    }
}

/// `t` is when something happens next: the periodic job, or the end of a
/// window.
pub open spec fn is_event(pending: Pending, next_tick: Option<u64>, t: int) -> bool {
    ||| next_tick matches Some(n) && t == n
    ||| exists|k: Dirty|
        pending.since(k) matches Some(s) && t == s + #[trigger] window(k)
}

/// `r` is what is done next at `now`, and `after` are the flags then.
pub open spec fn is_next(
    before: Pending,
    after: Pending,
    now: u64,
    next_tick: Option<u64>,
    r: Step,
) -> bool {
    match r {
        Step::Write(kinds) => kinds@ == kinds_where(due_at(before, now)) && kinds@.len() > 0
            && after == cleared(before, kinds@),
        Step::Sleep(d) => {
            &&& kinds_where(due_at(before, now)).len() == 0
            &&& after == before
            &&& d > 0
            &&& is_event(before, next_tick, now + d)
            &&& forall|t: int| #[trigger] is_event(before, next_tick, t) ==> now + d <= t
        },
        Step::Go => kinds_where(due_at(before, now)).len() == 0 && after == before && (
        next_tick matches Some(t) && t <= now),
        Step::Wait => kinds_where(due_at(before, now)).len() == 0 && after == before
            && forall|t: int| !#[trigger] is_event(before, next_tick, t),
    }
}

impl Saver {
    pub fn new() -> (r: Self)
        ensures
            forall|k: Dirty| #[trigger] r.pending.since(k) is None,
    {
        Saver { pending: Pending::clean() }
    }

    /// Mark part of the store as changed at `now`. A flag that is up stays as
    /// it is, so a busy part is written all the same.
    pub fn touch(&mut self, kind: Dirty, now: u64)
        ensures
            final(self).pending == dirtied(old(self).pending, kind, now),
    {
        let slot = self.pending.slot(kind);
        if slot.is_none() {
            *slot = Some(now);
        }
    }

    /// Take down the flags of the kinds in `done`.
    fn clear(&mut self, done: &Vec<Dirty>)
        ensures
            final(self).pending == cleared(old(self).pending, done@),
    {
        let ghost before = self.pending;
        let mut i: usize = 0;
        assert(cleared(before, done@.take(0)) == before);
        while i < done.len()
            invariant
                i <= done@.len(),
                self.pending == cleared(before, done@.take(i as int)),
            decreases done@.len() - i,
        {
            let kind = done[i];
            proof {
                let upto = done@.take(i as int);
                let next = done@.take(i + 1);
                assert(next == upto.push(kind));
                assert forall|k: Dirty| next.contains(k) <==> upto.contains(k) || k == kind by {
                    if upto.contains(k) {
                        let j = choose|j: int| 0 <= j < upto.len() && upto[j] == k;
                        assert(next[j] == k);
                    }
                    assert(next[i as int] == kind);
                }
            }
            let slot = self.pending.slot(kind);
            *slot = None;
            i += 1;
        }
        assert(done@.take(done@.len() as int) == done@);
    }

    /// Decide what is due at `now`, or how long to sleep. What is due is taken
    /// for writing: its flags go down.
    pub fn next_step(&mut self, now: u64, next_tick: Option<u64>) -> (r: Step)
        ensures
            is_next(old(self).pending, final(self).pending, now, next_tick, r),
    {
        let ghost p = due_at(self.pending, now);
        let mut due: Vec<Dirty> = Vec::new();
        let mut deadline: Option<u128> = match next_tick {
            Some(t) => Some(t as u128),
            None => None,
        };
        let mut i: usize = 0;
        proof {
            reveal(Seq::filter);
            assert(KINDS@.take(0).filter(p) == Seq::<Dirty>::empty());
        }
        while i < 4
            invariant
                i <= 4,
                *self == *old(self),
                p == due_at(self.pending, now),
                due@ == KINDS@.take(i as int).filter(p),
                match deadline {
                    Some(d) => earliest(self.pending, next_tick, now, i as int, d as int),
                    None => next_tick is None && forall|j: int|
                        0 <= j < i ==> (self.pending.since(#[trigger] KINDS@[j]) is None
                            || self.pending.due(KINDS@[j], now)),
                },
            decreases 4 - i,
        {
            let kind = KINDS[i];
            proof {
                reveal(Seq::filter);
                assert(KINDS@.take(i + 1).drop_last() == KINDS@.take(i as int));
            }
            if let Some(since) = self.pending.get(kind) {
                let at: u128 = since as u128 + debounce(kind) as u128;
                if at <= now as u128 {
                    due.push(kind);
                } else {
                    deadline = match deadline {
                        Some(d) if d <= at => Some(d),
                        _ => Some(at),
                    };
                }
            }
            i += 1;
        }
        assert(KINDS@.take(4) == KINDS@);
        if due.len() > 0 {
            self.clear(&due);
            return Step::Write(due);
        }
        proof {
            assert forall|k: Dirty| !self.pending.due(k, now) by {
                lemma_every_kind(k);
                let j = choose|j: int| 0 <= j < 4 && KINDS@[j] == k;
                if p(KINDS@[j]) {
                    KINDS@.lemma_filter_contains(p, j);
                }
            }
            assert forall|t: int| #[trigger] is_event(self.pending, next_tick, t) implies match deadline {
                Some(d) => d <= t,
                None => false,
            } by {
                if !(next_tick matches Some(n) && t == n) {
                    let k = choose|k: Dirty|
                        self.pending.since(k) matches Some(s) && t == s + #[trigger] window(k);
                    lemma_every_kind(k);
                    let j = choose|j: int| 0 <= j < 4 && KINDS@[j] == k;
                    assert(self.pending.since(KINDS@[j]) is Some);
                }
            }
        }
        match deadline {
            Some(d) => if d > now as u128 {
                proof {
                    if !(next_tick matches Some(n) && d == n) {
                        let j = choose|j: int|
                            0 <= j < 4 && (self.pending.since(#[trigger] KINDS@[j]) matches Some(s)
                                && d == s + window(KINDS@[j]));
                        assert(d == self.pending.since(KINDS@[j])->Some_0 + window(KINDS@[j]));
                    }
                    assert(is_event(self.pending, next_tick, d as int));
                }
                Step::Sleep(d - now as u128)
            } else {
                Step::Go
            },
            None => Step::Wait,
        }
    }

    /// Everything that is dirty, to be written at once (used on exit). The
    /// flags go down.
    pub fn flush(&mut self) -> (r: Vec<Dirty>)
        ensures
            r@ == kinds_where(is_dirty(old(self).pending)),
            forall|k: Dirty| #[trigger] final(self).pending.since(k) is None,
    {
        let ghost p = is_dirty(self.pending);
        let mut due: Vec<Dirty> = Vec::new();
        let mut i: usize = 0;
        proof {
            reveal(Seq::filter);
            assert(KINDS@.take(0).filter(p) == Seq::<Dirty>::empty());
        }
        while i < 4
            invariant
                i <= 4,
                *self == *old(self),
                p == is_dirty(self.pending),
                due@ == KINDS@.take(i as int).filter(p),
            decreases 4 - i,
        {
            let kind = KINDS[i];
            proof {
                reveal(Seq::filter);
                assert(KINDS@.take(i + 1).drop_last() == KINDS@.take(i as int));
            }
            if self.pending.get(kind).is_some() {
                due.push(kind);
            }
            i += 1;
        }
        assert(KINDS@.take(4) == KINDS@);
        proof {
            assert forall|k: Dirty| self.pending.since(k) is Some implies due@.contains(k) by {
                lemma_every_kind(k);
                let j = choose|j: int| 0 <= j < 4 && KINDS@[j] == k;
                KINDS@.lemma_filter_contains(p, j);
            }
        }
        self.clear(&due);
        due
    }
}

/// `d` is the earliest of the periodic job and of the windows, among the first
/// `n` kinds, that are still open.
spec fn earliest(pending: Pending, next_tick: Option<u64>, now: u64, n: int, d: int) -> bool {
    &&& {
        ||| next_tick matches Some(t) && d == t
        ||| exists|j: int|
            0 <= j < n && (pending.since(#[trigger] KINDS@[j]) matches Some(s) && d == s + window(
                KINDS@[j],
            ) && d > now)
    }
    &&& next_tick matches Some(t) ==> d <= t
    &&& forall|j: int|
        0 <= j < n ==> (match pending.since(#[trigger] KINDS@[j]) {
            Some(s) => pending.due(KINDS@[j], now) || d <= s + window(KINDS@[j]),
            None => true,
        })
}

proof fn lemma_every_kind(k: Dirty)
    ensures
        exists|j: int| 0 <= j < 4 && KINDS@[j] == k,
{
    match k {
        Dirty::Settings => assert(KINDS@[0] == k),
        Dirty::Session => assert(KINDS@[1] == k),
        Dirty::History => assert(KINDS@[2] == k),
        Dirty::Favicons => assert(KINDS@[3] == k),
    }
}

/// Whether the periodic job runs at `now`, and when it is next due.
pub open spec fn ticked(next_tick: Option<u64>, every: Option<u64>, now: u64) -> (
    bool,
    Option<u64>,
) {
    match (next_tick, every) {
        (Some(t), Some(e)) if now >= t => (true, Some((now + e) as u64)),
        _ => (false, next_tick),
    }
}

/// The periodic job: whether it runs at `now`, and when it is next due.
pub fn tick_at(next_tick: Option<u64>, every: Option<u64>, now: u64) -> (r: (bool, Option<u64>))
    requires
        every matches Some(e) ==> now + e <= u64::MAX,
    ensures
        r == ticked(next_tick, every, now),
{
    match (next_tick, every) {
        (Some(t), Some(e)) if now >= t => (true, Some(now + e)),
        _ => (false, next_tick),
    }
}

// ---- the history file ---------------------------------------------------

/// What is to be done to the history file.
pub enum Job {
    /// Append these visits.
    Append(Vec<HistoryEntry>),
    /// Replace the whole file by these visits.
    Rewrite(Vec<HistoryEntry>),
    Nothing,
}

/// Nanoseconds from `t` to `now`.
pub open spec fn elapsed(t: u64, now: u64) -> int {
    if now >= t {
        now - t
    } else {
        0
    }
}

/// Is a flagged rewrite to be done now? On exit (`force`) it always is.
pub open spec fn rewrite_due(since: Option<u64>, force: bool, now: u64) -> bool {
    since matches Some(t) && (force || elapsed(t, now) >= HISTORY_REWRITE_DELAY)
}

/// `job` is what there is to do for the history of `before`, and `after` is the
/// store that takes it as done. `pending` says whether a compaction stays
/// flagged.
pub open spec fn job_done(
    before: Store,
    after: Store,
    job: Job,
    pending: bool,
    force: bool,
    now: u64,
) -> bool {
    if rewrite_due(before.history_rewrite_since, force, now) {
        &&& job matches Job::Rewrite(all) && all@ == before.history@
        &&& !pending
        &&& after.history_saved == before.history@.len()
        &&& after == (Store {
            history_rewrite_since: None,
            history_saved: after.history_saved,
            ..before
        })
    } else if before.history_saved < before.history@.len() {
        &&& job matches Job::Append(tail) && tail@ == before.history@.skip(
            before.history_saved as int,
        )
        &&& pending == before.history_rewrite_since is Some
        &&& after.history_saved == before.history@.len()
        &&& after == (Store { history_saved: after.history_saved, ..before })
    } else {
        &&& job is Nothing
        &&& pending == before.history_rewrite_since is Some
        &&& after == before
    }
}

fn copy_from(h: &Vec<HistoryEntry>, from: usize) -> (r: Vec<HistoryEntry>)
    requires
        from <= h@.len(),
    ensures
        r@ == h@.skip(from as int),
{
    let mut out: Vec<HistoryEntry> = Vec::new();
    let mut i = from;
    while i < h.len()
        invariant
            from <= i <= h@.len(),
            out@ == h@.subrange(from as int, i as int),
        decreases h@.len() - i,
    {
        out.push(h[i].clone());
        assert(h@.subrange(from as int, i + 1) == h@.subrange(from as int, i as int).push(
            h@[i as int],
        ));
        i += 1;
    }
    out
}

impl Store {
    /// Either append the new visits to the history file or, rarely, compact the
    /// whole file. Says too whether a compaction stays pending.
    pub fn history_job(&mut self, force: bool, now: u64) -> (r: (Job, bool))
        requires
            old(self).wf(),
        ensures
            final(self).wf(),
            job_done(*old(self), *final(self), r.0, r.1, force, now),
    {
        let due = match self.history_rewrite_since {
            Some(t) => force || (now >= t && now - t >= HISTORY_REWRITE_DELAY),
            None => false,
        };
        if due {
            self.history_rewrite_since = None;
            self.history_saved = self.history.len();
            let all = copy_from(&self.history, 0);
            assert(self.history@.skip(0) == self.history@);
            return (Job::Rewrite(all), false);
        }
        let pending = self.history_rewrite_since.is_some();
        if self.history_saved < self.history.len() {
            let tail = copy_from(&self.history, self.history_saved);
            self.history_saved = self.history.len();
            (Job::Append(tail), pending)
        } else {
            (Job::Nothing, pending)
        }
    }
}

/// What is written on exit: every dirty part, and the history once more where a
/// compaction is flagged, even if no visit is dirty. Without a saver, all parts.
pub open spec fn exit_plan(dirty: Option<Seq<Dirty>>, rewrite: bool) -> Seq<Dirty> {
    let due = match dirty {
        Some(d) => d,
        None => KINDS@,
    };
    if rewrite {
        due.push(Dirty::History)
    } else {
        due
    }
}

pub fn flush_plan(dirty: Option<Vec<Dirty>>, rewrite: bool) -> (r: Vec<Dirty>)
    ensures
        r@ == exit_plan(
            match dirty {
                Some(d) => Some(d@),
                None => None,
            },
            rewrite,
        ),
{
    let mut plan: Vec<Dirty> = match dirty {
        Some(d) => d,
        None => {
            let mut all: Vec<Dirty> = Vec::new();
            all.push(Dirty::Settings);
            all.push(Dirty::Session);
            all.push(Dirty::History);
            all.push(Dirty::Favicons);
            assert(all@ =~= KINDS@);
            all
        },
    };
    if rewrite {
        plan.push(Dirty::History);
    }
    plan
}

/// The text of a file with these lines.
pub open spec fn framed(ls: Seq<Seq<char>>) -> Seq<char>
    decreases ls.len(),
{
    if ls.len() == 0 {
        Seq::empty()
    } else {
        (framed(ls.drop_last()) + ls.last()).push('\n')
    }
}

/// One line per entry, each ended by a line feed.
pub fn history_text(entries: &Vec<String>) -> (r: String)
    ensures
        r@ == framed(strings(entries@)),
{
    let mut out = String::new();
    let mut i: usize = 0;
    let ghost ls = strings(entries@);
    assert(out@ =~= framed(ls.take(0)));
    while i < entries.len()
        invariant
            i <= entries@.len(),
            ls == strings(entries@),
            out@ == framed(ls.take(i as int)),
        decreases entries@.len() - i,
    {
        assert(ls.take(i + 1).drop_last() == ls.take(i as int));
        out.append(entries[i].as_str());
        out.push('\n');
        i += 1;
    }
    assert(ls.take(ls.len() as int) == ls);
    out
}

pub open spec fn shows_text(l: Seq<char>) -> bool {
    trimmed(l).len() > 0
}

/// The lines of a history file that hold an entry.
pub open spec fn entry_lines(text: Seq<char>) -> Seq<Seq<char>> {
    lines(text).filter(|l: Seq<char>| shows_text(l))
}

/// The lines of a history file that are not blank.
pub fn read_lines(text: &str) -> (r: Vec<String>)
    ensures
        strings(r@) == entry_lines(text@),
{
    let all = split_lines(text);
    let ghost p = |l: Seq<char>| shows_text(l);
    let ghost ls = strings(all@);
    let mut out: Vec<String> = Vec::new();
    let mut i: usize = 0;
    proof {
        reveal(Seq::filter);
        assert(strings(out@) =~= ls.take(0).filter(p));
    }
    while i < all.len()
        invariant
            i <= all@.len(),
            ls == strings(all@),
            p == (|l: Seq<char>| shows_text(l)),
            strings(out@) == ls.take(i as int).filter(p),
        decreases all@.len() - i,
    {
        proof {
            reveal(Seq::filter);
            assert(ls.take(i + 1).drop_last() == ls.take(i as int));
            assert(ls[i as int] == all@[i as int]@);
        }
        let chars = chars_of(all[i].as_str());
        if trim(chars.as_slice()).len() > 0 {
            let ghost before = out@;
            let line = all[i].clone();
            out.push(line);
            assert(strings(out@) =~= strings(before).push(line@));
        }
        i += 1;
    }
    assert(ls.take(ls.len() as int) == ls);
    out
}

/// The newest of some visits, as many as the history holds.
pub open spec fn newest_of<T>(v: Seq<T>) -> Seq<T> {
    if v.len() > HISTORY_CAP {
        v.skip(v.len() - HISTORY_CAP)
    } else {
        v
    }
}

/// The newest visits, as many as the history holds.
pub fn newest(v: Vec<HistoryEntry>) -> (r: Vec<HistoryEntry>)
    ensures
        r@ == newest_of(v@),
{
    let n = v.len();
    if n > HISTORY_CAP {
        copy_from(&v, n - HISTORY_CAP)
    } else {
        v
    }
}

/// What is there, in order.
pub open spec fn present<T>(v: Seq<Option<T>>) -> Seq<T>
    decreases v.len(),
{
    if v.len() == 0 {
        Seq::empty()
    } else {
        match v.last() {
            Some(x) => present(v.drop_last()).push(x),
            None => present(v.drop_last()),
        }
    }
}

/// The history, given what each line of its file was read as: lines that were not
/// understood are skipped, and the oldest visits dropped past the cap.
pub fn read_entries(parsed: Vec<Option<HistoryEntry>>) -> (r: Vec<HistoryEntry>)
    ensures
        r@ == newest_of(present(parsed@)),
{
    let mut v: Vec<HistoryEntry> = Vec::new();
    let mut i: usize = 0;
    assert(v@ =~= present(parsed@.take(0)));
    while i < parsed.len()
        invariant
            i <= parsed@.len(),
            v@ == present(parsed@.take(i as int)),
        decreases parsed@.len() - i,
    {
        assert(parsed@.take(i + 1).drop_last() == parsed@.take(i as int));
        if let Some(e) = &parsed[i] {
            v.push(e.clone());
        }
        i += 1;
    }
    assert(parsed@.take(parsed@.len() as int) == parsed@);
    newest(v)
}

// ---- laws ---------------------------------------------------------------

/// A change is written as soon as its window is over, and what is not written
/// keeps its flag.
pub proof fn law_no_change_is_lost(pending: Pending, kind: Dirty, now: u64)
    ensures
        kinds_where(due_at(pending, now)).contains(kind) <==> pending.due(kind, now),
        cleared(pending, kinds_where(due_at(pending, now))).since(kind) == (if pending.due(
            kind,
            now,
        ) {
            None
        } else {
            pending.since(kind)
        }),
{
    let p = due_at(pending, now);
    let due = kinds_where(p);
    assert forall|k: Dirty| #[trigger] due.contains(k) <==> pending.due(k, now) by {
        lemma_every_kind(k);
        let j = choose|j: int| 0 <= j < 4 && KINDS@[j] == k;
        if p(KINDS@[j]) {
            KINDS@.lemma_filter_contains(p, j);
        }
        if due.contains(k) {
            let i = choose|i: int| 0 <= i < due.len() && due[i] == k;
            KINDS@.lemma_filter_pred(p, i);
        }
    }
}

/// The visits that the history file holds once a job was done.
pub open spec fn file_after(file: Seq<Visit>, job: Job) -> Seq<Visit> {
    match job {
        Job::Append(tail) => file + visits(tail@),
        Job::Rewrite(all) => visits(all@),
        Job::Nothing => file,
    }
}

/// Doing its job keeps the history file in step with the store, and on exit the
/// file then holds the whole history.
pub proof fn law_file_follows_history(
    file: Seq<Visit>,
    before: Store,
    after: Store,
    job: Job,
    pending: bool,
    force: bool,
    now: u64,
)
    requires
        before.wf(),
        in_step(file, before),
        job_done(before, after, job, pending, force, now),
    ensures
        in_step(file_after(file, job), after),
        force ==> file_after(file, job) == visits(after.history@),
{
    let n = before.history@.len();
    let k = before.history_saved as int;
    assert(before.history@.take(n as int) == before.history@);
    if let Job::Append(tail) = job {
        assert(before.history@ == before.history@.take(k) + before.history@.skip(k));
        assert(visits(before.history@) == visits(before.history@.take(k)) + visits(tail@));
    }
}

/// Text that may stand on a line of its own.
pub open spec fn is_line(l: Seq<char>) -> bool {
    &&& shows_text(l)
    &&& l.last() != '\r'
    &&& forall|i: int| 0 <= i < l.len() ==> #[trigger] l[i] != '\n'
}

proof fn lemma_split_append(s: Seq<char>, l: Seq<char>)
    requires
        forall|i: int| 0 <= i < l.len() ==> #[trigger] l[i] != '\n',
    ensures
        split(s, '\n').len() > 0,
        split(s + l, '\n') == split(s, '\n').drop_last().push(split(s, '\n').last() + l),
    decreases l.len(),
{
    lemma_split_some(s);
    if l.len() == 0 {
        assert(s + l == s);
        assert(split(s, '\n').last() + l == split(s, '\n').last());
        assert(split(s, '\n').drop_last().push(split(s, '\n').last()) == split(s, '\n'));
    } else {
        let m = l.drop_last();
        assert forall|i: int| 0 <= i < m.len() implies #[trigger] m[i] != '\n' by {
            assert(m[i] == l[i]);
        }
        lemma_split_append(s, m);
        assert((s + l).drop_last() == s + m);
        assert((s + l).last() == l.last());
        assert(l[l.len() - 1] != '\n');
        let f = split(s + m, '\n');
        assert(f.drop_last() == split(s, '\n').drop_last());
        assert((split(s, '\n').last() + m).push(l.last()) == split(s, '\n').last() + l);
    }
}

proof fn lemma_split_some(s: Seq<char>)
    ensures
        split(s, '\n').len() > 0,
    decreases s.len(),
{
    if s.len() > 0 {
        lemma_split_some(s.drop_last());
    }
}

pub proof fn lemma_lines_framed(ls: Seq<Seq<char>>)
    requires
        forall|i: int, j: int|
            0 <= i < ls.len() && 0 <= j < ls[i].len() ==> #[trigger] ls[i][j] != '\n',
    ensures
        split(framed(ls), '\n') == ls.push(Seq::<char>::empty()),
    decreases ls.len(),
{
    if ls.len() == 0 {
        assert(split(framed(ls), '\n') =~= ls.push(Seq::<char>::empty()));
    } else {
        let m = ls.drop_last();
        assert forall|i: int, j: int| 0 <= i < m.len() && 0 <= j < m[i].len() implies
            #[trigger] m[i][j] != '\n' by {
            assert(m[i][j] == ls[i][j]);
        }
        lemma_lines_framed(m);
        let l = ls[ls.len() - 1];
        assert forall|j: int| 0 <= j < l.len() implies #[trigger] l[j] != '\n' by {
            assert(ls[ls.len() - 1][j] != '\n');
        }
        lemma_split_append(framed(m), ls.last());
        assert(m.push(Seq::<char>::empty()).drop_last() == m);
        assert(Seq::<char>::empty() + ls.last() == ls.last());
        assert(m.push(ls.last()) == ls);
        assert(framed(ls).drop_last() == framed(m) + ls.last());
    }
}

/// Reading a history file gives back the lines that were written.
pub proof fn law_history_file_round_trip(ls: Seq<Seq<char>>)
    requires
        forall|i: int| 0 <= i < ls.len() ==> is_line(#[trigger] ls[i]),
    ensures
        entry_lines(framed(ls)) == ls,
{
    assert forall|i: int, j: int| 0 <= i < ls.len() && 0 <= j < ls[i].len() implies
        #[trigger] ls[i][j] != '\n' by {
        assert(is_line(ls[i]));
    }
    lemma_lines_framed(ls);
    let fields = split(framed(ls), '\n');
    assert(fields.drop_last() == ls);
    let ended = ls.map_values(|f: Seq<char>| without_cr(f));
    assert(ended =~= ls) by {
        assert forall|i: int| 0 <= i < ls.len() implies ended[i] == #[trigger] ls[i] by {
            assert(is_line(ls[i]));
        }
    }
    assert(lines(framed(ls)) == ls);
    lemma_all_kept(ls);
}

proof fn lemma_all_kept(ls: Seq<Seq<char>>)
    requires
        forall|i: int| 0 <= i < ls.len() ==> is_line(#[trigger] ls[i]),
    ensures
        ls.filter(|l: Seq<char>| shows_text(l)) == ls,
    decreases ls.len(),
{
    reveal(Seq::filter);
    if ls.len() == 0 {
        assert(ls.filter(|l: Seq<char>| shows_text(l)) =~= ls);
    } else {
        let m = ls.drop_last();
        assert forall|i: int| 0 <= i < m.len() implies is_line(#[trigger] m[i]) by {
            assert(m[i] == ls[i]);
        }
        lemma_all_kept(m);
        assert(is_line(ls[ls.len() - 1]));
        assert(m.push(ls.last()) == ls);
    }
}

/// Appending the text of some lines to a file gives the file with those lines
/// added: the history can grow without being rewritten.
pub proof fn law_appending_adds_lines(a: Seq<Seq<char>>, b: Seq<Seq<char>>)
    ensures
        framed(a) + framed(b) == framed(a + b),
    decreases b.len(),
{
    if b.len() == 0 {
        assert(a + b == a);
        assert(framed(a) + framed(b) == framed(a));
    } else {
        law_appending_adds_lines(a, b.drop_last());
        assert((a + b).drop_last() == a + b.drop_last());
        assert(framed(a) + framed(b) == framed(a + b));
    }
}

/// A line of a history file that holds no visit: it is blank, or it cannot be
/// parsed.
pub open spec fn is_junk<T>(l: Seq<char>, parse: spec_fn(Seq<char>) -> Option<T>) -> bool {
    &&& forall|i: int| 0 <= i < l.len() ==> #[trigger] l[i] != '\n'
    &&& !shows_text(without_cr(l)) || parse(without_cr(l)) is None
}

/// `ls` are the lines `written` with any number of junk lines among them.
pub open spec fn among_junk<T>(
    ls: Seq<Seq<char>>,
    written: Seq<Seq<char>>,
    parse: spec_fn(Seq<char>) -> Option<T>,
) -> bool
    decreases ls.len(),
{
    if ls.len() == 0 {
        written.len() == 0
    } else {
        ||| is_junk(ls.last(), parse) && among_junk(ls.drop_last(), written, parse)
        ||| written.len() > 0 && ls.last() == written.last() && among_junk(
            ls.drop_last(),
            written.drop_last(),
            parse,
        )
    }
}

/// What the entry lines of a history file are read as.
pub open spec fn parsed_lines<T>(
    text: Seq<char>,
    parse: spec_fn(Seq<char>) -> Option<T>,
) -> Seq<Option<T>> {
    entry_lines(text).map_values(parse)
}

proof fn lemma_junk_lines<T>(
    ls: Seq<Seq<char>>,
    written: Seq<Seq<char>>,
    parse: spec_fn(Seq<char>) -> Option<T>,
)
    requires
        among_junk(ls, written, parse),
        forall|i: int| 0 <= i < written.len() ==> is_line(#[trigger] written[i]),
    ensures
        forall|i: int, j: int|
            0 <= i < ls.len() && 0 <= j < ls[i].len() ==> #[trigger] ls[i][j] != '\n',
    decreases ls.len(),
{
    if ls.len() > 0 {
        let m = ls.drop_last();
        if is_junk(ls.last(), parse) && among_junk(m, written, parse) {
            lemma_junk_lines(m, written, parse);
        } else {
            let w = written.drop_last();
            assert forall|i: int| 0 <= i < w.len() implies is_line(#[trigger] w[i]) by {
                assert(w[i] == written[i]);
            }
            lemma_junk_lines(m, w, parse);
            assert(is_line(written[written.len() - 1]));
        }
        assert forall|i: int, j: int| 0 <= i < ls.len() && 0 <= j < ls[i].len() implies
            #[trigger] ls[i][j] != '\n' by {
            if i < ls.len() - 1 {
                assert(m[i][j] == ls[i][j]);
            }
        }
    }
}

proof fn lemma_junk_skipped<T>(
    ls: Seq<Seq<char>>,
    es: Seq<T>,
    write: spec_fn(T) -> Seq<char>,
    parse: spec_fn(Seq<char>) -> Option<T>,
)
    requires
        forall|i: int|
            0 <= i < es.len() ==> is_line(write(#[trigger] es[i])) && parse(write(es[i])) == Some(
                es[i],
            ),
        among_junk(ls, es.map_values(write), parse),
    ensures
        present(
            ls.map_values(|f: Seq<char>| without_cr(f)).filter(
                |l: Seq<char>| shows_text(l),
            ).map_values(parse),
        ) == es,
    decreases ls.len(),
{
    reveal(Seq::filter);
    let cut = |f: Seq<char>| without_cr(f);
    let p = |l: Seq<char>| shows_text(l);
    let written = es.map_values(write);
    let kept = ls.map_values(cut).filter(p);
    if ls.len() == 0 {
        assert(present(kept.map_values(parse)) =~= es);
    } else {
        let m = ls.drop_last();
        let l = without_cr(ls.last());
        let rest = m.map_values(cut).filter(p);
        assert(ls.map_values(cut).drop_last() =~= m.map_values(cut));
        assert(kept == if p(l) {
            rest.push(l)
        } else {
            rest
        });
        if p(l) {
            assert(kept.map_values(parse).drop_last() =~= rest.map_values(parse));
            assert(kept.map_values(parse).last() == parse(l));
        }
        if is_junk(ls.last(), parse) && among_junk(m, written, parse) {
            lemma_junk_skipped(m, es, write, parse);
        } else {
            let n = es.len() - 1;
            let before = es.drop_last();
            assert(written.drop_last() =~= before.map_values(write));
            assert forall|i: int| 0 <= i < before.len() implies is_line(
                write(#[trigger] before[i]),
            ) && parse(write(before[i])) == Some(before[i]) by {
                assert(before[i] == es[i]);
            }
            lemma_junk_skipped(m, before, write, parse);
            assert(is_line(write(es[n])));
            assert(l == write(es[n]));
            assert(before.push(es[n]) =~= es);
        }
    }
}

/// Reading a history file gives back the visits that were written to it, in
/// order and cut to the newest, whatever blank lines or lines that cannot be
/// parsed stand among theirs. This holds for every way to write a visit on a line
/// of its own that parsing undoes.
pub proof fn law_history_survives_junk<T>(
    ls: Seq<Seq<char>>,
    es: Seq<T>,
    write: spec_fn(T) -> Seq<char>,
    parse: spec_fn(Seq<char>) -> Option<T>,
)
    requires
        forall|i: int|
            0 <= i < es.len() ==> is_line(write(#[trigger] es[i])) && parse(write(es[i])) == Some(
                es[i],
            ),
        among_junk(ls, es.map_values(write), parse),
    ensures
        newest_of(present(parsed_lines(framed(ls), parse))) == newest_of(es),
{
    let written = es.map_values(write);
    assert forall|i: int| 0 <= i < written.len() implies is_line(#[trigger] written[i]) by {
        assert(written[i] == write(es[i]));
    }
    lemma_junk_lines(ls, written, parse);
    lemma_lines_framed(ls);
    assert(split(framed(ls), '\n').drop_last() == ls);
    lemma_junk_skipped(ls, es, write, parse);
}

/// Settings are written 0.4 seconds after they first changed, the session after
/// two, the history after three and the icons after ten, all counted in
/// nanoseconds; and not before.
pub proof fn law_changes_wait_their_time(p: Pending, now: u64)
    ensures
        p.due(Dirty::Settings, now) <==> (p.settings matches Some(t) && t + 400_000_000 <= now),
        p.due(Dirty::Session, now) <==> (p.session matches Some(t) && t + 2_000_000_000 <= now),
        p.due(Dirty::History, now) <==> (p.history matches Some(t) && t + 3_000_000_000 <= now),
        p.due(Dirty::Favicons, now) <==> (p.favicons matches Some(t) && t + 10_000_000_000
            <= now),
{
}

/// A part that goes on changing is written all the same: its wait is counted
/// from the first change. No other part's wait changes.
pub proof fn law_busy_parts_are_written(p: Pending, kind: Dirty, other: Dirty, now: u64, later: u64)
    requires
        now <= later,
    ensures
        dirtied(p, kind, now).since(kind) is Some,
        p.since(kind) is None ==> dirtied(p, kind, now).since(kind) == Some(now),
        p.since(kind) is Some ==> dirtied(p, kind, now) == p,
        other != kind ==> dirtied(p, kind, now).since(other) == p.since(other),
        dirtied(dirtied(p, kind, now), kind, later) == dirtied(p, kind, now),
{
}

/// The thread wakes for the periodic job and for the end of each window.
pub proof fn law_windows_end_a_sleep(p: Pending, next_tick: Option<u64>)
    ensures
        p.settings matches Some(t) ==> is_event(p, next_tick, t + 400_000_000),
        p.session matches Some(t) ==> is_event(p, next_tick, t + 2_000_000_000),
        p.history matches Some(t) ==> is_event(p, next_tick, t + 3_000_000_000),
        p.favicons matches Some(t) ==> is_event(p, next_tick, t + 10_000_000_000),
        next_tick matches Some(t) ==> is_event(p, next_tick, t as int),
{
    assert(window(Dirty::Settings) == 400_000_000);
    assert(window(Dirty::Session) == 2_000_000_000);
    assert(window(Dirty::History) == 3_000_000_000);
    assert(window(Dirty::Favicons) == 10_000_000_000);
}

/// The periodic job never runs before its time, and once it ran it rests for the
/// whole period.
pub proof fn law_the_job_runs_in_its_time(next_tick: Option<u64>, every: Option<u64>, now: u64)
    requires
        every matches Some(e) ==> now + e <= u64::MAX,
    ensures
        ticked(next_tick, every, now).0 <==> every is Some && (next_tick matches Some(t) && t
            <= now),
        ticked(next_tick, every, now).0 ==> (ticked(next_tick, every, now).1 matches Some(t) && t
            - now == every->0),
        !ticked(next_tick, every, now).0 ==> ticked(next_tick, every, now).1 == next_tick,
{
}

/// While browsing, the history file is written anew only where that was called
/// for at least thirty seconds ago; on exit, wherever it was called for.
pub proof fn law_rewrites_are_rare(since: Option<u64>, now: u64)
    ensures
        rewrite_due(since, false, now) <==> (since matches Some(t) && t + 30_000_000_000 <= now),
        rewrite_due(since, true, now) <==> since is Some,
{
}

/// On exit every dirty part is written, all of them where nothing says which are
/// dirty, and the history wherever its file is to be written anew.
pub proof fn law_exit_leaves_nothing_unwritten(dirty: Seq<Dirty>, rewrite: bool, kind: Dirty)
    ensures
        exit_plan(None, rewrite).contains(kind),
        dirty.contains(kind) ==> exit_plan(Some(dirty), rewrite).contains(kind),
        exit_plan(Some(dirty), true).contains(Dirty::History),
        exit_plan(Some(dirty), rewrite).contains(kind) ==> dirty.contains(kind) || rewrite && kind
            == Dirty::History,
{
    lemma_every_kind(kind);
    let j = choose|j: int| 0 <= j < 4 && KINDS@[j] == kind;
    assert(exit_plan(None, rewrite)[j] == kind);
    if dirty.contains(kind) {
        let i = choose|i: int| 0 <= i < dirty.len() && dirty[i] == kind;
        assert(exit_plan(Some(dirty), rewrite)[i] == kind);
    }
    assert(exit_plan(Some(dirty), true)[dirty.len() as int] == Dirty::History);
    if exit_plan(Some(dirty), rewrite).contains(kind) {
        let plan = exit_plan(Some(dirty), rewrite);
        let i = choose|i: int| 0 <= i < plan.len() && plan[i] == kind;
        if i < dirty.len() {
            assert(dirty[i] == kind);
        }
    }
}

/// Of the visits in a file the newest 5000 are loaded, in their order.
pub proof fn law_newest_visits_are_loaded<T>(v: Seq<T>)
    ensures
        newest_of(v).len() == (if v.len() < 5000 {
            v.len()
        } else {
            5000
        }),
        forall|k: int|
            1 <= k <= newest_of(v).len() ==> #[trigger] newest_of(v)[newest_of(v).len() - k]
                == v[v.len() - k],
{
}

/// A line that was not understood is skipped, and any other is read in its
/// place.
pub proof fn law_unread_lines_are_skipped<T>(v: Seq<Option<T>>, x: T)
    ensures
        present(Seq::<Option<T>>::empty()) == Seq::<T>::empty(),
        present(v.push(None)) == present(v),
        present(v.push(Some(x))) == present(v).push(x),
{
    assert(v.push(None).drop_last() =~= v);
    assert(v.push(Some(x)).drop_last() =~= v);
}

/// What is due is written before anything else, and then only what is due; the
/// thread never sleeps past the end of a window or past the periodic job, and
/// waits only where there is neither.
pub proof fn law_nothing_due_is_slept_through(
    before: Pending,
    after: Pending,
    now: u64,
    next_tick: Option<u64>,
    r: Step,
    kind: Dirty,
)
    requires
        is_next(before, after, now, next_tick, r),
    ensures
        before.due(kind, now) ==> r is Write && after.since(kind) is None,
        !before.due(kind, now) ==> after.since(kind) == before.since(kind),
        r matches Step::Write(kinds) ==> (kinds@.contains(kind) <==> before.due(kind, now)),
        r matches Step::Sleep(d) ==> (before.since(kind) matches Some(t) ==> now + d <= t + window(
            kind,
        )),
        r matches Step::Sleep(d) ==> (next_tick matches Some(t) ==> now + d <= t),
        r is Go ==> (next_tick matches Some(t) && t <= now),
        r is Wait ==> before.since(kind) is None && next_tick is None,
{
    law_no_change_is_lost(before, kind, now);
    if let Some(t) = before.since(kind) {
        assert(is_event(before, next_tick, t + window(kind)));
    }
    if let Some(t) = next_tick {
        assert(is_event(before, next_tick, t as int));
    }
    if before.due(kind, now) {
        let due = kinds_where(due_at(before, now));
        assert(due.len() > 0);
    }
}

/// What is written at once on exit is every part that is dirty, and no other.
pub proof fn law_flushing_takes_what_is_dirty(pending: Pending, kind: Dirty)
    ensures
        kinds_where(is_dirty(pending)).contains(kind) <==> pending.since(kind) is Some,
{
    let p = is_dirty(pending);
    let due = kinds_where(p);
    lemma_every_kind(kind);
    let j = choose|j: int| 0 <= j < 4 && KINDS@[j] == kind;
    if p(KINDS@[j]) {
        KINDS@.lemma_filter_contains(p, j);
    }
    if due.contains(kind) {
        let i = choose|i: int| 0 <= i < due.len() && due[i] == kind;
        KINDS@.lemma_filter_pred(p, i);
    }
}

/// Blank lines are skipped, and no other: one character that is not white space
/// is enough.
pub proof fn law_only_blank_lines_are_skipped(l: Seq<char>, k: int)
    ensures
        0 <= k < l.len() && !is_space(l[k]) ==> shows_text(l),
        (forall|i: int| 0 <= i < l.len() ==> is_space(#[trigger] l[i])) ==> !shows_text(l),
{
    law_trimming_takes_only_white_space(l);
}

} // verus!
