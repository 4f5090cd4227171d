//! The memory report: what each tab takes, and everything together, with a
//! process that several tabs share counted once.

use crate::state::{label_text, BrowserState, Tab};
use crate::web::{host_of, host_text, opt_text};
use vstd::prelude::*;

verus! {

pub struct TabMemory {
    pub id: usize,
    pub title: String,
    pub bytes: u64,
}

pub struct MemoryReport {
    pub tabs: Vec<TabMemory>,
    /// The app's own process and that of the chrome UI.
    pub app_bytes: u64,
    /// Everything above, counting a shared process once.
    pub total_bytes: u64,
    pub available: bool,
}

/// A process and its physical memory footprint (zero if that is unknown).
#[derive(Clone, Copy, PartialEq, Eq, Debug, Structural)]
pub struct Reading {
    pub pid: i32,
    pub bytes: u64,
}

/// A tab that is awake, with its page's process.
pub struct LiveTab {
    pub id: usize,
    pub title: String,
    pub process: Reading,
}

pub open spec fn has_pid(readings: Seq<Reading>, pid: i32) -> bool {
    exists|i: int| 0 <= i < readings.len() && (#[trigger] readings[i]).pid == pid
}

/// The sum over the processes, each counted where it comes first.
pub open spec fn total(readings: Seq<Reading>) -> nat
    decreases readings.len(),
{
    if readings.len() == 0 {
        0
    } else {
        let init = readings.drop_last();
        total(init) + if has_pid(init, readings.last().pid) {
            0
        } else {
            readings.last().bytes as nat
        }
    }
}

pub open spec fn processes(tabs: Seq<LiveTab>) -> Seq<Reading> {
    tabs.map_values(|t: LiveTab| t.process)
}

/// The processes in the order in which they are counted.
pub open spec fn all_processes(
    own: Reading,
    chrome: Option<Reading>,
    tabs: Seq<LiveTab>,
) -> Seq<Reading> {
    let app = match chrome {
        Some(c) => seq![own, c],
        None => seq![own],
    };
    app + processes(tabs)
}

/// What the app itself takes.
pub open spec fn app_total(own: Reading, chrome: Option<Reading>) -> int {
    match chrome {
        Some(c) => own.bytes + c.bytes,
        None => own.bytes as int,
    }
}

/// `r` says what each tab takes, the app, and everything together.
pub open spec fn reports(
    own: Reading,
    chrome: Option<Reading>,
    live: Seq<LiveTab>,
    r: MemoryReport,
) -> bool {
    &&& r.tabs@.len() == live.len()
    &&& forall|i: int|
        0 <= i < live.len() ==> (#[trigger] r.tabs@[i]).id == live[i].id && r.tabs@[i].title
            == live[i].title && r.tabs@[i].bytes == live[i].process.bytes
    &&& r.app_bytes == app_total(own, chrome)
    &&& r.total_bytes == total(all_processes(own, chrome, live))
}

fn seen_before(seen: &Vec<i32>, pid: i32, readings: Ghost<Seq<Reading>>) -> (r: bool)
    requires
        seen@.len() == readings@.len(),
        forall|i: int| 0 <= i < seen@.len() ==> #[trigger] seen@[i] == readings@[i].pid,
    ensures
        r == has_pid(readings@, pid),
{
    let mut i: usize = 0;
    while i < seen.len()
        invariant
            i <= seen@.len(),
            seen@.len() == readings@.len(),
            forall|j: int| 0 <= j < seen@.len() ==> #[trigger] seen@[j] == readings@[j].pid,
            forall|j: int| 0 <= j < i ==> (#[trigger] readings@[j]).pid != pid,
        decreases seen@.len() - i,
    {
        if seen[i] == pid {
            assert(readings@[i as int].pid == pid);
            return true;
        }
        assert(seen@[i as int] == readings@[i as int].pid);
        i += 1;
    }
    false
}

/// Physical memory footprint per tab and overall.
pub fn memory_report(
    own: Reading,
    chrome: Option<Reading>,
    live: Vec<LiveTab>,
    available: bool,
) -> (r: MemoryReport)
    requires
        app_total(own, chrome) <= u64::MAX,
        total(all_processes(own, chrome, live@)) <= u64::MAX,
    ensures
        r.available == available,
        reports(own, chrome, live@, r),
{
    let ghost all = all_processes(own, chrome, live@);
    let mut seen: Vec<i32> = Vec::new();
    seen.push(own.pid);
    let mut sum: u64 = own.bytes;
    let mut app_bytes: u64 = own.bytes;
    let ghost mut k: int = 1;
    proof {
        reveal_with_fuel(total, 3);
        assert(all.take(1) == seq![own]);
        assert(seq![own].drop_last() == Seq::<Reading>::empty());
        lemma_total_grows(all, 1);
    }
    if let Some(c) = chrome {
        proof {
            assert(all.take(2) == seq![own, c]);
            assert(seq![own, c].drop_last() == seq![own]);
            assert(seq![own][0].pid == own.pid);
            lemma_total_grows(all, 2);
            k = 2;
        }
        if c.pid != own.pid {
            sum = sum + c.bytes;
        }
        app_bytes = app_bytes + c.bytes;
        seen.push(c.pid);
    }
    let n = live.len();
    let mut tabs: Vec<TabMemory> = Vec::new();
    let mut i: usize = 0;
    while i < n
        invariant
            i <= n,
            n == live@.len(),
            k == (match chrome {
                Some(_) => 2int,
                None => 1int,
            }),
            all == all_processes(own, chrome, live@),
            total(all) <= u64::MAX,
            sum == total(all.take(k + i)),
            seen@.len() == k + i,
            forall|j: int| 0 <= j < seen@.len() ==> #[trigger] seen@[j] == all[j].pid,
            tabs@.len() == i,
            forall|j: int|
                0 <= j < i ==> (#[trigger] tabs@[j]).id == live@[j].id && tabs@[j].title
                    == live@[j].title && tabs@[j].bytes == live@[j].process.bytes,
        decreases n - i,
    {
        let p = live[i].process;
        let ghost upto = all.take(k + i);
        proof {
            assert(all[k + i] == p);
            assert(all.take(k + i + 1).drop_last() == upto);
            lemma_total_grows(all, k + i + 1);
        }
        if !seen_before(&seen, p.pid, Ghost(upto)) {
            sum = sum + p.bytes;
        }
        seen.push(p.pid);
        tabs.push(TabMemory { id: live[i].id, title: live[i].title.clone(), bytes: p.bytes });
        i += 1;
    }
    assert(all.take(k + n) == all);
    MemoryReport { tabs, app_bytes, total_bytes: sum, available }
}

proof fn lemma_total_grows(readings: Seq<Reading>, k: int)
    requires
        0 <= k <= readings.len(),
    ensures
        total(readings.take(k)) <= total(readings),
    decreases readings.len(),
{
    if k == readings.len() {
        assert(readings.take(k) == readings);
    } else {
        lemma_total_grows(readings.drop_last(), k);
        assert(readings.drop_last().take(k) == readings.take(k));
    }
}

/// A process that was counted before adds nothing to the total.
pub proof fn law_shared_process_counts_once(readings: Seq<Reading>, again: Reading)
    ensures
        has_pid(readings, again.pid) ==> total(readings.push(again)) == total(readings),
        !has_pid(readings, again.pid) ==> total(readings.push(again)) == total(readings)
            + again.bytes,
{
    assert(readings.push(again).drop_last() == readings);
}

// ---- the tabs in the list -----------------------------------------------

/// Human label for a tab: its title, else what it shows.
pub open spec fn name_of(t: Tab, host: Option<Seq<char>>) -> Seq<char> {
    if t.title@.len() > 0 {
        t.title@
    } else if t.url@.len() == 0 {
        "New Tab"@
    } else {
        match host {
            Some(h) => h,
            None => t.url@,
        }
    }
}

/// The label of a tab, given the host of its address.
pub fn title_with(t: &Tab, host: Option<String>) -> (r: String)
    ensures
        r@ == name_of(*t, opt_text(host)),
{
    if !t.title.as_str().is_empty() {
        t.title.clone()
    } else if t.url.as_str().is_empty() {
        "New Tab".to_owned()
    } else {
        match host {
            Some(h) => h,
            None => t.url.clone(),
        }
    }
}

pub fn display_title(t: &Tab) -> (r: String)
    ensures
        r@ == name_of(*t, host_text(t.url@)),
{
    title_with(t, host_of(t.url.as_str()))
}

/// A row of the memory list.
pub struct Row {
    pub id: usize,
    pub label: String,
    pub title: String,
}

pub open spec fn is_row(r: Row, t: Tab) -> bool {
    r.id == t.id && r.label@ == label_text(t.id) && r.title@ == name_of(t, host_text(t.url@))
}

pub open spec fn is_awake() -> spec_fn(Tab) -> bool {
    |t: Tab| !t.discarded
}

/// The tabs that are awake, with their webviews and names.
pub fn awake_tabs(state: &BrowserState) -> (r: Vec<Row>)
    ensures
        r@.len() == state.tabs@.filter(is_awake()).len(),
        forall|i: int|
            0 <= i < r@.len() ==> is_row(#[trigger] r@[i], state.tabs@.filter(is_awake())[i]),
{
    let mut out: Vec<Row> = Vec::new();
    let mut i: usize = 0;
    proof {
        reveal(Seq::filter);
        assert(state.tabs@.take(0).filter(is_awake()).len() == 0);
    }
    while i < state.tabs.len()
        invariant
            i <= state.tabs@.len(),
            out@.len() == state.tabs@.take(i as int).filter(is_awake()).len(),
            forall|j: int|
                0 <= j < out@.len() ==> is_row(
                    #[trigger] out@[j],
                    state.tabs@.take(i as int).filter(is_awake())[j],
                ),
        decreases state.tabs@.len() - i,
    {
        proof {
            reveal(Seq::filter);
            assert(state.tabs@.take(i + 1).drop_last() == state.tabs@.take(i as int));
        }
        let t = &state.tabs[i];
        if !t.discarded {
            out.push(Row { id: t.id, label: t.label(), title: display_title(t) });
        }
        i += 1;
    }
    assert(state.tabs@.take(state.tabs@.len() as int) == state.tabs@);
    out
}

/// The report counts the app's own process, that of the chrome where there is
/// one, and that of each tab; and no other.
pub proof fn law_every_process_is_counted(
    own: Reading,
    chrome: Option<Reading>,
    tabs: Seq<LiveTab>,
    i: int,
)
    requires
        0 <= i < tabs.len(),
    ensures
        all_processes(own, chrome, tabs).contains(own),
        chrome matches Some(c) ==> all_processes(own, chrome, tabs).contains(c),
        all_processes(own, chrome, tabs).contains(tabs[i].process),
        all_processes(own, chrome, tabs).len() == tabs.len() + (if chrome is Some {
            2int
        } else {
            1
        }),
        app_total(own, None) == own.bytes,
        chrome matches Some(c) ==> app_total(own, chrome) - own.bytes == c.bytes,
{
    let all = all_processes(own, chrome, tabs);
    assert(all[0] == own);
    if let Some(c) = chrome {
        assert(all[1] == c);
        assert(all[2 + i] == tabs[i].process);
    } else {
        assert(all[1 + i] == tabs[i].process);
    }
}

/// Where no two processes are the same, the total is their sum: the last adds
/// its own to that of the others.
pub proof fn law_separate_processes_add_up(readings: Seq<Reading>, more: Reading)
    requires
        forall|i: int| 0 <= i < readings.len() ==> (#[trigger] readings[i]).pid != more.pid,
    ensures
        total(Seq::empty()) == 0,
        total(readings.push(more)) == total(readings) + more.bytes,
{
    law_shared_process_counts_once(readings, more);
}

/// A tab goes by its title; without one by its host, or its address where that
/// has none, and a tab on no page is a new one.
pub proof fn law_tabs_have_a_name(t: Tab, host: Option<Seq<char>>)
    ensures
        t.title@.len() > 0 ==> name_of(t, host) == t.title@,
        t.title@.len() == 0 && t.url@.len() == 0 ==> name_of(t, host) == "New Tab"@,
        t.title@.len() == 0 && t.url@.len() > 0 ==> (host matches Some(h) ==> name_of(t, host)
            == h),
        t.title@.len() == 0 && t.url@.len() > 0 ==> (host is None ==> name_of(t, host) == t.url@),
{
}

/// The list shows the tabs that are awake, in the order of the strip.
pub proof fn law_sleeping_tabs_are_not_listed(tabs: Seq<Tab>, t: Tab)
    ensures
        Seq::<Tab>::empty().filter(is_awake()) == Seq::<Tab>::empty(),
        t.discarded ==> tabs.push(t).filter(is_awake()) == tabs.filter(is_awake()),
        !t.discarded ==> tabs.push(t).filter(is_awake()) == tabs.filter(is_awake()).push(t),
{
    reveal(Seq::filter);
    assert(tabs.push(t).drop_last() =~= tabs);
    assert(Seq::<Tab>::empty().filter(is_awake()) =~= Seq::<Tab>::empty());
}

proof fn lemma_total_holds(readings: Seq<Reading>, i: int)
    requires
        0 <= i < readings.len(),
        forall|j: int| 0 <= j < i ==> (#[trigger] readings[j]).pid != readings[i].pid,
    ensures
        total(readings) >= readings[i].bytes,
{
    let upto = readings.take(i + 1);
    assert(upto.drop_last() =~= readings.take(i));
    assert(!has_pid(readings.take(i), readings[i].pid)) by {
        if has_pid(readings.take(i), readings[i].pid) {
            let j = choose|j: int|
                0 <= j < i && (#[trigger] readings.take(i)[j]).pid == readings[i].pid;
            assert(readings[j].pid == readings[i].pid);
        }
    }
    assert(upto.last() == readings[i]);
    lemma_total_grows(readings, i + 1);
}

/// Each tab is listed with what its own process takes, also where it shares it;
/// the app's share is its own process and the chrome's; and the total is no less
/// than what the app's own process takes.
pub proof fn law_reports_list_every_tab(
    own: Reading,
    chrome: Option<Reading>,
    live: Seq<LiveTab>,
    r: MemoryReport,
    i: int,
)
    requires
        reports(own, chrome, live, r),
        0 <= i < live.len(),
    ensures
        r.tabs@.len() == live.len(),
        r.tabs@[i].id == live[i].id,
        r.tabs@[i].title == live[i].title,
        r.tabs@[i].bytes == live[i].process.bytes,
        chrome is None ==> r.app_bytes == own.bytes,
        chrome matches Some(c) ==> r.app_bytes == own.bytes + c.bytes,
        r.total_bytes >= own.bytes,
{
    assert(r.tabs@[i].id == live[i].id);
    assert(all_processes(own, chrome, live)[0] == own);
    lemma_total_holds(all_processes(own, chrome, live), 0);
}

/// A row of the list stands for one tab: its id, the label of its webview, and
/// its name.
pub proof fn law_rows_name_their_tab(r: Row, t: Tab)
    requires
        is_row(r, t),
    ensures
        r.id == t.id,
        r.label@ == label_text(t.id),
        t.title@.len() > 0 ==> r.title@ == t.title@,
        t.title@.len() == 0 && t.url@.len() == 0 ==> r.title@ == "New Tab"@,
{
}

} // verus!
