//! The rows of the suggestion dropdown: which pages match what was typed, and
//! in which order they are offered.

use crate::store::{
    icon_for, last_visit, lemma_last_visit, occurrences, or_empty, Bookmark, HistoryEntry, Store,
    Suggestion,
};
use crate::suggest::{bare, bare_of, host_part, up_to_slash};
use crate::text::{
    chars_of, contains, has_part, has_prefix, lowercase, split_words, starts_with, string_of,
    texts, to_lowercase, trim, trimmed, words,
};
use crate::url_util::{search_query_of, search_terms};
use crate::web::opt_text;
use vstd::hash_set::StringHashSet;
use vstd::prelude::*;

verus! {

broadcast use vstd::hash_map::group_hash_map_axioms, vstd::hash_set::group_hash_set_axioms;

// ---- the model ----------------------------------------------------------

/// A page that may be offered, and what it is ranked by.
#[verifier::ext_equal]
pub struct Row {
    pub bookmark: bool,
    pub rank: nat,
    pub visits: nat,
    pub ts: u64,
    pub url: Seq<char>,
    pub title: Seq<char>,
}

/// What a suggestion says.
#[verifier::ext_equal]
pub struct Offer {
    pub kind: Seq<char>,
    pub url: Seq<char>,
    pub title: Seq<char>,
    pub favicon: Seq<char>,
    pub query: Seq<char>,
}

impl View for Suggestion {
    type V = Offer;

    open spec fn view(&self) -> Offer {
        Offer {
            kind: self.kind@,
            url: self.url@,
            title: self.title@,
            favicon: self.favicon@,
            query: self.query@,
        }
    }
}

pub open spec fn all_offers(v: Seq<Suggestion>) -> Seq<Offer> {
    v.map_values(|s: Suggestion| s@)
}

/// How a page is offered: a past web search by its terms, any other page as
/// what it is.
pub open spec fn offer(
    icons: Map<Seq<char>, Seq<char>>,
    kind: Seq<char>,
    url: Seq<char>,
    title: Seq<char>,
) -> Offer {
    offer_given(kind, url, title, or_empty(icon_for(icons, url)), search_terms(url))
}

/// ... given the page's icon and the terms of the search that it is, if any.
pub open spec fn offer_given(
    kind: Seq<char>,
    url: Seq<char>,
    title: Seq<char>,
    favicon: Seq<char>,
    terms: Option<Seq<char>>,
) -> Offer {
    match terms {
        Some(terms) => Offer { kind: "search"@, url, title: terms, favicon, query: terms },
        None => Offer { kind, url, title, favicon, query: Seq::empty() },
    }
}

pub open spec fn row_kind(r: Row) -> Seq<char> {
    if r.bookmark {
        "bookmark"@
    } else {
        "history"@
    }
}

/// The rows as they are offered.
pub open spec fn offered(icons: Map<Seq<char>, Seq<char>>, rows: Seq<Row>) -> Seq<Offer> {
    rows.map_values(|r: Row| offer(icons, row_kind(r), r.url, r.title))
}

/// How well an address starts with the typed text: 2 where the host does, 1
/// where the address without its scheme does, else 0. All texts are in lower
/// case.
pub open spec fn rank_in(host: Seq<char>, address: Seq<char>, q: Seq<char>) -> nat {
    if has_prefix(host, q) {
        2
    } else if has_prefix(address, q) {
        1
    } else {
        0
    }
}

pub open spec fn prefix_rank(url: Seq<char>, q: Seq<char>) -> nat {
    rank_in(lowercase(up_to_slash(bare(url))), lowercase(bare(url)), q)
}

pub open spec fn bookmark_row(b: Bookmark, q: Seq<char>) -> Row {
    Row {
        bookmark: true,
        rank: prefix_rank(b.url@, q),
        visits: 0,
        ts: 0,
        url: b.url@,
        title: b.title@,
    }
}

pub open spec fn visit_row(h: Seq<HistoryEntry>, e: HistoryEntry, q: Seq<char>) -> Row {
    Row {
        bookmark: false,
        rank: prefix_rank(e.url@, q),
        visits: occurrences(h, e.url@),
        ts: e.ts,
        url: e.url@,
        title: e.title@,
    }
}

/// The visits as rows, newest first.
pub open spec fn visit_rows(h: Seq<HistoryEntry>, q: Seq<char>) -> Seq<Row> {
    h.reverse().map_values(|e: HistoryEntry| visit_row(h, e, q))
}

/// Everything that may be offered: the bookmarks, then the visits from the
/// newest on.
pub open spec fn all_rows(s: Store, q: Seq<char>) -> Seq<Row> {
    s.bookmarks@.map_values(|b: Bookmark| bookmark_row(b, q)) + visit_rows(s.history@, q)
}

/// Every word occurs in the URL or in the title; all texts are in lower case.
pub open spec fn mentions_in(ws: Seq<Seq<char>>, url: Seq<char>, title: Seq<char>) -> bool {
    forall|i: int|
        0 <= i < ws.len() ==> has_part(url, #[trigger] ws[i]) || has_part(title, ws[i])
}

/// Every word occurs in the URL or in the title, whatever the case.
pub open spec fn mentions(ws: Seq<Seq<char>>, url: Seq<char>, title: Seq<char>) -> bool {
    mentions_in(ws, lowercase(url), lowercase(title))
}

pub open spec fn mentioning(ws: Seq<Seq<char>>) -> spec_fn(Row) -> bool {
    |r: Row| mentions(ws, r.url, r.title)
}

pub open spec fn has_url(rows: Seq<Row>, url: Seq<char>) -> bool {
    exists|i: int| 0 <= i < rows.len() && (#[trigger] rows[i]).url == url
}

/// The first row of each URL.
pub open spec fn firsts(rows: Seq<Row>) -> Seq<Row>
    decreases rows.len(),
{
    if rows.len() == 0 {
        rows
    } else if has_url(rows.drop_last(), rows.last().url) {
        firsts(rows.drop_last())
    } else {
        firsts(rows.drop_last()).push(rows.last())
    }
}

/// Is `a` ranked above `b`? Bookmarks come first, then the better prefix, then
/// the more visits, then the later visit.
pub open spec fn outranks(a: Row, b: Row) -> bool {
    if a.bookmark != b.bookmark {
        a.bookmark
    } else if a.rank != b.rank {
        a.rank > b.rank
    } else if a.visits != b.visits {
        a.visits > b.visits
    } else {
        a.ts > b.ts
    }
}

/// Where `r` goes in a ranked list: before the first row that it outranks.
pub open spec fn slot(s: Seq<Row>, r: Row) -> int
    decreases s.len(),
{
    if s.len() == 0 {
        0
    } else if outranks(r, s[0]) {
        0
    } else {
        1 + slot(s.skip(1), r)
    }
}

pub open spec fn placed(s: Seq<Row>, r: Row) -> Seq<Row> {
    s.insert(slot(s, r), r)
}

/// The rows in order of rank; equals stay in their order.
pub open spec fn ranked(rows: Seq<Row>) -> Seq<Row>
    decreases rows.len(),
{
    if rows.len() == 0 {
        rows
    } else {
        placed(ranked(rows.drop_last()), rows.last())
    }
}

/// At most the first `n` elements.
pub open spec fn cut<T>(s: Seq<T>, n: int) -> Seq<T> {
    if s.len() <= n {
        s
    } else {
        s.take(n)
    }
}

/// What the dropdown shows for a typed text.
pub open spec fn dropdown(s: Store, query: Seq<char>, limit: int) -> Seq<Offer> {
    let q = lowercase(trimmed(query));
    let ws = words(q);
    if ws.len() == 0 {
        offered(
            s.favicons@,
            cut(
                firsts(visit_rows(s.history@, q)),
                if limit < 1 {
                    1
                } else {
                    limit
                },
            ),
        )
    } else {
        offered(
            s.favicons@,
            cut(ranked(firsts(all_rows(s, q).filter(mentioning(ws)))), limit),
        )
    }
}

// ---- ranking ------------------------------------------------------------

pub proof fn lemma_slot(s: Seq<Row>, r: Row)
    ensures
        0 <= slot(s, r) <= s.len(),
        forall|i: int| 0 <= i < slot(s, r) ==> !outranks(r, #[trigger] s[i]),
        slot(s, r) < s.len() ==> outranks(r, s[slot(s, r)]),
    decreases s.len(),
{
    if s.len() > 0 && !outranks(r, s[0]) {
        lemma_slot(s.skip(1), r);
        assert forall|i: int| 0 <= i < slot(s, r) implies !outranks(r, #[trigger] s[i]) by {
            if i > 0 {
                assert(s[i] == s.skip(1)[i - 1]);
            }
        }
    }
}

/// The slot is the only place with these properties.
proof fn lemma_slot_is(s: Seq<Row>, r: Row, at: int)
    requires
        0 <= at <= s.len(),
        forall|i: int| 0 <= i < at ==> !outranks(r, #[trigger] s[i]),
        at < s.len() ==> outranks(r, s[at]),
    ensures
        slot(s, r) == at,
{
    lemma_slot(s, r);
    let k = slot(s, r);
    if k < at {
        assert(!outranks(r, s[k]));
    } else if at < k {
        assert(!outranks(r, s[at]));
    }
}

/// Placing a row and cutting off is the same whether or not the list was cut
/// off before.
proof fn lemma_cut_placed(s: Seq<Row>, r: Row, n: int)
    requires
        0 <= n,
    ensures
        cut(placed(cut(s, n), r), n) == cut(placed(s, r), n),
{
    lemma_slot(s, r);
    if s.len() > n {
        let t = s.take(n);
        let k = slot(s, r);
        if k <= n {
            assert forall|i: int| 0 <= i < k implies !outranks(r, #[trigger] t[i]) by {
                assert(t[i] == s[i]);
            }
            lemma_slot_is(t, r, k);
        } else {
            assert forall|i: int| 0 <= i < n implies !outranks(r, #[trigger] t[i]) by {
                assert(t[i] == s[i]);
            }
            lemma_slot_is(t, r, n);
        }
        assert(cut(placed(t, r), n) =~= cut(placed(s, r), n));
    }
}

/// A candidate in the list that is being ranked.
struct Candidate {
    bookmark: bool,
    rank: u8,
    visits: usize,
    ts: u64,
    url: String,
    title: String,
}

impl View for Candidate {
    type V = Row;

    closed spec fn view(&self) -> Row {
        Row {
            bookmark: self.bookmark,
            rank: self.rank as nat,
            visits: self.visits as nat,
            ts: self.ts,
            url: self.url@,
            title: self.title@,
        }
    }
}

spec fn rows_of(v: Seq<Candidate>) -> Seq<Row> {
    v.map_values(|c: Candidate| c@)
}

fn above(a: &Candidate, b: &Candidate) -> (r: bool)
    ensures
        r == outranks(a@, b@),
{
    if a.bookmark != b.bookmark {
        a.bookmark
    } else if a.rank != b.rank {
        a.rank > b.rank
    } else if a.visits != b.visits {
        a.visits > b.visits
    } else {
        a.ts > b.ts
    }
}

/// Place a candidate in the ranked list, of which the first `limit` stay.
fn place(list: &mut Vec<Candidate>, c: Candidate, limit: usize)
    requires
        old(list)@.len() <= limit,
    ensures
        final(list)@.len() <= limit,
        rows_of(final(list)@) == cut(placed(rows_of(old(list)@), c@), limit as int),
{
    let ghost rows = rows_of(list@);
    let mut i: usize = 0;
    while i < list.len() && !above(&c, &list[i])
        invariant
            i <= list@.len(),
            rows == rows_of(list@),
            forall|j: int| 0 <= j < i ==> !outranks(c@, #[trigger] rows[j]),
        decreases list@.len() - i,
    {
        i += 1;
    }
    proof {
        lemma_slot_is(rows, c@, i as int);
    }
    let full = list.len() == limit;
    let ghost row = c@;
    list.insert(i, c);
    assert(rows_of(list@) =~= placed(rows, row));
    if full {
        list.truncate(limit);
    }
    assert(rows_of(list@) =~= cut(placed(rows, row), limit as int));
}

// ---- matching -----------------------------------------------------------

/// Does every word occur in the URL or in the title? All texts are in lower
/// case.
pub fn mentions_words(ws: &Vec<Vec<char>>, url: &[char], title: &[char]) -> (r: bool)
    ensures
        r == mentions_in(texts(ws@), url@, title@),
{
    let mut i: usize = 0;
    while i < ws.len()
        invariant
            i <= ws@.len(),
            forall|j: int|
                0 <= j < i ==> has_part(url@, #[trigger] texts(ws@)[j]) || has_part(
                    title@,
                    texts(ws@)[j],
                ),
        decreases ws@.len() - i,
    {
        let w = ws[i].as_slice();
        assert(texts(ws@)[i as int] == w@);
        if !contains(url, w) && !contains(title, w) {
            return false;
        }
        i += 1;
    }
    true
}

fn matches_words(ws: &Vec<Vec<char>>, url: &str, title: &str) -> (r: bool)
    ensures
        r == mentions(texts(ws@), url@, title@),
{
    let u = chars_of(to_lowercase(url).as_str());
    let t = chars_of(to_lowercase(title).as_str());
    mentions_words(ws, u.as_slice(), t.as_slice())
}

/// How well an address starts with the typed text, given its host and the
/// whole of it without its scheme, all in lower case.
pub fn rank_with(host: &[char], address: &[char], q: &[char]) -> (r: u8)
    ensures
        r == rank_in(host@, address@, q@),
{
    if starts_with(host, q) {
        2
    } else if starts_with(address, q) {
        1
    } else {
        0
    }
}

fn rank_of(url: &str, q: &[char]) -> (r: u8)
    ensures
        r == prefix_rank(url@, q@),
{
    let chars = chars_of(url);
    let b = bare_of(chars.as_slice());
    let h = host_part(b);
    let host = chars_of(to_lowercase(string_of(h).as_str()).as_str());
    let whole = chars_of(to_lowercase(string_of(b).as_str()).as_str());
    rank_with(host.as_slice(), whole.as_slice(), q)
}

/// Rows whose URLs are in `seen`.
spec fn seen_urls(seen: Set<Seq<char>>, rows: Seq<Row>) -> bool {
    forall|u: Seq<char>| #[trigger] seen.contains(u) <==> has_url(rows, u)
}

proof fn lemma_has_url_push(rows: Seq<Row>, r: Row, u: Seq<char>)
    ensures
        has_url(rows.push(r), u) <==> has_url(rows, u) || r.url == u,
{
    let all = rows.push(r);
    if has_url(rows, u) {
        let i = choose|i: int| 0 <= i < rows.len() && (#[trigger] rows[i]).url == u;
        assert(all[i].url == u);
    }
    if r.url == u {
        assert(all[rows.len() as int].url == u);
    }
    if has_url(all, u) {
        let i = choose|i: int| 0 <= i < all.len() && (#[trigger] all[i]).url == u;
        if i < rows.len() {
            assert(rows[i].url == u);
        }
    }
}

/// The row for a page, given its icon and the terms of the search that it is,
/// if any.
pub fn suggestion_of(
    kind: &'static str,
    url: &str,
    title: &str,
    favicon: String,
    terms: Option<String>,
) -> (r: Suggestion)
    ensures
        r@ == offer_given(kind@, url@, title@, favicon@, opt_text(terms)),
{
    match terms {
        Some(query) => Suggestion {
            kind: "search",
            url: url.to_owned(),
            title: query.clone(),
            favicon,
            query,
        },
        None => Suggestion {
            kind,
            url: url.to_owned(),
            title: title.to_owned(),
            favicon,
            query: String::new(),
        },
    }
}

impl Store {
    fn suggestion(&self, kind: &'static str, url: &str, title: &str) -> (r: Suggestion)
        ensures
            r@ == offer(self.favicons@, kind@, url@, title@),
    {
        let favicon = match self.favicon_for(url) {
            Some(icon) => icon,
            None => String::new(),
        };
        suggestion_of(kind, url, title, favicon, search_query_of(url))
    }

    /// The most recent distinct pages.
    fn recent(&self, limit: usize, q: Ghost<Seq<char>>) -> (r: Vec<Suggestion>)
        requires
            limit >= 1,
        ensures
            all_offers(r@) == offered(
                self.favicons@,
                cut(firsts(visit_rows(self.history@, q@)), limit as int),
            ),
    {
        let ghost rows = visit_rows(self.history@, q@);
        let n = self.history.len();
        let mut seen = StringHashSet::new();
        let mut out: Vec<Suggestion> = Vec::new();
        let mut k: usize = 0;
        assert(all_offers(out@) =~= offered(self.favicons@, firsts(rows.take(0))));
        while k < n && out.len() < limit
            invariant
                k <= n,
                n == self.history@.len(),
                rows == visit_rows(self.history@, q@),
                seen_urls(seen@, rows.take(k as int)),
                out@.len() <= limit,
                all_offers(out@) == offered(self.favicons@, firsts(rows.take(k as int))),
            decreases n - k,
        {
            let e = &self.history[n - 1 - k];
            let ghost upto = rows.take(k as int);
            let ghost next = rows.take(k + 1);
            proof {
                assert(rows[k as int] == visit_row(self.history@, *e, q@));
                assert(next == upto.push(rows[k as int]));
                assert(next.drop_last() == upto);
                assert forall|u: Seq<char>| has_url(next, u) <==> has_url(upto, u)
                    || rows[k as int].url == u by {
                    lemma_has_url_push(upto, rows[k as int], u);
                }
            }
            if seen.insert(e.url.clone()) {
                assert(!has_url(upto, e.url@));
                assert(firsts(next) == firsts(upto).push(rows[k as int]));
                let s = self.suggestion("history", e.url.as_str(), e.title.as_str());
                let ghost before = out@;
                out.push(s);
                assert(all_offers(out@) == all_offers(before).push(s@));
                assert(offered(self.favicons@, firsts(next)) == offered(
                    self.favicons@,
                    firsts(upto),
                ).push(s@));
                assert(all_offers(out@) =~= offered(self.favicons@, firsts(next)));
            }
            k += 1;
        }
        proof {
            lemma_firsts_grow(rows, k as int);
            if k == n {
                assert(rows.take(n as int) == rows);
            }
            assert(all_offers(out@).len() == out@.len());
            assert(firsts(rows.take(k as int)) == cut(firsts(rows), limit as int));
        }
        out
    }
}

proof fn lemma_last_row(rows: Seq<Row>, row: Row)
    ensures
        rows.push(row).drop_last() == rows,
        rows.push(row).last() == row,
{
    assert(rows.push(row).drop_last() =~= rows);
}

/// Take a matching page into the ranked list, unless its URL was there before.
fn take_in(
    list: &mut Vec<Candidate>,
    seen: &mut StringHashSet,
    c: Candidate,
    limit: usize,
    rows: Ghost<Seq<Row>>,
)
    requires
        seen_urls(old(seen)@, rows@),
        !has_url(rows@, c@.url),
        old(list)@.len() <= limit,
        rows_of(old(list)@) == cut(ranked(firsts(rows@)), limit as int),
    ensures
        seen_urls(final(seen)@, rows@.push(c@)),
        final(list)@.len() <= limit,
        rows_of(final(list)@) == cut(ranked(firsts(rows@.push(c@))), limit as int),
{
    let ghost row = c@;
    let ghost next = rows@.push(row);
    proof {
        lemma_last_row(rows@, row);
        let all = firsts(rows@);
        assert(firsts(next) == all.push(row));
        lemma_last_row(all, row);
        lemma_cut_placed(ranked(all), row, limit as int);
        assert forall|u: Seq<char>| has_url(next, u) <==> has_url(rows@, u) || row.url == u by {
            lemma_has_url_push(rows@, row, u);
        }
    }
    seen.insert(c.url.clone());
    place(list, c, limit);
}

/// A page seen before changes nothing.
proof fn lemma_seen_again(seen: Set<Seq<char>>, rows: Seq<Row>, row: Row)
    requires
        seen_urls(seen, rows),
        has_url(rows, row.url),
    ensures
        seen_urls(seen, rows.push(row)),
        firsts(rows.push(row)) == firsts(rows),
{
    assert(rows.push(row).drop_last() == rows);
    assert forall|u: Seq<char>| has_url(rows.push(row), u) <==> has_url(rows, u) by {
        lemma_has_url_push(rows, row, u);
    }
}

/// One more row of a filtered list.
proof fn lemma_filter_step(rows: Seq<Row>, k: int, p: spec_fn(Row) -> bool)
    requires
        0 <= k < rows.len(),
    ensures
        rows.take(k + 1).filter(p) == (if p(rows[k]) {
            rows.take(k).filter(p).push(rows[k])
        } else {
            rows.take(k).filter(p)
        }),
{
    reveal(Seq::filter);
    assert(rows.take(k + 1).drop_last() == rows.take(k));
}

impl Store {
    /// The best `limit` pages that mention every word.
    fn ranked_pages(&self, q: &[char], ws: &Vec<Vec<char>>, limit: usize) -> (r: Vec<Candidate>)
        requires
            self.wf(),
        ensures
            rows_of(r@) == cut(
                ranked(firsts(all_rows(*self, q@).filter(mentioning(texts(ws@))))),
                limit as int,
            ),
    {
        let ghost p = mentioning(texts(ws@));
        let ghost rows = all_rows(*self, q@);
        let nb = self.bookmarks.len();
        let nh = self.history.len();
        let mut list: Vec<Candidate> = Vec::new();
        let mut seen = StringHashSet::new();
        proof {
            reveal(Seq::filter);
            assert(rows.take(0).filter(p) == Seq::<Row>::empty());
            assert(rows_of(list@) =~= cut(ranked(firsts(Seq::<Row>::empty())), limit as int));
        }
        let mut i: usize = 0;
        while i < nb
            invariant
                i <= nb,
                nb == self.bookmarks@.len(),
                rows == all_rows(*self, q@),
                p == mentioning(texts(ws@)),
                seen_urls(seen@, rows.take(i as int).filter(p)),
                list@.len() <= limit,
                rows_of(list@) == cut(
                    ranked(firsts(rows.take(i as int).filter(p))),
                    limit as int,
                ),
            decreases nb - i,
        {
            let b = &self.bookmarks[i];
            let ghost before = rows.take(i as int).filter(p);
            proof {
                assert(rows[i as int] == bookmark_row(*b, q@));
                lemma_filter_step(rows, i as int, p);
            }
            if seen.contains(b.url.as_str()) {
                proof {
                    lemma_seen_again(seen@, before, rows[i as int]);
                }
            } else if matches_words(ws, b.url.as_str(), b.title.as_str()) {
                let c = Candidate {
                    bookmark: true,
                    rank: rank_of(b.url.as_str(), q),
                    visits: 0,
                    ts: 0,
                    url: b.url.clone(),
                    title: b.title.clone(),
                };
                take_in(&mut list, &mut seen, c, limit, Ghost(before));
            }
            i += 1;
        }
        let mut k: usize = 0;
        while k < nh
            invariant
                k <= nh,
                self.wf(),
                nb == self.bookmarks@.len(),
                nh == self.history@.len(),
                rows == all_rows(*self, q@),
                p == mentioning(texts(ws@)),
                seen_urls(seen@, rows.take(nb + k).filter(p)),
                list@.len() <= limit,
                rows_of(list@) == cut(ranked(firsts(rows.take(nb + k).filter(p))), limit as int),
            decreases nh - k,
        {
            let e = &self.history[nh - 1 - k];
            let ghost at = nb + k;
            let ghost before = rows.take(at).filter(p);
            proof {
                assert(rows[at] == visit_row(self.history@, *e, q@));
                lemma_filter_step(rows, at, p);
            }
            if seen.contains(e.url.as_str()) {
                proof {
                    lemma_seen_again(seen@, before, rows[at]);
                }
            } else if matches_words(ws, e.url.as_str(), e.title.as_str()) {
                let c = Candidate {
                    bookmark: false,
                    rank: rank_of(e.url.as_str(), q),
                    visits: self.visit_count(e.url.as_str()),
                    ts: e.ts,
                    url: e.url.clone(),
                    title: e.title.clone(),
                };
                take_in(&mut list, &mut seen, c, limit, Ghost(before));
            }
            k += 1;
        }
        assert(rows.take(nb + nh) == rows);
        list
    }

    /// Dropdown suggestions for what the user typed (or, for an empty query,
    /// the most recent distinct pages): bookmarks and history, de-duplicated by
    /// URL. Typed text matches URL and title whatever the case, and every word
    /// of it must match; bookmarks come first, then the pages whose host (sans
    /// "www.") starts with the text, then by visit count, then by recency. Past
    /// web searches come back as "search", with the terms in `query`.
    pub fn suggestions(&self, query: &str, limit: usize) -> (r: Vec<Suggestion>)
        requires
            self.wf(),
        ensures
            all_offers(r@) == dropdown(*self, query@, limit as int),
    {
        let typed = chars_of(query);
        let low = to_lowercase(string_of(trim(typed.as_slice())).as_str());
        let q = chars_of(low.as_str());
        let ws = split_words(q.as_slice());
        if ws.len() == 0 {
            return self.recent(
                if limit < 1 {
                    1
                } else {
                    limit
                },
                Ghost(q@),
            );
        }
        let best = self.ranked_pages(q.as_slice(), &ws, limit);
        let mut out: Vec<Suggestion> = Vec::new();
        let mut i: usize = 0;
        while i < best.len()
            invariant
                i <= best@.len(),
                all_offers(out@) == offered(self.favicons@, rows_of(best@).take(i as int)),
            decreases best@.len() - i,
        {
            let c = &best[i];
            let kind = if c.bookmark {
                "bookmark"
            } else {
                "history"
            };
            let s = self.suggestion(kind, c.url.as_str(), c.title.as_str());
            let ghost before = out@;
            out.push(s);
            assert(all_offers(out@) == all_offers(before).push(s@));
            assert(rows_of(best@).take(i + 1) == rows_of(best@).take(i as int).push(c@));
            i += 1;
        }
        assert(rows_of(best@).take(best@.len() as int) == rows_of(best@));
        out
    }
}

/// The distinct rows of a prefix are a prefix of the distinct rows.
proof fn lemma_firsts_grow(rows: Seq<Row>, k: int)
    requires
        0 <= k <= rows.len(),
    ensures
        firsts(rows.take(k)).len() <= firsts(rows).len(),
        firsts(rows).take(firsts(rows.take(k)).len() as int) == firsts(rows.take(k)),
    decreases rows.len() - k,
{
    if k == rows.len() {
        assert(rows.take(k) == rows);
        assert(firsts(rows).take(firsts(rows).len() as int) == firsts(rows));
    } else {
        lemma_firsts_grow(rows, k + 1);
        assert(rows.take(k + 1).drop_last() == rows.take(k));
        let a = firsts(rows.take(k));
        let b = firsts(rows.take(k + 1));
        assert(b.take(a.len() as int) == a);
        assert(firsts(rows).take(a.len() as int) == firsts(rows).take(b.len() as int).take(
            a.len() as int,
        ));
    }
}

// ---- laws ---------------------------------------------------------------

/// No row of a ranked list is outranked by a later one.
pub open spec fn in_order(s: Seq<Row>) -> bool {
    forall|i: int, j: int|
        0 <= i < j < s.len() ==> !outranks(#[trigger] s[j], #[trigger] s[i])
}

proof fn lemma_placed(s: Seq<Row>, r: Row)
    requires
        in_order(s),
    ensures
        in_order(placed(s, r)),
        forall|i: int| slot(s, r) <= i < s.len() ==> outranks(r, #[trigger] s[i]),
{
    lemma_slot(s, r);
    let k = slot(s, r);
    assert forall|i: int| k <= i < s.len() implies outranks(r, #[trigger] s[i]) by {
        if i > k {
            assert(!outranks(s[i], s[k]));
        }
    }
    let t = placed(s, r);
    assert forall|i: int, j: int| 0 <= i < j < t.len() implies !outranks(
        #[trigger] t[j],
        #[trigger] t[i],
    ) by {
        if j == k {
            assert(t[i] == s[i]);
        } else if i == k {
            assert(t[j] == s[j - 1]);
            assert(outranks(r, s[j - 1]));
        } else {
            let a = if i < k {
                i
            } else {
                i - 1
            };
            let b = if j < k {
                j
            } else {
                j - 1
            };
            assert(t[i] == s[a] && t[j] == s[b]);
        }
    }
}

/// Ranking puts the rows in order, keeps each of them, and leaves rows of equal
/// rank in their order: of two rows, an earlier one that is not outranked by
/// the later one also comes first in the result.
pub proof fn law_ranking_is_a_stable_sort(rows: Seq<Row>)
    ensures
        in_order(ranked(rows)),
        ranked(rows).to_multiset() == rows.to_multiset(),
        ranked(rows).len() == rows.len(),
        forall|i: int, j: int|
            0 <= i < j < rows.len() && !outranks(#[trigger] rows[j], #[trigger] rows[i])
                ==> comes_before(ranked(rows), rows[i], rows[j]),
    decreases rows.len(),
{
    broadcast use vstd::seq_lib::group_to_multiset_ensures;

    if rows.len() > 0 {
        let init = rows.drop_last();
        let last = rows.last();
        let s = ranked(init);
        let k = slot(s, last);
        law_ranking_is_a_stable_sort(init);
        lemma_placed(s, last);
        lemma_slot(s, last);
        let t = placed(s, last);
        assert(rows == init.push(last));
        assert(t.to_multiset() =~= s.to_multiset().insert(last));
        assert(rows.to_multiset() =~= init.to_multiset().insert(last));
        assert forall|a: int| 0 <= a < s.len() implies #[trigger] s[a] == t[shifted(a, k)] by {}
        assert forall|i: int, j: int|
            0 <= i < j < rows.len() && !outranks(#[trigger] rows[j], #[trigger] rows[i]) implies comes_before(
            t,
            rows[i],
            rows[j],
        ) by {
            if j < init.len() {
                assert(rows[i] == init[i] && rows[j] == init[j]);
                assert(comes_before(s, init[i], init[j]));
                let (a, b) = choose|a: int, b: int|
                    0 <= a < b < s.len() && #[trigger] s[a] == init[i] && #[trigger] s[b]
                        == init[j];
                assert(t[shifted(a, k)] == rows[i] && t[shifted(b, k)] == rows[j]);
            } else {
                assert(rows[i] == init[i]);
                assert(init.contains(init[i]));
                assert(s.to_multiset().count(init[i]) > 0);
                assert(s.contains(init[i]));
                let a = choose|a: int| 0 <= a < s.len() && s[a] == init[i];
                assert(a < k);
                assert(t[a] == rows[i] && t[k] == rows[j]);
            }
        }
    }
}

/// Where the element at `a` stands after an insertion at `k`.
spec fn shifted(a: int, k: int) -> int {
    if a < k {
        a
    } else {
        a + 1
    }
}

/// Some place with `x` stands before some place with `y`.
pub open spec fn comes_before(s: Seq<Row>, x: Row, y: Row) -> bool {
    exists|a: int, b: int| 0 <= a < b < s.len() && #[trigger] s[a] == x && #[trigger] s[b] == y
}

/// De-duplication keeps one row of each URL, and its first.
pub proof fn law_firsts_are_distinct(rows: Seq<Row>)
    ensures
        forall|i: int, j: int|
            0 <= i < j < firsts(rows).len() ==> (#[trigger] firsts(rows)[i]).url != (
            #[trigger] firsts(rows)[j]).url,
        forall|u: Seq<char>| #[trigger] has_url(firsts(rows), u) <==> has_url(rows, u),
    decreases rows.len(),
{
    if rows.len() > 0 {
        let init = rows.drop_last();
        let f = firsts(init);
        law_firsts_are_distinct(init);
        assert(rows == init.push(rows.last()));
        assert forall|u: Seq<char>| #[trigger] has_url(firsts(rows), u) <==> has_url(rows, u) by {
            lemma_has_url_push(init, rows.last(), u);
            lemma_has_url_push(f, rows.last(), u);
            assert(has_url(f, u) <==> has_url(init, u));
        }
        if !has_url(init, rows.last().url) {
            let g = f.push(rows.last());
            assert forall|i: int, j: int| 0 <= i < j < g.len() implies (#[trigger] g[i]).url != (
            #[trigger] g[j]).url by {
                if j == f.len() {
                    assert(f[i].url == g[i].url);
                    assert(has_url(f, g[i].url));
                }
            }
        }
    }
}

/// The dropdown never shows a page twice, nor more rows than it was asked for.
pub proof fn law_dropdown_shows_each_page_once(s: Store, query: Seq<char>, limit: int)
    requires
        limit >= 1,
    ensures
        dropdown(s, query, limit).len() <= limit,
        forall|i: int, j: int|
            0 <= i < j < dropdown(s, query, limit).len() ==> (#[trigger] dropdown(
                s,
                query,
                limit,
            )[i]).url != (#[trigger] dropdown(s, query, limit)[j]).url,
{
    let q = lowercase(trimmed(query));
    let ws = words(q);
    let d = dropdown(s, query, limit);
    if ws.len() == 0 {
        let f = firsts(visit_rows(s.history@, q));
        law_firsts_are_distinct(visit_rows(s.history@, q));
        let c = cut(f, limit);
        assert(d == offered(s.favicons@, c));
        assert forall|i: int, j: int| 0 <= i < j < d.len() implies (#[trigger] d[i]).url != (
        #[trigger] d[j]).url by {
            assert(d[i].url == c[i].url && d[j].url == c[j].url);
            assert(c[i] == f[i] && c[j] == f[j]);
        }
    } else {
        let rows = all_rows(s, q).filter(mentioning(ws));
        let f = firsts(rows);
        law_firsts_are_distinct(rows);
        law_ranking_is_a_stable_sort(f);
        let t = ranked(f);
        lemma_urls_stay_distinct(f, t);
        let c = cut(t, limit);
        assert(d == offered(s.favicons@, c));
        assert forall|i: int, j: int| 0 <= i < j < d.len() implies (#[trigger] d[i]).url != (
        #[trigger] d[j]).url by {
            assert(d[i].url == c[i].url && d[j].url == c[j].url);
            assert(c[i] == t[i] && c[j] == t[j]);
        }
    }
}

/// A rearrangement of rows with distinct URLs has distinct URLs.
proof fn lemma_urls_stay_distinct(f: Seq<Row>, t: Seq<Row>)
    requires
        f.to_multiset() == t.to_multiset(),
        forall|i: int, j: int|
            0 <= i < j < f.len() ==> (#[trigger] f[i]).url != (#[trigger] f[j]).url,
    ensures
        forall|i: int, j: int|
            0 <= i < j < t.len() ==> (#[trigger] t[i]).url != (#[trigger] t[j]).url,
{
    broadcast use vstd::seq_lib::group_to_multiset_ensures;

    assert(f.no_duplicates()) by {
        assert forall|i: int, j: int| 0 <= i < f.len() && 0 <= j < f.len() && i != j implies f[i]
            != f[j] by {
            if i < j {
                assert(f[i].url != f[j].url);
            } else {
                assert(f[j].url != f[i].url);
            }
        }
    }
    f.lemma_multiset_has_no_duplicates();
    t.lemma_multiset_has_no_duplicates_conv();
    assert forall|i: int, j: int| 0 <= i < j < t.len() implies (#[trigger] t[i]).url != (
    #[trigger] t[j]).url by {
        assert(t.contains(t[i]) && t.contains(t[j]));
        assert(f.to_multiset().count(t[i]) > 0 && f.to_multiset().count(t[j]) > 0);
        assert(f.contains(t[i]) && f.contains(t[j]));
        let a = choose|a: int| 0 <= a < f.len() && f[a] == t[i];
        let b = choose|b: int| 0 <= b < f.len() && f[b] == t[j];
        assert(t[i] != t[j]);
        if a < b {
            assert(f[a].url != f[b].url);
        } else {
            assert(f[b].url != f[a].url);
        }
    }
}

/// Every word is part of the page's URL or title, whatever the case.
pub open spec fn says_all(ws: Seq<Seq<char>>, url: Seq<char>, title: Seq<char>) -> bool {
    forall|i: int|
        0 <= i < ws.len() ==> has_part(lowercase(url), #[trigger] ws[i]) || has_part(
            lowercase(title),
            ws[i],
        )
}

/// A bookmark of `url` matches the words.
pub open spec fn marked(b: Seq<Bookmark>, ws: Seq<Seq<char>>, url: Seq<char>) -> bool {
    exists|k: int|
        0 <= k < b.len() && (#[trigger] b[k]).url@ == url && says_all(ws, url, b[k].title@)
}

/// A bookmark of `url` with this title matches the words.
pub open spec fn marked_as(
    b: Seq<Bookmark>,
    ws: Seq<Seq<char>>,
    url: Seq<char>,
    title: Seq<char>,
) -> bool {
    exists|k: int|
        0 <= k < b.len() && (#[trigger] b[k]).url@ == url && b[k].title@ == title && says_all(
            ws,
            url,
            title,
        )
}

/// Visit `x` is the newest one to `url` that matches the words.
pub open spec fn newest_match(
    h: Seq<HistoryEntry>,
    ws: Seq<Seq<char>>,
    url: Seq<char>,
    x: int,
) -> bool {
    &&& 0 <= x < h.len()
    &&& h[x].url@ == url
    &&& says_all(ws, url, h[x].title@)
    &&& forall|z: int|
        x < z < h.len() && (#[trigger] h[z]).url@ == url ==> !says_all(ws, url, h[z].title@)
}

/// The host of `url`, without "www.", starts with the typed text.
pub open spec fn host_starts(url: Seq<char>, q: Seq<char>) -> bool {
    has_prefix(lowercase(up_to_slash(bare(url))), q)
}

/// The address, without scheme and "www.", starts with the typed text.
pub open spec fn address_starts(url: Seq<char>, q: Seq<char>) -> bool {
    has_prefix(lowercase(bare(url)), q)
}

/// The row at `m` is `r`, which satisfies `p` as no earlier row of its URL does.
spec fn first_such(rows: Seq<Row>, p: spec_fn(Row) -> bool, m: int, r: Row) -> bool {
    &&& 0 <= m < rows.len()
    &&& rows[m] == r
    &&& p(r)
    &&& forall|l: int| 0 <= l < m && p(#[trigger] rows[l]) ==> rows[l].url != r.url
}

proof fn lemma_first_rows(rows: Seq<Row>, p: spec_fn(Row) -> bool, k: int)
    requires
        0 <= k <= rows.len(),
    ensures
        forall|r: Row| #[trigger]
            firsts(rows.take(k).filter(p)).contains(r) ==> exists|m: int|
                m < k && first_such(rows, p, m, r),
        forall|m: int|
            0 <= m < k && p(#[trigger] rows[m]) ==> has_url(
                firsts(rows.take(k).filter(p)),
                rows[m].url,
            ),
    decreases k,
{
    reveal(Seq::filter);
    if k == 0 {
        assert(rows.take(0).filter(p) =~= Seq::<Row>::empty());
    } else {
        lemma_first_rows(rows, p, k - 1);
        lemma_filter_step(rows, k - 1, p);
        let row = rows[k - 1];
        let before = rows.take(k - 1).filter(p);
        let next = rows.take(k).filter(p);
        let f = firsts(before);
        if p(row) {
            lemma_last_row(before, row);
            law_firsts_are_distinct(before);
            law_firsts_are_distinct(next);
            lemma_has_url_push(before, row, row.url);
            assert(has_url(firsts(next), row.url));
            if !has_url(before, row.url) {
                assert(firsts(next) == f.push(row));
                assert(first_such(rows, p, k - 1, row)) by {
                    assert forall|l: int| 0 <= l < k - 1 && p(#[trigger] rows[l]) implies rows[l].url
                        != row.url by {
                        assert(has_url(f, rows[l].url));
                    }
                }
                assert forall|r: Row| #[trigger] firsts(next).contains(r) implies exists|m: int|
                    m < k && first_such(rows, p, m, r) by {
                    let i = choose|i: int| 0 <= i < f.push(row).len() && f.push(row)[i] == r;
                    if i < f.len() {
                        assert(f[i] == r);
                        assert(f.contains(r));
                        let m = choose|m: int| m < k - 1 && first_such(rows, p, m, r);
                        assert(m < k && first_such(rows, p, m, r));
                    } else {
                        assert(k - 1 < k && first_such(rows, p, k - 1, r));
                    }
                }
            } else {
                assert(firsts(next) == f);
                assert forall|r: Row| #[trigger] firsts(next).contains(r) implies exists|m: int|
                    m < k && first_such(rows, p, m, r) by {
                    let m = choose|m: int| m < k - 1 && first_such(rows, p, m, r);
                    assert(m < k && first_such(rows, p, m, r));
                }
            }
            assert forall|m: int| 0 <= m < k && p(#[trigger] rows[m]) implies has_url(
                firsts(next),
                rows[m].url,
            ) by {
                if m < k - 1 {
                    assert(has_url(f, rows[m].url));
                    assert(has_url(before, rows[m].url));
                    lemma_has_url_push(before, row, rows[m].url);
                }
            }
        } else {
            assert(firsts(next) == f);
            assert forall|r: Row| #[trigger] firsts(next).contains(r) implies exists|m: int|
                m < k && first_such(rows, p, m, r) by {
                let m = choose|m: int| m < k - 1 && first_such(rows, p, m, r);
                assert(m < k && first_such(rows, p, m, r));
            }
        }
    }
}

/// The row stands for a bookmark that matches; or, where no bookmark of its URL
/// does, for the newest visit that does.
spec fn well_founded(s: Store, q: Seq<char>, ws: Seq<Seq<char>>, r: Row) -> bool {
    &&& r.bookmark == marked(s.bookmarks@, ws, r.url)
    &&& r.rank == prefix_rank(r.url, q)
    &&& !r.bookmark ==> r.visits == occurrences(s.history@, r.url) && exists|x: int| #[trigger]
        newest_match(s.history@, ws, r.url, x) && r.ts == s.history@[x].ts && r.title
            == s.history@[x].title@
    &&& r.bookmark ==> r.visits == 0 && r.ts == 0 && marked_as(s.bookmarks@, ws, r.url, r.title)
}

proof fn lemma_row_at(s: Store, q: Seq<char>, m: int)
    requires
        0 <= m < s.bookmarks@.len() + s.history@.len(),
    ensures
        all_rows(s, q).len() == s.bookmarks@.len() + s.history@.len(),
        m < s.bookmarks@.len() ==> all_rows(s, q)[m] == bookmark_row(s.bookmarks@[m], q),
        m >= s.bookmarks@.len() ==> all_rows(s, q)[m] == visit_row(
            s.history@,
            s.history@[s.history@.len() - 1 - (m - s.bookmarks@.len())],
            q,
        ),
{
}

proof fn lemma_well_founded(s: Store, q: Seq<char>, ws: Seq<Seq<char>>, m: int, r: Row)
    requires
        first_such(all_rows(s, q), mentioning(ws), m, r),
    ensures
        well_founded(s, q, ws, r),
{
    let rows = all_rows(s, q);
    let p = mentioning(ws);
    let nb = s.bookmarks@.len() as int;
    let nh = s.history@.len() as int;
    assert(rows.len() == nb + nh);
    lemma_row_at(s, q, m);
    assert(mentions(ws, r.url, r.title));
    assert(says_all(ws, r.url, r.title));
    if m < nb {
        let b = s.bookmarks@[m];
        assert(marked(s.bookmarks@, ws, r.url));
        assert(marked_as(s.bookmarks@, ws, r.url, r.title));
    } else {
        let x = nh - 1 - (m - nb);
        if marked(s.bookmarks@, ws, r.url) {
            let k = choose|k: int|
                0 <= k < s.bookmarks@.len() && (#[trigger] s.bookmarks@[k]).url@ == r.url
                    && says_all(ws, r.url, s.bookmarks@[k].title@);
            lemma_row_at(s, q, k);
            assert(mentions(ws, rows[k].url, rows[k].title));
            assert(p(rows[k]));
        }
        assert forall|z: int|
            x < z < s.history@.len() && (#[trigger] s.history@[z]).url@ == r.url implies !says_all(
            ws,
            r.url,
            s.history@[z].title@,
        ) by {
            let l = nb + (nh - 1 - z);
            lemma_row_at(s, q, l);
            if says_all(ws, r.url, s.history@[z].title@) {
                assert(mentions(ws, rows[l].url, rows[l].title));
                assert(p(rows[l]));
            }
        }
        assert(newest_match(s.history@, ws, r.url, x));
    }
}

/// The rows that the dropdown draws on for a typed text are well founded, and
/// every page that matches is among them.
proof fn lemma_pool(s: Store, q: Seq<char>, ws: Seq<Seq<char>>)
    ensures
        forall|i: int|
            0 <= i < firsts(all_rows(s, q).filter(mentioning(ws))).len() ==> well_founded(
                s,
                q,
                ws,
                #[trigger] firsts(all_rows(s, q).filter(mentioning(ws)))[i],
            ),
        forall|u: Seq<char>|
            (marked(s.bookmarks@, ws, u) || exists|x: int| #[trigger]
                newest_match(s.history@, ws, u, x)) ==> #[trigger] has_url(
                firsts(all_rows(s, q).filter(mentioning(ws))),
                u,
            ),
{
    let rows = all_rows(s, q);
    let p = mentioning(ws);
    let n = rows.len() as int;
    let nb = s.bookmarks@.len() as int;
    let nh = s.history@.len() as int;
    assert(rows.take(n) =~= rows);
    lemma_first_rows(rows, p, n);
    let f = firsts(rows.filter(p));
    assert forall|i: int| 0 <= i < f.len() implies well_founded(s, q, ws, #[trigger] f[i]) by {
        assert(f.contains(f[i]));
        let m = choose|m: int| m < n && first_such(rows, p, m, f[i]);
        lemma_well_founded(s, q, ws, m, f[i]);
    }
    assert forall|u: Seq<char>|
        (marked(s.bookmarks@, ws, u) || exists|x: int| #[trigger]
            newest_match(s.history@, ws, u, x)) implies #[trigger] has_url(f, u) by {
        if marked(s.bookmarks@, ws, u) {
            let k = choose|k: int|
                0 <= k < nb && (#[trigger] s.bookmarks@[k]).url@ == u && says_all(
                    ws,
                    u,
                    s.bookmarks@[k].title@,
                );
            lemma_row_at(s, q, k);
            assert(mentions(ws, rows[k].url, rows[k].title));
            assert(p(rows[k]));
        } else {
            let x = choose|x: int| #[trigger] newest_match(s.history@, ws, u, x);
            let l = nb + (nh - 1 - x);
            lemma_row_at(s, q, l);
            assert(mentions(ws, rows[l].url, rows[l].title));
            assert(p(rows[l]));
        }
    }
}

/// For a typed text the dropdown shows only pages that match every word of it, in
/// URL or title: bookmarks and pages of the history. No page that matches is left
/// out while there is room.
pub proof fn law_dropdown_shows_what_matches(s: Store, query: Seq<char>, limit: int)
    requires
        limit >= 0,
        words(lowercase(trimmed(query))).len() > 0,
    ensures
        dropdown(s, query, limit).len() <= limit,
        forall|i: int|
            0 <= i < dropdown(s, query, limit).len() ==> marked(
                s.bookmarks@,
                words(lowercase(trimmed(query))),
                #[trigger] dropdown(s, query, limit)[i].url,
            ) || exists|x: int| #[trigger]
                newest_match(
                    s.history@,
                    words(lowercase(trimmed(query))),
                    dropdown(s, query, limit)[i].url,
                    x,
                ),
        forall|u: Seq<char>|
            dropdown(s, query, limit).len() < limit && (#[trigger] marked(
                s.bookmarks@,
                words(lowercase(trimmed(query))),
                u,
            ) || exists|x: int| #[trigger]
                newest_match(s.history@, words(lowercase(trimmed(query))), u, x)) ==> exists|i: int|
                0 <= i < dropdown(s, query, limit).len() && (#[trigger] dropdown(
                    s,
                    query,
                    limit,
                )[i]).url == u,
{
    broadcast use vstd::seq_lib::group_to_multiset_ensures;

    let q = lowercase(trimmed(query));
    let ws = words(q);
    let f = firsts(all_rows(s, q).filter(mentioning(ws)));
    let t = ranked(f);
    let c = cut(t, limit);
    let d = dropdown(s, query, limit);
    lemma_pool(s, q, ws);
    law_ranking_is_a_stable_sort(f);
    assert(d == offered(s.favicons@, c));
    assert forall|i: int| 0 <= i < d.len() implies marked(s.bookmarks@, ws, #[trigger] d[i].url)
        || exists|x: int| #[trigger] newest_match(s.history@, ws, d[i].url, x) by {
        assert(d[i].url == c[i].url && c[i] == t[i]);
        lemma_from_pool(f, t, i);
        assert(well_founded(s, q, ws, t[i]));
    }
    assert forall|u: Seq<char>|
        d.len() < limit && (#[trigger] marked(s.bookmarks@, ws, u) || exists|x: int| #[trigger]
            newest_match(s.history@, ws, u, x)) implies exists|i: int|
        0 <= i < d.len() && (#[trigger] d[i]).url == u by {
        assert(has_url(f, u));
        let k = choose|k: int| 0 <= k < f.len() && (#[trigger] f[k]).url == u;
        assert(f.contains(f[k]));
        assert(t.to_multiset().count(f[k]) > 0);
        assert(t.contains(f[k]));
        let i = choose|i: int| 0 <= i < t.len() && t[i] == f[k];
        assert(c == t);
        assert(d[i].url == u);
    }
}

proof fn lemma_from_pool(f: Seq<Row>, t: Seq<Row>, i: int)
    requires
        f.to_multiset() == t.to_multiset(),
        0 <= i < t.len(),
    ensures
        exists|k: int| 0 <= k < f.len() && #[trigger] f[k] == t[i],
{
    broadcast use vstd::seq_lib::group_to_multiset_ensures;

    assert(t.contains(t[i]));
    assert(f.to_multiset().count(t[i]) > 0);
    assert(f.contains(t[i]));
}

/// Of two pages shown for a typed text, the one above is no worse: bookmarks come
/// before other pages; then a page whose host starts with the text before one
/// whose host does not, and one whose address does before one whose address does
/// not; and only then, among pages of the history, the more visited one, and of
/// those visited as often the one visited last.
pub proof fn law_dropdown_order(s: Store, query: Seq<char>, limit: int, i: int, j: int)
    requires
        words(lowercase(trimmed(query))).len() > 0,
        0 <= i < j < dropdown(s, query, limit).len(),
        limit >= 0,
    ensures
        no_lower(
            s,
            lowercase(trimmed(query)),
            dropdown(s, query, limit)[i].url,
            dropdown(s, query, limit)[j].url,
        ),
{
    let q = lowercase(trimmed(query));
    let ws = words(q);
    let f = firsts(all_rows(s, q).filter(mentioning(ws)));
    let t = ranked(f);
    let c = cut(t, limit);
    let d = dropdown(s, query, limit);
    lemma_pool(s, q, ws);
    law_ranking_is_a_stable_sort(f);
    assert(d == offered(s.favicons@, c));
    assert(d[i].url == c[i].url && c[i] == t[i]);
    assert(d[j].url == c[j].url && c[j] == t[j]);
    lemma_from_pool(f, t, i);
    lemma_from_pool(f, t, j);
    let (x, y) = (t[i], t[j]);
    assert(well_founded(s, q, ws, x) && well_founded(s, q, ws, y));
    assert(!outranks(y, x));
    assert forall|v: int, w: int| #[trigger]
        newest_match(s.history@, ws, x.url, v) && #[trigger] newest_match(
            s.history@,
            ws,
            y.url,
            w,
        ) && !x.bookmark && !y.bookmark implies x.ts == s.history@[v].ts && y.ts
        == s.history@[w].ts by {
        lemma_newest_is_one(s.history@, ws, x.url, v);
        lemma_newest_is_one(s.history@, ws, y.url, w);
    }
}

proof fn lemma_newest_is_one(h: Seq<HistoryEntry>, ws: Seq<Seq<char>>, url: Seq<char>, x: int)
    requires
        newest_match(h, ws, url, x),
    ensures
        forall|y: int| #[trigger] newest_match(h, ws, url, y) ==> y == x,
{
    assert forall|y: int| #[trigger] newest_match(h, ws, url, y) implies y == x by {
        if y < x {
            assert(h[x].url@ == url);
        } else if x < y {
            assert(h[y].url@ == url);
        }
    }
}

/// The page `a` ranks no lower than `b` for the typed text `q`.
pub open spec fn no_lower(s: Store, q: Seq<char>, a: Seq<char>, b: Seq<char>) -> bool {
    let ws = words(q);
    let h = s.history@;
    &&& marked(s.bookmarks@, ws, b) ==> marked(s.bookmarks@, ws, a)
    &&& marked(s.bookmarks@, ws, a) == marked(s.bookmarks@, ws, b) ==> {
        &&& host_starts(b, q) ==> host_starts(a, q)
        &&& !host_starts(a, q) && address_starts(b, q) ==> address_starts(a, q)
        &&& !marked(s.bookmarks@, ws, a) && host_starts(a, q) == host_starts(b, q) && (host_starts(
            a,
            q,
        ) || address_starts(a, q) == address_starts(b, q)) ==> {
            &&& occurrences(h, a) >= occurrences(h, b)
            &&& occurrences(h, a) == occurrences(h, b) ==> forall|x: int, y: int| #[trigger]
                newest_match(h, ws, a, x) && #[trigger] newest_match(h, ws, b, y) ==> h[x].ts
                    >= h[y].ts
        }
    }
}

/// Without a typed text the dropdown shows the most recent pages: each row is a
/// page of the history, and the one above was visited later than the one below.
pub proof fn law_recent_pages_come_newest_first(s: Store, query: Seq<char>, limit: int, i: int, j: int)
    requires
        words(lowercase(trimmed(query))).len() == 0,
        0 <= i < j < dropdown(s, query, limit).len(),
    ensures
        exists|x: int, y: int|
            y < x && #[trigger] last_visit(s.history@, dropdown(s, query, limit)[i].url) == Some(x)
                && #[trigger] last_visit(s.history@, dropdown(s, query, limit)[j].url) == Some(y),
{
    let q = lowercase(trimmed(query));
    let h = s.history@;
    let rows = visit_rows(h, q);
    let f = firsts(rows);
    let n = rows.len() as int;
    let c = cut(
        f,
        if limit < 1 {
            1
        } else {
            limit
        },
    );
    let d = dropdown(s, query, limit);
    assert(d == offered(s.favicons@, c));
    assert(d[i].url == c[i].url && c[i] == f[i]);
    assert(d[j].url == c[j].url && c[j] == f[j]);
    assert(rows.take(n) =~= rows);
    lemma_firsts_ascend(rows, n);
    assert(led_in_turn(rows, n, f[i], f[j]));
    let (a, b) = choose|a: int, b: int|
        a < b && #[trigger] at_first(rows, a, f[i]) && #[trigger] at_first(rows, b, f[j]);
    lemma_first_is_last_visit(h, q, a, f[i]);
    lemma_first_is_last_visit(h, q, b, f[j]);
}

/// The row at `a` is `r`, the first of its URL.
spec fn at_first(rows: Seq<Row>, a: int, r: Row) -> bool {
    &&& 0 <= a < rows.len()
    &&& rows[a] == r
    &&& forall|l: int| 0 <= l < a ==> (#[trigger] rows[l]).url != r.url
}

/// `r` is the first of its URL among the first `k` rows.
spec fn led(rows: Seq<Row>, k: int, r: Row) -> bool {
    exists|a: int| a < k && #[trigger] at_first(rows, a, r)
}

/// ... and so is `t`, further down.
spec fn led_in_turn(rows: Seq<Row>, k: int, r: Row, t: Row) -> bool {
    exists|a: int, b: int|
        a < b < k && #[trigger] at_first(rows, a, r) && #[trigger] at_first(rows, b, t)
}

/// De-duplication keeps the order.
proof fn lemma_firsts_ascend(rows: Seq<Row>, k: int)
    requires
        0 <= k <= rows.len(),
    ensures
        forall|i: int|
            0 <= i < firsts(rows.take(k)).len() ==> led(rows, k, #[trigger] firsts(rows.take(k))[i]),
        forall|i: int, j: int|
            0 <= i < j < firsts(rows.take(k)).len() ==> led_in_turn(
                rows,
                k,
                #[trigger] firsts(rows.take(k))[i],
                #[trigger] firsts(rows.take(k))[j],
            ),
    decreases k,
{
    if k > 0 {
        lemma_firsts_ascend(rows, k - 1);
        let before = rows.take(k - 1);
        let next = rows.take(k);
        let row = rows[k - 1];
        assert(next.drop_last() =~= before);
        let f = firsts(before);
        let g = firsts(next);
        assert(next.last() == row);
        if !has_url(before, row.url) {
            assert(g == f.push(row));
            assert(at_first(rows, k - 1, row)) by {
                assert forall|l: int| 0 <= l < k - 1 implies (#[trigger] rows[l]).url != row.url by {
                    assert(before[l] == rows[l]);
                }
            }
        } else {
            assert(g == f);
        }
        assert forall|i: int| 0 <= i < g.len() implies led(rows, k, #[trigger] g[i]) by {
            if i < f.len() {
                assert(g[i] == f[i]);
                let a = choose|a: int| a < k - 1 && #[trigger] at_first(rows, a, f[i]);
                assert(a < k && at_first(rows, a, g[i]));
            } else {
                assert(k - 1 < k && at_first(rows, k - 1, g[i]));
            }
        }
        assert forall|i: int, j: int| 0 <= i < j < g.len() implies led_in_turn(
            rows,
            k,
            #[trigger] g[i],
            #[trigger] g[j],
        ) by {
            assert(g[i] == f[i]);
            assert(led(rows, k - 1, f[i]));
            if j < f.len() {
                assert(g[j] == f[j]);
                let (a, b) = choose|a: int, b: int|
                    a < b < k - 1 && #[trigger] at_first(rows, a, f[i]) && #[trigger] at_first(
                        rows,
                        b,
                        f[j],
                    );
                assert(a < b < k && at_first(rows, a, g[i]) && at_first(rows, b, g[j]));
            } else {
                let a = choose|a: int| a < k - 1 && #[trigger] at_first(rows, a, f[i]);
                assert(a < k - 1 && at_first(rows, a, g[i]) && at_first(rows, k - 1, g[j]));
            }
        }
    } else {
        assert(rows.take(k).len() == 0);
    }
}

/// The first row of a URL, among the visits from the newest on, stands for the
/// last visit to it.
proof fn lemma_first_is_last_visit(h: Seq<HistoryEntry>, q: Seq<char>, a: int, r: Row)
    requires
        at_first(visit_rows(h, q), a, r),
    ensures
        last_visit(h, r.url) == Some(h.len() - 1 - a),
{
    let rows = visit_rows(h, q);
    lemma_last_visit(h, r.url);
    let x = h.len() - 1 - a;
    assert(rows[a] == visit_row(h, h[x], q));
    assert(h[x].url@ == r.url);
    if let Some(y) = last_visit(h, r.url) {
        if y > x {
            let l = h.len() - 1 - y;
            assert(rows[l] == visit_row(h, h[y], q));
        } else if y < x {
            assert(h[x].url@ != r.url);
        }
    }
}

/// The row is offered as what its page is: a past web search under its terms, any
/// other page as the bookmark or the visit that it is, under that one's title;
/// with its host's icon, where there is one.
pub open spec fn says_what_it_is(s: Store, ws: Seq<Seq<char>>, o: Offer) -> bool {
    &&& match search_terms(o.url) {
        Some(terms) => o.kind == "search"@ && o.title == terms && o.query == terms,
        None => {
            &&& o.query == Seq::<char>::empty()
            &&& marked(s.bookmarks@, ws, o.url) ==> o.kind == "bookmark"@ && marked_as(
                s.bookmarks@,
                ws,
                o.url,
                o.title,
            )
            &&& !marked(s.bookmarks@, ws, o.url) ==> o.kind == "history"@ && exists|x: int| #[trigger]
                newest_match(s.history@, ws, o.url, x) && o.title == s.history@[x].title@
        },
    }
    &&& match icon_for(s.favicons@, o.url) {
        Some(icon) => o.favicon == icon,
        None => o.favicon == Seq::<char>::empty(),
    }
}

/// Every row for a typed text says what its page is.
pub proof fn law_rows_say_what_they_are(s: Store, query: Seq<char>, limit: int, i: int)
    requires
        words(lowercase(trimmed(query))).len() > 0,
        0 <= i < dropdown(s, query, limit).len(),
        limit >= 0,
    ensures
        says_what_it_is(s, words(lowercase(trimmed(query))), dropdown(s, query, limit)[i]),
{
    let q = lowercase(trimmed(query));
    let ws = words(q);
    let f = firsts(all_rows(s, q).filter(mentioning(ws)));
    let t = ranked(f);
    let c = cut(t, limit);
    let d = dropdown(s, query, limit);
    lemma_pool(s, q, ws);
    law_ranking_is_a_stable_sort(f);
    assert(d == offered(s.favicons@, c));
    assert(c[i] == t[i]);
    lemma_from_pool(f, t, i);
    let r = t[i];
    assert(well_founded(s, q, ws, r));
    assert(d[i] == offer(s.favicons@, row_kind(r), r.url, r.title));
    if !r.bookmark {
        let x = choose|x: int| #[trigger]
            newest_match(s.history@, ws, r.url, x) && r.ts == s.history@[x].ts && r.title
                == s.history@[x].title@;
        assert(newest_match(s.history@, ws, r.url, x));
    }
}

/// Without a typed text every row is a page of the history, offered under the
/// title of its last visit or, for a past web search, its terms; and no page of
/// the history is left out while there is room.
pub proof fn law_recent_pages_are_shown(s: Store, query: Seq<char>, limit: int, i: int, k: int)
    requires
        words(lowercase(trimmed(query))).len() == 0,
        0 <= i < dropdown(s, query, limit).len(),
        0 <= k < s.history@.len(),
        limit >= 1,
    ensures
        ({
            let o = dropdown(s, query, limit)[i];
            match search_terms(o.url) {
                Some(terms) => o.kind == "search"@ && o.title == terms && o.query == terms,
                None => o.kind == "history"@ && o.query == Seq::<char>::empty() && (last_visit(
                    s.history@,
                    o.url,
                ) matches Some(x) && o.title == s.history@[x].title@),
            }
        }),
        dropdown(s, query, limit).len() <= limit,
        dropdown(s, query, limit).len() < limit ==> exists|j: int|
            0 <= j < dropdown(s, query, limit).len() && (#[trigger] dropdown(
                s,
                query,
                limit,
            )[j]).url == s.history@[k].url@,
{
    let q = lowercase(trimmed(query));
    let h = s.history@;
    let rows = visit_rows(h, q);
    let f = firsts(rows);
    let n = rows.len() as int;
    let c = cut(f, limit);
    let d = dropdown(s, query, limit);
    assert(d == offered(s.favicons@, c));
    assert(c[i] == f[i]);
    assert(rows.take(n) =~= rows);
    lemma_firsts_ascend(rows, n);
    assert(led(rows, n, f[i]));
    let a = choose|a: int| a < n && #[trigger] at_first(rows, a, f[i]);
    lemma_first_is_last_visit(h, q, a, f[i]);
    assert(rows[a] == visit_row(h, h[h.len() - 1 - a], q));
    assert(d[i] == offer(s.favicons@, row_kind(f[i]), f[i].url, f[i].title));
    if d.len() < limit {
        law_firsts_are_distinct(rows);
        let l = h.len() - 1 - k;
        assert(rows[l] == visit_row(h, h[k], q));
        assert(has_url(rows, h[k].url@));
        assert(has_url(f, h[k].url@));
        let j = choose|j: int| 0 <= j < f.len() && (#[trigger] f[j]).url == h[k].url@;
        assert(d[j].url == h[k].url@);
    }
}

} // verus!
