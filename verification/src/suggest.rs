//! Inline completion of what is typed into the address bar.

use crate::store::{occurrences, HistoryEntry, Store};
use crate::text::{
    any_space, ascii_lower, before, byte_len, chars_of, find_first, first_of, has_prefix, is_space,
    lemma_first_of, lower, lower_text, starts_with, string_of, trim, trimmed, utf8_len,
};
use crate::web::opt_text;
use vstd::prelude::*;
use vstd::slice::slice_subrange;

verus! {

broadcast use vstd::hash_map::group_hash_map_axioms, vstd::hash_set::group_hash_set_axioms;

// ---- addresses without their trimmings ----------------------------------

/// `s` without the prefix `p`, where it has it.
pub open spec fn less(s: Seq<char>, p: Seq<char>) -> Seq<char> {
    if has_prefix(s, p) {
        s.skip(p.len() as int)
    } else {
        s
    }
}

/// A URL without its web scheme and a leading "www.".
pub open spec fn bare(url: Seq<char>) -> Seq<char> {
    let rest = if has_prefix(url, "https://"@) {
        url.skip("https://"@.len() as int)
    } else {
        less(url, "http://"@)
    };
    less(rest, "www."@)
}

/// ... and without one slash at its end.
pub open spec fn unslashed(s: Seq<char>) -> Seq<char> {
    if s.len() > 0 && s.last() == '/' {
        s.drop_last()
    } else {
        s
    }
}

/// The text before the first slash.
pub open spec fn up_to_slash(s: Seq<char>) -> Seq<char> {
    before(s, seq!['/'])
}

fn strip<'a>(s: &'a [char], p: &str) -> (r: &'a [char])
    ensures
        r@ == less(s@, p@),
{
    let prefix = chars_of(p);
    if starts_with(s, prefix.as_slice()) {
        slice_subrange(s, prefix.len(), s.len())
    } else {
        s
    }
}

pub fn bare_of(s: &[char]) -> (r: &[char])
    ensures
        r@ == bare(s@),
{
    let https = chars_of("https://");
    let rest = if starts_with(s, https.as_slice()) {
        strip(s, "https://")
    } else {
        strip(s, "http://")
    };
    strip(rest, "www.")
}

pub fn host_part(s: &[char]) -> (r: &[char])
    ensures
        r@ == up_to_slash(s@),
{
    let mut slash: Vec<char> = Vec::new();
    slash.push('/');
    assert(slash@ == seq!['/']);
    let n = find_first(s, slash.as_slice());
    slice_subrange(s, 0, n)
}

// ---- inline completion --------------------------------------------------

/// Does completing `p` to `cand` add something? `p` is in lower case.
pub open spec fn completes(cand: Seq<char>, p: Seq<char>) -> bool {
    cand.len() > p.len() && ascii_lower(cand.take(p.len() as int)) == p
}

/// The address of a page as a user might type it, without what follows the
/// host or with it.
pub open spec fn typed_forms(url: Seq<char>) -> (Seq<char>, Seq<char>) {
    let full = unslashed(bare(url));
    (up_to_slash(full), full)
}

pub open spec fn is_typed_form(url: Seq<char>, cand: Seq<char>) -> bool {
    cand == typed_forms(url).0 || cand == typed_forms(url).1
}

/// What a candidate is judged by: bookmarks win, then the most visited page,
/// then the shortest text.
#[verifier::ext_equal]
pub struct Score {
    pub bookmark: bool,
    pub visits: nat,
    pub bytes: nat,
}

/// Is `a` better than `b`?
pub open spec fn better(a: Score, b: Score) -> bool {
    if a.bookmark != b.bookmark {
        a.bookmark
    } else if a.visits != b.visits {
        a.visits > b.visits
    } else {
        a.bytes < b.bytes
    }
}

/// `cand` completes `p` and stands for a page of the store, with this score.
pub open spec fn offers(s: Store, p: Seq<char>, cand: Seq<char>, score: Score) -> bool {
    &&& completes(cand, p)
    &&& score.bytes == utf8_len(cand)
    &&& {
        ||| score.bookmark && score.visits == 0 && exists|i: int|
            0 <= i < s.bookmarks@.len() && is_typed_form((#[trigger] s.bookmarks@[i]).url@, cand)
        ||| !score.bookmark && exists|i: int|
            0 <= i < s.history@.len() && is_typed_form((#[trigger] s.history@[i]).url@, cand)
                && score.visits == occurrences(s.history@, s.history@[i].url@)
    }
}

/// No page of the store completes `p` with a better score.
pub open spec fn unbeaten(s: Store, p: Seq<char>, score: Score) -> bool {
    forall|c: Seq<char>, other: Score| #[trigger]
        offers(s, p, c, other) ==> !better(other, score)
}

/// Every typed form of `url` that completes `p` is longer than `text`.
pub open spec fn only_longer(url: Seq<char>, p: Seq<char>, text: Seq<char>) -> bool {
    let (host, full) = typed_forms(url);
    &&& completes(host, p) ==> utf8_len(host) > utf8_len(text)
    &&& completes(full, p) ==> utf8_len(full) > utf8_len(text)
}

/// `text` is a typed form of a bookmark, and no bookmark before it completes `p`
/// as well.
pub open spec fn first_marked(s: Store, p: Seq<char>, text: Seq<char>) -> bool {
    exists|i: int|
        0 <= i < s.bookmarks@.len() && is_typed_form((#[trigger] s.bookmarks@[i]).url@, text)
            && forall|j: int| 0 <= j < i ==> only_longer((#[trigger] s.bookmarks@[j]).url@, p, text)
}

/// `text` completes `p` as well as any page of the store does; among equally
/// good bookmarks it is the first.
pub open spec fn is_best(s: Store, p: Seq<char>, text: Seq<char>) -> bool {
    exists|score: Score| #[trigger]
        offers(s, p, text, score) && unbeaten(s, p, score) && (score.bookmark ==> first_marked(
            s,
            p,
            text,
        ))
}

/// Nothing in the store completes `p`.
pub open spec fn offers_nothing(s: Store, p: Seq<char>) -> bool {
    forall|c: Seq<char>, score: Score| !#[trigger] offers(s, p, c, score)
}

/// Is the typed text one that is completed at all?
pub open spec fn completable(p: Seq<char>) -> bool {
    utf8_len(p) >= 2 && forall|i: int| 0 <= i < p.len() ==> !is_space(#[trigger] p[i])
}

/// `r` is what a typed text is completed to, whatever its case and without the
/// white space around it; nothing where it is not one that is completed, or where
/// nothing in the store completes it.
pub open spec fn completed(s: Store, typed: Seq<char>, r: Option<Seq<char>>) -> bool {
    let p = ascii_lower(trimmed(typed));
    match r {
        Some(text) => completable(p) && is_best(s, p, text),
        None => !completable(p) || offers_nothing(s, p),
    }
}

/// A best candidate so far.
struct Best {
    text: Vec<char>,
    bookmark: bool,
    visits: usize,
    bytes: usize,
}

impl Best {
    spec fn score(&self) -> Score {
        Score { bookmark: self.bookmark, visits: self.visits as nat, bytes: self.bytes as nat }
    }
}

fn beats(a: &Best, b: &Best) -> (r: bool)
    ensures
        r == better(a.score(), b.score()),
{
    if a.bookmark != b.bookmark {
        a.bookmark
    } else if a.visits != b.visits {
        a.visits > b.visits
    } else {
        a.bytes < b.bytes
    }
}

fn completing(cand: &[char], p: &[char]) -> (r: bool)
    ensures
        r == completes(cand@, p@),
{
    if cand.len() <= p.len() {
        return false;
    }
    let head = lower_text(slice_subrange(cand, 0, p.len()));
    crate::text::same(head.as_slice(), p)
}

/// Keep the better of the best so far and a candidate.
fn consider(best: Option<Best>, cand: &[char], p: &[char], bookmark: bool, visits: usize) -> (r:
    Option<Best>)
    ensures
        !completes(cand@, p@) ==> r == best,
        completes(cand@, p@) ==> match (best, r) {
            (_, None) => false,
            (None, Some(x)) => x.text@ == cand@ && x.score() == (Score {
                bookmark,
                visits: visits as nat,
                bytes: utf8_len(cand@),
            }),
            (Some(b), Some(x)) => {
                let new = Score { bookmark, visits: visits as nat, bytes: utf8_len(cand@) };
                if better(new, b.score()) {
                    x.text@ == cand@ && x.score() == new
                } else {
                    x == b
                }
            },
        },
{
    if !completing(cand, p) {
        return best;
    }
    let bytes = byte_len(string_of(cand).as_str());
    let text = crate::text::copy(cand);
    let new = Best { text, bookmark, visits, bytes };
    match best {
        None => Some(new),
        Some(b) => if beats(&new, &b) {
            Some(new)
        } else {
            Some(b)
        },
    }
}

/// The candidate at `i` is `c`, which completes `p` and beats all those before it
/// that do.
spec fn first_at(cs: Seq<(Seq<char>, Score)>, p: Seq<char>, i: int, c: (Seq<char>, Score)) -> bool {
    &&& 0 <= i < cs.len()
    &&& cs[i] == c
    &&& completes(c.0, p)
    &&& forall|j: int| 0 <= j < i && completes((#[trigger] cs[j]).0, p) ==> better(c.1, cs[j].1)
}

/// `best` is the first of the best candidates in `cs` that complete `p`.
spec fn best_of(best: Option<Best>, cs: Seq<(Seq<char>, Score)>, p: Seq<char>) -> bool {
    match best {
        None => forall|i: int| 0 <= i < cs.len() ==> !completes((#[trigger] cs[i]).0, p),
        Some(b) => {
            &&& exists|i: int| first_at(cs, p, i, (b.text@, b.score()))
            &&& forall|i: int|
                0 <= i < cs.len() && completes((#[trigger] cs[i]).0, p) ==> !better(
                    cs[i].1,
                    b.score(),
                )
        },
    }
}

/// A candidate with its score.
pub open spec fn scored(cand: Seq<char>, bookmark: bool, visits: nat) -> (Seq<char>, Score) {
    (cand, Score { bookmark, visits, bytes: utf8_len(cand) })
}

/// Consider both typed forms of a page.
fn consider_page(
    best: Option<Best>,
    url: &str,
    p: &[char],
    bookmark: bool,
    visits: usize,
    cs: Ghost<Seq<(Seq<char>, Score)>>,
) -> (r: Option<Best>)
    requires
        best_of(best, cs@, p@),
    ensures
        best_of(
            r,
            cs@.push(scored(typed_forms(url@).0, bookmark, visits as nat)).push(
                scored(typed_forms(url@).1, bookmark, visits as nat),
            ),
            p@,
        ),
{
    let chars = chars_of(url);
    let full = bare_of(chars.as_slice());
    let n = full.len();
    let full = if n > 0 && full[n - 1] == '/' {
        slice_subrange(full, 0, n - 1)
    } else {
        full
    };
    let host = host_part(full);
    let ghost one = cs@.push(scored(host@, bookmark, visits as nat));
    let ghost two = one.push(scored(full@, bookmark, visits as nat));
    let with_host = consider(best, host, p, bookmark, visits);
    proof {
        lemma_considered(best, with_host, cs@, scored(host@, bookmark, visits as nat), p@);
    }
    let with_both = consider(with_host, full, p, bookmark, visits);
    proof {
        lemma_considered(with_host, with_both, one, scored(full@, bookmark, visits as nat), p@);
    }
    with_both
}

proof fn lemma_considered(
    best: Option<Best>,
    r: Option<Best>,
    cs: Seq<(Seq<char>, Score)>,
    c: (Seq<char>, Score),
    p: Seq<char>,
)
    requires
        best_of(best, cs, p),
        !completes(c.0, p) ==> r == best,
        completes(c.0, p) ==> match (best, r) {
            (_, None) => false,
            (None, Some(x)) => x.text@ == c.0 && x.score() == c.1,
            (Some(b), Some(x)) => if better(c.1, b.score()) {
                x.text@ == c.0 && x.score() == c.1
            } else {
                x == b
            },
        },
    ensures
        best_of(r, cs.push(c), p),
{
    let all = cs.push(c);
    assert(all[cs.len() as int] == c);
    assert forall|i: int| 0 <= i < cs.len() implies #[trigger] all[i] == cs[i] by {}
    if let Some(x) = r {
        if let Some(b) = best {
            let k = choose|i: int| first_at(cs, p, i, (b.text@, b.score()));
            assert(all[k] == cs[k]);
            if x == b {
                assert(first_at(all, p, k, (x.text@, x.score())));
            } else {
                assert(first_at(all, p, cs.len() as int, c));
            }
        } else {
            assert(first_at(all, p, cs.len() as int, c));
        }
    }
}

impl Store {
    /// Inline address-bar completion: the best URL (sans scheme) that starts
    /// with `prefix`, from bookmarks and history ("git" gives "github.com").
    /// Bookmarks win, then the most visited URL, then the shortest candidate.
    /// Of several equally good bookmarks the first comes back; of equally good
    /// pages of the history, which one is left open.
    pub fn suggest(&self, prefix: &str) -> (r: Option<String>)
        requires
            self.wf(),
        ensures
            completed(*self, prefix@, opt_text(r)),
    {
        let typed = chars_of(prefix);
        let p = lower_text(trim(typed.as_slice()));
        if byte_len(string_of(p.as_slice()).as_str()) < 2 || any_space(p.as_slice()) {
            return None;
        }
        let mut best: Option<Best> = None;
        let ghost mut cs: Seq<(Seq<char>, Score)> = Seq::empty();
        let nb = self.bookmarks.len();
        let mut i: usize = 0;
        while i < nb
            invariant
                i <= nb,
                nb == self.bookmarks@.len(),
                best_of(best, cs, p@),
                cs.len() == 2 * i,
                forall|j: int|
                    0 <= j < i ==> cs[2 * j] == scored(
                        typed_forms((#[trigger] self.bookmarks@[j]).url@).0,
                        true,
                        0,
                    ) && cs[2 * j + 1] == scored(
                        typed_forms(self.bookmarks@[j].url@).1,
                        true,
                        0,
                    ),
            decreases nb - i,
        {
            let url = self.bookmarks[i].url.as_str();
            best = consider_page(best, url, p.as_slice(), true, 0, Ghost(cs));
            proof {
                cs = cs.push(scored(typed_forms(url@).0, true, 0)).push(
                    scored(typed_forms(url@).1, true, 0),
                );
            }
            i += 1;
        }
        let ghost marked = cs;
        let nh = self.history.len();
        let mut k: usize = 0;
        while k < nh
            invariant
                k <= nh,
                nh == self.history@.len(),
                self.wf(),
                best_of(best, cs, p@),
                marked.len() == 2 * nb,
                cs.len() == 2 * nb + 2 * k,
                cs.take(2 * nb) == marked,
                forall|j: int|
                    0 <= j < k ==> cs[2 * nb + 2 * j] == scored(
                        typed_forms((#[trigger] self.history@[j]).url@).0,
                        false,
                        occurrences(self.history@, self.history@[j].url@),
                    ) && cs[2 * nb + 2 * j + 1] == scored(
                        typed_forms(self.history@[j].url@).1,
                        false,
                        occurrences(self.history@, self.history@[j].url@),
                    ),
            decreases nh - k,
        {
            let url = self.history[k].url.as_str();
            let visits = self.visit_count(url);
            best = consider_page(best, url, p.as_slice(), false, visits, Ghost(cs));
            proof {
                let before = cs;
                cs = cs.push(scored(typed_forms(url@).0, false, visits as nat)).push(
                    scored(typed_forms(url@).1, false, visits as nat),
                );
                assert(cs.take(2 * nb) == before.take(2 * nb));
            }
            k += 1;
        }
        proof {
            assert forall|j: int| 0 <= j < marked.len() implies cs[j] == #[trigger] marked[j] by {
                assert(cs.take(2 * nb)[j] == marked[j]);
            }
            lemma_all_offered(*self, p@, marked, cs);
            assert(p@ == ascii_lower(trimmed(prefix@)));
            assert(completable(p@));
        }
        match best {
            Some(b) => {
                proof {
                    let k = choose|i: int| first_at(cs, p@, i, (b.text@, b.score()));
                    assert(offers(*self, p@, b.text@, b.score()));
                    if b.bookmark {
                        lemma_first_marked(*self, p@, marked, cs, k);
                    }
                    assert forall|c: Seq<char>, other: Score| #[trigger]
                        offers(*self, p@, c, other) implies !better(other, b.score()) by {
                        let i = choose|i: int|
                            0 <= i < cs.len() && #[trigger] cs[i] == (c, other) && completes(
                                c,
                                p@,
                            );
                        assert(completes(cs[i].0, p@));
                    }
                }
                let text = string_of(b.text.as_slice());
                assert(offers(*self, p@, text@, b.score()));
                Some(text)
            },
            None => {
                assert forall|c: Seq<char>, other: Score| !#[trigger]
                    offers(*self, p@, c, other) by {
                    if offers(*self, p@, c, other) {
                        let i = choose|i: int|
                            0 <= i < cs.len() && #[trigger] cs[i] == (c, other) && completes(
                                c,
                                p@,
                            );
                        assert(completes(cs[i].0, p@));
                    }
                }
                None
            },
        }
    }
}

/// The considered candidates are those that the store offers.
proof fn lemma_all_offered(
    s: Store,
    p: Seq<char>,
    marked: Seq<(Seq<char>, Score)>,
    cs: Seq<(Seq<char>, Score)>,
)
    requires
        marked.len() == 2 * s.bookmarks@.len(),
        cs.len() == marked.len() + 2 * s.history@.len(),
        forall|j: int| 0 <= j < marked.len() ==> cs[j] == #[trigger] marked[j],
        forall|j: int|
            0 <= j < s.bookmarks@.len() ==> marked[2 * j] == scored(
                typed_forms((#[trigger] s.bookmarks@[j]).url@).0,
                true,
                0,
            ) && marked[2 * j + 1] == scored(typed_forms(s.bookmarks@[j].url@).1, true, 0),
        forall|j: int|
            0 <= j < s.history@.len() ==> cs[marked.len() + 2 * j] == scored(
                typed_forms((#[trigger] s.history@[j]).url@).0,
                false,
                occurrences(s.history@, s.history@[j].url@),
            ) && cs[marked.len() + 2 * j + 1] == scored(
                typed_forms(s.history@[j].url@).1,
                false,
                occurrences(s.history@, s.history@[j].url@),
            ),
    ensures
        forall|i: int|
            0 <= i < cs.len() && completes((#[trigger] cs[i]).0, p) ==> offers(
                s,
                p,
                cs[i].0,
                cs[i].1,
            ),
        forall|c: Seq<char>, score: Score| #[trigger]
            offers(s, p, c, score) ==> exists|i: int|
                0 <= i < cs.len() && #[trigger] cs[i] == (c, score) && completes(c, p),
{
    assert forall|i: int| 0 <= i < cs.len() && completes((#[trigger] cs[i]).0, p) implies offers(
        s,
        p,
        cs[i].0,
        cs[i].1,
    ) by {
        if i < marked.len() {
            let j = i / 2;
            assert(cs[i] == marked[i]);
            assert(i == 2 * j || i == 2 * j + 1);
            assert(is_typed_form(s.bookmarks@[j].url@, cs[i].0));
        } else {
            let j = (i - marked.len()) / 2;
            assert(i == marked.len() + 2 * j || i == marked.len() + 2 * j + 1);
            assert(is_typed_form(s.history@[j].url@, cs[i].0));
        }
    }
    assert forall|c: Seq<char>, score: Score| #[trigger] offers(s, p, c, score) implies exists|
        i: int,
    |
        0 <= i < cs.len() && #[trigger] cs[i] == (c, score) && completes(c, p) by {
        if score.bookmark {
            let j = choose|j: int|
                0 <= j < s.bookmarks@.len() && is_typed_form((#[trigger] s.bookmarks@[j]).url@, c);
            assert(cs[2 * j] == marked[2 * j] && cs[2 * j + 1] == marked[2 * j + 1]);
            if c == typed_forms(s.bookmarks@[j].url@).0 {
                assert(cs[2 * j] == (c, score));
            } else {
                assert(cs[2 * j + 1] == (c, score));
            }
        } else {
            let j = choose|j: int|
                0 <= j < s.history@.len() && is_typed_form((#[trigger] s.history@[j]).url@, c)
                    && score.visits == occurrences(s.history@, s.history@[j].url@);
            if c == typed_forms(s.history@[j].url@).0 {
                assert(cs[marked.len() + 2 * j] == (c, score));
            } else {
                assert(cs[marked.len() + 2 * j + 1] == (c, score));
            }
        }
    }
}

/// The first best candidate, where it is a bookmark, stands for the first
/// bookmark that is as good.
proof fn lemma_first_marked(
    s: Store,
    p: Seq<char>,
    marked: Seq<(Seq<char>, Score)>,
    cs: Seq<(Seq<char>, Score)>,
    k: int,
)
    requires
        marked.len() == 2 * s.bookmarks@.len(),
        cs.len() == marked.len() + 2 * s.history@.len(),
        forall|j: int| 0 <= j < marked.len() ==> cs[j] == #[trigger] marked[j],
        forall|j: int|
            0 <= j < s.bookmarks@.len() ==> marked[2 * j] == scored(
                typed_forms((#[trigger] s.bookmarks@[j]).url@).0,
                true,
                0,
            ) && marked[2 * j + 1] == scored(typed_forms(s.bookmarks@[j].url@).1, true, 0),
        forall|j: int|
            0 <= j < s.history@.len() ==> cs[marked.len() + 2 * j] == scored(
                typed_forms((#[trigger] s.history@[j]).url@).0,
                false,
                occurrences(s.history@, s.history@[j].url@),
            ) && cs[marked.len() + 2 * j + 1] == scored(
                typed_forms(s.history@[j].url@).1,
                false,
                occurrences(s.history@, s.history@[j].url@),
            ),
        0 <= k < cs.len(),
        first_at(cs, p, k, cs[k]),
        cs[k].1.bookmark,
    ensures
        first_marked(s, p, cs[k].0),
{
    if k >= marked.len() {
        let j = (k - marked.len()) / 2;
        assert(k == marked.len() + 2 * j || k == marked.len() + 2 * j + 1);
        let page = s.history@[j];
        assert(!cs[k].1.bookmark);
    }
    let i = k / 2;
    assert(k == 2 * i || k == 2 * i + 1);
    assert(cs[k] == marked[k]);
    let url = s.bookmarks@[i].url@;
    assert(is_typed_form(url, cs[k].0));
    assert forall|j: int| 0 <= j < i implies only_longer(
        (#[trigger] s.bookmarks@[j]).url@,
        p,
        cs[k].0,
    ) by {
        assert(cs[2 * j] == marked[2 * j]);
        assert(cs[2 * j + 1] == marked[2 * j + 1]);
    }
}

/// Does completing the typed text `p` to `c` add something to it, whatever the
/// case of its letters?
pub open spec fn goes_on(c: Seq<char>, p: Seq<char>) -> bool {
    c.len() > p.len() && forall|k: int| 0 <= k < p.len() ==> lower(#[trigger] c[k]) == p[k]
}

proof fn lemma_goes_on(c: Seq<char>, p: Seq<char>)
    ensures
        completes(c, p) == goes_on(c, p),
{
    if c.len() > p.len() {
        let head = ascii_lower(c.take(p.len() as int));
        assert forall|k: int| 0 <= k < p.len() implies head[k] == lower(#[trigger] c[k]) by {}
        if goes_on(c, p) {
            assert(head =~= p);
        }
    }
}

/// Inline completion goes by bookmarks, then by the most visited page, then by
/// the shortest text. Where a bookmark can complete the typed text, a shortest
/// completion among the bookmarks comes back. Else the text stands for a page of
/// the history that no other page that completes what was typed was visited more
/// often than; and of pages visited as often, none has a shorter completion.
pub proof fn law_completion_prefers_visits_to_brevity(s: Store, p: Seq<char>, text: Seq<char>)
    requires
        is_best(s, p, text),
    ensures
        goes_on(text, p),
        (exists|i: int, c: Seq<char>|
            0 <= i < s.bookmarks@.len() && #[trigger] is_typed_form(s.bookmarks@[i].url@, c)
                && goes_on(c, p)) ==> (exists|i: int|
            0 <= i < s.bookmarks@.len() && is_typed_form((#[trigger] s.bookmarks@[i]).url@, text)),
        forall|i: int, c: Seq<char>|
            0 <= i < s.bookmarks@.len() && #[trigger] is_typed_form(s.bookmarks@[i].url@, c)
                && goes_on(c, p) ==> utf8_len(text) <= utf8_len(c),
        (forall|i: int, c: Seq<char>|
            0 <= i < s.bookmarks@.len() && #[trigger] is_typed_form(s.bookmarks@[i].url@, c)
                ==> !goes_on(c, p)) ==> exists|i: int| #[trigger]
            most_visited(s.history@, p, text, i),
{
    let score = choose|score: Score| #[trigger]
        offers(s, p, text, score) && unbeaten(s, p, score) && (score.bookmark ==> first_marked(
            s,
            p,
            text,
        ));
    lemma_goes_on(text, p);
    assert forall|i: int, c: Seq<char>|
        0 <= i < s.bookmarks@.len() && #[trigger] is_typed_form(s.bookmarks@[i].url@, c)
            && goes_on(c, p) implies utf8_len(text) <= utf8_len(c) && score.bookmark by {
        lemma_goes_on(c, p);
        let other = Score { bookmark: true, visits: 0, bytes: utf8_len(c) };
        let b = s.bookmarks@[i];
        assert(offers(s, p, c, other));
        assert(!better(other, score));
    }
    if forall|i: int, c: Seq<char>|
        0 <= i < s.bookmarks@.len() && #[trigger] is_typed_form(s.bookmarks@[i].url@, c)
            ==> !goes_on(c, p) {
        if score.bookmark {
            let i = choose|i: int|
                0 <= i < s.bookmarks@.len() && is_typed_form(
                    (#[trigger] s.bookmarks@[i]).url@,
                    text,
                );
            assert(is_typed_form(s.bookmarks@[i].url@, text));
        }
        let i = choose|i: int|
            0 <= i < s.history@.len() && is_typed_form((#[trigger] s.history@[i]).url@, text)
                && score.visits == occurrences(s.history@, s.history@[i].url@);
        assert forall|j: int, c: Seq<char>|
            0 <= j < s.history@.len() && #[trigger] is_typed_form(s.history@[j].url@, c)
                && goes_on(c, p) implies no_worse(s.history@, i, text, j, c) by {
            lemma_goes_on(c, p);
            let page = s.history@[j];
            let other = Score {
                bookmark: false,
                visits: occurrences(s.history@, page.url@),
                bytes: utf8_len(c),
            };
            assert(offers(s, p, c, other));
            assert(!better(other, score));
        }
        assert(most_visited(s.history@, p, text, i));
    }
}

/// The page of visit `j`, completed to `c`, was not visited more often than that
/// of visit `i`, nor as often with a completion shorter than `text`.
pub open spec fn no_worse(
    h: Seq<HistoryEntry>,
    i: int,
    text: Seq<char>,
    j: int,
    c: Seq<char>,
) -> bool {
    let mine = occurrences(h, h[i].url@);
    let its = occurrences(h, h[j].url@);
    its <= mine && (its == mine ==> utf8_len(c) >= utf8_len(text))
}

/// `text` stands for the page of visit `i`, and no page that completes `p` does
/// better.
pub open spec fn most_visited(h: Seq<HistoryEntry>, p: Seq<char>, text: Seq<char>, i: int) -> bool {
    &&& 0 <= i < h.len()
    &&& is_typed_form(h[i].url@, text)
    &&& forall|j: int, c: Seq<char>|
        0 <= j < h.len() && #[trigger] is_typed_form(h[j].url@, c) && goes_on(c, p) ==> no_worse(
            h,
            i,
            text,
            j,
            c,
        )
}

proof fn lemma_bytes_at_least(s: Seq<char>)
    ensures
        utf8_len(s) >= s.len(),
    decreases s.len(),
{
    if s.len() > 0 {
        lemma_bytes_at_least(s.drop_first());
    }
}

/// Two characters are enough to complete, as long as no white space is among
/// them; and where a page of the store goes on from them, something comes back.
pub proof fn law_two_characters_are_completed(s: Store, p: Seq<char>, c: Seq<char>, i: int)
    requires
        p.len() >= 2,
        forall|k: int| 0 <= k < p.len() ==> !is_space(#[trigger] p[k]),
        goes_on(c, p),
        0 <= i < s.bookmarks@.len() && is_typed_form(s.bookmarks@[i].url@, c) || 0 <= i
            < s.history@.len() && is_typed_form(s.history@[i].url@, c),
    ensures
        completable(p),
        !offers_nothing(s, p),
{
    lemma_bytes_at_least(p);
    lemma_goes_on(c, p);
    if 0 <= i < s.bookmarks@.len() && is_typed_form(s.bookmarks@[i].url@, c) {
        let b = s.bookmarks@[i];
        assert(offers(s, p, c, Score { bookmark: true, visits: 0, bytes: utf8_len(c) }));
    } else {
        let e = s.history@[i];
        let visits = occurrences(s.history@, e.url@);
        assert(offers(s, p, c, Score { bookmark: false, visits, bytes: utf8_len(c) }));
    }
}

/// A page is typed as its host, or as its host and what follows it: without the
/// scheme, a leading "www." and a slash at the end.
pub proof fn law_typed_forms_leave_out_the_scheme(
    scheme: Seq<char>,
    host: Seq<char>,
    tail: Seq<char>,
    c: Seq<char>,
)
    requires
        scheme == "https://"@ || scheme == "http://"@,
        host.len() > 0,
        !has_prefix(host, "www."@),
        !host.contains('/'),
        tail.len() == 0 || tail[0] == '/',
    ensures
        is_typed_form(scheme + (host + tail), c) <==> c == host || c == host + (if tail.len() > 0
            && tail.last() == '/' {
            tail.drop_last()
        } else {
            tail
        }),
        is_typed_form(scheme + "www."@ + (host + tail), c) <==> is_typed_form(
            scheme + (host + tail),
            c,
        ),
{
    lemma_no_www(host, tail);
    lemma_bare_of(scheme, host + tail);
    lemma_forms_of(scheme + (host + tail), host, tail);
    lemma_forms_of(scheme + "www."@ + (host + tail), host, tail);
}

proof fn lemma_no_www(host: Seq<char>, tail: Seq<char>)
    requires
        !has_prefix(host, "www."@),
        tail.len() == 0 || tail[0] == '/',
    ensures
        !has_prefix(host + tail, "www."@),
{
    reveal_strlit("www.");
    let rest = host + tail;
    if has_prefix(rest, "www."@) {
        if host.len() >= 4 {
            assert(rest.take(4) =~= host.take(4));
        } else {
            assert(rest.take(4)[host.len() as int] == "www."@[host.len() as int]);
            assert(rest[host.len() as int] == '/');
        }
    }
}

proof fn lemma_forms_of(url: Seq<char>, host: Seq<char>, tail: Seq<char>)
    requires
        bare(url) == host + tail,
        host.len() > 0,
        !host.contains('/'),
        tail.len() == 0 || tail[0] == '/',
    ensures
        typed_forms(url).0 == host,
        typed_forms(url).1 == host + (if tail.len() > 0 && tail.last() == '/' {
            tail.drop_last()
        } else {
            tail
        }),
{
    let rest = host + tail;
    if tail.len() == 0 {
        assert(rest =~= host);
        assert(host[host.len() - 1] != '/');
        lemma_first_slash(host, tail);
    } else if tail.last() == '/' {
        assert(rest.last() == '/');
        assert(rest.drop_last() =~= host + tail.drop_last());
        lemma_first_slash(host, tail.drop_last());
    } else {
        assert(rest.last() == tail.last());
        lemma_first_slash(host, tail);
    }
}

/// The text before the first slash of a host and what follows it.
proof fn lemma_first_slash(host: Seq<char>, rest: Seq<char>)
    requires
        !host.contains('/'),
        rest.len() == 0 || rest[0] == '/',
    ensures
        up_to_slash(host + rest) == host,
{
    let s = host + rest;
    let k = first_of(s, seq!['/']);
    lemma_first_of(s, seq!['/']);
    assert(seq!['/'][0] == '/');
    assert(seq!['/'].contains('/'));
    if k < host.len() {
        assert(s[k as int] == host[k as int]);
        assert(host.contains('/'));
    }
    if k > host.len() {
        assert(s[host.len() as int] == '/');
    }
    assert(s.take(k as int) =~= host);
}

proof fn lemma_bare_of(scheme: Seq<char>, rest: Seq<char>)
    requires
        scheme == "https://"@ || scheme == "http://"@,
        !has_prefix(rest, "www."@),
    ensures
        bare(scheme + rest) == rest,
        bare(scheme + "www."@ + rest) == rest,
{
    reveal_strlit("https://");
    reveal_strlit("http://");
    reveal_strlit("www.");
    let www = "www."@ + rest;
    assert((scheme + rest).take(scheme.len() as int) =~= scheme);
    assert((scheme + rest).skip(scheme.len() as int) =~= rest);
    assert(scheme + "www."@ + rest =~= scheme + www);
    assert((scheme + www).take(scheme.len() as int) =~= scheme);
    assert((scheme + www).skip(scheme.len() as int) =~= www);
    assert(www.take(4) =~= "www."@);
    assert(www.skip(4) =~= rest);
    if scheme == "http://"@ {
        assert("http://"@[4] == ':' && "https://"@[4] == 's');
        assert((scheme + rest)[4] == ':' && (scheme + www)[4] == ':');
        if has_prefix(scheme + rest, "https://"@) {
            assert((scheme + rest).take(8)[4] == "https://"@[4]);
        }
        if has_prefix(scheme + www, "https://"@) {
            assert((scheme + www).take(8)[4] == "https://"@[4]);
        }
    }
}

/// Among bookmarks that complete as briefly, the first in their list is the one:
/// every bookmark before it has only longer completions.
pub proof fn law_earlier_bookmarks_win_ties(s: Store, p: Seq<char>, text: Seq<char>, k: int, c: Seq<char>)
    requires
        is_best(s, p, text),
        0 <= k < s.bookmarks@.len(),
        is_typed_form(s.bookmarks@[k].url@, c),
        goes_on(c, p),
    ensures
        exists|i: int|
            0 <= i < s.bookmarks@.len() && is_typed_form((#[trigger] s.bookmarks@[i]).url@, text)
                && (k < i ==> utf8_len(c) > utf8_len(text)),
{
    let score = choose|score: Score| #[trigger]
        offers(s, p, text, score) && unbeaten(s, p, score) && (score.bookmark ==> first_marked(
            s,
            p,
            text,
        ));
    lemma_goes_on(c, p);
    let other = Score { bookmark: true, visits: 0, bytes: utf8_len(c) };
    let b = s.bookmarks@[k];
    assert(offers(s, p, c, other));
    assert(!better(other, score));
    let i = choose|i: int|
        0 <= i < s.bookmarks@.len() && is_typed_form((#[trigger] s.bookmarks@[i]).url@, text)
            && forall|j: int| 0 <= j < i ==> only_longer((#[trigger] s.bookmarks@[j]).url@, p, text);
    if k < i {
        assert(only_longer(s.bookmarks@[k].url@, p, text));
    }
}

/// Text of less than two bytes is not completed, nor is text with white space in
/// it.
pub proof fn law_blanks_are_not_completed(p: Seq<char>, k: int)
    ensures
        utf8_len(p) < 2 ==> !completable(p),
        0 <= k < p.len() && is_space(p[k]) ==> !completable(p),
{
}

/// A completion goes on from what was typed, with case and the white space around
/// it aside; texts that differ in nothing else are completed alike, and a single
/// character is not completed.
pub proof fn law_completion_goes_on_from_the_typed_text(
    s: Store,
    typed: Seq<char>,
    other: Seq<char>,
    r: Option<Seq<char>>,
    k: int,
)
    requires
        completed(s, typed, r),
        0 <= k < trimmed(typed).len(),
    ensures
        r matches Some(text) ==> text.len() > trimmed(typed).len() && lower(text[k]) == lower(
            trimmed(typed)[k],
        ),
        ascii_lower(trimmed(other)) == ascii_lower(trimmed(typed)) ==> completed(s, other, r),
        trimmed(typed).len() == 1 && (trimmed(typed)[0] as u32) < 128 ==> r is None,
{
    let p = ascii_lower(trimmed(typed));
    assert(p[k] == lower(trimmed(typed)[k]));
    if let Some(text) = r {
        let score = choose|score: Score| #[trigger]
            offers(s, p, text, score) && unbeaten(s, p, score) && (score.bookmark ==> first_marked(
                s,
                p,
                text,
            ));
        lemma_goes_on(text, p);
        assert(lower(text[k]) == p[k]);
    }
    if trimmed(typed).len() == 1 && (trimmed(typed)[0] as u32) < 128 {
        assert((p[0] as u32) < 128);
        reveal_with_fuel(vstd::utf8::encode_utf8, 2);
        assert(p.drop_first() =~= Seq::<char>::empty());
        assert(utf8_len(p) == 1);
    }
}

/// Where a page of the store goes on from a typed text of two characters or more
/// without white space, something comes back.
pub proof fn law_something_comes_back(
    s: Store,
    typed: Seq<char>,
    r: Option<Seq<char>>,
    c: Seq<char>,
    i: int,
)
    requires
        completed(s, typed, r),
        trimmed(typed).len() >= 2,
        forall|k: int| 0 <= k < trimmed(typed).len() ==> !is_space(#[trigger] trimmed(typed)[k]),
        goes_on(c, ascii_lower(trimmed(typed))),
        0 <= i < s.bookmarks@.len() && is_typed_form(s.bookmarks@[i].url@, c) || 0 <= i
            < s.history@.len() && is_typed_form(s.history@[i].url@, c),
    ensures
        r is Some,
{
    let p = ascii_lower(trimmed(typed));
    assert forall|k: int| 0 <= k < p.len() implies !is_space(#[trigger] p[k]) by {
        assert(p[k] == lower(trimmed(typed)[k]));
        assert(!is_space(trimmed(typed)[k]));
    }
    law_two_characters_are_completed(s, p, c, i);
}

} // verus!
