//! "View Source": what is captured of a page, and how much of it is kept.

use crate::state::{label_for, label_text, BrowserState, SOURCE_CAP};
use crate::text::{byte_len, utf8_len};
use vstd::prelude::*;
use vstd::utf8::{
    decode_utf8_split, encode_utf8, encode_utf8_decode_utf8, encode_utf8_first_scalar,
    encode_utf8_valid_utf8, is_char_boundary, is_char_boundary_start_end_of_seq, pop_first_scalar,
};

verus! {

/// What is written at the end of a source that was cut off.
pub const CUT_NOTICE: &'static str =
    "\n<!-- … truncated by Foxlite (page source larger than 8 MB) -->\n";

/// `head` is as much of `s`, in whole characters, as fits in the cap.
pub open spec fn longest_head(s: Seq<char>, head: Seq<char>) -> bool {
    &&& head.len() <= s.len()
    &&& s.take(head.len() as int) == head
    &&& utf8_len(head) <= SOURCE_CAP
    &&& head.len() < s.len() ==> utf8_len(s.take(head.len() as int + 1)) > SOURCE_CAP
}

/// A page source as it is kept: whole, or cut off with a notice.
pub open spec fn is_kept(s: Seq<char>, r: Seq<char>) -> bool {
    if utf8_len(s) <= SOURCE_CAP {
        r == s
    } else {
        exists|head: Seq<char>| #[trigger] longest_head(s, head) && r == head + CUT_NOTICE@
    }
}

proof fn lemma_encode_add(a: Seq<char>, b: Seq<char>)
    ensures
        encode_utf8(a + b) == encode_utf8(a) + encode_utf8(b),
    decreases a.len(),
{
    if a.len() == 0 {
        assert(a + b == b);
        assert(encode_utf8(a) + encode_utf8(b) == encode_utf8(b));
    } else {
        lemma_encode_add(a.drop_first(), b);
        assert((a + b).drop_first() == a.drop_first() + b);
        assert(encode_utf8(a + b) == encode_utf8(a) + encode_utf8(b));
    }
}

/// Where a character ends in the text, there is a boundary in its bytes.
proof fn lemma_boundary(s: Seq<char>, j: int)
    requires
        0 <= j <= s.len(),
    ensures
        is_char_boundary(encode_utf8(s), encode_utf8(s.take(j)).len() as int),
    decreases s.len(),
{
    encode_utf8_valid_utf8(s);
    if j == 0 {
        is_char_boundary_start_end_of_seq(encode_utf8(s));
    } else {
        let rest = s.drop_first();
        encode_utf8_first_scalar(s);
        assert(pop_first_scalar(encode_utf8(s)) =~= encode_utf8(rest));
        lemma_boundary(rest, j - 1);
        assert(s.take(j).drop_first() == rest.take(j - 1));
        assert(s.take(j)[0] == s[0]);
        lemma_encode_add(s.take(j), s.skip(j));
        assert(s.take(j) + s.skip(j) == s);
    }
}

/// Keep a captured source: one larger than the cap is cut off between two
/// characters, and says so.
pub fn capture_source(html: String) -> (r: String)
    ensures
        is_kept(html@, r@),
{
    let text = html.as_str();
    if byte_len(text) <= SOURCE_CAP {
        return html;
    }
    let ghost bytes = encode_utf8(html@);
    let mut cut: usize = SOURCE_CAP;
    proof {
        encode_utf8_valid_utf8(html@);
        is_char_boundary_start_end_of_seq(bytes);
    }
    while !text.is_char_boundary(cut)
        invariant
            cut <= SOURCE_CAP,
            bytes == encode_utf8(html@),
            text@ == html@,
            is_char_boundary(bytes, 0),
            forall|b: int| cut < b <= SOURCE_CAP ==> !#[trigger] is_char_boundary(bytes, b),
        decreases cut,
    {
        cut -= 1;
    }
    let (head, tail) = text.split_at(cut);
    proof {
        encode_utf8_decode_utf8(html@);
        encode_utf8_decode_utf8(head@);
        encode_utf8_decode_utf8(tail@);
        decode_utf8_split(bytes, cut as int);
        assert(html@ == head@ + tail@);
        let k = head@.len() as int;
        assert(html@.take(k) == head@);
        if k < html@.len() {
            lemma_boundary(html@, k + 1);
            lemma_encode_add(html@.take(k + 1), html@.skip(k + 1));
            assert(html@.take(k + 1) + html@.skip(k + 1) == html@);
            let c = html@[k];
            assert(html@.take(k + 1) == head@ + seq![c]);
            lemma_encode_add(head@, seq![c]);
            reveal_with_fuel(encode_utf8, 2);
            assert(encode_utf8(seq![c]).len() > 0);
        }
        assert(longest_head(html@, head@));
    }
    let mut kept = head.to_owned();
    kept.append(CUT_NOTICE);
    kept
}

/// The page whose source is to be captured: its webview and its address.
/// `None` where the active tab is asleep or there is none.
pub fn source_of(state: &BrowserState) -> (r: Option<(String, String)>)
    ensures
        match (r, state.active_tab_spec()) {
            (Some((label, url)), Some(t)) => !t.discarded && label@ == label_text(t.id) && url
                == t.url,
            (None, Some(t)) => t.discarded,
            (None, None) => true,
            (Some(_), None) => false,
        },
{
    match state.active_tab() {
        Some(t) => if t.discarded {
            None
        } else {
            Some((label_for(t.id), t.url.clone()))
        },
        None => None,
    }
}

/// Keep what was captured for the next source page to display.
pub fn view_source(state: &mut BrowserState, url: String, html: String)
    ensures
        final(state).pending_source matches Some(p) && p.0 == url && is_kept(html@, p.1@),
        *final(state) == (BrowserState {
            pending_source: final(state).pending_source,
            ..*old(state)
        }),
{
    let kept = capture_source(html);
    state.pending_source = Some((url, kept));
}

/// The captured (address, source), handed to the source page once.
pub fn take_view_source(state: &mut BrowserState) -> (r: Option<(String, String)>)
    ensures
        r == old(state).pending_source,
        *final(state) == (BrowserState { pending_source: None, ..*old(state) }),
{
    let taken = state.pending_source.take();
    taken
}

/// A source of at most 8388608 bytes is kept whole. Of a longer one as many
/// characters are kept, from its start, as fit in that many bytes, and the notice
/// follows.
pub proof fn law_long_sources_are_cut(s: Seq<char>, r: Seq<char>)
    requires
        is_kept(s, r),
    ensures
        utf8_len(s) <= 8388608 ==> r == s,
        utf8_len(s) > 8388608 ==> exists|k: int|
            0 <= k < s.len() && utf8_len(#[trigger] s.take(k)) <= 8388608 && utf8_len(
                s.take(k + 1),
            ) > 8388608 && r == s.take(k) + CUT_NOTICE@,
{
    if utf8_len(s) > 8388608 {
        let head = choose|head: Seq<char>| #[trigger]
            longest_head(s, head) && r == head + CUT_NOTICE@;
        assert(s.take(s.len() as int) =~= s);
        assert(s.take(head.len() as int) == head);
    }
}

} // verus!
