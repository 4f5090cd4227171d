//! Find in page: the script that searches a page for a text, with the text
//! safely embedded.

use crate::number::hex_char;
use crate::text::{chars_of, string_of};
use crate::web::opt_text;
use vstd::prelude::*;

verus! {

// ---- JSON strings -------------------------------------------------------

/// How a character stands in a JSON string.
pub open spec fn json_char(c: char) -> Seq<char> {
    if c == '"' || c == '\\' {
        seq!['\\', c]
    } else if c == '\u{8}' {
        seq!['\\', 'b']
    } else if c == '\t' {
        seq!['\\', 't']
    } else if c == '\n' {
        seq!['\\', 'n']
    } else if c == '\u{c}' {
        seq!['\\', 'f']
    } else if c == '\r' {
        seq!['\\', 'r']
    } else if (c as u32) < 32 {
        seq!['\\', 'u', '0', '0', hex_char((c as nat) / 16), hex_char((c as nat) % 16)]
    } else {
        seq![c]
    }
}

pub open spec fn json_body(s: Seq<char>) -> Seq<char>
    decreases s.len(),
{
    if s.len() == 0 {
        Seq::empty()
    } else {
        json_char(s[0]) + json_body(s.skip(1))
    }
}

pub open spec fn quoted(body: Seq<char>) -> Seq<char> {
    seq!['"'] + body + seq!['"']
}

/// `serde_json::to_string` of the `serde_json` crate on a text. It does not
/// fail there, and gives the text between double quotes, with the quote, the
/// backslash and the control characters escaped and every other character as
/// it is.
#[verifier::external_body]
fn to_json(s: &str) -> (r: Option<String>)
    ensures
        opt_text(r) == Some(quoted(json_body(s@))),
{
    serde_json::to_string(s).ok()
}

// ---- script literals ----------------------------------------------------

/// Line separators that JSON leaves alone but that older scripts do not take
/// inside a literal.
pub open spec fn script_char(c: char) -> Seq<char> {
    if c == '\u{2028}' {
        seq!['\\', 'u', '2', '0', '2', '8']
    } else if c == '\u{2029}' {
        seq!['\\', 'u', '2', '0', '2', '9']
    } else {
        seq![c]
    }
}

pub open spec fn script_text(s: Seq<char>) -> Seq<char>
    decreases s.len(),
{
    if s.len() == 0 {
        Seq::empty()
    } else {
        script_char(s[0]) + script_text(s.skip(1))
    }
}

/// The query as a string literal of a script.
pub open spec fn literal(query: Seq<char>) -> Seq<char> {
    script_text(quoted(json_body(query)))
}

/// The script that finds `query`, forward or backward.
pub open spec fn find_script(query: Seq<char>, forward: bool) -> Seq<char> {
    "window.find("@ + literal(query) + ", false, "@ + (if forward {
        "false"@
    } else {
        "true"@
    }) + ", true, false, true, false)"@
}

proof fn lemma_script_add(a: Seq<char>, b: Seq<char>)
    ensures
        script_text(a + b) == script_text(a) + script_text(b),
    decreases a.len(),
{
    if a.len() == 0 {
        assert(a + b == b);
        assert(script_text(a) + script_text(b) == script_text(b));
    } else {
        lemma_script_add(a.skip(1), b);
        assert((a + b).skip(1) == a.skip(1) + b);
        assert(script_text(a + b) == script_text(a) + script_text(b));
    }
}

/// Escape the line separators in a text.
fn for_script(s: &[char]) -> (r: Vec<char>)
    ensures
        r@ == script_text(s@),
{
    let mut out: Vec<char> = Vec::new();
    let mut i: usize = 0;
    assert(out@ =~= script_text(s@.take(0)));
    while i < s.len()
        invariant
            i <= s@.len(),
            out@ == script_text(s@.take(i as int)),
        decreases s@.len() - i,
    {
        let c = s[i];
        let ghost before = out@;
        proof {
            assert(s@.take(i + 1) == s@.take(i as int) + seq![c]);
            lemma_script_add(s@.take(i as int), seq![c]);
            reveal_with_fuel(script_text, 2);
            assert(seq![c].skip(1) == Seq::<char>::empty());
            assert(script_text(seq![c]) == script_char(c));
        }
        if c == '\u{2028}' || c == '\u{2029}' {
            out.push('\\');
            out.push('u');
            out.push('2');
            out.push('0');
            out.push('2');
            if c == '\u{2028}' {
                out.push('8');
            } else {
                out.push('9');
            }
        } else {
            out.push(c);
        }
        assert(out@ =~= before + script_char(c));
        i += 1;
    }
    assert(s@.take(s@.len() as int) == s@);
    out
}

/// JS for `window.find` with `query` safely embedded.
pub fn find_js(query: &str, forward: bool) -> (r: String)
    ensures
        r@ == find_script(query@, forward),
{
    let json = match to_json(query) {
        Some(t) => t,
        None => "\"\"".to_owned(),
    };
    let chars = chars_of(json.as_str());
    let safe = string_of(for_script(chars.as_slice()).as_slice());
    let mut js = "window.find(".to_owned();
    js.append(safe.as_str());
    js.append(", false, ");
    js.append(
        if forward {
            "false"
        } else {
            "true"
        },
    );
    js.append(", true, false, true, false)");
    js
}

// ---- what the page reads ------------------------------------------------

/// The digit that a character stands for in hexadecimal.
pub open spec fn hex_value(c: char) -> Option<nat> {
    if '0' <= c <= '9' {
        Some((c as nat - 48) as nat)
    } else if 'a' <= c <= 'f' {
        Some((c as nat - 87) as nat)
    } else {
        None
    }
}

/// The character of a four-digit escape.
pub open spec fn code_unit(s: Seq<char>) -> Option<char> {
    match (hex_value(s[0]), hex_value(s[1]), hex_value(s[2]), hex_value(s[3])) {
        (Some(a), Some(b), Some(c), Some(d)) => Some(
            ((a * 4096 + b * 256 + c * 16 + d) as u32) as char,
        ),
        _ => None,
    }
}

/// The character of a one-letter escape.
pub open spec fn simple_escape(c: char) -> Option<char> {
    if c == '"' || c == '\\' {
        Some(c)
    } else if c == 'b' {
        Some('\u{8}')
    } else if c == 't' {
        Some('\t')
    } else if c == 'n' {
        Some('\n')
    } else if c == 'f' {
        Some('\u{c}')
    } else if c == 'r' {
        Some('\r')
    } else {
        None
    }
}

/// Characters that end a line of a script, and so may not stand in a literal.
pub open spec fn ends_line(c: char) -> bool {
    c == '\n' || c == '\r' || c == '\u{2028}' || c == '\u{2029}'
}

/// What a script reads from a string literal whose opening quote stands just
/// before `s`: the text, if `s` is that literal and nothing more.
pub open spec fn read_literal(s: Seq<char>) -> Option<Seq<char>>
    decreases s.len(),
{
    if s.len() == 0 || ends_line(s[0]) {
        None
    } else if s[0] == '"' {
        if s.len() == 1 {
            Some(Seq::empty())
        } else {
            None
        }
    } else if s[0] == '\\' {
        if s.len() >= 6 && s[1] == 'u' {
            match (code_unit(s.subrange(2, 6)), read_literal(s.skip(6))) {
                (Some(c), Some(rest)) => Some(seq![c] + rest),
                _ => None,
            }
        } else if s.len() >= 2 {
            match (simple_escape(s[1]), read_literal(s.skip(2))) {
                (Some(c), Some(rest)) => Some(seq![c] + rest),
                _ => None,
            }
        } else {
            None
        }
    } else {
        match read_literal(s.skip(1)) {
            Some(rest) => Some(seq![s[0]] + rest),
            None => None,
        }
    }
}

/// How a character of the query stands in the literal.
pub open spec fn literal_char(c: char) -> Seq<char> {
    script_text(json_char(c))
}

proof fn lemma_literal_char(c: char)
    ensures
        literal_char(c) == (if c == '\u{2028}' || c == '\u{2029}' {
            script_char(c)
        } else {
            json_char(c)
        }),
{
    reveal_with_fuel(script_text, 7);
    let j = json_char(c);
    if c == '"' || c == '\\' || c == '\u{8}' || c == '\t' || c == '\n' || c == '\u{c}' || c == '\r' {
        assert(j.skip(1).skip(1) =~= Seq::<char>::empty());
        assert(script_text(j) =~= j);
    } else if (c as u32) < 32 {
        assert(hex_char((c as nat) / 16) != '\u{2028}' && hex_char((c as nat) / 16) != '\u{2029}');
        assert(hex_char((c as nat) % 16) != '\u{2028}' && hex_char((c as nat) % 16) != '\u{2029}');
        assert(j.skip(1)[0] == 'u');
        assert(j.skip(1).skip(1)[0] == '0');
        assert(j.skip(1).skip(1).skip(1)[0] == '0');
        assert(j.skip(1).skip(1).skip(1).skip(1)[0] == hex_char((c as nat) / 16));
        assert(j.skip(1).skip(1).skip(1).skip(1).skip(1)[0] == hex_char((c as nat) % 16));
        assert(j.skip(1).skip(1).skip(1).skip(1).skip(1).skip(1) =~= Seq::<char>::empty());
        assert(script_text(j) =~= j);
    } else {
        assert(j.skip(1) =~= Seq::<char>::empty());
        assert(script_text(j) =~= script_char(c));
    }
}

/// The literal's text behind its opening quote.
pub open spec fn closed_body(query: Seq<char>) -> Seq<char> {
    script_text(json_body(query)).push('"')
}

proof fn lemma_literal(query: Seq<char>)
    ensures
        literal(query) == seq!['"'] + closed_body(query),
{
    reveal_with_fuel(script_text, 2);
    let q = seq!['"'];
    assert(q.skip(1) =~= Seq::<char>::empty());
    assert(script_text(q) =~= q);
    assert(quoted(json_body(query)) == q + (json_body(query) + q));
    lemma_script_add(q, json_body(query) + q);
    lemma_script_add(json_body(query), q);
    assert(literal(query) =~= q + closed_body(query));
}

/// Nothing in the query can break out of the literal: a script reads back
/// exactly the query, and the literal ends where its text ends.
pub proof fn law_query_stays_inside(query: Seq<char>)
    ensures
        literal(query)[0] == '"',
        read_literal(literal(query).skip(1)) == Some(query),
    decreases query.len(),
{
    lemma_literal(query);
    assert(literal(query).skip(1) =~= closed_body(query));
    if query.len() == 0 {
        reveal_with_fuel(script_text, 1);
        assert(closed_body(query) =~= seq!['"']);
        assert(read_literal(closed_body(query)) == Some(Seq::<char>::empty()));
        assert(query =~= Seq::<char>::empty());
    } else {
        let c = query[0];
        let rest = query.skip(1);
        law_query_stays_inside(rest);
        lemma_literal(rest);
        assert(literal(rest).skip(1) =~= closed_body(rest));
        lemma_script_add(json_char(c), json_body(rest));
        lemma_literal_char(c);
        lemma_read_char(c, closed_body(rest));
        assert(closed_body(query) =~= literal_char(c) + closed_body(rest));
        assert(seq![c] + rest =~= query);
    }
}

/// A script reads one character of the query from its place in the literal.
proof fn lemma_read_char(c: char, tail: Seq<char>)
    requires
        read_literal(tail) is Some,
    ensures
        read_literal(literal_char(c) + tail) == Some(seq![c] + read_literal(tail)->Some_0),
{
    lemma_literal_char(c);
    let e = literal_char(c);
    let s = e + tail;
    assert(s.skip(e.len() as int) =~= tail);
    if c == '"' || c == '\\' || c == '\u{8}' || c == '\t' || c == '\n' || c == '\u{c}' || c == '\r' {
        assert(s[0] == '\\' && s[1] == e[1]);
        assert(simple_escape(s[1]) == Some(c));
        assert(s[1] != 'u');
    } else if (c as u32) < 32 {
        lemma_read_code(s, tail, c);
    } else if c == '\u{2028}' || c == '\u{2029}' {
        lemma_read_code(s, tail, c);
    } else {
        assert(s[0] == c);
    }
}

proof fn lemma_read_code(s: Seq<char>, tail: Seq<char>, c: char)
    requires
        s == json_char(c) + tail && (c as u32) < 32 && json_char(c).len() == 6 || s == script_char(
            c,
        ) + tail && (c == '\u{2028}' || c == '\u{2029}'),
        read_literal(tail) is Some,
    ensures
        read_literal(s) == Some(seq![c] + read_literal(tail)->Some_0),
{
    assert(s.len() == 6 + tail.len());
    assert(s.skip(6) =~= tail);
    assert(s[0] == '\\' && s[1] == 'u');
    let four = s.subrange(2, 6);
    if (c as u32) < 32 {
        assert(four[0] == '0' && four[1] == '0' && four[2] == hex_char((c as nat) / 16) && four[3]
            == hex_char((c as nat) % 16));
        lemma_hex((c as nat) / 16);
        lemma_hex((c as nat) % 16);
    } else {
        assert(four[0] == '2' && four[1] == '0' && four[2] == '2' && four[3] == script_char(c)[5]);
    }
    assert(code_unit(four) == Some(c));
}

proof fn lemma_hex(d: nat)
    requires
        d < 16,
    ensures
        hex_value(hex_char(d)) == Some(d),
{
}

/// A search goes on from the end of the page to its start, ignores case, finds
/// parts of words and looks into frames; only its direction varies.
pub proof fn law_searches_go_either_way(query: Seq<char>)
    ensures
        find_script(query, true) == "window.find("@ + literal(query)
            + ", false, false, true, false, true, false)"@,
        find_script(query, false) == "window.find("@ + literal(query)
            + ", false, true, true, false, true, false)"@,
{
    reveal_strlit(", false, ");
    reveal_strlit("false");
    reveal_strlit("true");
    reveal_strlit(", true, false, true, false)");
    reveal_strlit(", false, false, true, false, true, false)");
    reveal_strlit(", false, true, true, false, true, false)");
    assert(", false, "@ + "false"@ + ", true, false, true, false)"@
        =~= ", false, false, true, false, true, false)"@);
    assert(", false, "@ + "true"@ + ", true, false, true, false)"@
        =~= ", false, true, true, false, true, false)"@);
    assert(find_script(query, true) =~= "window.find("@ + literal(query) + (", false, "@ + "false"@
        + ", true, false, true, false)"@));
    assert(find_script(query, false) =~= "window.find("@ + literal(query) + (", false, "@ + "true"@
        + ", true, false, true, false)"@));
}

} // verus!
