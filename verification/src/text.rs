//! Text as sequences of characters: the searching, splitting and trimming that
//! the rest of the library is written with.

use vstd::prelude::*;
use vstd::slice::slice_subrange;
use vstd::utf8::encode_utf8;

verus! {

/// `String::push` of the standard library: the character is appended at the
/// end and everything before it stays.
pub assume_specification[ String::push ](s: &mut String, c: char)
    ensures
        final(s)@ == old(s)@.push(c),
;

/// What `str::to_lowercase` of the standard library makes of a text.
pub uninterp spec fn lowercase(s: Seq<char>) -> Seq<char>;

/// `str::to_lowercase` of the standard library. The contract says that the
/// result depends on the text alone, and that in a text of ASCII characters
/// the capitals are mapped to their small letters and nothing else changes;
/// the Unicode tables behind the other characters are not spelled out.
#[verifier::external_body]
pub(crate) fn to_lowercase(s: &str) -> (r: String)
    ensures
        r@ == lowercase(s@),
        is_ascii_text(s@) ==> r@ == ascii_lower(s@),
{
    s.to_lowercase()
}

// ---- characters ---------------------------------------------------------

/// The characters with Unicode's `White_Space` property.
pub open spec fn is_space(c: char) -> bool {
    ||| '\u{9}' <= c <= '\u{d}'
    ||| c == ' '
    ||| c == '\u{85}'
    ||| c == '\u{a0}'
    ||| c == '\u{1680}'
    ||| '\u{2000}' <= c <= '\u{200a}'
    ||| c == '\u{2028}'
    ||| c == '\u{2029}'
    ||| c == '\u{202f}'
    ||| c == '\u{205f}'
    ||| c == '\u{3000}'
}

pub open spec fn is_digit(c: char) -> bool {
    '0' <= c <= '9'
}

pub open spec fn is_letter(c: char) -> bool {
    'a' <= c <= 'z' || 'A' <= c <= 'Z'
}

/// The lower-case form of an ASCII capital; any other character as it is.
pub open spec fn lower(c: char) -> char {
    if 'A' <= c <= 'Z' {
        ((c as u8) + 32) as u8 as char
    } else {
        c
    }
}

pub fn space(c: char) -> (r: bool)
    ensures
        r == is_space(c),
{
    ('\u{9}' <= c && c <= '\u{d}') || c == ' ' || c == '\u{85}' || c == '\u{a0}' || c == '\u{1680}'
        || ('\u{2000}' <= c && c <= '\u{200a}') || c == '\u{2028}' || c == '\u{2029}' || c
        == '\u{202f}' || c == '\u{205f}' || c == '\u{3000}'
}

pub fn digit(c: char) -> (r: bool)
    ensures
        r == is_digit(c),
{
    '0' <= c && c <= '9'
}

pub fn letter(c: char) -> (r: bool)
    ensures
        r == is_letter(c),
{
    ('a' <= c && c <= 'z') || ('A' <= c && c <= 'Z')
}

pub fn lower_char(c: char) -> (r: char)
    ensures
        r == lower(c),
{
    if 'A' <= c && c <= 'Z' {
        ((c as u8) + 32) as char
    } else {
        c
    }
}

// ---- whole texts --------------------------------------------------------

/// Length of a text in bytes of UTF-8.
pub open spec fn utf8_len(s: Seq<char>) -> nat {
    encode_utf8(s).len()
}

pub open spec fn is_ascii_text(s: Seq<char>) -> bool {
    forall|i: int| 0 <= i < s.len() ==> (#[trigger] s[i]) as u32 <= 127
}

pub open spec fn ascii_lower(s: Seq<char>) -> Seq<char> {
    s.map_values(|c: char| lower(c))
}

pub open spec fn has_prefix(s: Seq<char>, p: Seq<char>) -> bool {
    p.len() <= s.len() && s.take(p.len() as int) == p
}

pub open spec fn occurs_at(s: Seq<char>, p: Seq<char>, i: int) -> bool {
    0 <= i && i + p.len() <= s.len() && s.subrange(i, i + p.len()) == p
}

pub open spec fn has_part(s: Seq<char>, p: Seq<char>) -> bool {
    exists|i: int| #[trigger] occurs_at(s, p, i)
}

/// Index of the first character of `s` that is one of `seps`; the length of
/// `s` when there is none.
pub open spec fn first_of(s: Seq<char>, seps: Seq<char>) -> nat
    decreases s.len(),
{
    if s.len() == 0 {
        0
    } else if seps.contains(s[0]) {
        0
    } else {
        1 + first_of(s.skip(1), seps)
    }
}

/// The text before the first of `seps`.
pub open spec fn before(s: Seq<char>, seps: Seq<char>) -> Seq<char> {
    s.take(first_of(s, seps) as int)
}

/// Index of the last `c` in `s`, or -1.
pub open spec fn last_of(s: Seq<char>, c: char) -> int
    decreases s.len(),
{
    if s.len() == 0 {
        -1
    } else if s.last() == c {
        s.len() - 1
    } else {
        last_of(s.drop_last(), c)
    }
}

/// The fields of `s` between the `sep` characters; never empty.
pub open spec fn split(s: Seq<char>, sep: char) -> Seq<Seq<char>>
    decreases s.len(),
{
    if s.len() == 0 {
        seq![Seq::<char>::empty()]
    } else {
        grow(split(s.drop_last(), sep), s.last(), s.last() == sep)
    }
}

/// One more character at the end of the last field, or a new empty field.
pub open spec fn grow(fields: Seq<Seq<char>>, c: char, ends: bool) -> Seq<Seq<char>> {
    if ends {
        fields.push(Seq::<char>::empty())
    } else {
        fields.drop_last().push(fields.last().push(c))
    }
}

/// The fields of `s` between single white-space characters, empty ones too.
pub open spec fn runs(s: Seq<char>) -> Seq<Seq<char>>
    decreases s.len(),
{
    if s.len() == 0 {
        seq![Seq::<char>::empty()]
    } else {
        grow(runs(s.drop_last()), s.last(), is_space(s.last()))
    }
}

pub open spec fn not_blank(f: Seq<char>) -> bool {
    f.len() > 0
}

/// The maximal runs of `s` without white space.
pub open spec fn words(s: Seq<char>) -> Seq<Seq<char>> {
    runs(s).filter(|f: Seq<char>| not_blank(f))
}

pub open spec fn trim_front(s: Seq<char>) -> Seq<char>
    decreases s.len(),
{
    if s.len() > 0 && is_space(s[0]) {
        trim_front(s.skip(1))
    } else {
        s
    }
}

pub open spec fn trim_back(s: Seq<char>) -> Seq<char>
    decreases s.len(),
{
    if s.len() > 0 && is_space(s.last()) {
        trim_back(s.drop_last())
    } else {
        s
    }
}

/// `s` without white space at either end.
pub open spec fn trimmed(s: Seq<char>) -> Seq<char> {
    trim_back(trim_front(s))
}

/// `s` without the `c` characters that it starts with.
pub open spec fn trim_char(s: Seq<char>, c: char) -> Seq<char>
    decreases s.len(),
{
    if s.len() > 0 && s[0] == c {
        trim_char(s.skip(1), c)
    } else {
        s
    }
}

/// A line without the carriage return before its line feed.
pub open spec fn without_cr(line: Seq<char>) -> Seq<char> {
    if line.len() > 0 && line.last() == '\r' {
        line.drop_last()
    } else {
        line
    }
}

/// The lines of a text: what stands before each line feed, less a carriage
/// return there, and what stands after the last line feed unless it is empty.
pub open spec fn lines(s: Seq<char>) -> Seq<Seq<char>> {
    let fields = split(s, '\n');
    let ended = fields.drop_last().map_values(|f: Seq<char>| without_cr(f));
    if fields.last().len() == 0 {
        ended
    } else {
        ended.push(fields.last())
    }
}

/// The texts that a vector of character vectors stands for.
pub open spec fn texts(v: Seq<Vec<char>>) -> Seq<Seq<char>> {
    v.map_values(|x: Vec<char>| x@)
}

/// The texts that a vector of strings stands for.
pub open spec fn strings(v: Seq<String>) -> Seq<Seq<char>> {
    v.map_values(|x: String| x@)
}

// ---- conversions --------------------------------------------------------

pub fn chars_of(s: &str) -> (r: Vec<char>)
    ensures
        r@ == s@,
{
    let mut r: Vec<char> = Vec::new();
    for c in it: s.chars()
        invariant
            r@ == it.seq().take(it.index()),
            it.seq() == s@,
    {
        r.push(c);
        assert(it.seq().take(it.index() + 1) == it.seq().take(it.index()).push(c));
    }
    assert(s@.take(s@.len() as int) == s@);
    r
}

pub fn string_of(v: &[char]) -> (r: String)
    ensures
        r@ == v@,
{
    let mut r = String::new();
    let mut i: usize = 0;
    while i < v.len()
        invariant
            i <= v@.len(),
            r@ == v@.take(i as int),
        decreases v@.len() - i,
    {
        r.push(v[i]);
        proof {
            assert(v@.take(i + 1) == v@.take(i as int).push(v@[i as int]));
        }
        i += 1;
    }
    assert(v@.take(v@.len() as int) == v@);
    r
}

/// Byte length of a text.
pub fn byte_len(s: &str) -> (r: usize)
    ensures
        r == utf8_len(s@),
{
    s.as_bytes().len()
}

// ---- comparing and searching --------------------------------------------

pub fn same(a: &[char], b: &[char]) -> (r: bool)
    ensures
        r == (a@ == b@),
{
    if a.len() != b.len() {
        return false;
    }
    let mut i: usize = 0;
    while i < a.len()
        invariant
            i <= a@.len(),
            a@.len() == b@.len(),
            forall|j: int| 0 <= j < i ==> a@[j] == b@[j],
        decreases a@.len() - i,
    {
        if a[i] != b[i] {
            return false;
        }
        i += 1;
    }
    assert(a@ == b@);
    true
}

pub fn text_eq(a: &str, b: &str) -> (r: bool)
    ensures
        r == (a@ == b@),
{
    same(chars_of(a).as_slice(), chars_of(b).as_slice())
}

pub fn lower_text(s: &[char]) -> (r: Vec<char>)
    ensures
        r@ == ascii_lower(s@),
{
    let mut r: Vec<char> = Vec::new();
    let mut i: usize = 0;
    while i < s.len()
        invariant
            i <= s@.len(),
            r@ == ascii_lower(s@.take(i as int)),
        decreases s@.len() - i,
    {
        r.push(lower_char(s[i]));
        proof {
            assert(s@.take(i + 1) == s@.take(i as int).push(s@[i as int]));
            assert(ascii_lower(s@.take(i + 1)) == ascii_lower(s@.take(i as int)).push(
                lower(s@[i as int]),
            ));
        }
        i += 1;
    }
    assert(s@.take(s@.len() as int) == s@);
    r
}

/// Are the two texts equal but for the case of ASCII letters?
pub fn same_ignoring_case(a: &[char], b: &[char]) -> (r: bool)
    ensures
        r == (ascii_lower(a@) == ascii_lower(b@)),
{
    same(lower_text(a).as_slice(), lower_text(b).as_slice())
}

pub fn starts_with(s: &[char], p: &[char]) -> (r: bool)
    ensures
        r == has_prefix(s@, p@),
{
    p.len() <= s.len() && same(slice_subrange(s, 0, p.len()), p)
}

/// `str::starts_with` for a text and a literal.
pub fn begins(s: &str, p: &str) -> (r: bool)
    ensures
        r == has_prefix(s@, p@),
{
    starts_with(chars_of(s).as_slice(), chars_of(p).as_slice())
}

pub fn contains(s: &[char], p: &[char]) -> (r: bool)
    ensures
        r == has_part(s@, p@),
{
    if p.len() > s.len() {
        return false;
    }
    let n = s.len();
    let last = n - p.len();
    let mut i: usize = 0;
    while i <= last
        invariant
            i <= last + 1,
            n == s@.len(),
            last == n - p@.len(),
            forall|j: int| 0 <= j < i ==> !occurs_at(s@, p@, j),
        decreases last + 1 - i,
    {
        if same(slice_subrange(s, i, i + p.len()), p) {
            assert(occurs_at(s@, p@, i as int));
            return true;
        }
        if i == last {
            return false;
        }
        i += 1;
    }
    false
}

fn one_of(c: char, seps: &[char]) -> (r: bool)
    ensures
        r == seps@.contains(c),
{
    let mut i: usize = 0;
    while i < seps.len()
        invariant
            i <= seps@.len(),
            forall|j: int| 0 <= j < i ==> seps@[j] != c,
        decreases seps@.len() - i,
    {
        if seps[i] == c {
            return true;
        }
        i += 1;
    }
    false
}

/// Index of the first character that is one of `seps`, or the length.
pub fn find_first(s: &[char], seps: &[char]) -> (r: usize)
    ensures
        r == first_of(s@, seps@),
        r <= s@.len(),
{
    let mut i: usize = 0;
    proof {
        assert(s@.skip(0) == s@);
    }
    while i < s.len()
        invariant
            i <= s@.len(),
            first_of(s@, seps@) == i + first_of(s@.skip(i as int), seps@),
        decreases s@.len() - i,
    {
        if one_of(s[i], seps) {
            return i;
        }
        proof {
            assert(s@.skip(i as int).skip(1) == s@.skip(i + 1));
        }
        i += 1;
    }
    i
}

/// Index of the last `c`.
pub fn find_last(s: &[char], c: char) -> (r: Option<usize>)
    ensures
        match r {
            Some(i) => i < s@.len() && i == last_of(s@, c),
            None => last_of(s@, c) == -1,
        },
{
    let mut i: usize = s.len();
    proof {
        assert(s@.take(s@.len() as int) == s@);
    }
    while i > 0
        invariant
            i <= s@.len(),
            last_of(s@, c) == last_of(s@.take(i as int), c),
        decreases i,
    {
        if s[i - 1] == c {
            return Some(i - 1);
        }
        proof {
            assert(s@.take(i as int).drop_last() == s@.take(i - 1));
        }
        i -= 1;
    }
    None
}

/// Nothing before the first separator is one, and what stands there is.
pub proof fn lemma_first_of(s: Seq<char>, seps: Seq<char>)
    ensures
        first_of(s, seps) <= s.len(),
        forall|j: int| 0 <= j < first_of(s, seps) ==> !seps.contains(s[j]),
        first_of(s, seps) < s.len() ==> seps.contains(s[first_of(s, seps) as int]),
    decreases s.len(),
{
    if s.len() > 0 && !seps.contains(s[0]) {
        lemma_first_of(s.skip(1), seps);
        assert forall|j: int| 0 <= j < first_of(s, seps) implies !seps.contains(s[j]) by {
            if j > 0 {
                assert(s[j] == s.skip(1)[j - 1]);
            }
        }
    }
}

// ---- splitting and trimming ---------------------------------------------

proof fn lemma_split_nonempty(s: Seq<char>, sep: char)
    ensures
        split(s, sep).len() > 0,
    decreases s.len(),
{
    if s.len() > 0 {
        lemma_split_nonempty(s.drop_last(), sep);
    }
}

proof fn lemma_runs_nonempty(s: Seq<char>)
    ensures
        runs(s).len() > 0,
    decreases s.len(),
{
    if s.len() > 0 {
        lemma_runs_nonempty(s.drop_last());
    }
}

fn grow_fields(fields: &mut Vec<Vec<char>>, c: char, ends: bool)
    requires
        old(fields)@.len() > 0,
    ensures
        texts(final(fields)@) == grow(texts(old(fields)@), c, ends),
{
    if ends {
        fields.push(Vec::new());
    } else {
        match fields.pop() {
            Some(mut last) => {
                last.push(c);
                fields.push(last);
            },
            None => {},
        }
    }
    assert(texts(fields@) == grow(texts(old(fields)@), c, ends));
}

/// The fields of `s` between the `sep` characters.
pub fn split_on(s: &[char], sep: char) -> (r: Vec<Vec<char>>)
    ensures
        texts(r@) == split(s@, sep),
        r@.len() > 0,
{
    let mut r: Vec<Vec<char>> = Vec::new();
    r.push(Vec::new());
    assert(texts(r@) == split(s@.take(0), sep));
    let mut i: usize = 0;
    while i < s.len()
        invariant
            i <= s@.len(),
            texts(r@) == split(s@.take(i as int), sep),
        decreases s@.len() - i,
    {
        proof {
            lemma_split_nonempty(s@.take(i as int), sep);
            assert(s@.take(i + 1).drop_last() == s@.take(i as int));
            assert(texts(r@).len() == r@.len());
        }
        grow_fields(&mut r, s[i], s[i] == sep);
        i += 1;
    }
    proof {
        assert(s@.take(s@.len() as int) == s@);
        lemma_split_nonempty(s@, sep);
        assert(texts(r@).len() == r@.len());
    }
    r
}

/// The words of `s`, as `str::split_whitespace` gives them.
pub fn split_words(s: &[char]) -> (r: Vec<Vec<char>>)
    ensures
        texts(r@) == words(s@),
{
    let mut all: Vec<Vec<char>> = Vec::new();
    all.push(Vec::new());
    assert(texts(all@) == runs(s@.take(0)));
    let mut i: usize = 0;
    while i < s.len()
        invariant
            i <= s@.len(),
            texts(all@) == runs(s@.take(i as int)),
        decreases s@.len() - i,
    {
        proof {
            lemma_runs_nonempty(s@.take(i as int));
            assert(s@.take(i + 1).drop_last() == s@.take(i as int));
            assert(texts(all@).len() == all@.len());
        }
        grow_fields(&mut all, s[i], space(s[i]));
        i += 1;
    }
    assert(s@.take(s@.len() as int) == s@);
    let mut r: Vec<Vec<char>> = Vec::new();
    let mut k: usize = 0;
    let ghost pred = |f: Seq<char>| not_blank(f);
    proof {
        reveal(Seq::filter);
        assert(texts(r@) == texts(all@).take(0).filter(pred));
    }
    while k < all.len()
        invariant
            k <= all@.len(),
            pred == (|f: Seq<char>| not_blank(f)),
            texts(r@) == texts(all@).take(k as int).filter(pred),
        decreases all@.len() - k,
    {
        proof {
            reveal(Seq::filter);
            assert(texts(all@).take(k + 1).drop_last() == texts(all@).take(k as int));
            assert(texts(all@).take(k + 1).last() == all@[k as int]@);
        }
        if all[k].len() > 0 {
            let w = copy(all[k].as_slice());
            let ghost before_push = r@;
            r.push(w);
            assert(texts(r@) == texts(before_push).push(w@));
        }
        k += 1;
    }
    assert(texts(all@).take(all@.len() as int) == texts(all@));
    r
}

pub fn copy(s: &[char]) -> (r: Vec<char>)
    ensures
        r@ == s@,
{
    let mut r: Vec<char> = Vec::new();
    let mut i: usize = 0;
    while i < s.len()
        invariant
            i <= s@.len(),
            r@ == s@.take(i as int),
        decreases s@.len() - i,
    {
        r.push(s[i]);
        assert(s@.take(i + 1) == s@.take(i as int).push(s@[i as int]));
        i += 1;
    }
    assert(s@.take(s@.len() as int) == s@);
    r
}

/// `s` without white space at either end.
pub fn trim(s: &[char]) -> (r: &[char])
    ensures
        r@ == trimmed(s@),
{
    let mut i: usize = 0;
    proof {
        assert(s@.skip(0) == s@);
    }
    while i < s.len() && space(s[i])
        invariant
            i <= s@.len(),
            trim_front(s@) == trim_front(s@.skip(i as int)),
        decreases s@.len() - i,
    {
        assert(s@.skip(i as int).skip(1) == s@.skip(i + 1));
        i += 1;
    }
    let ghost front = s@.skip(i as int);
    let mut j: usize = s.len();
    proof {
        assert(s@.subrange(i as int, j as int) == front);
        assert(trim_front(s@) == front);
    }
    while j > i && space(s[j - 1])
        invariant
            i <= j <= s@.len(),
            trim_back(front) == trim_back(s@.subrange(i as int, j as int)),
        decreases j - i,
    {
        assert(s@.subrange(i as int, j as int).drop_last() == s@.subrange(i as int, j - 1));
        j -= 1;
    }
    slice_subrange(s, i, j)
}

/// `s` without the `c` characters that it starts with.
pub fn trim_leading(s: &[char], c: char) -> (r: &[char])
    ensures
        r@ == trim_char(s@, c),
{
    let mut i: usize = 0;
    proof {
        assert(s@.skip(0) == s@);
    }
    while i < s.len() && s[i] == c
        invariant
            i <= s@.len(),
            trim_char(s@, c) == trim_char(s@.skip(i as int), c),
        decreases s@.len() - i,
    {
        assert(s@.skip(i as int).skip(1) == s@.skip(i + 1));
        i += 1;
    }
    assert(s@.skip(i as int) == s@.subrange(i as int, s@.len() as int));
    slice_subrange(s, i, s.len())
}

/// Does `s` hold a white-space character?
pub fn any_space(s: &[char]) -> (r: bool)
    ensures
        r == exists|i: int| 0 <= i < s@.len() && is_space(#[trigger] s@[i]),
{
    let mut i: usize = 0;
    while i < s.len()
        invariant
            i <= s@.len(),
            forall|j: int| 0 <= j < i ==> !is_space(#[trigger] s@[j]),
        decreases s@.len() - i,
    {
        if space(s[i]) {
            return true;
        }
        i += 1;
    }
    false
}

/// The lines of a text, as `str::lines` gives them.
pub fn split_lines(s: &str) -> (r: Vec<String>)
    ensures
        strings(r@) == lines(s@),
{
    let fields = split_on(chars_of(s).as_slice(), '\n');
    let n = fields.len();
    let mut r: Vec<String> = Vec::new();
    let ghost ended = split(s@, '\n').drop_last().map_values(|f: Seq<char>| without_cr(f));
    let mut i: usize = 0;
    while i < n - 1
        invariant
            n == fields@.len(),
            n > 0,
            i <= n - 1,
            texts(fields@) == split(s@, '\n'),
            ended == split(s@, '\n').drop_last().map_values(|f: Seq<char>| without_cr(f)),
            strings(r@) == ended.take(i as int),
        decreases n - i,
    {
        let f = fields[i].as_slice();
        let k = f.len();
        let line = if k > 0 && f[k - 1] == '\r' {
            string_of(slice_subrange(f, 0, k - 1))
        } else {
            string_of(f)
        };
        proof {
            assert(texts(fields@)[i as int] == f@);
            assert(line@ == without_cr(f@));
            assert(ended.take(i + 1) == ended.take(i as int).push(line@));
        }
        let ghost before_push = r@;
        r.push(line);
        assert(strings(r@) == strings(before_push).push(line@));
        i += 1;
    }
    assert(ended.take(n - 1) == ended);
    proof {
        assert(texts(fields@).last() == fields@[n - 1]@);
    }
    if fields[n - 1].len() > 0 {
        let line = string_of(fields[n - 1].as_slice());
        let ghost before_push = r@;
        r.push(line);
        assert(strings(r@) == strings(before_push).push(line@));
    }
    r
}

// ---- laws ---------------------------------------------------------------

/// Text without a separator goes to the last field.
pub proof fn lemma_split_append(s: Seq<char>, l: Seq<char>, sep: char)
    requires
        !l.contains(sep),
    ensures
        split(s, sep).len() > 0,
        split(s + l, sep) == split(s, sep).drop_last().push(split(s, sep).last() + l),
    decreases l.len(),
{
    lemma_split_nonempty(s, sep);
    if l.len() == 0 {
        assert(s + l == s);
        assert(split(s, sep).last() + l == split(s, sep).last());
        assert(split(s, sep).drop_last().push(split(s, sep).last()) == split(s, sep));
    } else {
        let m = l.drop_last();
        assert(!m.contains(sep)) by {
            if m.contains(sep) {
                let i = choose|i: int| 0 <= i < m.len() && m[i] == sep;
                assert(l[i] == sep);
            }
        }
        lemma_split_append(s, m, sep);
        assert((s + l).drop_last() == s + m);
        assert((s + l).last() == l.last());
        assert(l[l.len() - 1] != sep);
        let f = split(s + m, sep);
        assert(f.drop_last() == split(s, sep).drop_last());
        assert((split(s, sep).last() + m).push(l.last()) == split(s, sep).last() + l);
    }
}

/// Some texts with `sep` between them.
pub open spec fn joined(ls: Seq<Seq<char>>, sep: char) -> Seq<char>
    decreases ls.len(),
{
    if ls.len() == 0 {
        Seq::empty()
    } else if ls.len() == 1 {
        ls[0]
    } else {
        joined(ls.drop_last(), sep).push(sep) + ls.last()
    }
}

/// Splitting undoes joining.
pub proof fn law_split_undoes_join(ls: Seq<Seq<char>>, sep: char)
    requires
        ls.len() > 0,
        forall|i: int| 0 <= i < ls.len() ==> !(#[trigger] ls[i]).contains(sep),
    ensures
        split(joined(ls, sep), sep) == ls,
    decreases ls.len(),
{
    let none = Seq::<char>::empty();
    if ls.len() == 1 {
        lemma_split_append(none, ls[0], sep);
        assert(split(none, sep) == seq![none]);
        assert(none + ls[0] =~= ls[0]);
        assert(seq![none].drop_last().push(ls[0]) =~= ls);
    } else {
        let m = ls.drop_last();
        assert forall|i: int| 0 <= i < m.len() implies !(#[trigger] m[i]).contains(sep) by {
            assert(m[i] == ls[i]);
        }
        law_split_undoes_join(m, sep);
        let head = joined(m, sep).push(sep);
        assert(head.drop_last() =~= joined(m, sep));
        assert(split(head, sep) == m.push(none));
        assert(!ls[ls.len() - 1].contains(sep));
        lemma_split_append(head, ls.last(), sep);
        assert(m.push(none).drop_last() =~= m);
        assert(none + ls.last() =~= ls.last());
        assert(m.push(ls.last()) =~= ls);
    }
}

proof fn lemma_trim_front(s: Seq<char>)
    ensures
        exists|i: int|
            0 <= i <= s.len() && trim_front(s) == #[trigger] s.skip(i) && (forall|j: int|
                0 <= j < i ==> is_space(#[trigger] s[j])) && (i < s.len() ==> !is_space(s[i])),
    decreases s.len(),
{
    if s.len() > 0 && is_space(s[0]) {
        let t = s.skip(1);
        lemma_trim_front(t);
        let i = choose|i: int|
            0 <= i <= t.len() && trim_front(t) == #[trigger] t.skip(i) && (forall|j: int|
                0 <= j < i ==> is_space(#[trigger] t[j])) && (i < t.len() ==> !is_space(t[i]));
        assert(s.skip(i + 1) =~= t.skip(i));
        assert forall|j: int| 0 <= j < i + 1 implies is_space(#[trigger] s[j]) by {
            if j > 0 {
                assert(t[j - 1] == s[j]);
            }
        }
    } else {
        assert(s.skip(0) =~= s);
    }
}

proof fn lemma_trim_back(s: Seq<char>)
    ensures
        exists|i: int|
            0 <= i <= s.len() && trim_back(s) == #[trigger] s.take(i) && (forall|j: int|
                i <= j < s.len() ==> is_space(#[trigger] s[j])) && (i > 0 ==> !is_space(s[i - 1])),
    decreases s.len(),
{
    if s.len() > 0 && is_space(s.last()) {
        let t = s.drop_last();
        lemma_trim_back(t);
        let i = choose|i: int|
            0 <= i <= t.len() && trim_back(t) == #[trigger] t.take(i) && (forall|j: int|
                i <= j < t.len() ==> is_space(#[trigger] t[j])) && (i > 0 ==> !is_space(t[i - 1]));
        assert(s.take(i) =~= t.take(i));
        assert forall|j: int| i <= j < s.len() implies is_space(#[trigger] s[j]) by {
            if j < t.len() {
                assert(t[j] == s[j]);
            }
        }
    } else {
        assert(s.take(s.len() as int) =~= s);
    }
}

/// Trimming takes away the white space at both ends, and nothing else.
pub proof fn law_trimming_takes_only_white_space(s: Seq<char>)
    ensures
        exists|i: int, j: int|
            0 <= i <= j <= s.len() && trimmed(s) == #[trigger] s.subrange(i, j) && (forall|k: int|
                0 <= k < i || j <= k < s.len() ==> is_space(#[trigger] s[k])),
        trimmed(s).len() > 0 ==> !is_space(trimmed(s)[0]) && !is_space(trimmed(s).last()),
{
    lemma_trim_front(s);
    let i = choose|i: int|
        0 <= i <= s.len() && trim_front(s) == #[trigger] s.skip(i) && (forall|j: int|
            0 <= j < i ==> is_space(#[trigger] s[j])) && (i < s.len() ==> !is_space(s[i]));
    let t = s.skip(i);
    lemma_trim_back(t);
    let n = choose|n: int|
        0 <= n <= t.len() && trim_back(t) == #[trigger] t.take(n) && (forall|j: int|
            n <= j < t.len() ==> is_space(#[trigger] t[j])) && (n > 0 ==> !is_space(t[n - 1]));
    assert(t.take(n) =~= s.subrange(i, i + n));
    assert forall|k: int| 0 <= k < i || i + n <= k < s.len() implies is_space(#[trigger] s[k]) by {
        if k >= i + n {
            assert(t[k - i] == s[k]);
        }
    }
    if n > 0 {
        assert(trimmed(s)[0] == s[i]);
        assert(trimmed(s).last() == t[n - 1]);
    }
}

/// Text without white space at its ends is left as it is.
pub proof fn lemma_trimmed_same(s: Seq<char>)
    requires
        s.len() > 0 ==> !is_space(s[0]) && !is_space(s.last()),
    ensures
        trimmed(s) == s,
{
}

proof fn lemma_runs_append(s: Seq<char>, l: Seq<char>)
    requires
        forall|i: int| 0 <= i < l.len() ==> !is_space(#[trigger] l[i]),
    ensures
        runs(s).len() > 0,
        runs(s + l) == runs(s).drop_last().push(runs(s).last() + l),
    decreases l.len(),
{
    lemma_runs_nonempty(s);
    if l.len() == 0 {
        assert(s + l == s);
        assert(runs(s).last() + l == runs(s).last());
        assert(runs(s).drop_last().push(runs(s).last()) == runs(s));
    } else {
        let m = l.drop_last();
        assert forall|i: int| 0 <= i < m.len() implies !is_space(#[trigger] m[i]) by {
            assert(m[i] == l[i]);
        }
        lemma_runs_append(s, m);
        assert((s + l).drop_last() == s + m);
        assert((s + l).last() == l.last());
        assert(!is_space(l[l.len() - 1]));
        let f = runs(s + m);
        assert(f.drop_last() == runs(s).drop_last());
        assert((runs(s).last() + m).push(l.last()) == runs(s).last() + l);
    }
}

/// A text, white space and a word without any: the words are those of the text
/// and that word. And the words of nothing are none.
pub proof fn law_white_space_parts_words(s: Seq<char>, space: char, word: Seq<char>)
    requires
        is_space(space),
        word.len() > 0,
        forall|i: int| 0 <= i < word.len() ==> !is_space(#[trigger] word[i]),
    ensures
        words(Seq::empty()).len() == 0,
        words(word) == seq![word],
        words(s.push(space)) == words(s),
        words(s.push(space) + word) == words(s).push(word),
{
    reveal(Seq::filter);
    let p = |f: Seq<char>| not_blank(f);
    let none = Seq::<char>::empty();
    assert(seq![none].drop_last() =~= Seq::<Seq<char>>::empty());
    assert(seq![none].drop_last().filter(p) =~= Seq::<Seq<char>>::empty());
    assert(runs(none) == seq![none]);
    assert(words(none) =~= Seq::<Seq<char>>::empty());
    lemma_runs_append(none, word);
    assert(none + word =~= word);
    assert(runs(word) =~= seq![word]);
    assert(seq![word].drop_last() =~= Seq::<Seq<char>>::empty());
    assert(words(word) =~= seq![word]);
    let t = s.push(space);
    assert(t.drop_last() =~= s);
    assert(runs(t) == runs(s).push(none));
    assert(runs(t).drop_last() =~= runs(s));
    assert(words(t) == words(s));
    lemma_runs_append(t, word);
    assert(runs(t + word) =~= runs(s).push(word));
    assert(runs(t + word).drop_last() =~= runs(s));
    assert(words(t + word) =~= words(s).push(word));
}

/// The letters and digits are those of ASCII, and a capital's small letter comes
/// thirty-two places after it; no other character changes.
pub proof fn law_ascii_letters_and_digits(c: char)
    ensures
        is_digit(c) <==> 48 <= c as u32 <= 57,
        is_letter(c) <==> 65 <= c as u32 <= 90 || 97 <= c as u32 <= 122,
        65 <= c as u32 <= 90 ==> lower(c) as u32 == c as u32 + 32,
        !(65 <= c as u32 <= 90) ==> lower(c) == c,
        lower(lower(c)) == lower(c),
{
}

/// White space is what Unicode says it is: the controls from tab to carriage
/// return, the space, the next-line control, and the spaces and separators beyond
/// ASCII.
pub proof fn law_white_space_of_unicode(c: char)
    ensures
        (c as u32) < 128 ==> (is_space(c) <==> 9 <= c as u32 <= 13 || c as u32 == 32),
        128 <= c as u32 && (c as u32) < 0x2000 ==> (is_space(c) <==> c as u32 == 0x85 || c as u32
            == 0xa0 || c as u32 == 0x1680),
        0x2000 <= c as u32 ==> (is_space(c) <==> c as u32 <= 0x200a || c as u32 == 0x2028 || c as u32
            == 0x2029 || c as u32 == 0x202f || c as u32 == 0x205f || c as u32 == 0x3000),
{
}

/// A carriage return before a line feed belongs to the line's end, not to the
/// line; one anywhere else stays.
pub proof fn law_carriage_returns_end_lines(s: Seq<char>)
    requires
        s.len() == 0 || s.last() != '\r',
    ensures
        lines(s + seq!['\r', '\n']) == lines(s + seq!['\n']),
        s.len() > 0 && s.last() != '\n' ==> lines(s.push('\r')) == lines(s).drop_last().push(
            lines(s).last().push('\r'),
        ),
        s.len() > 0 && s.last() != '\n' ==> lines(s + seq!['\n']) == lines(s),
        lines(Seq::empty()) == Seq::<Seq<char>>::empty(),
{
    let none = Seq::<char>::empty();
    let a = s + seq!['\r', '\n'];
    let b = s + seq!['\n'];
    let r = s.push('\r');
    assert(a.drop_last() =~= r);
    assert(b.drop_last() =~= s);
    assert(r.drop_last() =~= s);
    lemma_split_nonempty(s, '\n');
    lemma_last_field(s, '\n');
    let f = split(s, '\n');
    let cut = |x: Seq<char>| without_cr(x);
    assert(split(r, '\n') == f.drop_last().push(f.last().push('\r')));
    assert(split(a, '\n').drop_last() =~= split(r, '\n'));
    assert(split(b, '\n').drop_last() =~= f);
    assert(f.last().push('\r').drop_last() =~= f.last());
    assert(lines(a) =~= split(r, '\n').map_values(cut));
    assert(lines(b) =~= f.map_values(cut));
    assert(lines(a) =~= lines(b));
    assert(split(r, '\n').drop_last() =~= f.drop_last());
    assert(lines(none) =~= Seq::<Seq<char>>::empty());
    if s.len() > 0 && s.last() != '\n' {
        assert(lines(s) == f.drop_last().map_values(cut).push(f.last()));
        assert(lines(s).drop_last() =~= f.drop_last().map_values(cut));
        assert(lines(r) =~= f.drop_last().map_values(cut).push(f.last().push('\r')));
        assert(lines(b) =~= lines(s));
    }
}

/// The last field ends as the text does, unless a separator ends the text.
proof fn lemma_last_field(s: Seq<char>, sep: char)
    ensures
        split(s, sep).len() > 0,
        s.len() > 0 && s.last() != sep ==> split(s, sep).last().len() > 0 && split(
            s,
            sep,
        ).last().last() == s.last(),
        s.len() == 0 || s.last() == sep ==> split(s, sep).last().len() == 0,
{
    lemma_split_nonempty(s, sep);
}

/// Joining undoes splitting.
pub proof fn law_join_undoes_split(s: Seq<char>, sep: char)
    ensures
        joined(split(s, sep), sep) == s,
        forall|i: int|
            0 <= i < split(s, sep).len() ==> !(#[trigger] split(s, sep)[i]).contains(sep),
    decreases s.len(),
{
    let none = Seq::<char>::empty();
    if s.len() == 0 {
        assert(joined(seq![none], sep) =~= s);
    } else {
        let init = s.drop_last();
        law_join_undoes_split(init, sep);
        lemma_split_nonempty(init, sep);
        let f = split(init, sep);
        let g = split(s, sep);
        let c = s.last();
        assert(s =~= init.push(c));
        if c == sep {
            assert(g.drop_last() =~= f);
            assert(joined(g, sep) =~= joined(f, sep).push(sep));
            assert forall|i: int| 0 <= i < g.len() implies !(#[trigger] g[i]).contains(sep) by {
                if i < f.len() {
                    assert(g[i] == f[i]);
                }
            }
        } else {
            assert(g.drop_last() =~= f.drop_last());
            assert(joined(g, sep) =~= joined(f, sep).push(c));
            assert forall|i: int| 0 <= i < g.len() implies !(#[trigger] g[i]).contains(sep) by {
                if i < f.len() - 1 {
                    assert(g[i] == f[i]);
                } else {
                    let last = f[f.len() - 1];
                    assert(g[i] == last.push(c));
                    if g[i].contains(sep) {
                        let k = choose|k: int| 0 <= k < g[i].len() && g[i][k] == sep;
                        assert(last[k] == sep);
                    }
                }
            }
        }
    }
}

/// Every character of joined texts is the separator or one of theirs.
pub proof fn lemma_joined_all(ls: Seq<Seq<char>>, sep: char, p: spec_fn(char) -> bool)
    requires
        forall|i: int, k: int| 0 <= i < ls.len() && 0 <= k < ls[i].len() ==> p(#[trigger] ls[i][k]),
    ensures
        forall|k: int|
            0 <= k < joined(ls, sep).len() ==> p(#[trigger] joined(ls, sep)[k]) || joined(
                ls,
                sep,
            )[k] == sep,
        ls.len() >= 2 ==> joined(ls, sep).contains(sep),
    decreases ls.len(),
{
    let s = joined(ls, sep);
    if ls.len() == 1 {
        assert forall|k: int| 0 <= k < s.len() implies p(#[trigger] s[k]) || s[k] == sep by {
            assert(p(ls[0][k]));
        }
    } else if ls.len() >= 2 {
        let m = ls.drop_last();
        assert forall|i: int, k: int| 0 <= i < m.len() && 0 <= k < m[i].len() implies p(
            #[trigger] m[i][k],
        ) by {
            assert(p(ls[i][k]));
        }
        lemma_joined_all(m, sep, p);
        let head = joined(m, sep);
        assert(s[head.len() as int] == sep);
        assert forall|k: int| 0 <= k < s.len() implies p(#[trigger] s[k]) || s[k] == sep by {
            if k < head.len() {
                assert(s[k] == head[k]);
            } else if k > head.len() {
                assert(s[k] == ls[ls.len() - 1][k - head.len() - 1]);
                assert(p(ls[ls.len() - 1][k - head.len() - 1]));
            }
        }
    }
}


} // verus!
