//! Internet addresses written as text, in the forms that
//! `std::net::IpAddr::from_str` reads.

use crate::number::{
    all_digits, digits, hex_digits, law_digits_are_how_a_number_is_written, only_digits, value,
    value_of,
};
use crate::text::{
    digit, is_digit, joined, law_join_undoes_split, law_split_undoes_join, lemma_joined_all, split,
    split_on, texts,
};
use vstd::prelude::*;
use vstd::slice::slice_subrange;

verus! {

/// One part of a dotted IPv4 address: up to three digits without a leading
/// zero, for a number below 256.
pub open spec fn is_octet(f: Seq<char>) -> bool {
    &&& 1 <= f.len() <= 3
    &&& all_digits(f)
    &&& (f.len() > 1 ==> f[0] != '0')
    &&& value(f) <= 255
}

pub open spec fn is_ipv4(s: Seq<char>) -> bool {
    let f = split(s, '.');
    f.len() == 4 && is_octet(f[0]) && is_octet(f[1]) && is_octet(f[2]) && is_octet(f[3])
}

pub open spec fn octet(s: Seq<char>, i: int) -> nat {
    value(split(s, '.')[i])
}

/// Loopback (127/8), private (10/8, 172.16/12, 192.168/16) and link-local
/// (169.254/16) addresses.
pub open spec fn is_local_ipv4(s: Seq<char>) -> bool {
    &&& is_ipv4(s)
    &&& {
        ||| octet(s, 0) == 127
        ||| octet(s, 0) == 10
        ||| octet(s, 0) == 172 && 16 <= octet(s, 1) <= 31
        ||| octet(s, 0) == 192 && octet(s, 1) == 168
        ||| octet(s, 0) == 169 && octet(s, 1) == 254
    }
}

pub open spec fn is_hex(c: char) -> bool {
    is_digit(c) || 'a' <= c <= 'f' || 'A' <= c <= 'F'
}

/// One group of an IPv6 address: one to four hexadecimal digits.
pub open spec fn is_group(f: Seq<char>) -> bool {
    1 <= f.len() <= 4 && forall|i: int| 0 <= i < f.len() ==> is_hex(#[trigger] f[i])
}

pub open spec fn all_groups(f: Seq<Seq<char>>) -> bool {
    forall|i: int| 0 <= i < f.len() ==> is_group(#[trigger] f[i])
}

/// How many 16-bit groups a run of colon-separated groups stands for; `None`
/// if it is no such run. Where `v4_tail` says so, the last part may be a
/// dotted IPv4 address, which stands for two.
pub open spec fn groups(s: Seq<char>, v4_tail: bool) -> Option<nat> {
    let f = split(s, ':');
    if s.len() == 0 {
        Some(0nat)
    } else if all_groups(f) {
        Some(f.len())
    } else if v4_tail && all_groups(f.drop_last()) && is_ipv4(f.last()) {
        Some(f.len() + 1)
    } else {
        None
    }
}

/// Index of the first double colon, or the length of `s`.
pub open spec fn gap(s: Seq<char>) -> nat
    decreases s.len(),
{
    if s.len() < 2 {
        s.len()
    } else if s[0] == ':' && s[1] == ':' {
        0
    } else {
        1 + gap(s.skip(1))
    }
}

/// Eight groups, or fewer than eight around one double colon.
pub open spec fn is_ipv6(s: Seq<char>) -> bool {
    let k = gap(s);
    if k >= s.len() {
        groups(s, true) == Some(8nat)
    } else {
        match (groups(s.take(k as int), false), groups(s.skip(k as int + 2), true)) {
            (Some(a), Some(b)) => a + b <= 7,
            _ => false,
        }
    }
}

pub open spec fn is_ip(s: Seq<char>) -> bool {
    is_ipv4(s) || is_ipv6(s)
}

/// The number of a hexadecimal digit.
pub open spec fn hex_digit(c: char) -> nat {
    if is_digit(c) {
        (c as u32 - '0' as u32) as nat
    } else if 'a' <= c <= 'f' {
        (c as u32 - 'a' as u32 + 10) as nat
    } else {
        (c as u32 - 'A' as u32 + 10) as nat
    }
}

/// The number that a row of hexadecimal digits stands for.
pub open spec fn hex_value(f: Seq<char>) -> nat
    decreases f.len(),
{
    if f.len() == 0 {
        0
    } else {
        hex_value(f.drop_last()) * 16 + hex_digit(f.last())
    }
}

/// The numbers of a run of colon-separated groups, where it is one (see
/// [`groups`]).
pub open spec fn words(s: Seq<char>) -> Seq<nat> {
    let f = split(s, ':');
    let value = |g: Seq<char>| hex_value(g);
    if s.len() == 0 {
        Seq::empty()
    } else if all_groups(f) {
        f.map_values(value)
    } else {
        let v4 = f.last();
        f.drop_last().map_values(value).push(octet(v4, 0) * 256 + octet(v4, 1)).push(
            octet(v4, 2) * 256 + octet(v4, 3),
        )
    }
}

/// The eight numbers of an IPv6 address: the double colon stands for as many
/// zeros as are missing.
pub open spec fn address(s: Seq<char>) -> Seq<nat> {
    let k = gap(s);
    if k >= s.len() {
        words(s)
    } else {
        let head = words(s.take(k as int));
        let tail = words(s.skip(k as int + 2));
        head + Seq::new((8 - head.len() - tail.len()) as nat, |i: int| 0nat) + tail
    }
}

/// The IPv6 loopback address, in any of its spellings.
pub open spec fn is_loopback_ipv6(s: Seq<char>) -> bool {
    is_ipv6(s) && address(s) == seq![0nat, 0, 0, 0, 0, 0, 0, 1]
}

/// The number of an octet.
fn octet_of(f: &[char]) -> (r: Option<usize>)
    ensures
        match r {
            Some(n) => is_octet(f@) && n == value(f@),
            None => !is_octet(f@),
        },
{
    if f.len() == 0 || f.len() > 3 || !only_digits(f) {
        return None;
    }
    if f.len() > 1 && f[0] == '0' {
        return None;
    }
    match value_of(f) {
        Some(n) => if n <= 255 {
            Some(n)
        } else {
            None
        },
        None => None,
    }
}

/// The four numbers of an IPv4 address.
pub fn parse_ipv4(s: &[char]) -> (r: Option<(usize, usize, usize, usize)>)
    ensures
        match r {
            Some(q) => is_ipv4(s@) && q.0 == octet(s@, 0) && q.1 == octet(s@, 1) && q.2 == octet(
                s@,
                2,
            ) && q.3 == octet(s@, 3),
            None => !is_ipv4(s@),
        },
{
    let f = split_on(s, '.');
    proof {
        assert(texts(f@).len() == f@.len());
        assert(forall|i: int| 0 <= i < f@.len() ==> texts(f@)[i] == (#[trigger] f@[i])@);
    }
    if f.len() != 4 {
        return None;
    }
    let a = octet_of(f[0].as_slice());
    let b = octet_of(f[1].as_slice());
    let c = octet_of(f[2].as_slice());
    let d = octet_of(f[3].as_slice());
    match (a, b, c, d) {
        (Some(a), Some(b), Some(c), Some(d)) => Some((a, b, c, d)),
        _ => None,
    }
}

/// Is the text a loopback, private or link-local IPv4 address?
pub fn local_ipv4(s: &[char]) -> (r: bool)
    ensures
        r == is_local_ipv4(s@),
{
    match parse_ipv4(s) {
        Some((a, b, _, _)) => a == 127 || a == 10 || (a == 172 && 16 <= b && b <= 31) || (a == 192
            && b == 168) || (a == 169 && b == 254),
        None => false,
    }
}

fn hex_of(c: char) -> (r: Option<usize>)
    ensures
        match r {
            Some(n) => is_hex(c) && n == hex_digit(c) && n < 16,
            None => !is_hex(c),
        },
{
    if digit(c) {
        Some((c as u32 - '0' as u32) as usize)
    } else if 'a' <= c && c <= 'f' {
        Some((c as u32 - 'a' as u32 + 10) as usize)
    } else if 'A' <= c && c <= 'F' {
        Some((c as u32 - 'A' as u32 + 10) as usize)
    } else {
        None
    }
}

/// The number of a group.
fn group_of(f: &[char]) -> (r: Option<usize>)
    ensures
        match r {
            Some(n) => is_group(f@) && n == hex_value(f@),
            None => !is_group(f@),
        },
{
    if f.len() == 0 || f.len() > 4 {
        return None;
    }
    let mut n: usize = 0;
    let mut i: usize = 0;
    assert(f@.take(0) =~= Seq::<char>::empty());
    while i < f.len()
        invariant
            i <= f@.len() <= 4,
            n == hex_value(f@.take(i as int)),
            i == 0 ==> n == 0,
            i == 1 ==> n <= 0xf,
            i == 2 ==> n <= 0xff,
            i == 3 ==> n <= 0xfff,
            i == 4 ==> n <= 0xffff,
            forall|j: int| 0 <= j < i ==> is_hex(#[trigger] f@[j]),
        decreases f@.len() - i,
    {
        assert(f@.take(i + 1).drop_last() == f@.take(i as int));
        match hex_of(f[i]) {
            Some(d) => {
                n = n * 16 + d;
            },
            None => {
                assert(!is_hex(f@[i as int]));
                return None;
            },
        }
        i += 1;
    }
    assert(f@.take(f@.len() as int) == f@);
    Some(n)
}

pub open spec fn numbers(v: Seq<usize>) -> Seq<nat> {
    v.map_values(|n: usize| n as nat)
}

/// The numbers of a run of groups, where they are no more than eight.
fn words_of(s: &[char], v4_tail: bool) -> (r: Option<Vec<usize>>)
    ensures
        match r {
            Some(v) => v@.len() <= 8 && groups(s@, v4_tail) == Some(v@.len()) && numbers(v@)
                == words(s@),
            None => groups(s@, v4_tail) is Some ==> groups(s@, v4_tail)->0 > 8,
        },
{
    let mut v: Vec<usize> = Vec::new();
    if s.len() == 0 {
        assert(numbers(v@) =~= words(s@));
        return Some(v);
    }
    let f = split_on(s, ':');
    let ghost t = texts(f@);
    proof {
        assert(t.len() == f@.len());
        assert(forall|i: int| 0 <= i < f@.len() ==> t[i] == (#[trigger] f@[i])@);
    }
    let n = f.len();
    if n > 8 {
        return None;
    }
    let mut i: usize = 0;
    while i < n - 1
        invariant
            n == f@.len(),
            0 < n <= 8,
            i <= n - 1,
            t.len() == n,
            t == split(s@, ':'),
            s@.len() > 0,
            forall|j: int| 0 <= j < n ==> t[j] == (#[trigger] f@[j])@,
            forall|j: int| 0 <= j < i ==> is_group(#[trigger] t[j]),
            v@.len() == i,
            forall|j: int| 0 <= j < i ==> #[trigger] v@[j] == hex_value(t[j]),
        decreases n - i,
    {
        match group_of(f[i].as_slice()) {
            Some(w) => v.push(w),
            None => {
                proof {
                    assert(!is_group(t[i as int]));
                    assert(!is_group(t.drop_last()[i as int]));
                }
                return None;
            },
        }
        i += 1;
    }
    proof {
        assert(t.last() == f@[n - 1]@);
        assert forall|j: int| 0 <= j < t.drop_last().len() implies is_group(
            #[trigger] t.drop_last()[j],
        ) by {
            assert(is_group(t[j]));
        }
    }
    match group_of(f[n - 1].as_slice()) {
        Some(w) => {
            v.push(w);
            assert(all_groups(t));
            assert(numbers(v@) =~= words(s@));
            Some(v)
        },
        None => {
            assert(!is_group(t[n - 1]));
            if !v4_tail || n == 8 {
                return None;
            }
            match parse_ipv4(f[n - 1].as_slice()) {
                Some((a, b, c, d)) => {
                    v.push(a * 256 + b);
                    v.push(c * 256 + d);
                    assert(numbers(v@) =~= words(s@));
                    Some(v)
                },
                None => None,
            }
        },
    }
}

fn find_gap(s: &[char]) -> (r: usize)
    ensures
        r == gap(s@),
        r + 2 <= s@.len() || r == s@.len(),
{
    let n = s.len();
    let mut i: usize = 0;
    assert(s@.skip(0) == s@);
    while n - i >= 2
        invariant
            n == s@.len(),
            i <= n,
            gap(s@) == i + gap(s@.skip(i as int)),
        decreases n - i,
    {
        if s[i] == ':' && s[i + 1] == ':' {
            return i;
        }
        assert(s@.skip(i as int).skip(1) == s@.skip(i + 1));
        i += 1;
    }
    n
}

/// The eight numbers of an IPv6 address.
pub fn parse_ipv6(s: &[char]) -> (r: Option<Vec<usize>>)
    ensures
        match r {
            Some(v) => is_ipv6(s@) && numbers(v@) == address(s@) && v@.len() == 8,
            None => !is_ipv6(s@),
        },
{
    let k = find_gap(s);
    if k >= s.len() {
        return match words_of(s, true) {
            Some(v) => if v.len() == 8 {
                Some(v)
            } else {
                None
            },
            None => None,
        };
    }
    let head = slice_subrange(s, 0, k);
    let tail = slice_subrange(s, k + 2, s.len());
    proof {
        assert(head@ == s@.take(k as int));
        assert(tail@ == s@.skip(k + 2));
    }
    match (words_of(head, false), words_of(tail, true)) {
        (Some(a), Some(b)) => {
            let na = a.len();
            let nb = b.len();
            if na > 7 || nb > 7 - na {
                return None;
            }
            let mut v: Vec<usize> = Vec::new();
            let mut i: usize = 0;
            while i < 8
                invariant
                    i <= 8,
                    na == a@.len(),
                    nb == b@.len(),
                    na + nb <= 7,
                    v@.len() == i,
                    forall|j: int|
                        0 <= j < i ==> #[trigger] v@[j] == (if j < na {
                            a@[j]
                        } else if j < 8 - nb {
                            0
                        } else {
                            b@[j - (8 - nb)]
                        }),
                decreases 8 - i,
            {
                let w = if i < na {
                    a[i]
                } else if i < 8 - nb {
                    0
                } else {
                    b[i - (8 - nb)]
                };
                v.push(w);
                i += 1;
            }
            proof {
                let (ha, hb) = (words(head@), words(tail@));
                assert(ha.len() == na && hb.len() == nb);
                assert forall|j: int| 0 <= j < 8 implies numbers(v@)[j] == #[trigger] address(
                    s@,
                )[j] by {
                    if j < na {
                        assert(numbers(a@)[j] == ha[j]);
                    } else if j >= 8 - nb {
                        assert(numbers(b@)[j - (8 - nb)] == hb[j - (8 - nb)]);
                    }
                }
                assert(numbers(v@) =~= address(s@));
            }
            Some(v)
        },
        _ => None,
    }
}

/// Is the text the IPv6 loopback address?
pub fn loopback_ipv6(s: &[char]) -> (r: bool)
    ensures
        r == is_loopback_ipv6(s@),
{
    match parse_ipv6(s) {
        Some(v) => {
            let ghost one = seq![0nat, 0, 0, 0, 0, 0, 0, 1];
            proof {
                assert(forall|j: int| 0 <= j < 8 ==> numbers(v@)[j] == #[trigger] v@[j]);
                if address(s@) == one {
                    assert(forall|j: int| 0 <= j < 8 ==> #[trigger] v@[j] == one[j]);
                }
            }
            let r = v[0] == 0 && v[1] == 0 && v[2] == 0 && v[3] == 0 && v[4] == 0 && v[5] == 0
                && v[6] == 0 && v[7] == 1;
            assert(r ==> numbers(v@) =~= one);
            r
        },
        None => false,
    }
}

/// Is the text an IPv4 or IPv6 address?
pub fn ip(s: &[char]) -> (r: bool)
    ensures
        r == is_ip(s@),
{
    parse_ipv4(s).is_some() || parse_ipv6(s).is_some()
}

// ---- laws ---------------------------------------------------------------

/// A dotted address is four numbers below 256, each written without leading
/// zeros, and nothing else.
pub proof fn law_dotted_addresses_are_four_numbers(s: Seq<char>)
    requires
        is_ipv4(s),
    ensures
        octet(s, 0) <= 255 && octet(s, 1) <= 255 && octet(s, 2) <= 255 && octet(s, 3) <= 255,
        split(s, '.') == seq![
            digits(octet(s, 0)),
            digits(octet(s, 1)),
            digits(octet(s, 2)),
            digits(octet(s, 3)),
        ],
{
    let f = split(s, '.');
    law_digits_are_how_a_number_is_written(f[0]);
    law_digits_are_how_a_number_is_written(f[1]);
    law_digits_are_how_a_number_is_written(f[2]);
    law_digits_are_how_a_number_is_written(f[3]);
    assert(f =~= seq![digits(value(f[0])), digits(value(f[1])), digits(value(f[2])), digits(value(f[3]))]);
}

/// The values of the hexadecimal digits: small letters and capitals alike stand
/// for ten to fifteen, and each digit counts sixteen times the one behind it.
pub proof fn law_hexadecimal_places(f: Seq<char>, c: char)
    ensures
        is_hex(c) <==> '0' <= c <= '9' || 'a' <= c <= 'f' || 'A' <= c <= 'F',
        '0' <= c <= '9' ==> hex_digit(c) == c as u32 - 48,
        'a' <= c <= 'f' ==> hex_digit(c) == c as u32 - 87,
        'A' <= c <= 'F' ==> hex_digit(c) == c as u32 - 55,
        hex_value(Seq::empty()) == 0,
        hex_value(f.push(c)) == hex_value(f) * 16 + hex_digit(c),
{
    assert(f.push(c).drop_last() =~= f);
}

spec fn sixteens(w: nat) -> nat
    decreases w,
{
    if w == 0 {
        1
    } else {
        16 * sixteens((w - 1) as nat)
    }
}

proof fn lemma_hex_digits(n: nat, w: nat)
    requires
        n < sixteens(w),
    ensures
        hex_digits(n, w).len() == w,
        hex_value(hex_digits(n, w)) == n,
    decreases w,
{
    if w > 0 {
        let v = (w - 1) as nat;
        assert(sixteens(w) == 16 * sixteens(v));
        assert(n / 16 < sixteens(v));
        lemma_hex_digits(n / 16, v);
        let s = hex_digits(n, w);
        assert(s.drop_last() =~= hex_digits(n / 16, v));
        let d = n % 16;
        assert(hex_digit(s.last()) == d);
        assert(n == (n / 16) * 16 + d);
    }
}

/// The sixteen hexadecimal digits of a number stand for that number.
pub proof fn law_hexadecimal_round_trip(n: u64)
    ensures
        hex_digits(n as nat, 16).len() == 16,
        hex_value(hex_digits(n as nat, 16)) == n,
{
    reveal_with_fuel(sixteens, 17);
    assert(sixteens(16) == 0x1_0000_0000_0000_0000nat);
    lemma_hex_digits(n as nat, 16);
}

proof fn lemma_fields_no_gap(ls: Seq<Seq<char>>)
    requires
        ls.len() > 0,
        forall|i: int| 0 <= i < ls.len() ==> (#[trigger] ls[i]).len() > 0 && !ls[i].contains(':'),
    ensures
        joined(ls, ':').len() > 0,
        joined(ls, ':').last() != ':',
        joined(ls, ':')[0] != ':',
        forall|k: int|
            0 <= k < joined(ls, ':').len() - 1 ==> !((#[trigger] joined(ls, ':')[k]) == ':'
                && joined(ls, ':')[k + 1] == ':'),
    decreases ls.len(),
{
    let s = joined(ls, ':');
    let l = ls[ls.len() - 1];
    assert(l.len() > 0 && !l.contains(':'));
    if ls.len() == 1 {
        assert(s == l);
    } else {
        let m = ls.drop_last();
        assert forall|i: int| 0 <= i < m.len() implies (#[trigger] m[i]).len() > 0
            && !m[i].contains(':') by {
            assert(m[i] == ls[i]);
        }
        lemma_fields_no_gap(m);
        let head = joined(m, ':');
        let n = head.len() as int;
        assert(s == head.push(':') + l);
        assert forall|k: int| 0 <= k < s.len() - 1 implies !((#[trigger] s[k]) == ':' && s[k + 1]
            == ':') by {
            if k + 1 < n {
                assert(s[k] == head[k] && s[k + 1] == head[k + 1]);
            } else if k + 1 == n {
                assert(s[k] == head[k]);
                assert(head[k] == head.last());
            } else {
                assert(s[k + 1] == l[k - n]);
            }
        }
        assert(s[0] == head[0]);
        assert(s.last() == l.last());
    }
}

proof fn lemma_group_is_field(f: Seq<char>)
    requires
        is_group(f),
    ensures
        f.len() > 0 && !f.contains(':'),
{
    if f.contains(':') {
        let k = choose|k: int| 0 <= k < f.len() && f[k] == ':';
        assert(is_hex(f[k]));
    }
}

proof fn lemma_groups_no_gap(ls: Seq<Seq<char>>)
    requires
        ls.len() > 0,
        forall|i: int| 0 <= i < ls.len() ==> is_group(#[trigger] ls[i]),
    ensures
        joined(ls, ':').len() > 0,
        joined(ls, ':').last() != ':',
        joined(ls, ':')[0] != ':',
        forall|k: int|
            0 <= k < joined(ls, ':').len() - 1 ==> !((#[trigger] joined(ls, ':')[k]) == ':'
                && joined(ls, ':')[k + 1] == ':'),
{
    assert forall|i: int| 0 <= i < ls.len() implies (#[trigger] ls[i]).len() > 0
        && !ls[i].contains(':') by {
        lemma_group_is_field(ls[i]);
    }
    lemma_fields_no_gap(ls);
}

proof fn lemma_gap_none(s: Seq<char>)
    requires
        forall|k: int| 0 <= k < s.len() - 1 ==> !((#[trigger] s[k]) == ':' && s[k + 1] == ':'),
    ensures
        gap(s) == s.len(),
    decreases s.len(),
{
    if s.len() >= 2 {
        let t = s.skip(1);
        assert(!(s[0] == ':' && s[1] == ':'));
        assert forall|k: int| 0 <= k < t.len() - 1 implies !((#[trigger] t[k]) == ':' && t[k + 1]
            == ':') by {
            assert(t[k] == s[k + 1]);
            assert(!(s[k + 1] == ':' && s[k + 1 + 1] == ':'));
        }
        lemma_gap_none(t);
    }
}

proof fn lemma_gap_first(s: Seq<char>, n: int)
    requires
        0 <= n,
        n + 1 < s.len(),
        s[n] == ':' && s[n + 1] == ':',
        forall|k: int| 0 <= k < n ==> !((#[trigger] s[k]) == ':' && s[k + 1] == ':'),
    ensures
        gap(s) == n,
    decreases n,
{
    if n > 0 {
        let t = s.skip(1);
        assert(!(s[0] == ':' && s[1] == ':'));
        assert forall|k: int| 0 <= k < n - 1 implies !((#[trigger] t[k]) == ':' && t[k + 1] == ':') by {
            assert(t[k] == s[k + 1]);
            assert(!(s[k + 1] == ':' && s[k + 1 + 1] == ':'));
        }
        lemma_gap_first(t, n - 1);
    }
}

proof fn lemma_groups_split(ls: Seq<Seq<char>>)
    requires
        ls.len() > 0,
        forall|i: int| 0 <= i < ls.len() ==> is_group(#[trigger] ls[i]),
    ensures
        split(joined(ls, ':'), ':') == ls,
{
    assert forall|i: int| 0 <= i < ls.len() implies !(#[trigger] ls[i]).contains(':') by {
        assert(is_group(ls[i]));
        if ls[i].contains(':') {
            let k = choose|k: int| 0 <= k < ls[i].len() && ls[i][k] == ':';
            assert(is_hex(ls[i][k]));
        }
    }
    law_split_undoes_join(ls, ':');
}

/// Groups of one to four hexadecimal digits with colons between them are an
/// address exactly where there are eight, and stand for their numbers.
pub proof fn law_eight_groups_make_an_address(ls: Seq<Seq<char>>)
    requires
        ls.len() > 0,
        forall|i: int| 0 <= i < ls.len() ==> is_group(#[trigger] ls[i]),
    ensures
        is_ipv6(joined(ls, ':')) <==> ls.len() == 8,
        forall|i: int|
            0 <= i < ls.len() ==> #[trigger] address(joined(ls, ':'))[i] == hex_value(ls[i]),
{
    lemma_groups_no_gap(ls);
    lemma_gap_none(joined(ls, ':'));
    lemma_groups_split(ls);
}

/// A double colon stands for the groups that are missing, all zero: up to seven
/// groups before and behind it, taken together, make an address.
pub proof fn law_a_double_colon_stands_for_zeros(a: Seq<Seq<char>>, b: Seq<Seq<char>>, i: int)
    requires
        a.len() > 0,
        b.len() > 0,
        forall|i: int| 0 <= i < a.len() ==> is_group(#[trigger] a[i]),
        forall|i: int| 0 <= i < b.len() ==> is_group(#[trigger] b[i]),
        0 <= i < 8,
    ensures
        is_ipv6(joined(a, ':') + seq![':', ':'] + joined(b, ':')) <==> a.len() + b.len() <= 7,
        a.len() + b.len() <= 7 ==> address(joined(a, ':') + seq![':', ':'] + joined(b, ':'))[i]
            == (if i < a.len() {
            hex_value(a[i])
        } else if i >= 8 - b.len() {
            hex_value(b[i - (8 - b.len())])
        } else {
            0
        }),
{
    let x = joined(a, ':');
    let y = joined(b, ':');
    let s = x + seq![':', ':'] + y;
    let n = x.len() as int;
    lemma_groups_no_gap(a);
    lemma_groups_no_gap(b);
    assert forall|k: int| 0 <= k < n implies !((#[trigger] s[k]) == ':' && s[k + 1] == ':') by {
        assert(s[k] == x[k]);
        if k + 1 < n {
            assert(s[k + 1] == x[k + 1]);
        } else {
            assert(x[k] == x.last());
        }
    }
    lemma_gap_first(s, n);
    assert(s.take(n) =~= x);
    assert(s.skip(n + 2) =~= y);
    lemma_groups_split(a);
    lemma_groups_split(b);
}

proof fn lemma_dotted_is_field(v: Seq<char>)
    requires
        is_ipv4(v),
    ensures
        v.len() > 0,
        !v.contains(':'),
        v.contains('.'),
{
    let f = split(v, '.');
    law_join_undoes_split(v, '.');
    let p = |c: char| is_digit(c);
    assert forall|i: int, k: int| 0 <= i < f.len() && 0 <= k < f[i].len() implies p(
        #[trigger] f[i][k],
    ) by {
        assert(is_octet(f[i]));
        assert(is_digit(f[i][k]));
    }
    lemma_joined_all(f, '.', p);
    if v.contains(':') {
        let k = choose|k: int| 0 <= k < v.len() && v[k] == ':';
        assert(p(v[k]) || v[k] == '.');
    }
}

/// A dotted address may stand for the last two groups: behind six others it makes
/// an address, and its four numbers are the bytes of those two.
pub proof fn law_a_dotted_tail_stands_for_two_groups(ls: Seq<Seq<char>>, v: Seq<char>)
    requires
        ls.len() > 0,
        forall|i: int| 0 <= i < ls.len() ==> is_group(#[trigger] ls[i]),
        is_ipv4(v),
    ensures
        is_ipv6(joined(ls.push(v), ':')) <==> ls.len() == 6,
        address(joined(ls.push(v), ':'))[ls.len() as int] == octet(v, 0) * 256 + octet(v, 1),
        address(joined(ls.push(v), ':'))[ls.len() as int + 1] == octet(v, 2) * 256 + octet(v, 3),
{
    let all = ls.push(v);
    let s = joined(all, ':');
    lemma_dotted_is_field(v);
    assert forall|i: int| 0 <= i < all.len() implies (#[trigger] all[i]).len() > 0
        && !all[i].contains(':') by {
        if i < ls.len() {
            assert(all[i] == ls[i]);
            lemma_group_is_field(ls[i]);
        }
    }
    lemma_fields_no_gap(all);
    lemma_gap_none(s);
    law_split_undoes_join(all, ':');
    assert(!is_group(v)) by {
        let k = choose|k: int| 0 <= k < v.len() && v[k] == '.';
        assert(!is_hex(v[k]));
    }
    assert(!is_group(all[ls.len() as int]));
    assert(!all_groups(all));
    assert(all.drop_last() =~= ls);
    assert(all_groups(ls));
}

} // verus!
