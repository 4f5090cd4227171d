//! Numbers written as text: decimal and hexadecimal digits, and back.

use crate::text::{digit, is_digit};
use vstd::prelude::*;

verus! {

pub open spec fn digit_char(d: nat) -> char {
    ((48 + d) as u8) as char
}

/// The decimal digits of `n`, without leading zeros.
pub open spec fn digits(n: nat) -> Seq<char>
    decreases n,
{
    if n < 10 {
        seq![digit_char(n)]
    } else {
        digits(n / 10).push(digit_char(n % 10))
    }
}

pub open spec fn hex_char(d: nat) -> char {
    if d < 10 {
        digit_char(d)
    } else {
        ((87 + d) as u8) as char
    }
}

/// The last `width` lower-case hexadecimal digits of `n`.
pub open spec fn hex_digits(n: nat, width: nat) -> Seq<char>
    decreases width,
{
    if width == 0 {
        Seq::empty()
    } else {
        hex_digits(n / 16, (width - 1) as nat).push(hex_char(n % 16))
    }
}

pub open spec fn all_digits(s: Seq<char>) -> bool {
    forall|i: int| 0 <= i < s.len() ==> is_digit(#[trigger] s[i])
}

/// The number that a row of decimal digits stands for.
pub open spec fn value(s: Seq<char>) -> nat
    decreases s.len(),
{
    if s.len() == 0 {
        0
    } else {
        value(s.drop_last()) * 10 + ((s.last() as u32 - '0' as u32) as nat)
    }
}

/// The text behind an optional plus sign.
pub open spec fn unsigned(s: Seq<char>) -> Seq<char> {
    if s.len() > 0 && s[0] == '+' {
        s.skip(1)
    } else {
        s
    }
}

/// What `str::parse::<usize>` accepts: an optional plus sign, then at least
/// one digit, for a number that fits.
pub open spec fn parsed(s: Seq<char>) -> Option<usize> {
    let d = unsigned(s);
    if d.len() > 0 && all_digits(d) && value(d) <= usize::MAX {
        Some(value(d) as usize)
    } else {
        None
    }
}

/// The decimal digits of a number.
pub fn decimal(n: u64) -> (r: String)
    ensures
        r@ == digits(n as nat),
    decreases n,
{
    if n < 10 {
        let mut s = String::new();
        s.push((48 + n as u8) as char);
        s
    } else {
        let mut s = decimal(n / 10);
        s.push((48 + (n % 10) as u8) as char);
        s
    }
}

fn hex_digit(d: u8) -> (r: char)
    requires
        d < 16,
    ensures
        r == hex_char(d as nat),
{
    if d < 10 {
        (48 + d) as char
    } else {
        (87 + d) as char
    }
}

/// The last `width` hexadecimal digits of `n`.
fn hex_of(n: u64, width: u8) -> (r: String)
    ensures
        r@ == hex_digits(n as nat, width as nat),
    decreases width,
{
    if width == 0 {
        String::new()
    } else {
        let mut s = hex_of(n / 16, width - 1);
        s.push(hex_digit((n % 16) as u8));
        s
    }
}

/// Sixteen hexadecimal digits, all that a 64-bit number has.
pub fn hex16(n: u64) -> (r: String)
    ensures
        r@ == hex_digits(n as nat, 16),
{
    hex_of(n, 16)
}

/// Are all characters digits?
pub fn only_digits(s: &[char]) -> (r: bool)
    ensures
        r == all_digits(s@),
{
    let mut i: usize = 0;
    while i < s.len()
        invariant
            i <= s@.len(),
            forall|j: int| 0 <= j < i ==> is_digit(#[trigger] s@[j]),
        decreases s@.len() - i,
    {
        if !digit(s[i]) {
            return false;
        }
        i += 1;
    }
    true
}

proof fn lemma_value_grows(s: Seq<char>, i: int)
    requires
        all_digits(s),
        0 <= i <= s.len(),
    ensures
        value(s.take(i)) <= value(s),
    decreases s.len(),
{
    if i < s.len() {
        assert(s.drop_last().take(i) == s.take(i));
        assert forall|j: int| 0 <= j < s.drop_last().len() implies is_digit(
            #[trigger] s.drop_last()[j],
        ) by {
            assert(s.drop_last()[j] == s[j]);
        }
        lemma_value_grows(s.drop_last(), i);
    } else {
        assert(s.take(i) == s);
    }
}

/// The number that a row of digits stands for, if it is a `usize`.
pub fn value_of(s: &[char]) -> (r: Option<usize>)
    requires
        all_digits(s@),
    ensures
        match r {
            Some(n) => n == value(s@),
            None => value(s@) > usize::MAX,
        },
{
    let mut n: usize = 0;
    let mut i: usize = 0;
    assert(s@.take(0) == Seq::<char>::empty());
    while i < s.len()
        invariant
            i <= s@.len(),
            all_digits(s@),
            n == value(s@.take(i as int)),
        decreases s@.len() - i,
    {
        let c = s[i];
        assert(is_digit(s@[i as int]));
        let d = (c as u32 - '0' as u32) as usize;
        proof {
            lemma_value_grows(s@, i + 1);
            assert(s@.take(i + 1).drop_last() == s@.take(i as int));
            assert(value(s@.take(i + 1)) == n * 10 + d);
        }
        match n.checked_mul(10) {
            Some(m) => match m.checked_add(d) {
                Some(next) => {
                    n = next;
                },
                None => {
                    return None;
                },
            },
            None => {
                return None;
            },
        }
        i += 1;
    }
    assert(s@.take(s@.len() as int) == s@);
    Some(n)
}

/// `str::parse::<usize>`, as an option.
pub fn parse_number(s: &[char]) -> (r: Option<usize>)
    ensures
        r == parsed(s@),
{
    let d = if s.len() > 0 && s[0] == '+' {
        let rest = vstd::slice::slice_subrange(s, 1, s.len());
        assert(rest@ == s@.skip(1));
        rest
    } else {
        s
    };
    if d.len() > 0 && only_digits(d) {
        value_of(d)
    } else {
        None
    }
}

pub proof fn lemma_digits(n: nat)
    ensures
        digits(n).len() > 0,
        all_digits(digits(n)),
        value(digits(n)) == n,
    decreases n,
{
    if n < 10 {
        let s = digits(n);
        assert(s.drop_last() == Seq::<char>::empty());
        assert(value(s.drop_last()) == 0);
    } else {
        lemma_digits(n / 10);
        let s = digits(n);
        assert(s.drop_last() == digits(n / 10));
        assert forall|i: int| 0 <= i < s.len() implies is_digit(#[trigger] s[i]) by {
            if i < s.len() - 1 {
                assert(s[i] == digits(n / 10)[i]);
            }
        }
    }
}

/// Reading back the decimal digits of a number gives the number.
pub proof fn law_decimal_round_trip(n: usize)
    ensures
        parsed(digits(n as nat)) == Some(n),
{
    lemma_digits(n as nat);
    let s = digits(n as nat);
    assert(is_digit(s[0]));
    assert(unsigned(s) == s);
}

/// Each decimal digit counts ten times the one behind it, a single digit stands
/// for itself, and writing a number gives its digits, the most significant first.
pub proof fn law_decimal_places(n: nat, d: nat, s: Seq<char>, c: char)
    requires
        d < 10,
    ensures
        digits(d) == seq![(48 + d) as u8 as char],
        n > 0 ==> digits(n * 10 + d) == digits(n) + digits(d),
        '0' <= c <= '9' ==> value(s.push(c)) == value(s) * 10 + (c as u32 - 48),
        value(Seq::empty()) == 0,
{
    assert(s.push(c).drop_last() =~= s);
    if n > 0 {
        assert((n * 10 + d) / 10 == n && (n * 10 + d) % 10 == d);
        assert(digits(n * 10 + d) =~= digits(n) + digits(d));
    }
}

/// A number is read from digits alone, with at most one plus sign before them:
/// nothing is read from an empty text or from one with any other character.
pub proof fn law_only_digits_are_read(s: Seq<char>, i: int)
    ensures
        parsed(Seq::empty()) is None,
        parsed(seq!['+']) is None,
        0 <= i < s.len() && !('0' <= s[i] <= '9') && s[i] != '+' ==> parsed(s) is None,
        0 < i < s.len() && s[i] == '+' ==> parsed(s) is None,
        s.len() > 0 && '0' <= s[0] <= '9' ==> parsed(seq!['+'] + s) == parsed(s),
        parsed(s) matches Some(n) ==> n == value(unsigned(s)),
{
    assert(seq!['+'].skip(1) =~= Seq::<char>::empty());
    assert((seq!['+'] + s).skip(1) =~= s);
    if 0 <= i < s.len() && !('0' <= s[i] <= '9') && (s[i] != '+' || i > 0) {
        let d = unsigned(s);
        if s[0] == '+' {
            assert(i > 0);
            assert(d[i - 1] == s[i]);
            assert(!is_digit(d[i - 1]));
        } else {
            assert(d[i] == s[i]);
            assert(!is_digit(d[i]));
        }
    }
}

/// Without a leading zero, a row of digits is how its number is written.
pub proof fn law_digits_are_how_a_number_is_written(s: Seq<char>)
    requires
        s.len() > 0,
        all_digits(s),
        s.len() > 1 ==> s[0] != '0',
    ensures
        digits(value(s)) == s,
        s.len() > 1 ==> value(s) >= 10,
    decreases s.len(),
{
    let init = s.drop_last();
    assert(is_digit(s[s.len() - 1]));
    let d = (s.last() as u32 - '0' as u32) as nat;
    if s.len() == 1 {
        assert(init =~= Seq::<char>::empty());
        assert(value(init) == 0);
        assert(value(s) == d);
        assert(digits(d) =~= s);
    } else {
        assert forall|i: int| 0 <= i < init.len() implies is_digit(#[trigger] init[i]) by {
            assert(init[i] == s[i]);
        }
        law_digits_are_how_a_number_is_written(init);
        if init.len() == 1 {
            assert(init.drop_last() =~= Seq::<char>::empty());
            assert(value(init.drop_last()) == 0);
            assert(is_digit(s[0]));
            assert(value(init) >= 1);
        }
        let n = value(init);
        assert(value(s) == n * 10 + d);
        assert((n * 10 + d) / 10 == n && (n * 10 + d) % 10 == d);
        assert(digits(value(s)) =~= s);
    }
}

} // verus!
