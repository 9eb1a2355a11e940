//! Decimal numbers as text: writing, reading and rounding.

use vstd::prelude::*;
use vstd::string::*;

use crate::text::texts;

verus! {

/// The character of a decimal digit.
pub open spec fn digit_char(d: int) -> char {
    (48 + d) as char
}

/// A natural number in decimal, without leading zeros.
pub open spec fn dec(n: nat) -> Seq<char>
    decreases n,
{
    if n < 10 {
        seq![digit_char(n as int)]
    } else {
        dec(n / 10).push(digit_char((n % 10) as int))
    }
}

/// An integer in decimal, with a minus sign where it is negative.
pub open spec fn dec_int(i: int) -> Seq<char> {
    if i < 0 {
        seq!['-'] + dec((-i) as nat)
    } else {
        dec(i as nat)
    }
}

/// The character of a digit.
pub fn digit(d: u8) -> (c: char)
    requires
        d < 10,
    ensures
        c == digit_char(d as int),
{
    (48 + d) as char
}

/// Appends a number in decimal.
pub fn push_dec(s: &mut String, n: u64)
    ensures
        final(s)@ == old(s)@ + dec(n as nat),
    decreases n,
{
    let ghost start = s@;
    if n >= 10 {
        push_dec(s, n / 10);
    }
    s.push(digit((n % 10) as u8));
    assert(s@ =~= start + dec(n as nat));
}

/// Appends a number of up to 128 bits in decimal.
pub fn push_wide(s: &mut String, n: u128)
    ensures
        final(s)@ == old(s)@ + dec(n as nat),
    decreases n,
{
    let ghost start = s@;
    if n >= 10 {
        push_wide(s, n / 10);
    }
    s.push(digit((n % 10) as u8));
    assert(s@ =~= start + dec(n as nat));
}

/// Appends an integer in decimal.
pub fn push_int(s: &mut String, i: i64)
    ensures
        final(s)@ == old(s)@ + dec_int(i as int),
{
    let ghost start = s@;
    if i < 0 {
        s.push('-');
        let n: u64 = if i == i64::MIN {
            0x8000_0000_0000_0000
        } else {
            (-i) as u64
        };
        push_dec(s, n);
        assert(s@ =~= start + dec_int(i as int));
    } else {
        push_dec(s, i as u64);
    }
}

/// A number in decimal.
pub fn decimal(n: u64) -> (s: String)
    ensures
        s@ == dec(n as nat),
{
    let mut s = String::new();
    push_dec(&mut s, n);
    assert(s@ =~= dec(n as nat));
    s
}

/// An integer in decimal.
pub fn decimal_int(i: i64) -> (s: String)
    ensures
        s@ == dec_int(i as int),
{
    let mut s = String::new();
    push_int(&mut s, i);
    assert(s@ =~= dec_int(i as int));
    s
}

/// Numbers in decimal.
pub open spec fn decs(s: Seq<u32>) -> Seq<Seq<char>> {
    Seq::new(s.len(), |i: int| dec(s[i] as nat))
}

/// Numbers in decimal.
pub fn decimals(s: &Vec<u32>) -> (r: Vec<String>)
    ensures
        texts(r@) == decs(s@),
{
    let mut r: Vec<String> = Vec::new();
    let mut i: usize = 0;
    while i < s.len()
        invariant
            i <= s.len(),
            r.len() == i,
            forall|k: int| 0 <= k < i ==> #[trigger] r[k]@ == dec(s[k] as nat),
        decreases s.len() - i,
    {
        r.push(decimal(s[i] as u64));
        i += 1;
    }
    assert(texts(r@) =~= decs(s@));
    r
}

// ── Reading ──────────────────────────────────────────────────────────────────

/// A decimal digit.
pub open spec fn is_digit(c: char) -> bool {
    '0' <= c <= '9'
}

/// Only digits.
pub open spec fn all_digits(s: Seq<char>) -> bool {
    forall|i: int| 0 <= i < s.len() ==> is_digit(#[trigger] s[i])
}

/// The number that a run of digits stands for.
pub open spec fn digits_value(s: Seq<char>) -> nat
    decreases s.len(),
{
    if s.len() == 0 {
        0
    } else {
        digits_value(s.drop_last()) * 10 + (s.last() as int - 48) as nat
    }
}

/// Digits, at least one of them, that stand for at most `max`.
pub open spec fn parse_digits(s: Seq<char>, max: nat) -> Option<nat> {
    if s.len() > 0 && all_digits(s) && digits_value(s) <= max {
        Some(digits_value(s))
    } else {
        None
    }
}

/// A natural number: digits, with a plus sign before them allowed.
pub open spec fn parse_nat(s: Seq<char>, max: nat) -> Option<nat> {
    if s.len() > 0 && s[0] == '+' {
        parse_digits(s.drop_first(), max)
    } else {
        parse_digits(s, max)
    }
}

/// An integer from `-max - 1` to `max`: digits, with a sign before them allowed.
pub open spec fn parse_int(s: Seq<char>, max: nat) -> Option<int> {
    if s.len() > 0 && s[0] == '-' {
        match parse_digits(s.drop_first(), max + 1) {
            Some(n) => Some(-(n as int)),
            None => None,
        }
    } else {
        match parse_nat(s, max) {
            Some(n) => Some(n as int),
            None => None,
        }
    }
}

/// The value of a digit.
fn digit_value(c: char) -> (r: Option<u64>)
    ensures
        match r {
            Some(d) => is_digit(c) && d as int == c as int - 48 && d < 10,
            None => !is_digit(c),
        },
{
    let n: u32 = c as u32;
    if 48 <= n && n <= 57 {
        Some((n - 48) as u64)
    } else {
        None
    }
}

/// Reads the digits from position `from` on.
fn read_digits_from(s: &[char], from: usize, max: u64) -> (r: Option<u64>)
    requires
        from <= s.len(),
    ensures
        match r {
            Some(n) => parse_digits(s@.skip(from as int), max as nat) == Some(n as nat),
            None => parse_digits(s@.skip(from as int), max as nat) is None,
        },
{
    let ghost t = s@.skip(from as int);
    if from == s.len() {
        return None;
    }
    let mut i: usize = from;
    let mut value: u64 = 0;
    let mut over: bool = false;
    assert(t.take(0) =~= Seq::<char>::empty());
    while i < s.len()
        invariant
            from <= i <= s.len(),
            t == s@.skip(from as int),
            all_digits(t.take(i - from)),
            over ==> digits_value(t.take(i - from)) > max,
            !over ==> value as nat == digits_value(t.take(i - from)) && value <= max,
        decreases s.len() - i,
    {
        let ghost k = i - from;
        assert(t.take(k + 1).drop_last() =~= t.take(k));
        assert(t.take(k + 1).last() == s@[i as int]);
        match digit_value(s[i]) {
            None => {
                assert(t[k] == s@[i as int]);
                return None;
            },
            Some(d) => {
                assert forall|j: int| 0 <= j < k + 1 implies is_digit(#[trigger] t.take(k + 1)[j]) by {
                    if j < k {
                        assert(t.take(k + 1)[j] == t.take(k)[j]);
                    }
                }
                if !over {
                    if value > max / 10 || d > max - value * 10 {
                        over = true;
                    } else {
                        value = value * 10 + d;
                    }
                }
            },
        }
        i += 1;
    }
    assert(t.take(t.len() as int) =~= t);
    if over {
        None
    } else {
        Some(value)
    }
}

/// Reads a natural number of at most `max`.
pub fn read_nat(s: &[char], max: u64) -> (r: Option<u64>)
    ensures
        match r {
            Some(n) => parse_nat(s@, max as nat) == Some(n as nat),
            None => parse_nat(s@, max as nat) is None,
        },
{
    assert(s@.skip(0) =~= s@);
    if s.len() > 0 && s[0] == '+' {
        assert(s@.skip(1) =~= s@.drop_first());
        read_digits_from(s, 1, max)
    } else {
        read_digits_from(s, 0, max)
    }
}

/// Reads a `u64`.
pub fn read_u64(s: &[char]) -> (r: Option<u64>)
    ensures
        match r {
            Some(n) => parse_nat(s@, u64::MAX as nat) == Some(n as nat),
            None => parse_nat(s@, u64::MAX as nat) is None,
        },
{
    read_nat(s, u64::MAX)
}

/// Reads a `u32`.
pub fn read_u32(s: &[char]) -> (r: Option<u32>)
    ensures
        match r {
            Some(n) => parse_nat(s@, u32::MAX as nat) == Some(n as nat),
            None => parse_nat(s@, u32::MAX as nat) is None,
        },
{
    match read_nat(s, u32::MAX as u64) {
        Some(n) => Some(n as u32),
        None => None,
    }
}

/// Reads an `i64`.
pub fn read_i64(s: &[char]) -> (r: Option<i64>)
    ensures
        match r {
            Some(n) => parse_int(s@, i64::MAX as nat) == Some(n as int),
            None => parse_int(s@, i64::MAX as nat) is None,
        },
{
    if s.len() > 0 && s[0] == '-' {
        assert(s@.skip(1) =~= s@.drop_first());
        match read_digits_from(s, 1, 0x8000_0000_0000_0000) {
            Some(n) => {
                if n == 0x8000_0000_0000_0000 {
                    Some(i64::MIN)
                } else {
                    Some(-(n as i64))
                }
            },
            None => None,
        }
    } else {
        match read_nat(s, i64::MAX as u64) {
            Some(n) => Some(n as i64),
            None => None,
        }
    }
}

// ── Writing and reading back ─────────────────────────────────────────────────

/// A written number consists of digits, at least one, and stands for itself.
pub proof fn lemma_dec_digits(n: nat)
    ensures
        all_digits(dec(n)),
        dec(n).len() >= 1,
        digits_value(dec(n)) == n,
    decreases n,
{
    if n < 10 {
        assert(dec(n).drop_last() =~= Seq::<char>::empty());
        assert(digits_value(Seq::<char>::empty()) == 0);
        assert(dec(n).last() == digit_char(n as int));
    } else {
        lemma_dec_digits(n / 10);
        assert(dec(n).drop_last() =~= dec(n / 10));
        assert(dec(n).last() == digit_char((n % 10) as int));
        assert forall|i: int| 0 <= i < dec(n).len() implies is_digit(#[trigger] dec(n)[i]) by {
            if i < dec(n / 10).len() {
                assert(dec(n)[i] == dec(n / 10)[i]);
            }
        }
    }
}

/// Reading gives back every number that was written.
pub proof fn law_decimal_round_trip(n: nat, max: nat)
    requires
        n <= max,
    ensures
        parse_nat(dec(n), max) == Some(n),
{
    lemma_dec_digits(n);
    assert(is_digit(dec(n)[0]));
}

/// Different numbers are written differently.
pub proof fn law_decimal_injective(a: nat, b: nat)
    ensures
        dec(a) == dec(b) ==> a == b,
{
    lemma_dec_digits(a);
    lemma_dec_digits(b);
}

// ── Rounding ─────────────────────────────────────────────────────────────────

/// `n / unit` rounded to the nearest whole number, ties to the even one.
pub open spec fn rounded(n: nat, unit: nat) -> nat {
    let q = n / unit;
    let r = n % unit;
    if 2 * r > unit || (2 * r == unit && q % 2 == 1) {
        q + 1
    } else {
        q
    }
}

/// Rounds `n / unit` to the nearest whole number, ties to the even one.
pub fn round_wide(n: u128, unit: u128) -> (q: u128)
    requires
        unit >= 1,
    ensures
        q as nat == rounded(n as nat, unit as nat),
{
    let q: u128 = n / unit;
    let r: u128 = n % unit;
    proof {
        assert(q as nat <= n as nat) by (nonlinear_arith)
            requires
                q == n / unit,
                unit >= 1,
        ;
        if q == u128::MAX {
            assert(r == 0) by (nonlinear_arith)
                requires
                    q == n / unit,
                    r == n % unit,
                    q == u128::MAX,
                    n <= u128::MAX,
                    unit >= 1,
            ;
        }
    }
    if r > unit - r || (r == unit - r && q % 2 == 1) {
        q + 1
    } else {
        q
    }
}

/// A number of tenths, written with one decimal place.
pub open spec fn tenths(n: nat) -> Seq<char> {
    dec(n / 10) + seq!['.'] + dec(n % 10)
}

/// A number of hundredths, written with two decimal places.
pub open spec fn hundredths(n: nat) -> Seq<char> {
    dec(n / 100) + seq!['.'] + dec(n % 100 / 10) + dec(n % 10)
}

/// A number of thousandths, written with three decimal places.
pub open spec fn thousandths(n: nat) -> Seq<char> {
    dec(n / 1000) + seq!['.'] + dec(n % 1000 / 100) + dec(n % 100 / 10) + dec(n % 10)
}

/// Appends a number of tenths.
pub fn push_tenths(s: &mut String, n: u128)
    ensures
        final(s)@ == old(s)@ + tenths(n as nat),
{
    let ghost start = s@;
    push_wide(s, n / 10);
    s.push('.');
    push_wide(s, n % 10);
    assert(s@ =~= start + tenths(n as nat));
}

/// Appends a number of hundredths.
pub fn push_hundredths(s: &mut String, n: u128)
    ensures
        final(s)@ == old(s)@ + hundredths(n as nat),
{
    let ghost start = s@;
    push_wide(s, n / 100);
    s.push('.');
    push_wide(s, n % 100 / 10);
    push_wide(s, n % 10);
    assert(s@ =~= start + hundredths(n as nat));
}

/// Appends a number of thousandths.
pub fn push_thousandths(s: &mut String, n: u128)
    ensures
        final(s)@ == old(s)@ + thousandths(n as nat),
{
    let ghost start = s@;
    push_wide(s, n / 1000);
    s.push('.');
    push_wide(s, n % 1000 / 100);
    push_wide(s, n % 100 / 10);
    push_wide(s, n % 10);
    assert(s@ =~= start + thousandths(n as nat));
}

/// A decimal number has no blanks in it, whatever blanks stand around it.
pub proof fn law_blanks_around_numbers_are_dropped(a: Seq<char>, n: nat, b: Seq<char>)
    requires
        forall|i: int| 0 <= i < a.len() ==> crate::text::is_space(#[trigger] a[i]),
        forall|i: int| 0 <= i < b.len() ==> crate::text::is_space(#[trigger] b[i]),
    ensures
        crate::text::trim(a + dec(n) + b) == dec(n),
{
    lemma_dec_digits(n);
    let d = dec(n);
    assert(is_digit(d[0]) && is_digit(d[d.len() - 1]));
    crate::text::law_visible_characters_are_no_blanks(d[0]);
    crate::text::law_visible_characters_are_no_blanks(d[d.len() - 1]);
    crate::text::law_trim_drops_blanks(a, d, b);
}

/// A number is written with its last digit behind those of its tenth, and digits stand for
/// themselves.
pub proof fn law_digits_are_written_from_the_greatest(n: u64, m: u64, r: String, s: String)
    requires
        call_ensures(decimal, (n,), r),
        call_ensures(decimal, (m,), s),
        m == n / 10,
    ensures
        r@.last() as int == 48 + n % 10,
        n >= 10 ==> r@ == s@.push(r@.last()),
        n < 10 ==> r@.len() == 1,
{
}

} // verus!
