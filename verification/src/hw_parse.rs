//! Sensor readings from the texts of the kernel's files and of `nvidia-smi`.

use vstd::prelude::*;
use vstd::string::*;

use crate::binary::{
    exceeds, falls_short, law_fractions_are_near, law_near_is_within, law_products_are_near,
    law_quotients_are_near, law_times_are_near, law_whole_numbers_are_exact, lemma_other_fraction,
    lemma_sum_is_positive, lemma_zero_products, near, single, single_difference, single_product,
    single_quotient, single_sum, within, Binary, Number, Single, SINGLE,
};
use crate::hw_monitor::{
    reading_views, scan_views, GroupReading, GroupReadingView, Reading,
    ReadingView,
};
use crate::namemap::{name_order, NameMap};
use crate::number::{
    all_digits, dec, digits_value, is_digit, law_blanks_around_numbers_are_dropped,
    law_decimal_round_trip, lemma_dec_digits, parse_nat, push_dec, read_u64,
};
use crate::text::{
    begins_with, chars_of, copy_chars, cut_at, cut_text, has_prefix, has_substring, is_space, is_text,
    law_cut_at_the_first, law_cut_leaves_both_sides, law_parts_of_parts,
    law_substring_stands_between, law_trimmed_text_is_a_part, lines, opt_text,
    split_first, split_on, split_once_at, sub_chars, text_lines, text_of, texts, trim, trimmed,
    trimmed_text, views, words, words_of,
};

verus! {

// ── Numbers ──────────────────────────────────────────────────────────────────

/// A count as the kernel writes it.
pub open spec fn count_in(text: Seq<char>) -> Option<u64> {
    match parse_nat(trim(text), u64::MAX as nat) {
        Some(n) => Some(n as u64),
        None => None,
    }
}

/// Reads a count, white space round it allowed.
pub fn read_count(text: &str) -> (r: Option<u64>)
    ensures
        r == count_in(text@),
{
    let cs = chars_of(text);
    let t = trimmed(&cs);
    read_u64(&t)
}

/// A number of at most `i64::MAX`.
pub open spec fn fit(n: int) -> i64 {
    if n > i64::MAX {
        i64::MAX
    } else {
        n as i64
    }
}

/// The digits of a number, moved by `k` places: zeros behind them, or the last ones
/// dropped.
pub open spec fn shifted(d: Seq<char>, k: int) -> Seq<char> {
    if k >= 0 {
        d + zeros(k as nat)
    } else if -k < d.len() {
        d.take(d.len() + k)
    } else {
        Seq::empty()
    }
}

/// Zeros.
pub open spec fn zeros(n: nat) -> Seq<char> {
    Seq::new(n, |i: int| '0')
}

/// Digits with a decimal point somewhere: all digits, and how many of them stand
/// behind the point.
pub open spec fn mantissa(s: Seq<char>) -> Option<(Seq<char>, nat)> {
    let (whole, frac) = match split_first(s, '.') {
        Some(p) => p,
        None => (s, Seq::empty()),
    };
    if all_digits(whole) && all_digits(frac) && whole.len() + frac.len() > 0 {
        Some((whole + frac, frac.len()))
    } else {
        None
    }
}

/// What stands behind a sign.
pub open spec fn unsigned(s: Seq<char>) -> Seq<char> {
    if s.len() > 0 && (s[0] == '-' || s[0] == '+') {
        s.drop_first()
    } else {
        s
    }
}

/// A minus sign stands first.
pub open spec fn is_negative(s: Seq<char>) -> bool {
    s.len() > 0 && s[0] == '-'
}

/// A power of ten: digits, a sign before them allowed.
pub open spec fn exponent(s: Seq<char>) -> Option<int> {
    let d = unsigned(s);
    if d.len() == 0 || !all_digits(d) {
        None
    } else if is_negative(s) {
        Some(-(digits_value(d) as int))
    } else {
        Some(digits_value(d) as int)
    }
}

/// The texts before and behind the letter of a power of ten.
pub open spec fn split_exponent(s: Seq<char>) -> Option<(Seq<char>, Seq<char>)> {
    match split_first(s, 'e') {
        Some(p) => Some(p),
        None => split_first(s, 'E'),
    }
}

/// A small letter in place of a capital one of the alphabet.
pub open spec fn small(c: char) -> char {
    if 'A' <= c <= 'Z' {
        (c as int + 32) as char
    } else {
        c
    }
}

/// A text spells a word in small letters, whatever letters it is written in.
pub open spec fn spells(s: Seq<char>, word: Seq<char>) -> bool {
    s.map_values(|c: char| small(c)) == word
}

/// A decimal number without a sign in millionths, further digits dropped, and at most
/// the greatest that fits. A number without end is the greatest; what is no number
/// counts as 0.
pub open spec fn unsigned_micro(s: Seq<char>) -> Option<i64> {
    if spells(s, "inf"@) || spells(s, "infinity"@) {
        Some(i64::MAX)
    } else if spells(s, "nan"@) {
        Some(0)
    } else {
        finite_micro(s)
    }
}

/// A decimal number without a sign that has an end, in millionths.
pub open spec fn finite_micro(s: Seq<char>) -> Option<i64> {
    let (m, e) = match split_exponent(s) {
        Some((m, e)) => (m, exponent(e)),
        None => (s, Some(0)),
    };
    match (mantissa(m), e) {
        (Some((d, behind)), Some(e)) => Some(
            fit(digits_value(shifted(d, 6 + e - behind)) as int),
        ),
        _ => None,
    }
}

/// A decimal number in millionths; a sign before it and a power of ten behind it are
/// allowed.
pub open spec fn parse_micro(s: Seq<char>) -> Option<int> {
    match unsigned_micro(unsigned(s)) {
        Some(n) => Some(
            if is_negative(s) {
                -(n as int)
            } else {
                n as int
            },
        ),
        None => None,
    }
}

/// Whether all characters are digits.
fn only_digits(s: &[char]) -> (r: bool)
    ensures
        r == all_digits(s@),
{
    let mut i: usize = 0;
    while i < s.len()
        invariant
            i <= s.len(),
            forall|k: int| 0 <= k < i ==> is_digit(#[trigger] s@[k]),
        decreases s.len() - i,
    {
        let c: char = s[i];
        if !('0' <= c && c <= '9') {
            assert(!is_digit(s@[i as int]));
            return false;
        }
        i += 1;
    }
    true
}

/// A number of at most `max`.
pub open spec fn capped(n: nat, max: nat) -> nat {
    if n > max {
        max
    } else {
        n
    }
}

/// The value of digits, or `max` where it is greater.
fn read_capped(s: &[char], max: u128) -> (r: u128)
    requires
        all_digits(s@),
        max <= 1_000_000_000_000_000_000_000_000_000_000,
    ensures
        r as nat == capped(digits_value(s@), max as nat),
{
    let mut v: u128 = 0;
    let mut i: usize = 0;
    assert(s@.take(0) =~= Seq::<char>::empty());
    while i < s.len()
        invariant
            i <= s.len(),
            all_digits(s@),
            max <= 1_000_000_000_000_000_000_000_000_000_000,
            v as nat == capped(digits_value(s@.take(i as int)), max as nat),
        decreases s.len() - i,
    {
        assert(s@.take(i + 1).drop_last() =~= s@.take(i as int));
        assert(is_digit(s@[i as int]));
        let d: u128 = (s[i] as u32 - 48) as u128;
        let next: u128 = v * 10 + d;
        v = if next > max {
            max
        } else {
            next
        };
        i += 1;
    }
    assert(s@.take(i as int) =~= s@);
    v
}

/// Each zero behind digits makes ten times as much of them.
proof fn lemma_zeros(d: Seq<char>, j: nat, k: nat)
    requires
        j <= k,
    ensures
        digits_value(d + zeros(j + 1)) == 10 * digits_value(d + zeros(j)),
        digits_value(d + zeros(k)) >= digits_value(d + zeros(j)),
        digits_value(d + zeros(j)) == 0 ==> digits_value(d + zeros(k)) == 0,
        digits_value(d + zeros(j)) > 0 ==> digits_value(d + zeros(k)) >= digits_value(d + zeros(j)) + (k
            - j),
    decreases k - j,
{
    let next = d + zeros(j + 1);
    assert(next.drop_last() =~= d + zeros(j));
    assert(next.last() == '0');
    if j < k {
        lemma_zeros(d, j + 1, k);
    }
}

/// The value of moved digits, or the greatest number that fits.
fn read_shifted(d: &[char], k: i128) -> (r: i64)
    requires
        all_digits(d@),
        -2_000_000_000_000_000_000_000_000_000_000 <= k <= 2_000_000_000_000_000_000_000_000_000_000,
    ensures
        r == fit(digits_value(shifted(d@, k as int)) as int),
        r >= 0,
{
    let max: u128 = 0x7fff_ffff_ffff_ffff;
    let n: usize = d.len();
    if k < 0 {
        if -k >= n as i128 {
            return 0;
        }
        let m: usize = (n as i128 + k) as usize;
        let head = sub_chars(d, 0, m);
        assert(head@ =~= d@.take(d@.len() + k as int));
        assert(all_digits(head@)) by {
            assert forall|i: int| 0 <= i < head@.len() implies is_digit(#[trigger] head@[i]) by {
                assert(is_digit(d@[i]));
            }
        }
        return read_capped(&head, max) as i64;
    }
    let mut v: u128 = read_capped(d, max);
    let mut j: i128 = 0;
    assert(d@ + zeros(0) =~= d@);
    while j < k && v != 0 && v < max
        invariant
            0 <= j <= k,
            max == 0x7fff_ffff_ffff_ffff,
            v as nat == capped(digits_value(d@ + zeros(j as nat)), max as nat),
        decreases k - j,
    {
        proof {
            lemma_zeros(d@, j as nat, j as nat);
        }
        let next: u128 = v * 10;
        v = if next > max {
            max
        } else {
            next
        };
        j += 1;
    }
    proof {
        lemma_zeros(d@, j as nat, k as nat);
    }
    v as i64
}

/// The greatest power of ten that is told apart from greater ones.
const EXPONENT_LIMIT: u128 = 1_000_000_000_000_000_000_000_000_000_000;

/// A power of ten within its limits.
spec fn limited(e: int) -> int {
    if e > EXPONENT_LIMIT {
        EXPONENT_LIMIT as int
    } else if e < -EXPONENT_LIMIT {
        -EXPONENT_LIMIT
    } else {
        e
    }
}

/// Where a power of ten is beyond its limits, the number is as great or as small as
/// can be in any case.
proof fn lemma_limited(d: Seq<char>, behind: nat, e: int)
    requires
        behind <= d.len() <= u64::MAX,
    ensures
        fit(digits_value(shifted(d, 6 + e - behind)) as int) == fit(
            digits_value(shifted(d, 6 + limited(e) - behind)) as int,
        ),
{
    let (k, l) = (6 + e - behind, 6 + limited(e) - behind);
    if e > EXPONENT_LIMIT {
        assert(d + zeros(0) =~= d);
        lemma_zeros(d, 0, k as nat);
        lemma_zeros(d, 0, l as nat);
    } else if e < -EXPONENT_LIMIT {
        assert(shifted(d, k) == shifted(d, l));
    }
}

/// What stands behind a sign.
fn drop_sign(s: &[char]) -> (r: Vec<char>)
    ensures
        r@ == unsigned(s@),
{
    let n: usize = s.len();
    if n > 0 && (s[0] == '-' || s[0] == '+') {
        let rest = sub_chars(s, 1, n);
        assert(rest@ =~= s@.drop_first());
        rest
    } else {
        copy_chars(s)
    }
}

/// Reads a power of ten.
fn read_exponent(s: &[char]) -> (r: Option<i128>)
    ensures
        match r {
            Some(e) => exponent(s@) is Some && e as int == limited(exponent(s@)->0),
            None => exponent(s@) is None,
        },
{
    let d = drop_sign(s);
    if d.len() == 0 || !only_digits(&d) {
        return None;
    }
    let n: i128 = read_capped(&d, EXPONENT_LIMIT) as i128;
    if s.len() > 0 && s[0] == '-' {
        Some(-n)
    } else {
        Some(n)
    }
}

/// Reads digits with a decimal point somewhere.
fn read_mantissa(s: &[char]) -> (r: Option<(Vec<char>, usize)>)
    ensures
        match r {
            Some((d, behind)) => mantissa(s@) == Some((d@, behind as nat)) && all_digits(d@)
                && behind <= d@.len(),
            None => mantissa(s@) is None,
        },
{
    let none: Vec<char> = Vec::new();
    let (mut whole, mut frac) = match split_once_at(s, '.') {
        Some(p) => p,
        None => (copy_chars(s), none),
    };
    proof {
        if split_first(s@, '.') is None {
            assert(frac@ =~= Seq::<char>::empty());
        }
    }
    if !only_digits(&whole) || !only_digits(&frac) || (whole.len() == 0 && frac.len() == 0) {
        return None;
    }
    let behind: usize = frac.len();
    let ghost (w, f) = (whole@, frac@);
    whole.append(&mut frac);
    assert(whole@ =~= w + f);
    assert(all_digits(whole@)) by {
        assert forall|i: int| 0 <= i < whole@.len() implies is_digit(#[trigger] whole@[i]) by {
            if i < w.len() {
                assert(is_digit(w[i]));
            } else {
                assert(is_digit(f[i - w.len()]));
            }
        }
    }
    Some((whole, behind))
}

/// Whether a text spells a word.
fn does_spell(s: &[char], word: &str) -> (r: bool)
    ensures
        r == spells(s@, word@),
{
    let w = chars_of(word);
    let ghost low = s@.map_values(|c: char| small(c));
    if s.len() != w.len() {
        return false;
    }
    let mut i: usize = 0;
    while i < s.len()
        invariant
            i <= s.len(),
            s.len() == w.len(),
            low == s@.map_values(|c: char| small(c)),
            w@ == word@,
            forall|k: int| 0 <= k < i ==> low[k] == #[trigger] w@[k],
        decreases s.len() - i,
    {
        let c: char = s[i];
        let l: char = if 'A' <= c && c <= 'Z' {
            (c as u8 + 32) as char
        } else {
            c
        };
        assert(l == low[i as int]);
        if l != w[i] {
            assert(low[i as int] != word@[i as int]);
            return false;
        }
        i += 1;
    }
    assert(low =~= word@);
    true
}

/// Reads a decimal number without a sign in millionths.
fn read_unsigned_micro(s: &[char]) -> (r: Option<i64>)
    ensures
        r == unsigned_micro(s@),
        r is Some ==> r->0 >= 0,
{
    if does_spell(s, "inf") || does_spell(s, "infinity") {
        return Some(i64::MAX);
    }
    if does_spell(s, "nan") {
        return Some(0);
    }
    let cut = match split_once_at(s, 'e') {
        Some(p) => Some(p),
        None => split_once_at(s, 'E'),
    };
    let (m, e) = match cut {
        Some((m, t)) => match read_exponent(&t) {
            Some(e) => (m, e),
            None => {
                return None;
            },
        },
        None => (copy_chars(s), 0i128),
    };
    match read_mantissa(&m) {
        Some((d, behind)) => {
            let n: usize = d.len();
            proof {
                assert(d@.len() == n);
                match split_exponent(s@) {
                    Some((_, t)) => lemma_limited(d@, behind as nat, exponent(t)->0),
                    None => {},
                }
            }
            Some(read_shifted(&d, 6 + e - behind as i128))
        },
        None => None,
    }
}

/// Reads a decimal number in millionths.
pub fn read_micro(s: &[char]) -> (r: Option<i64>)
    ensures
        match r {
            Some(n) => parse_micro(s@) == Some(n as int),
            None => parse_micro(s@) is None,
        },
{
    let d = drop_sign(s);
    match read_unsigned_micro(&d) {
        Some(n) => if s.len() > 0 && s[0] == '-' {
            Some(-n)
        } else {
            Some(n)
        },
        None => None,
    }
}

// ── Channels of a hwmon device ───────────────────────────────────────────────

/// One channel of a hwmon device: the texts of its value and of its label.
pub struct Channel {
    pub index: u32,
    pub input: Option<String>,
    pub label: Option<String>,
}

/// The kinds of channels.
#[derive(Debug, Clone, Copy, PartialEq, Eq, Structural)]
pub enum ChannelKind {
    Temp,
    Fan,
    Power,
    Voltage,
    Freq,
}

/// The files of the channels of a kind: how their names begin, and the first and the
/// last number.
pub fn channel_files(kind: ChannelKind) -> (r: (&'static str, u32, u32))
    ensures
        (r.0@, r.1, r.2) == match kind {
            ChannelKind::Temp => ("temp"@, 1u32, 24u32),
            ChannelKind::Fan => ("fan"@, 1u32, 8u32),
            ChannelKind::Power => ("power"@, 1u32, 8u32),
            ChannelKind::Voltage => ("in"@, 0u32, 16u32),
            ChannelKind::Freq => ("freq"@, 1u32, 4u32),
        },
{
    match kind {
        ChannelKind::Temp => ("temp", 1, 24),
        ChannelKind::Fan => ("fan", 1, 8),
        ChannelKind::Power => ("power", 1, 8),
        ChannelKind::Voltage => ("in", 0, 16),
        ChannelKind::Freq => ("freq", 1, 4),
    }
}

/// The name of a channel without a label, before its number.
pub open spec fn channel_name(k: ChannelKind) -> Seq<char> {
    match k {
        ChannelKind::Temp => "Temp "@,
        ChannelKind::Fan => "Fan "@,
        ChannelKind::Power => "Power "@,
        ChannelKind::Voltage => "In "@,
        ChannelKind::Freq => "Freq "@,
    }
}

/// The unit in which a channel is shown.
pub open spec fn channel_unit(k: ChannelKind) -> Seq<char> {
    match k {
        ChannelKind::Temp => "°C"@,
        ChannelKind::Fan => "RPM"@,
        ChannelKind::Power => "W"@,
        ChannelKind::Voltage => "V"@,
        ChannelKind::Freq => "MHz"@,
    }
}

/// A whole number divided by another.
pub open spec fn share(n: u64, d: u64) -> Number {
    single_quotient(single(n as int, 1), single(d as int, 1))
}

/// Divides a whole number by another.
fn divide(n: u64, d: u64) -> (r: Single)
    requires
        d > 0,
    ensures
        r@ == share(n, d),
{
    Single::whole(n).over(Single::whole(d))
}

/// A value in its unit. The kernel gives millidegrees, revolutions, microwatts,
/// millivolts and hertz.
pub open spec fn channel_value(k: ChannelKind, v: u64) -> Number {
    match k {
        ChannelKind::Temp => share(v, 1000),
        ChannelKind::Fan => single(v as int, 1),
        ChannelKind::Power => share(v, 1_000_000),
        ChannelKind::Voltage => share(v, 1000),
        ChannelKind::Freq => share(v, 1_000_000),
    }
}

/// The reading of a channel; none where its value cannot be read.
pub open spec fn channel_reading(k: ChannelKind, c: Channel) -> Option<ReadingView> {
    match c.input {
        None => None,
        Some(t) => match count_in(t@) {
            None => None,
            Some(v) => Some(
                ReadingView {
                    label: match c.label {
                        Some(l) => trim(l@),
                        None => channel_name(k) + dec(c.index as nat),
                    },
                    unit: channel_unit(k),
                    value: channel_value(k, v),
                },
            ),
        },
    }
}

/// The readings of the first `n` channels.
pub open spec fn channel_readings(k: ChannelKind, c: Seq<Channel>, n: nat) -> Seq<ReadingView>
    decreases n,
{
    if n == 0 {
        Seq::empty()
    } else {
        let before = channel_readings(k, c, (n - 1) as nat);
        match channel_reading(k, c[n - 1]) {
            Some(r) => before.push(r),
            None => before,
        }
    }
}

/// Appends the readings of channels.
fn read_channels(kind: ChannelKind, channels: &Vec<Channel>, out: &mut Vec<Reading>)
    ensures
        reading_views(final(out)@) == reading_views(old(out)@) + channel_readings(
            kind,
            channels@,
            channels@.len(),
        ),
{
    let ghost start = reading_views(out@);
    let mut i: usize = 0;
    assert(start =~= start + channel_readings(kind, channels@, 0));
    while i < channels.len()
        invariant
            i <= channels.len(),
            reading_views(out@) == start + channel_readings(kind, channels@, i as nat),
        decreases channels.len() - i,
    {
        let c = &channels[i];
        let ghost before = reading_views(out@);
        let value = match &c.input {
            Some(t) => read_count(t.as_str()),
            None => None,
        };
        if let Some(v) = value {
            let label = match &c.label {
                Some(l) => crate::text::trimmed_text(l.as_str()),
                None => {
                    let mut s = (match kind {
                        ChannelKind::Temp => "Temp ",
                        ChannelKind::Fan => "Fan ",
                        ChannelKind::Power => "Power ",
                        ChannelKind::Voltage => "In ",
                        ChannelKind::Freq => "Freq ",
                    }).to_owned();
                    push_dec(&mut s, c.index as u64);
                    s
                },
            };
            let unit = (match kind {
                ChannelKind::Temp => "°C",
                ChannelKind::Fan => "RPM",
                ChannelKind::Power => "W",
                ChannelKind::Voltage => "V",
                ChannelKind::Freq => "MHz",
            }).to_owned();
            let value = match kind {
                ChannelKind::Temp => divide(v, 1000),
                ChannelKind::Fan => Single::whole(v),
                ChannelKind::Power => divide(v, 1_000_000),
                ChannelKind::Voltage => divide(v, 1000),
                ChannelKind::Freq => divide(v, 1_000_000),
            };
            let r = Reading { label, unit, value };
            let ghost rv = r@;
            out.push(r);
            proof {
                assert(channel_reading(kind, channels@[i as int]) == Some(rv));
                assert(reading_views(out@) =~= before.push(rv));
                assert(before.push(rv) =~= start + channel_readings(
                    kind,
                    channels@,
                    i as nat,
                ).push(rv));
            }
        }
        i += 1;
    }
}

/// The files of a hwmon device.
pub struct HwmonDevice {
    /// The name of its driver.
    pub driver: String,
    /// What the device says of itself: the device name of a memory module, the
    /// model of a drive, the interface of a network card.
    pub hint: Option<String>,
    pub temps: Vec<Channel>,
    pub fans: Vec<Channel>,
    pub powers: Vec<Channel>,
    pub voltages: Vec<Channel>,
    pub freqs: Vec<Channel>,
}

/// The readings of a device: temperatures, fans, powers, voltages, frequencies.
pub open spec fn device_readings(d: HwmonDevice) -> Seq<ReadingView> {
    channel_readings(ChannelKind::Temp, d.temps@, d.temps@.len()) + channel_readings(
        ChannelKind::Fan,
        d.fans@,
        d.fans@.len(),
    ) + channel_readings(ChannelKind::Power, d.powers@, d.powers@.len()) + channel_readings(
        ChannelKind::Voltage,
        d.voltages@,
        d.voltages@.len(),
    ) + channel_readings(ChannelKind::Freq, d.freqs@, d.freqs@.len())
}

/// Reads all channels of a device.
pub fn read_device(d: &HwmonDevice) -> (out: Vec<Reading>)
    ensures
        reading_views(out@) == device_readings(*d),
{
    let mut out: Vec<Reading> = Vec::new();
    assert(reading_views(out@) =~= Seq::<ReadingView>::empty());
    read_channels(ChannelKind::Temp, &d.temps, &mut out);
    read_channels(ChannelKind::Fan, &d.fans, &mut out);
    read_channels(ChannelKind::Power, &d.powers, &mut out);
    read_channels(ChannelKind::Voltage, &d.voltages, &mut out);
    read_channels(ChannelKind::Freq, &d.freqs, &mut out);
    assert(reading_views(out@) =~= device_readings(*d));
    out
}

// ── Which driver belongs where ───────────────────────────────────────────────

/// What a driver's readings are shown under.
#[derive(Debug, Clone, Copy, PartialEq, Eq, Structural)]
pub enum DriverClass {
    Cpu,
    Memory,
    Storage,
    Network,
    Gpu,
    Other,
}

/// The class of a driver.
pub open spec fn driver_class(name: Seq<char>) -> DriverClass {
    if name == "k10temp"@ || name == "zenpower"@ || name == "coretemp"@ {
        DriverClass::Cpu
    } else if name == "spd5118"@ || name == "ee1004"@ {
        DriverClass::Memory
    } else if name == "nvme"@ {
        DriverClass::Storage
    } else if has_prefix(name, "r8"@) || has_prefix(name, "atlantic"@) || has_prefix(name, "igb"@)
        || has_prefix(name, "ixgbe"@) || has_prefix(name, "e1000"@) {
        DriverClass::Network
    } else if name == "amdgpu"@ || name == "nvidia"@ {
        DriverClass::Gpu
    } else {
        DriverClass::Other
    }
}

/// The class of a driver.
pub fn classify_driver(name: &str) -> (r: DriverClass)
    ensures
        r == driver_class(name@),
{
    let n = chars_of(name);
    if is_text(&n, "k10temp") || is_text(&n, "zenpower") || is_text(&n, "coretemp") {
        DriverClass::Cpu
    } else if is_text(&n, "spd5118") || is_text(&n, "ee1004") {
        DriverClass::Memory
    } else if is_text(&n, "nvme") {
        DriverClass::Storage
    } else if begins_with(&n, "r8") || begins_with(&n, "atlantic") || begins_with(&n, "igb")
        || begins_with(&n, "ixgbe") || begins_with(&n, "e1000") {
        DriverClass::Network
    } else if is_text(&n, "amdgpu") || is_text(&n, "nvidia") {
        DriverClass::Gpu
    } else {
        DriverClass::Other
    }
}

/// The category and the name under which a device is shown. `hint` is what the
/// device says of itself: the slot of a memory module, the model of a drive, the
/// interface of a network card.
pub open spec fn device_title(driver: Seq<char>, hint: Option<Seq<char>>) -> Option<
    (Seq<char>, Seq<char>),
> {
    match driver_class(driver) {
        DriverClass::Cpu => Some(
            (
                "CPU"@,
                if driver == "k10temp"@ {
                    "AMD CPU [k10temp]"@
                } else if driver == "zenpower"@ {
                    "AMD CPU [zenpower]"@
                } else {
                    "Intel CPU [coretemp]"@
                },
            ),
        ),
        DriverClass::Memory => Some(
            (
                "Memory"@,
                match hint {
                    Some(h) => slot_text(h),
                    None => "DDR5"@,
                },
            ),
        ),
        DriverClass::Storage => Some(
            (
                "Storage"@,
                match hint {
                    Some(h) => trim(h),
                    None => "NVMe"@,
                },
            ),
        ),
        DriverClass::Network => Some(
            (
                "Network"@,
                "NIC ["@ + (match hint {
                    Some(h) => h,
                    None => driver,
                }) + "]"@,
            ),
        ),
        DriverClass::Gpu => Some(("GPU"@, driver + " GPU"@)),
        DriverClass::Other => None,
    }
}

/// The value of a hexadecimal digit.
pub open spec fn hex_digit(c: char) -> Option<nat> {
    if '0' <= c <= '9' {
        Some((c as int - 48) as nat)
    } else if 'a' <= c <= 'f' {
        Some((c as int - 87) as nat)
    } else if 'A' <= c <= 'F' {
        Some((c as int - 55) as nat)
    } else {
        None
    }
}

/// The value of hexadecimal digits, up to 64 bits.
pub open spec fn hex_value(s: Seq<char>) -> Option<nat>
    decreases s.len(),
{
    if s.len() == 0 {
        Some(0)
    } else {
        match (hex_value(s.drop_last()), hex_digit(s.last())) {
            (Some(v), Some(d)) => if v * 16 + d <= u64::MAX {
                Some((v * 16 + d) as nat)
            } else {
                None
            },
            _ => None,
        }
    }
}

/// A hexadecimal number: at least one digit, a plus sign before it allowed.
pub open spec fn parse_hex(s: Seq<char>) -> Option<nat> {
    let body = if s.len() > 0 && s[0] == '+' {
        s.drop_first()
    } else {
        s
    };
    if body.len() == 0 {
        None
    } else {
        hex_value(body)
    }
}

/// The slot of a memory module, from the name of its device such as `7-0051`: the
/// low four bits of the address behind the last hyphen.
pub open spec fn slot_text(name: Seq<char>) -> Seq<char> {
    match parse_hex(split_on(name, '-').last()) {
        Some(addr) => "DDR5 Slot "@ + dec(addr % 16),
        None => "DDR5"@,
    }
}

/// What is not a number at its head is none as a whole.
proof fn lemma_hex_bad(s: Seq<char>, n: int)
    requires
        0 <= n <= s.len(),
        hex_value(s.take(n)) is None,
    ensures
        hex_value(s) is None,
    decreases s.len() - n,
{
    if n < s.len() {
        assert(s.take(n + 1).drop_last() =~= s.take(n));
        lemma_hex_bad(s, n + 1);
    } else {
        assert(s.take(n) =~= s);
    }
}

/// The value of a hexadecimal digit.
fn read_hex_digit(c: char) -> (r: Option<u64>)
    ensures
        match r {
            Some(d) => hex_digit(c) == Some(d as nat) && d < 16,
            None => hex_digit(c) is None,
        },
{
    let n: u32 = c as u32;
    if 48 <= n && n <= 57 {
        Some((n - 48) as u64)
    } else if 97 <= n && n <= 102 {
        Some((n - 87) as u64)
    } else if 65 <= n && n <= 70 {
        Some((n - 55) as u64)
    } else {
        None
    }
}

/// Reads a hexadecimal number.
fn read_hex(s: &[char]) -> (r: Option<u64>)
    ensures
        match r {
            Some(v) => parse_hex(s@) == Some(v as nat),
            None => parse_hex(s@) is None,
        },
{
    let n: usize = s.len();
    let from: usize = if n > 0 && s[0] == '+' {
        1
    } else {
        0
    };
    let body = sub_chars(s, from, n);
    proof {
        if from == 1 {
            assert(body@ =~= s@.drop_first());
        } else {
            assert(body@ =~= s@);
        }
    }
    if body.len() == 0 {
        return None;
    }
    let mut v: u64 = 0;
    let mut i: usize = 0;
    assert(body@.take(0) =~= Seq::<char>::empty());
    while i < body.len()
        invariant
            i <= body.len(),
            hex_value(body@.take(i as int)) == Some(v as nat),
            body@.len() > 0,
            parse_hex(s@) == hex_value(body@),
        decreases body.len() - i,
    {
        assert(body@.take(i + 1).drop_last() =~= body@.take(i as int));
        match read_hex_digit(body[i]) {
            Some(d) if v <= (u64::MAX - d) / 16 => {
                v = v * 16 + d;
            },
            _ => {
                proof {
                    lemma_hex_bad(body@, i + 1);
                }
                return None;
            },
        }
        i += 1;
    }
    assert(body@.take(i as int) =~= body@);
    Some(v)
}

/// The slot of a memory module, from the name of its device where it is known.
pub fn dimm_slot_name(device: Option<&str>) -> (r: String)
    ensures
        r@ == match device {
            Some(n) => slot_text(n@),
            None => "DDR5"@,
        },
{
    if let Some(name) = device {
        let cs = chars_of(name);
        let parts = crate::text::split_at_char(&cs, '-');
        let last = &parts[parts.len() - 1];
        assert(views(parts@).last() == last@);
        if let Some(addr) = read_hex(last) {
            let mut r = "DDR5 Slot ".to_owned();
            push_dec(&mut r, addr % 16);
            return r;
        }
    }
    "DDR5".to_owned()
}

/// The category and the name under which a device is shown; none where its driver
/// is not known.
pub fn name_device(driver: &str, hint: Option<&str>) -> (r: Option<(String, String)>)
    ensures
        match r {
            Some((c, n)) => device_title(
                driver@,
                match hint {
                    Some(h) => Some(h@),
                    None => None,
                },
            ) == Some((c@, n@)),
            None => device_title(
                driver@,
                match hint {
                    Some(h) => Some(h@),
                    None => None,
                },
            ) is None,
        },
{
    match classify_driver(driver) {
        DriverClass::Cpu => {
            let d = chars_of(driver);
            let name = if is_text(&d, "k10temp") {
                "AMD CPU [k10temp]"
            } else if is_text(&d, "zenpower") {
                "AMD CPU [zenpower]"
            } else {
                "Intel CPU [coretemp]"
            };
            Some(("CPU".to_owned(), name.to_owned()))
        },
        DriverClass::Memory => Some(("Memory".to_owned(), dimm_slot_name(hint))),
        DriverClass::Storage => {
            let name = match hint {
                Some(h) => crate::text::trimmed_text(h),
                None => "NVMe".to_owned(),
            };
            Some(("Storage".to_owned(), name))
        },
        DriverClass::Network => {
            let mut name = "NIC [".to_owned();
            name.append(
                match hint {
                    Some(h) => h,
                    None => driver,
                },
            );
            name.append("]");
            Some(("Network".to_owned(), name))
        },
        DriverClass::Gpu => {
            let mut name = driver.to_owned();
            name.append(" GPU");
            Some(("GPU".to_owned(), name))
        },
        DriverClass::Other => None,
    }
}

// ── Graphics cards ───────────────────────────────────────────────────────────

/// `s` cut at the first places at which `sep` stands, into at most `n` pieces.
pub open spec fn pieces(s: Seq<char>, sep: Seq<char>, n: nat) -> Seq<Seq<char>>
    decreases n,
{
    if n <= 1 {
        seq![s]
    } else {
        match cut_at(s, sep) {
            Some((a, b)) => seq![a] + pieces(b, sep, (n - 1) as nat),
            None => seq![s],
        }
    }
}

/// Cuts a text into at most `n` pieces.
#[verifier::rlimit(40)]
pub fn cut_pieces(s: &[char], sep: &str, n: usize) -> (r: Vec<Vec<char>>)
    requires
        n >= 1,
    ensures
        views(r@) == pieces(s@, sep@, n as nat),
    decreases n,
{
    let mut r: Vec<Vec<char>> = Vec::new();
    if n > 1 {
        if let Some((a, b)) = cut_text(s, sep) {
            let ghost (av, bv) = (a@, b@);
            assert(pieces(s@, sep@, n as nat) == seq![av] + pieces(bv, sep@, (n - 1) as nat));
            r.push(a);
            let mut rest = cut_pieces(&b, sep, n - 1);
            let ghost tail = rest@;
            r.append(&mut rest);
            assert(r@ =~= seq![a] + tail);
            assert(views(r@) =~= seq![av] + views(tail));
            return r;
        }
    }
    r.push(copy_chars(s));
    assert(views(r@) =~= seq![s@]);
    r
}

/// A field of `nvidia-smi`, 0 where it is no number.
#[verifier::opaque]
pub open spec fn smi_field(s: Seq<char>) -> Number {
    match parse_micro(trim(s)) {
        Some(n) => single(n, 1_000_000),
        None => single(0, 1),
    }
}

/// Reads a field of `nvidia-smi`.
fn read_smi_field(s: &[char]) -> (n: Single)
    ensures
        n@ == smi_field(s@),
{
    proof {
        reveal(smi_field);
    }
    let t = trimmed(s);
    match read_micro(&t) {
        Some(n) => Single::of(n, 1_000_000),
        None => Single::whole(0),
    }
}

/// A reading.
pub open spec fn reading(label: Seq<char>, unit: Seq<char>, value: Number) -> ReadingView {
    ReadingView { label, unit, value }
}

/// Makes a reading.
fn make_reading(label: &str, unit: &str, value: Single) -> (r: Reading)
    ensures
        r@ == reading(label@, unit@, value@),
{
    Reading { label: label.to_owned(), unit: unit.to_owned(), value }
}

/// A graphics card from a line of `nvidia-smi`: name, temperature, power, clocks,
/// loads and memory, in the order of the query. Memory is given in MiB.
pub open spec fn smi_group(line: Seq<char>) -> Option<GroupReadingView> {
    let p = pieces(line, ", "@, 9);
    if p.len() < 9 {
        None
    } else {
        Some(
            GroupReadingView {
                category: "GPU"@,
                name: trim(p[0]),
                readings: seq![
                    reading("Temperature"@, "°C"@, smi_field(p[1])),
                    reading("GPU Load"@, "%"@, smi_field(p[5])),
                    reading("Memory Usage"@, "%"@, smi_field(p[6])),
                    reading("Power Draw"@, "W"@, smi_field(p[2])),
                    reading("GPU Clock"@, "MHz"@, smi_field(p[3])),
                    reading("Memory Clock"@, "MHz"@, smi_field(p[4])),
                    reading("VRAM Used"@, "GiB"@, single_quotient(smi_field(p[7]), single(1024, 1))),
                    reading("VRAM Total"@, "GiB"@, single_quotient(smi_field(p[8]), single(1024, 1))),
                ],
            },
        )
    }
}

/// Reads a line of `nvidia-smi`.
#[verifier::rlimit(40)]
fn read_smi_line(line: &[char]) -> (r: Option<GroupReading>)
    ensures
        match r {
            Some(g) => smi_group(line@) == Some(g@),
            None => smi_group(line@) is None,
        },
{
    let p = cut_pieces(line, ", ", 9);
    if p.len() < 9 {
        return None;
    }
    let ghost pv = views(p@);
    let name = trimmed(&p[0]);
    let mut rs: Vec<Reading> = Vec::new();
    rs.push(make_reading("Temperature", "°C", read_smi_field(&p[1])));
    rs.push(make_reading("GPU Load", "%", read_smi_field(&p[5])));
    rs.push(make_reading("Memory Usage", "%", read_smi_field(&p[6])));
    rs.push(make_reading("Power Draw", "W", read_smi_field(&p[2])));
    rs.push(make_reading("GPU Clock", "MHz", read_smi_field(&p[3])));
    rs.push(make_reading("Memory Clock", "MHz", read_smi_field(&p[4])));
    rs.push(make_reading("VRAM Used", "GiB", read_smi_field(&p[7]).over(Single::whole(1024))));
    rs.push(make_reading("VRAM Total", "GiB", read_smi_field(&p[8]).over(Single::whole(1024))));
    let g = GroupReading { category: "GPU".to_owned(), name: text_of(&name), readings: rs };
    assert(g@.readings =~= smi_group(line@)->0.readings);
    Some(g)
}

/// The graphics cards in the first `n` lines.
pub open spec fn smi_groups(ls: Seq<Seq<char>>, n: nat) -> Seq<GroupReadingView>
    decreases n,
{
    if n == 0 {
        Seq::empty()
    } else {
        let before = smi_groups(ls, (n - 1) as nat);
        match smi_group(ls[n - 1]) {
            Some(g) => before.push(g),
            None => before,
        }
    }
}

/// The graphics cards in the output of `nvidia-smi`.
#[verifier::rlimit(40)]
pub fn collect_nvidia_smi(stdout: &str) -> (r: Vec<GroupReading>)
    ensures
        scan_views(r@) == smi_groups(lines(stdout@), lines(stdout@).len()),
{
    let ls = text_lines(stdout);
    let ghost all = views(ls@);
    let mut r: Vec<GroupReading> = Vec::new();
    let mut i: usize = 0;
    assert(scan_views(r@) =~= Seq::<GroupReadingView>::empty());
    while i < ls.len()
        invariant
            i <= ls.len(),
            all == views(ls@),
            scan_views(r@) == smi_groups(all, i as nat),
        decreases ls.len() - i,
    {
        let ghost before = scan_views(r@);
        assert(all[i as int] == ls@[i as int]@);
        if let Some(g) = read_smi_line(&ls[i]) {
            let ghost gv = g@;
            r.push(g);
            assert(scan_views(r@) =~= before.push(gv));
        }
        i += 1;
    }
    r
}

// ── Processor ────────────────────────────────────────────────────────────────

/// The readings of the core frequencies, given as CPU number and kHz.
pub open spec fn freq_readings(f: Seq<(u32, u64)>) -> Seq<ReadingView> {
    Seq::new(
        f.len(),
        |i: int| reading("CPU "@ + dec(f[i].0 as nat), "MHz"@, share(f[i].1, 1000)),
    )
}

/// The core frequencies, given as CPU number and kHz in the order of the numbers.
pub fn collect_cpu_freqs(freqs: &Vec<(u32, u64)>) -> (r: Option<GroupReading>)
    ensures
        match r {
            Some(g) => freqs.len() > 0 && g@ == (GroupReadingView {
                category: "CPU"@,
                name: "CPU Frequencies"@,
                readings: freq_readings(freqs@),
            }),
            None => freqs.len() == 0,
        },
{
    if freqs.len() == 0 {
        return None;
    }
    let mut rs: Vec<Reading> = Vec::new();
    let mut i: usize = 0;
    while i < freqs.len()
        invariant
            i <= freqs.len(),
            rs.len() == i,
            forall|k: int| 0 <= k < i ==> (#[trigger] rs[k])@ == freq_readings(freqs@)[k],
        decreases freqs.len() - i,
    {
        let (cpu, khz) = freqs[i];
        let mut label = "CPU ".to_owned();
        push_dec(&mut label, cpu as u64);
        rs.push(make_reading(label.as_str(), "MHz", divide(khz, 1000)));
        i += 1;
    }
    assert(reading_views(rs@) =~= freq_readings(freqs@));
    Some(
        GroupReading {
            category: "CPU".to_owned(),
            name: "CPU Frequencies".to_owned(),
            readings: rs,
        },
    )
}

/// The three load averages in millionths.
pub open spec fn load_averages(text: Seq<char>) -> Option<(int, int, int)> {
    let w = words(text);
    if w.len() < 3 {
        None
    } else {
        match (parse_micro(w[0]), parse_micro(w[1]), parse_micro(w[2])) {
            (Some(a), Some(b), Some(c)) => Some((a, b, c)),
            _ => None,
        }
    }
}

/// Reads the three load averages.
pub fn read_load_avg(text: &str) -> (r: Option<(i64, i64, i64)>)
    ensures
        match r {
            Some((a, b, c)) => load_averages(text@) == Some((a as int, b as int, c as int)),
            None => load_averages(text@) is None,
        },
{
    let cs = chars_of(text);
    let w = words_of(&cs);
    let ghost wv = views(w@);
    if w.len() < 3 {
        return None;
    }
    match (read_micro(&w[0]), read_micro(&w[1]), read_micro(&w[2])) {
        (Some(a), Some(b), Some(c)) => Some((a, b, c)),
        _ => None,
    }
}

/// The load averages as readings.
pub fn collect_load_avg(text: &str) -> (r: Option<GroupReading>)
    ensures
        match (r, load_averages(text@)) {
            (Some(g), Some((a, b, c))) => g@ == (GroupReadingView {
                category: "CPU"@,
                name: "Load Average"@,
                readings: seq![
                    reading("1 min"@, ""@, single(a, 1_000_000)),
                    reading("5 min"@, ""@, single(b, 1_000_000)),
                    reading("15 min"@, ""@, single(c, 1_000_000)),
                ],
            }),
            (None, None) => true,
            _ => false,
        },
{
    match read_load_avg(text) {
        None => None,
        Some((a, b, c)) => {
            let mut rs: Vec<Reading> = Vec::new();
            rs.push(make_reading("1 min", "", Single::of(a, 1_000_000)));
            rs.push(make_reading("5 min", "", Single::of(b, 1_000_000)));
            rs.push(make_reading("15 min", "", Single::of(c, 1_000_000)));
            assert(reading_views(rs@) =~= seq![
                reading("1 min"@, ""@, single(a as int, 1_000_000)),
                reading("5 min"@, ""@, single(b as int, 1_000_000)),
                reading("15 min"@, ""@, single(c as int, 1_000_000)),
            ]);
            Some(
                GroupReading {
                    category: "CPU".to_owned(),
                    name: "Load Average".to_owned(),
                    readings: rs,
                },
            )
        },
    }
}

// ── Memory ───────────────────────────────────────────────────────────────────

/// `s` without the colons at its end.
pub open spec fn without_colons(s: Seq<char>) -> Seq<char>
    decreases s.len(),
{
    if s.len() > 0 && s.last() == ':' {
        without_colons(s.drop_last())
    } else {
        s
    }
}

/// A line of `meminfo` names `key` and gives a number.
pub open spec fn mem_line(line: Seq<char>, key: Seq<char>) -> Option<u64> {
    let w = words(line);
    if w.len() >= 2 && without_colons(w[0]) == key {
        match parse_nat(w[1], u64::MAX as nat) {
            Some(n) => Some(n as u64),
            None => None,
        }
    } else {
        None
    }
}

/// The number that the last line with a key gives, 0 where there is none.
pub open spec fn mem_value(ls: Seq<Seq<char>>, key: Seq<char>) -> u64
    decreases ls.len(),
{
    if ls.len() == 0 {
        0
    } else {
        match mem_line(ls.last(), key) {
            Some(n) => n,
            None => mem_value(ls.drop_last(), key),
        }
    }
}

/// Drops the colons at the end.
fn drop_colons(s: &[char]) -> (r: Vec<char>)
    ensures
        r@ == without_colons(s@),
{
    let mut n: usize = s.len();
    assert(s@.take(n as int) =~= s@);
    while n > 0 && s[n - 1] == ':'
        invariant
            n <= s.len(),
            without_colons(s@) == without_colons(s@.take(n as int)),
        decreases n,
    {
        assert(s@.take(n as int).drop_last() =~= s@.take(n - 1));
        n -= 1;
    }
    assert(s@.subrange(0, n as int) =~= s@.take(n as int));
    sub_chars(s, 0, n)
}

/// Finds the number that the last line with a key gives.
fn find_mem(ls: &Vec<Vec<char>>, key: &str) -> (r: u64)
    ensures
        r == mem_value(views(ls@), key@),
{
    let ghost all = views(ls@);
    let mut n: usize = ls.len();
    assert(all.take(n as int) =~= all);
    while n > 0
        invariant
            n <= ls.len(),
            all == views(ls@),
            mem_value(all, key@) == mem_value(all.take(n as int), key@),
        decreases n,
    {
        assert(all.take(n as int).drop_last() =~= all.take(n - 1));
        assert(all.take(n as int).last() == ls@[n - 1]@);
        let w = words_of(&ls[n - 1]);
        let ghost wv = views(w@);
        if w.len() >= 2 {
            assert(wv[0] == w@[0]@ && wv[1] == w@[1]@);
            let k = drop_colons(&w[0]);
            if is_text(&k, key) {
                if let Some(v) = read_u64(&w[1]) {
                    return v;
                }
            }
        }
        n -= 1;
    }
    0
}

/// A number of KiB in GiB.
pub open spec fn gib(kib: u64) -> Number {
    share(kib, 1_048_576)
}

/// The memory readings of `meminfo`.
pub open spec fn mem_readings(ls: Seq<Seq<char>>) -> Seq<ReadingView> {
    let total = mem_value(ls, "MemTotal"@);
    let available = mem_value(ls, "MemAvailable"@);
    let swap = mem_value(ls, "SwapTotal"@);
    let base = seq![
        reading("Total"@, "GiB"@, gib(total)),
        reading("Used"@, "GiB"@, single_difference(gib(total), gib(available))),
        reading("Available"@, "GiB"@, gib(available)),
        reading("Buffers"@, "GiB"@, gib(mem_value(ls, "Buffers"@))),
        reading("Cached"@, "GiB"@, gib(mem_value(ls, "Cached"@))),
    ];
    if swap > 0 {
        base.push(reading("Swap Total"@, "GiB"@, gib(swap))).push(
            reading("Swap Used"@, "GiB"@, single_difference(
                gib(swap),
                gib(mem_value(ls, "SwapFree"@)),
            )),
        )
    } else {
        base
    }
}

/// The memory readings of the text of `meminfo`. Swap is listed where there is any.
pub fn collect_meminfo(text: &str) -> (r: GroupReading)
    ensures
        r@ == (GroupReadingView {
            category: "Memory"@,
            name: "RAM"@,
            readings: mem_readings(lines(text@)),
        }),
{
    let ls = text_lines(text);
    let total: u64 = find_mem(&ls, "MemTotal");
    let available: u64 = find_mem(&ls, "MemAvailable");
    let swap: u64 = find_mem(&ls, "SwapTotal");
    let mut rs: Vec<Reading> = Vec::new();
    rs.push(make_reading("Total", "GiB", divide(total, 1_048_576)));
    rs.push(make_reading("Used", "GiB", divide(total, 1_048_576).minus(divide(available, 1_048_576))));
    rs.push(make_reading("Available", "GiB", divide(available, 1_048_576)));
    rs.push(make_reading("Buffers", "GiB", divide(find_mem(&ls, "Buffers"), 1_048_576)));
    rs.push(make_reading("Cached", "GiB", divide(find_mem(&ls, "Cached"), 1_048_576)));
    if swap > 0 {
        rs.push(make_reading("Swap Total", "GiB", divide(swap, 1_048_576)));
        rs.push(make_reading("Swap Used", "GiB", divide(swap, 1_048_576).minus(divide(find_mem(&ls, "SwapFree"), 1_048_576))));
    }
    assert(reading_views(rs@) =~= mem_readings(lines(text@)));
    GroupReading { category: "Memory".to_owned(), name: "RAM".to_owned(), readings: rs }
}

// ── Disks and networks ───────────────────────────────────────────────────────

/// A word as a number, 0 where it is none.
pub open spec fn number_or_zero(s: Seq<char>) -> u64 {
    match parse_nat(s, u64::MAX as nat) {
        Some(n) => n as u64,
        None => 0,
    }
}

/// Reads a word as a number.
fn read_or_zero(s: &[char]) -> (n: u64)
    ensures
        n == number_or_zero(s@),
{
    match read_u64(s) {
        Some(n) => n,
        None => 0,
    }
}

/// A part of a disk: its name ends in a digit, though it is neither an NVMe nor an
/// SD device.
pub open spec fn is_partition(dev: Seq<char>) -> bool {
    dev.len() > 0 && is_digit(dev.last()) && !has_prefix(dev, "nvme"@) && !has_prefix(
        dev,
        "mmcblk"@,
    )
}

/// A whole disk in a line of `diskstats`, with the sectors read and written.
pub open spec fn disk_line(line: Seq<char>) -> Option<(Seq<char>, (u64, u64))> {
    let w = words(line);
    if w.len() < 14 || is_partition(w[2]) {
        None
    } else {
        Some((w[2], (number_or_zero(w[5]), number_or_zero(w[9]))))
    }
}

/// An interface in a line of `net/dev`, with the bytes received and sent.
pub open spec fn net_line(line: Seq<char>) -> Option<(Seq<char>, (u64, u64))> {
    match split_first(trim(line), ':') {
        None => None,
        Some((a, b)) => {
            let w = words(b);
            if trim(a) == "lo"@ || w.len() < 9 {
                None
            } else {
                Some((trim(a), (number_or_zero(w[0]), number_or_zero(w[8]))))
            }
        },
    }
}

/// The counters in the first `n` lines, `from` on; a later line of the same name
/// counts.
pub open spec fn counters(
    ls: Seq<Seq<char>>,
    from: nat,
    n: nat,
    net: bool,
) -> Map<Seq<char>, (u64, u64)>
    decreases n,
{
    if n <= from {
        Map::empty()
    } else {
        let before = counters(ls, from, (n - 1) as nat, net);
        let entry = if net {
            net_line(ls[n - 1])
        } else {
            disk_line(ls[n - 1])
        };
        match entry {
            Some((k, v)) => before.insert(k, v),
            None => before,
        }
    }
}

/// Reads a line of `diskstats`.
fn read_disk_line(line: &[char]) -> (r: Option<(String, (u64, u64))>)
    ensures
        match r {
            Some((k, v)) => disk_line(line@) == Some((k@, v)),
            None => disk_line(line@) is None,
        },
{
    let w = words_of(line);
    let ghost wv = views(w@);
    if w.len() < 14 {
        return None;
    }
    assert(wv[2] == w@[2]@ && wv[5] == w@[5]@ && wv[9] == w@[9]@);
    let dev = &w[2];
    let n: usize = dev.len();
    let digit = if n > 0 {
        let c: char = dev[n - 1];
        '0' <= c && c <= '9'
    } else {
        false
    };
    if digit && !begins_with(dev, "nvme") && !begins_with(dev, "mmcblk") {
        return None;
    }
    Some((text_of(dev), (read_or_zero(&w[5]), read_or_zero(&w[9]))))
}

/// Reads a line of `net/dev`.
fn read_net_line(line: &[char]) -> (r: Option<(String, (u64, u64))>)
    ensures
        match r {
            Some((k, v)) => net_line(line@) == Some((k@, v)),
            None => net_line(line@) is None,
        },
{
    let t = trimmed(line);
    match split_once_at(&t, ':') {
        None => None,
        Some((a, b)) => {
            let name = trimmed(&a);
            if is_text(&name, "lo") {
                return None;
            }
            let w = words_of(&b);
            let ghost wv = views(w@);
            if w.len() < 9 {
                return None;
            }
            assert(wv[0] == w@[0]@ && wv[8] == w@[8]@);
            Some((text_of(&name), (read_or_zero(&w[0]), read_or_zero(&w[8]))))
        },
    }
}

/// Reads the counters of all devices.
fn read_counters(text: &str, from: usize, net: bool) -> (r: NameMap<(u64, u64)>)
    ensures
        r@ == counters(lines(text@), from as nat, lines(text@).len(), net),
{
    let ls = text_lines(text);
    let ghost all = views(ls@);
    let mut r: NameMap<(u64, u64)> = NameMap::new();
    let mut i: usize = 0;
    while i < ls.len()
        invariant
            i <= ls.len(),
            all == views(ls@),
            r@ == counters(all, from as nat, i as nat, net),
        decreases ls.len() - i,
    {
        assert(all[i as int] == ls@[i as int]@);
        if i >= from {
            let entry = if net {
                read_net_line(&ls[i])
            } else {
                read_disk_line(&ls[i])
            };
            if let Some((k, v)) = entry {
                r.insert(k, v);
            }
        }
        i += 1;
    }
    r
}

/// The sectors read and written of the whole disks, from the text of `diskstats`.
pub fn read_disk_raw(text: &str) -> (r: NameMap<(u64, u64)>)
    ensures
        r@ == counters(lines(text@), 0, lines(text@).len(), false),
{
    read_counters(text, 0, false)
}

/// The bytes received and sent of the interfaces other than the loopback, from the
/// text of `net/dev`, whose first two lines are headings.
pub fn read_net_raw(text: &str) -> (r: NameMap<(u64, u64)>)
    ensures
        r@ == counters(lines(text@), 2, lines(text@).len(), true),
{
    read_counters(text, 2, true)
}

/// A time in milliseconds, in seconds: the whole seconds and what is left are held on
/// their own.
pub open spec fn seconds(ms: nat) -> Number {
    single_sum(
        single(ms as int / 1000, 1),
        single_quotient(single(ms as int % 1000 * 1_000_000, 1), single(1_000_000_000, 1)),
    )
}

/// A rate in MB/s: `now - before` units, of 512 bytes each on a disk, in `ms`
/// milliseconds.
pub open spec fn rate(now: u64, before: u64, disk: bool, ms: nat) -> Number {
    let units = single(
        if now >= before {
            now - before
        } else {
            0
        },
        1,
    );
    single_quotient(
        if disk {
            single_product(units, single(512, 1))
        } else {
            units
        },
        single_product(seconds(ms), single(1_048_576, 1)),
    )
}

/// The counters of a device the time before; as now where it was not there.
pub open spec fn earlier(prev: Map<Seq<char>, (u64, u64)>, name: Seq<char>, now: (u64, u64)) -> (
    u64,
    u64,
) {
    if prev.contains_key(name) {
        prev[name]
    } else {
        now
    }
}

/// The readings of one device.
pub open spec fn io_group(
    disk: bool,
    title: Seq<char>,
    now: (u64, u64),
    before: (u64, u64),
    ms: nat,
) -> GroupReadingView {
    GroupReadingView {
        category: if disk {
            "Storage"@
        } else {
            "Network"@
        },
        name: "I/O ["@ + title + "]"@,
        readings: seq![
            reading(
                if disk {
                    "Read"@
                } else {
                    "Receive"@
                },
                "MB/s"@,
                rate(now.0, before.0, disk, ms),
            ),
            reading(
                if disk {
                    "Write"@
                } else {
                    "Transmit"@
                },
                "MB/s"@,
                rate(now.1, before.1, disk, ms),
            ),
        ],
    }
}

/// The name of a device with its model, where that is known.
pub open spec fn device_label(name: Seq<char>, models: Map<Seq<char>, String>) -> Seq<char> {
    if models.contains_key(name) {
        name + " — "@ + trim(models[name]@)
    } else {
        name
    }
}

/// The readings of all devices, in the order of their names.
pub open spec fn io_groups(
    disk: bool,
    prev: Map<Seq<char>, (u64, u64)>,
    now: Map<Seq<char>, (u64, u64)>,
    models: Map<Seq<char>, String>,
    ms: nat,
) -> Seq<GroupReadingView> {
    let names = name_order(now.dom());
    Seq::new(
        names.len(),
        |i: int|
            io_group(
                disk,
                device_label(names[i], models),
                now[names[i]],
                earlier(prev, names[i], now[names[i]]),
                ms,
            ),
    )
}

/// A rate in MB/s.
fn compute_rate(now: u64, before: u64, disk: bool, ms: u64) -> (r: Single)
    requires
        ms >= 1,
    ensures
        r@ == rate(now, before, disk, ms as nat),
{
    let d: u64 = if now >= before {
        now - before
    } else {
        0
    };
    let count = Binary::single(d, 1);
    let sector = Binary::single(512, 1);
    assert(within(count@, 200) && within(sector@, 200));
    let units = if disk {
        count.times(sector, SINGLE)
    } else {
        count
    };
    assert(within(units@, 600));
    let whole = Binary::single(ms / 1000, 1);
    let nanos = Binary::single(ms % 1000 * 1_000_000, 1);
    let giga = Binary::single(1_000_000_000, 1);
    assert(within(nanos@, 200) && within(giga@, 200));
    let part = nanos.over(giga, SINGLE);
    assert(within(whole@, 600) && within(part@, 600));
    let time = whole.plus(part, SINGLE);
    proof {
        lemma_sum_is_positive(whole@, part@);
    }
    let mega = Binary::single(1_048_576, 1);
    assert(within(time@, 800) && within(mega@, 800));
    let per = time.times(mega, SINGLE);
    assert(within(units@, 1800) && within(per@, 1800));
    let r = units.over(per, SINGLE);
    assert(within(r@, 3800));
    Single::held(r)
}

/// The readings of all devices, in the order of their names.
fn collect_io(
    disk: bool,
    prev: &NameMap<(u64, u64)>,
    now: &NameMap<(u64, u64)>,
    models: &NameMap<String>,
    ms: u64,
) -> (r: Vec<GroupReading>)
    requires
        ms >= 1,
    ensures
        scan_views(r@) == io_groups(disk, prev@, now@, models@, ms as nat),
{
    let names = now.sorted_names();
    let ghost nv = texts(names@);
    let mut r: Vec<GroupReading> = Vec::new();
    let mut i: usize = 0;
    while i < names.len()
        invariant
            i <= names.len(),
            ms >= 1,
            nv == texts(names@),
            nv == name_order(now@.dom()),
            nv.to_set() == now@.dom(),
            r.len() == i,
            forall|k: int|
                0 <= k < i ==> (#[trigger] r[k])@ == io_groups(
                    disk,
                    prev@,
                    now@,
                    models@,
                    ms as nat,
                )[k],
        decreases names.len() - i,
    {
        let name = names[i].as_str();
        proof {
            assert(nv[i as int] == name@);
            assert(nv.contains(name@));
            assert(now@.dom().contains(name@));
        }
        let cur = match now.get(name) {
            Some(c) => *c,
            None => (0, 0),
        };
        let old_count = match prev.get(name) {
            Some(p) => *p,
            None => cur,
        };
        let mut title = "I/O [".to_owned();
        let mut label = name.to_owned();
        if let Some(m) = models.get(name) {
            label.append(" — ");
            let t = crate::text::trimmed_text(m.as_str());
            label.append(t.as_str());
        }
        title.append(label.as_str());
        title.append("]");
        let mut rs: Vec<Reading> = Vec::new();
        rs.push(
            make_reading(
                if disk {
                    "Read"
                } else {
                    "Receive"
                },
                "MB/s",
                compute_rate(cur.0, old_count.0, disk, ms),
            ),
        );
        rs.push(
            make_reading(
                if disk {
                    "Write"
                } else {
                    "Transmit"
                },
                "MB/s",
                compute_rate(cur.1, old_count.1, disk, ms),
            ),
        );
        let g = GroupReading {
            category: (if disk {
                "Storage"
            } else {
                "Network"
            }).to_owned(),
            name: title,
            readings: rs,
        };
        proof {
            let want = io_groups(disk, prev@, now@, models@, ms as nat)[i as int];
            assert(g@.readings =~= want.readings);
            assert(g@ == want);
        }
        r.push(g);
        i += 1;
    }
    assert(scan_views(r@) =~= io_groups(disk, prev@, now@, models@, ms as nat));
    r
}

/// The model of a disk, from its file.
pub fn block_device_model(text: Option<&str>) -> (r: Option<String>)
    ensures
        opt_text(r) == match text {
            Some(t) => Some(trim(t@)),
            None => None,
        },
{
    match text {
        Some(t) => Some(trimmed_text(t)),
        None => None,
    }
}

/// The disk rates since the counters `prev` were read, `ms` milliseconds ago.
pub fn collect_disk_io(
    prev: &NameMap<(u64, u64)>,
    now: &NameMap<(u64, u64)>,
    models: &NameMap<String>,
    ms: u64,
) -> (r: Vec<GroupReading>)
    requires
        ms >= 1,
    ensures
        scan_views(r@) == io_groups(true, prev@, now@, models@, ms as nat),
{
    collect_io(true, prev, now, models, ms)
}

/// The network rates since the counters `prev` were read, `ms` milliseconds ago.
pub fn collect_net_io(
    prev: &NameMap<(u64, u64)>,
    now: &NameMap<(u64, u64)>,
    ms: u64,
) -> (r: Vec<GroupReading>)
    requires
        ms >= 1,
    ensures
        scan_views(r@) == io_groups(
            false,
            prev@,
            now@,
            Map::<Seq<char>, String>::empty(),
            ms as nat,
        ),
{
    let none: NameMap<String> = NameMap::new();
    collect_io(false, prev, now, &none, ms)
}

/// A value within one part in a million of `n / d`; 0 where `n` is.
pub open spec fn amounts_to(a: Number, n: int, d: int) -> bool {
    if n == 0 {
        a.mant == 0
    } else {
        !exceeds(a, n * 1_000_001, d * 1_000_000) && !falls_short(a, n * 999_999, d * 1_000_000)
    }
}

/// The quotient of two counts amounts to what it should be.
proof fn lemma_share(n: u64, d: u64)
    requires
        d > 0,
    ensures
        amounts_to(share(n, d), n as int, d as int),
{
    if n == 0 {
        lemma_zero_products(single(d as int, 1), single(0, 1), single(0, 1));
    } else {
        law_fractions_are_near(n, 1);
        law_fractions_are_near(d, 1);
        law_quotients_are_near(single(n as int, 1), n as int, 1, 1, single(d as int, 1), d as int, 1, 1);
        assert(n * 1 == n && 1 * d == d);
        law_near_is_within(share(n, d), n as int, d as int, 4);
    }
}

/// A rate amounts to the growth of a counter over the time, in MiB per second.
proof fn lemma_rate(now: u64, before: u64, disk: bool, ms: u64)
    requires
        0 < ms < 16_777_216_000,
    ensures
        amounts_to(
            rate(now, before, disk, ms as nat),
            if now >= before {
                (now - before) * (if disk {
                    512int
                } else {
                    1
                }) * 1000
            } else {
                0
            },
            ms * 1_048_576,
        ),
{
    let h: int = 100;
    let (secs, part) = (ms / 1000, ms % 1000);
    law_times_are_near(
        secs,
        part,
        single_quotient(single(part * 1_000_000, 1), single(1_000_000_000, 1)),
    );
    let t = seconds(ms as nat);
    assert(secs * 1000 + part == ms);
    law_whole_numbers_are_exact(1_048_576);
    law_whole_numbers_are_exact(512);
    let mib = single(1_048_576, 1);
    law_products_are_near(t, ms as int, 1000, 6, mib, 1_048_576, 1, 0);
    let g: u64 = if now >= before {
        (now - before) as u64
    } else {
        0
    };
    let units = single(g as int, 1);
    let bottom = single_product(t, mib);
    assert(within(bottom, 300 + h + 100));
    if g == 0 {
        lemma_zero_products(bottom, single(512, 1), single(512, 1));
    } else {
        law_fractions_are_near(g, 1);
        let f: int = if disk {
            512
        } else {
            1
        };
        let top = if disk {
            single_product(units, single(512, 1))
        } else {
            units
        };
        if disk {
            law_products_are_near(units, g as int, 1, 1, single(512, 1), 512, 1, 0);
            assert(within(top, h + h + 100));
        } else {
            lemma_other_fraction(units, g as int, 1, 1, g * f, 1, 3);
        }
        assert(g * f > 0) by (nonlinear_arith)
            requires
                g > 0,
                f > 0,
        ;
        law_quotients_are_near(top, g * f, 1, 3, bottom, ms * 1_048_576, 1000, 8);
        let (x, y) = ((g * f) * 1000, 1 * (ms * 1_048_576));
        law_near_is_within(single_quotient(top, bottom), x, y, 13);
        assert(x > 0);
    }
}

/// Disk rates are what was read and written since the last look, a sector having 512
/// bytes, over the time between, in MiB per second; a disk that was not seen before shows
/// none.
pub proof fn law_disk_rates_are_sectors_over_time(
    prev: &NameMap<(u64, u64)>,
    now: &NameMap<(u64, u64)>,
    models: &NameMap<String>,
    ms: u64,
    r: Vec<GroupReading>,
    i: int,
)
    requires
        call_ensures(collect_disk_io, (prev, now, models, ms), r),
        0 < ms < 16_777_216_000,
        0 <= i < r@.len(),
    ensures
        r@.len() == name_order(now@.dom()).len(),
        ({
            let k = name_order(now@.dom())[i];
            let (a, b) = if prev@.contains_key(k) {
                prev@[k]
            } else {
                now@[k]
            };
            let (x, y) = now@[k];
            &&& r@[i]@.category == "Storage"@
            &&& r@[i]@.readings.len() == 2
            &&& r@[i]@.readings[0].label == "Read"@ && r@[i]@.readings[0].unit == "MB/s"@
            &&& r@[i]@.readings[1].label == "Write"@ && r@[i]@.readings[1].unit == "MB/s"@
            &&& a <= x ==> amounts_to(r@[i]@.readings[0].value, (x - a) * 512 * 1000, ms * 1_048_576)
            &&& b <= y ==> amounts_to(r@[i]@.readings[1].value, (y - b) * 512 * 1000, ms * 1_048_576)
            &&& a > x ==> r@[i]@.readings[0].value.mant == 0
            &&& b > y ==> r@[i]@.readings[1].value.mant == 0
        }),
{
    let k = name_order(now@.dom())[i];
    let (a, b) = earlier(prev@, k, now@[k]);
    assert(scan_views(r@).len() == r@.len());
    assert(r@[i]@ == scan_views(r@)[i]);
    lemma_rate(now@[k].0, a, true, ms);
    lemma_rate(now@[k].1, b, true, ms);
}

/// Network rates are what was received and sent since the last look over the time
/// between, in MiB per second; an interface that was not seen before shows none.
pub proof fn law_network_rates_are_bytes_over_time(
    prev: &NameMap<(u64, u64)>,
    now: &NameMap<(u64, u64)>,
    ms: u64,
    r: Vec<GroupReading>,
    i: int,
)
    requires
        call_ensures(collect_net_io, (prev, now, ms), r),
        0 < ms < 16_777_216_000,
        0 <= i < r@.len(),
    ensures
        r@.len() == name_order(now@.dom()).len(),
        ({
            let k = name_order(now@.dom())[i];
            let (a, b) = if prev@.contains_key(k) {
                prev@[k]
            } else {
                now@[k]
            };
            let (x, y) = now@[k];
            &&& r@[i]@.category == "Network"@
            &&& r@[i]@.name == "I/O ["@ + k + "]"@
            &&& r@[i]@.readings.len() == 2
            &&& r@[i]@.readings[0].label == "Receive"@ && r@[i]@.readings[0].unit == "MB/s"@
            &&& r@[i]@.readings[1].label == "Transmit"@ && r@[i]@.readings[1].unit == "MB/s"@
            &&& a <= x ==> amounts_to(r@[i]@.readings[0].value, (x - a) * 1000, ms * 1_048_576)
            &&& b <= y ==> amounts_to(r@[i]@.readings[1].value, (y - b) * 1000, ms * 1_048_576)
            &&& a > x ==> r@[i]@.readings[0].value.mant == 0
            &&& b > y ==> r@[i]@.readings[1].value.mant == 0
        }),
{
    let k = name_order(now@.dom())[i];
    let (a, b) = earlier(prev@, k, now@[k]);
    assert(scan_views(r@).len() == r@.len());
    assert(r@[i]@ == scan_views(r@)[i]);
    lemma_rate(now@[k].0, a, false, ms);
    lemma_rate(now@[k].1, b, false, ms);
}

/// The line gives the counters of the device.
spec fn tells_of(line: Seq<char>, net: bool, name: Seq<char>, v: (u64, u64)) -> bool {
    (if net {
        net_line(line)
    } else {
        disk_line(line)
    }) == Some((name, v))
}

/// The counters of the last line that has the name.
proof fn lemma_counters(
    ls: Seq<Seq<char>>,
    from: nat,
    n: nat,
    net: bool,
    i: int,
    name: Seq<char>,
    v: (u64, u64),
)
    requires
        from <= i < n <= ls.len(),
        tells_of(ls[i], net, name, v),
        forall|k: int, w: (u64, u64)| i < k < n ==> !(#[trigger] tells_of(ls[k], net, name, w)),
    ensures
        counters(ls, from, n, net).contains_key(name),
        counters(ls, from, n, net)[name] == v,
    decreases n,
{
    if i < n - 1 {
        lemma_counters(ls, from, (n - 1) as nat, net, i, name, v);
        let e = if net {
            net_line(ls[n - 1])
        } else {
            disk_line(ls[n - 1])
        };
        if let Some((k, w)) = e {
            if k == name {
                assert(tells_of(ls[n - 1], net, name, w));
            }
        }
    }
}

/// The third word of a line names a disk, the sixth counts the sectors read and the tenth
/// those written. Partitions, whose names end in a digit, are not disks.
pub proof fn law_disk_counters_are_sectors(
    text: &str,
    r: NameMap<(u64, u64)>,
    i: int,
    read: u64,
    written: u64,
)
    requires
        call_ensures(read_disk_raw, (text,), r),
        0 <= i < lines(text@).len(),
        words(lines(text@)[i]).len() >= 14,
        words(lines(text@)[i])[5] == dec(read as nat),
        words(lines(text@)[i])[9] == dec(written as nat),
        words(lines(text@)[i])[2].len() > 0,
        !('0' <= words(lines(text@)[i])[2].last() <= '9'),
        forall|k: int| i < k < lines(text@).len() && words(#[trigger] lines(text@)[k]).len() >= 14
            ==> words(lines(text@)[k])[2] != words(lines(text@)[i])[2],
    ensures
        r@.contains_key(words(lines(text@)[i])[2]),
        r@[words(lines(text@)[i])[2]] == (read, written),
{
    let ls = lines(text@);
    law_decimal_round_trip(read as nat, u64::MAX as nat);
    law_decimal_round_trip(written as nat, u64::MAX as nat);
    assert(disk_line(ls[i]) == Some((words(ls[i])[2], (read, written))));
    let name = words(ls[i])[2];
    assert forall|k: int, w: (u64, u64)| i < k < ls.len() implies !(#[trigger] tells_of(
        ls[k],
        false,
        name,
        w,
    )) by {
        assert(words(ls[k]).len() >= 14 ==> words(ls[k])[2] != words(ls[i])[2]);
    }
    lemma_counters(ls, 0, ls.len(), false, i, name, (read, written));
}

/// A partition has no counters of its own.
pub proof fn law_partitions_are_left_out(text: &str, r: NameMap<(u64, u64)>, name: Seq<char>)
    requires
        call_ensures(read_disk_raw, (text,), r),
        name.len() > 0,
        '0' <= name.last() <= '9',
        name.take(1) != seq!['n'],
        name.take(1) != seq!['m'],
    ensures
        !r@.contains_key(name),
{
    reveal_strlit("nvme");
    reveal_strlit("mmcblk");
    if has_prefix(name, "nvme"@) {
        assert(name.take(1) =~= seq!['n']) by {
            assert(name.take(4)[0] == 'n');
        }
    }
    if has_prefix(name, "mmcblk"@) {
        assert(name.take(1) =~= seq!['m']) by {
            assert(name.take(6)[0] == 'm');
        }
    }
    lemma_partitions(lines(text@), 0, lines(text@).len(), name);
}

/// No line gives counters of a partition.
proof fn lemma_partitions(ls: Seq<Seq<char>>, from: nat, n: nat, name: Seq<char>)
    requires
        is_partition(name),
        n <= ls.len(),
    ensures
        !counters(ls, from, n, false).contains_key(name),
    decreases n,
{
    if n > from {
        lemma_partitions(ls, from, (n - 1) as nat, name);
    }
}

/// Behind the name and a colon, the first number counts the bytes received and the ninth
/// those sent.
pub proof fn law_network_counters_are_bytes(
    text: &str,
    r: NameMap<(u64, u64)>,
    i: int,
    name: Seq<char>,
    behind: Seq<char>,
    received: u64,
    sent: u64,
)
    requires
        call_ensures(read_net_raw, (text,), r),
        2 <= i < lines(text@).len(),
        trim(lines(text@)[i]) == name + seq![':'] + behind,
        !name.contains(':'),
        trim(name) == name,
        name != "lo"@,
        words(behind).len() >= 9,
        words(behind)[0] == dec(received as nat),
        words(behind)[8] == dec(sent as nat),
        forall|k: int| i < k < lines(text@).len() ==> !has_substring(
            #[trigger] lines(text@)[k],
            name,
        ),
    ensures
        r@.contains_key(name),
        r@[name] == (received, sent),
{
    let ls = lines(text@);
    law_decimal_round_trip(received as nat, u64::MAX as nat);
    law_decimal_round_trip(sent as nat, u64::MAX as nat);
    law_cut_at_the_first(name, behind, ':');
    assert(net_line(ls[i]) == Some((name, (received, sent))));
    assert forall|k: int, w: (u64, u64)| i < k < ls.len() implies !(#[trigger] tells_of(
        ls[k],
        true,
        name,
        w,
    )) by {
        let t = trim(ls[k]);
        assert(!has_substring(ls[k], name));
        if tells_of(ls[k], true, name, w) {
            let (a, b) = split_first(t, ':')->0;
            assert(trim(a) == name);
            law_cut_leaves_both_sides(t, ':');
            law_trimmed_text_is_a_part(a);
            assert(t =~= Seq::<char>::empty() + a + (seq![':'] + b));
            law_parts_of_parts(t, Seq::empty(), a, seq![':'] + b, name);
            law_trimmed_text_is_a_part(ls[k]);
            law_substring_stands_between(ls[k], t);
            let (x, y) = choose|x: Seq<char>, y: Seq<char>| ls[k] == #[trigger] (x + t + y);
            law_parts_of_parts(ls[k], x, t, y, name);
        }
    }
    lemma_counters(ls, 2, ls.len(), true, i, name, (received, sent));
}

/// A channel that is one of the first `n` and can be read has its reading among theirs.
proof fn lemma_channel_readings(k: ChannelKind, c: Seq<Channel>, n: nat, i: int)
    requires
        0 <= i < n <= c.len(),
        channel_reading(k, c[i]) is Some,
    ensures
        channel_readings(k, c, n).contains(channel_reading(k, c[i])->0),
    decreases n,
{
    let x = channel_reading(k, c[i])->0;
    let before = channel_readings(k, c, (n - 1) as nat);
    let all = channel_readings(k, c, n);
    if i == n - 1 {
        assert(all[before.len() as int] == x);
    } else {
        lemma_channel_readings(k, c, (n - 1) as nat, i);
        let j = choose|j: int| 0 <= j < before.len() && before[j] == x;
        assert(all[j] == x);
    }
}

/// The device has a reading in the unit that amounts to `n / d`.
pub open spec fn shows(r: Seq<ReadingView>, unit: Seq<char>, n: int, d: int) -> bool {
    exists|j: int| 0 <= j < r.len() && (#[trigger] r[j]).unit == unit && amounts_to(r[j].value, n, d)
}

/// The channel holds the count `v`, with blanks behind it.
pub open spec fn holds_count(c: Channel, v: u64, blanks: Seq<char>) -> bool {
    &&& c.input is Some
    &&& c.input->0@ == dec(v as nat) + blanks
    &&& forall|i: int| 0 <= i < blanks.len() ==> is_space(#[trigger] blanks[i])
}

/// What a channel that holds a count reads.
proof fn lemma_held_count(k: ChannelKind, c: Channel, v: u64, blanks: Seq<char>)
    requires
        holds_count(c, v, blanks),
    ensures
        channel_reading(k, c) is Some,
        channel_reading(k, c)->0.value == channel_value(k, v),
        channel_reading(k, c)->0.unit == channel_unit(k),
{
    law_blanks_around_numbers_are_dropped(Seq::empty(), v as nat, blanks);
    assert(Seq::<char>::empty() + dec(v as nat) + blanks =~= dec(v as nat) + blanks);
    law_decimal_round_trip(v as nat, u64::MAX as nat);
}

/// Temperatures come in thousandths of a degree, fans in turns per minute, power in
/// millionths of a watt, voltages in thousandths of a volt, frequencies in hertz.
pub proof fn law_channels_are_read_in_their_units(
    d: &HwmonDevice,
    r: Vec<Reading>,
    i: int,
    v: u64,
    blanks: Seq<char>,
)
    requires
        call_ensures(read_device, (d,), r),
        i >= 0,
    ensures
        i < d.temps@.len() && holds_count(d.temps@[i], v, blanks) ==> shows(
            reading_views(r@),
            "°C"@,
            v as int,
            1000,
        ),
        i < d.fans@.len() && holds_count(d.fans@[i], v, blanks) ==> shows(
            reading_views(r@),
            "RPM"@,
            v as int,
            1,
        ),
        i < d.powers@.len() && holds_count(d.powers@[i], v, blanks) ==> shows(
            reading_views(r@),
            "W"@,
            v as int,
            1_000_000,
        ),
        i < d.voltages@.len() && holds_count(d.voltages@[i], v, blanks) ==> shows(
            reading_views(r@),
            "V"@,
            v as int,
            1000,
        ),
        i < d.freqs@.len() && holds_count(d.freqs@[i], v, blanks) ==> shows(
            reading_views(r@),
            "MHz"@,
            v as int,
            1_000_000,
        ),
{
    let all = reading_views(r@);
    lemma_share(v, 1000);
    lemma_share(v, 1_000_000);
    if v == 0 {
        assert(amounts_to(single(v as int, 1), 0, 1));
    } else {
        law_fractions_are_near(v, 1);
        law_near_is_within(single(v as int, 1), v as int, 1, 1);
        assert(amounts_to(single(v as int, 1), v as int, 1));
    }
    let t = channel_readings(ChannelKind::Temp, d.temps@, d.temps@.len());
    let f = channel_readings(ChannelKind::Fan, d.fans@, d.fans@.len());
    let p = channel_readings(ChannelKind::Power, d.powers@, d.powers@.len());
    let u = channel_readings(ChannelKind::Voltage, d.voltages@, d.voltages@.len());
    let q = channel_readings(ChannelKind::Freq, d.freqs@, d.freqs@.len());
    if i < d.temps@.len() && holds_count(d.temps@[i], v, blanks) {
        lemma_held_count(ChannelKind::Temp, d.temps@[i], v, blanks);
        lemma_channel_readings(ChannelKind::Temp, d.temps@, d.temps@.len(), i);
        let x = channel_reading(ChannelKind::Temp, d.temps@[i])->0;
        let j = choose|j: int| 0 <= j < t.len() && t[j] == x;
        assert(all[j] == x);
    }
    if i < d.fans@.len() && holds_count(d.fans@[i], v, blanks) {
        lemma_held_count(ChannelKind::Fan, d.fans@[i], v, blanks);
        lemma_channel_readings(ChannelKind::Fan, d.fans@, d.fans@.len(), i);
        let x = channel_reading(ChannelKind::Fan, d.fans@[i])->0;
        let j = choose|j: int| 0 <= j < f.len() && f[j] == x;
        assert(all[t.len() + j] == x);
    }
    if i < d.powers@.len() && holds_count(d.powers@[i], v, blanks) {
        lemma_held_count(ChannelKind::Power, d.powers@[i], v, blanks);
        lemma_channel_readings(ChannelKind::Power, d.powers@, d.powers@.len(), i);
        let x = channel_reading(ChannelKind::Power, d.powers@[i])->0;
        let j = choose|j: int| 0 <= j < p.len() && p[j] == x;
        assert(all[t.len() + f.len() + j] == x);
    }
    if i < d.voltages@.len() && holds_count(d.voltages@[i], v, blanks) {
        lemma_held_count(ChannelKind::Voltage, d.voltages@[i], v, blanks);
        lemma_channel_readings(ChannelKind::Voltage, d.voltages@, d.voltages@.len(), i);
        let x = channel_reading(ChannelKind::Voltage, d.voltages@[i])->0;
        let j = choose|j: int| 0 <= j < u.len() && u[j] == x;
        assert(all[t.len() + f.len() + p.len() + j] == x);
    }
    if i < d.freqs@.len() && holds_count(d.freqs@[i], v, blanks) {
        lemma_held_count(ChannelKind::Freq, d.freqs@[i], v, blanks);
        lemma_channel_readings(ChannelKind::Freq, d.freqs@, d.freqs@.len(), i);
        let x = channel_reading(ChannelKind::Freq, d.freqs@[i])->0;
        let j = choose|j: int| 0 <= j < q.len() && q[j] == x;
        assert(all[t.len() + f.len() + p.len() + u.len() + j] == x);
    }
}

/// The frequencies of the CPUs come in kilohertz and are shown in megahertz, each under
/// the number of its CPU.
pub proof fn law_frequencies_are_in_megahertz(
    freqs: &Vec<(u32, u64)>,
    r: Option<GroupReading>,
    i: int,
)
    requires
        call_ensures(collect_cpu_freqs, (freqs,), r),
        0 <= i < freqs@.len(),
    ensures
        r is Some,
        r->0@.readings.len() == freqs@.len(),
        r->0@.readings[i].label == "CPU "@ + dec(freqs@[i].0 as nat),
        r->0@.readings[i].unit == "MHz"@,
        amounts_to(r->0@.readings[i].value, freqs@[i].1 as int, 1000),
{
    lemma_share(freqs@[i].1, 1000);
}

/// A line of the memory file: the key, a colon, blanks, a number of KiB.
pub open spec fn tells_memory(line: Seq<char>, key: Seq<char>, kib: u64) -> bool {
    words(line).len() >= 2 && words(line)[0] == key + seq![':'] && words(line)[1] == dec(kib as nat)
}

/// The value of a key is the one in the last line with it.
proof fn lemma_mem_value(ls: Seq<Seq<char>>, key: Seq<char>, i: int, kib: u64)
    requires
        0 <= i < ls.len(),
        tells_memory(ls[i], key, kib),
        key.len() > 0,
        key.last() != ':',
        forall|k: int| i < k < ls.len() ==> !has_prefix(#[trigger] ls[k], key),
        forall|k: int| i < k < ls.len() && words(#[trigger] ls[k]).len() >= 1 ==> !has_prefix(
            words(ls[k])[0],
            key,
        ),
    ensures
        mem_value(ls, key) == kib,
    decreases ls.len(),
{
    let w = key + seq![':'];
    if i == ls.len() - 1 {
        assert(w.drop_last() =~= key);
        assert(without_colons(w) == without_colons(key));
        law_decimal_round_trip(kib as nat, u64::MAX as nat);
    } else {
        let last = ls[ls.len() - 1];
        assert(words(last).len() >= 1 ==> !has_prefix(words(last)[0], key));
        if words(last).len() >= 1 {
            lemma_without_colons(words(last)[0]);
        }
        let d = ls.drop_last();
        assert forall|k: int| i < k < d.len() implies !has_prefix(#[trigger] d[k], key) by {
            assert(ls[k] == d[k]);
        }
        assert forall|k: int| i < k < d.len() && words(#[trigger] d[k]).len() >= 1 implies !has_prefix(
            words(d[k])[0],
            key,
        ) by {
            assert(ls[k] == d[k]);
        }
        lemma_mem_value(d, key, i, kib);
    }
}

/// A word without its colons is its beginning.
proof fn lemma_without_colons(s: Seq<char>)
    ensures
        without_colons(s).len() <= s.len(),
        has_prefix(s, without_colons(s)),
    decreases s.len(),
{
    if s.len() > 0 && s.last() == ':' {
        lemma_without_colons(s.drop_last());
        let p = without_colons(s);
        assert(s.take(p.len() as int) =~= s.drop_last().take(p.len() as int));
    } else {
        assert(s.take(s.len() as int) =~= s);
    }
}

/// The memory file gives KiB, which are shown in GiB; what is used is what is not
/// available. Swap is shown where there is some.
pub proof fn law_memory_is_shown_in_gib(
    text: &str,
    r: GroupReading,
    at: (int, int, int),
    total: u64,
    available: u64,
    swap: u64,
)
    requires
        call_ensures(collect_meminfo, (text,), r),
        ({
            let ls = lines(text@);
            let (a, b, c) = at;
            &&& 0 <= a < ls.len() && tells_memory(ls[a], "MemTotal"@, total)
            &&& 0 <= b < ls.len() && tells_memory(ls[b], "MemAvailable"@, available)
            &&& 0 <= c < ls.len() && tells_memory(ls[c], "SwapTotal"@, swap)
            &&& forall|k: int| a < k < ls.len() ==> !starts_line(#[trigger] ls[k], "MemTotal"@)
            &&& forall|k: int| b < k < ls.len() ==> !starts_line(#[trigger] ls[k], "MemAvailable"@)
            &&& forall|k: int| c < k < ls.len() ==> !starts_line(#[trigger] ls[k], "SwapTotal"@)
        }),
    ensures
        ({
            let s = r@.readings;
            &&& s.len() == if swap > 0 {
                7int
            } else {
                5
            }
            &&& s[0].label == "Total"@ && amounts_to(s[0].value, total as int, 1_048_576)
            &&& s[1].label == "Used"@ && s[1].value == single_difference(s[0].value, s[2].value)
            &&& s[2].label == "Available"@ && amounts_to(s[2].value, available as int, 1_048_576)
            &&& swap > 0 ==> s[5].label == "Swap Total"@ && amounts_to(
                s[5].value,
                swap as int,
                1_048_576,
            )
            &&& forall|k: int| 0 <= k < s.len() ==> (#[trigger] s[k]).unit == "GiB"@
        }),
{
    let ls = lines(text@);
    reveal_strlit("MemTotal");
    reveal_strlit("MemAvailable");
    reveal_strlit("SwapTotal");
    lemma_last_line(ls, "MemTotal"@, at.0, total);
    lemma_last_line(ls, "MemAvailable"@, at.1, available);
    lemma_last_line(ls, "SwapTotal"@, at.2, swap);
    lemma_share(total, 1_048_576);
    lemma_share(available, 1_048_576);
    lemma_share(swap, 1_048_576);
}

/// The line begins with the key, or its first word does.
pub open spec fn starts_line(line: Seq<char>, key: Seq<char>) -> bool {
    has_prefix(line, key) || (words(line).len() >= 1 && has_prefix(words(line)[0], key))
}

/// The value of a key where no later line starts with it.
proof fn lemma_last_line(ls: Seq<Seq<char>>, key: Seq<char>, i: int, kib: u64)
    requires
        0 <= i < ls.len(),
        tells_memory(ls[i], key, kib),
        key.len() > 0,
        key.last() != ':',
        forall|k: int| i < k < ls.len() ==> !starts_line(#[trigger] ls[k], key),
    ensures
        mem_value(ls, key) == kib,
{
    assert forall|k: int| i < k < ls.len() implies !has_prefix(#[trigger] ls[k], key) by {
        assert(!starts_line(ls[k], key));
    }
    assert forall|k: int| i < k < ls.len() && words(#[trigger] ls[k]).len() >= 1 implies !has_prefix(
        words(ls[k])[0],
        key,
    ) by {
        assert(!starts_line(ls[k], key));
    }
    lemma_mem_value(ls, key, i, kib);
}

/// A whole number and a number with two digits behind the point are read in millionths.
pub proof fn law_decimals_are_read_in_millionths(s: &[char], r: Option<i64>, n: u32, c: char, d: char)
    requires
        call_ensures(read_micro, (s,), r),
        '0' <= c <= '9',
        '0' <= d <= '9',
    ensures
        s@ == dec(n as nat) ==> r is Some && r->0 == n * 1_000_000,
        s@ == dec(n as nat) + seq!['.', c, d] ==> r is Some && r->0 == n * 1_000_000 + (c as int - 48)
            * 100_000 + (d as int - 48) * 10_000,
        s@ == seq!['-'] + dec(n as nat) ==> r is Some && r->0 == -(n * 1_000_000),
{
    let w = dec(n as nat);
    lemma_dec_digits(n as nat);
    assert(is_digit(w[0]));
    assert(unsigned(w) == w);
    lemma_whole_micro(n);
    if s@ == w + seq!['.', c, d] {
        assert((w + seq!['.', c, d])[0] == w[0]);
        lemma_two_digits(n, c, d);
    }
    if s@ == seq!['-'] + w {
        assert((seq!['-'] + w).drop_first() =~= w);
    }
}

/// Nothing that starts with a digit spells a word.
proof fn lemma_spells_no_word(s: Seq<char>)
    requires
        s.len() > 0,
        is_digit(s[0]),
    ensures
        unsigned_micro(s) == finite_micro(s),
{
    reveal_strlit("inf");
    reveal_strlit("infinity");
    reveal_strlit("nan");
    let m = s.map_values(|c: char| small(c));
    assert(m[0] == s[0]);
}

/// Zeros behind a number.
proof fn lemma_zeros_behind(d: Seq<char>, k: nat)
    ensures
        digits_value(d + zeros(k)) == digits_value(d) * ten_to(k),
    decreases k,
{
    let s = d + zeros(k);
    if k == 0 {
        assert(s =~= d);
        assert(ten_to(0) == 1);
    } else {
        lemma_zeros_behind(d, (k - 1) as nat);
        assert(s.drop_last() =~= d + zeros((k - 1) as nat));
        assert(s.last() == '0');
        let (a, b) = (digits_value(d), ten_to((k - 1) as nat));
        assert((a * b) * 10 == a * (10 * b)) by (nonlinear_arith);
        assert(digits_value(s) == digits_value(s.drop_last()) * 10);
        assert(ten_to(k) == 10 * b);
    }
}

/// A power of ten.
spec fn ten_to(k: nat) -> nat
    decreases k,
{
    if k == 0 {
        1
    } else {
        10 * ten_to((k - 1) as nat)
    }
}

/// A whole number in millionths.
proof fn lemma_whole_micro(n: u32)
    ensures
        unsigned_micro(dec(n as nat)) == Some((n * 1_000_000) as i64),
{
    let w = dec(n as nat);
    lemma_dec_digits(n as nat);
    assert(is_digit(w[0]));
    lemma_spells_no_word(w);
    assert(!w.contains('e') && !w.contains('E') && !w.contains('.'));
    law_cut_at_the_first(w, w, 'e');
    law_cut_at_the_first(w, w, 'E');
    law_cut_at_the_first(w, w, '.');
    assert(w + Seq::<char>::empty() =~= w);
    lemma_zeros_behind(w, 6);
    reveal_with_fuel(ten_to, 8);
    assert(digits_value(shifted(w, 6)) == n * 1_000_000);
}

/// A number with two digits behind the point in millionths.
proof fn lemma_two_digits(n: u32, c: char, d: char)
    requires
        '0' <= c <= '9',
        '0' <= d <= '9',
    ensures
        unsigned_micro(dec(n as nat) + seq!['.', c, d]) == Some(
            (n * 1_000_000 + (c as int - 48) * 100_000 + (d as int - 48) * 10_000) as i64,
        ),
{
    let w = dec(n as nat);
    let s = w + seq!['.', c, d];
    let f = seq![c, d];
    lemma_dec_digits(n as nat);
    assert(is_digit(w[0]) && s[0] == w[0]);
    lemma_spells_no_word(s);
    assert(!w.contains('.'));
    assert(s =~= w + seq!['.'] + f);
    law_cut_at_the_first(w, f, '.');
    assert forall|i: int| 0 <= i < s.len() implies s[i] != 'e' && s[i] != 'E' by {
        if i < w.len() {
            assert(is_digit(w[i]));
        }
    }
    law_cut_at_the_first(s, s, 'e');
    law_cut_at_the_first(s, s, 'E');
    let v = w + f;
    assert(all_digits(f));
    assert(v.drop_last() =~= w.push(c));
    assert(v.drop_last().drop_last() =~= w);
    assert(digits_value(v) == (n * 10 + (c as int - 48)) * 10 + (d as int - 48)) by {
        assert(v.last() == d && v.drop_last().last() == c);
        assert(digits_value(v.drop_last()) == digits_value(w) * 10 + (c as int - 48));
    }
    lemma_zeros_behind(v, 4);
    reveal_with_fuel(ten_to, 6);
    assert(digits_value(shifted(v, 4)) == digits_value(v) * 10_000);
}

/// A memory module sits in the slot that the last digit of its address names.
pub proof fn law_slot_is_the_last_digit_of_the_address(
    device: Option<&str>,
    r: String,
    bus: Seq<char>,
    high: char,
    low: char,
)
    requires
        call_ensures(dimm_slot_name, (device,), r),
        '0' <= high <= '9',
        '0' <= low <= '9',
    ensures
        device is None ==> r@ == "DDR5"@,
        device is Some && device->0@ == bus + seq!['-', '0', '0', high, low] ==> r@ == "DDR5 Slot "@
            + dec((low as int - 48) as nat),
{
    if device is Some && device->0@ == bus + seq!['-', '0', '0', high, low] {
        let a = seq!['0', '0', high, low];
        assert(device->0@ =~= bus + seq!['-'] + a);
        crate::text::law_split_parts_at_any_separator(bus, a, '-');
        assert(!a.contains('-'));
        crate::text::law_pieces_end_at_separators(a, a, '-');
        crate::text::law_one_piece(a, '-');
        let p = split_on(bus, '-') + split_on(a, '-');
        assert(p.last() == a);
        let x = a.drop_last();
        let y = x.drop_last();
        let z = y.drop_last();
        assert(z.drop_last() =~= Seq::<char>::empty());
        assert(hex_value(z.drop_last()) == Some(0nat));
        assert(z.last() == '0' && y.last() == '0' && x.last() == high && a.last() == low);
        assert(hex_value(z) == Some(0nat));
        assert(hex_value(y) == Some(0nat));
        let h = (high as int - 48) as nat;
        let l = (low as int - 48) as nat;
        assert(hex_value(x) == Some(h));
        assert(hex_value(a) == Some((h * 16 + l) as nat));
        assert((h * 16 + l) % 16 == l);
    }
}

/// A field that holds a whole number is read as that number.
proof fn lemma_smi_field(n: u32)
    ensures
        amounts_to(smi_field(dec(n as nat)), n as int, 1),
        n > 0 ==> near(smi_field(dec(n as nat)), n as int, 1, 1),
        n > 0 ==> SINGLE <= smi_field(dec(n as nat)).mant < 2 * SINGLE,
        n > 0 ==> within(smi_field(dec(n as nat)), 100),
        n == 0 ==> smi_field(dec(n as nat)) == single(0, 1),
{
    let d = dec(n as nat);
    let none = Seq::<char>::empty();
    law_blanks_around_numbers_are_dropped(none, n as nat, none);
    assert(none + d + none =~= d);
    lemma_dec_digits(n as nat);
    assert(is_digit(d[0]));
    assert(unsigned(d) == d);
    lemma_whole_micro(n);
    let m: int = n * 1_000_000;
    assert(0 <= m <= 4_294_967_295_000_000);
    assert(trim(d) == d);
    assert(!is_negative(d));
    assert(unsigned_micro(d) == Some(m as i64));
    assert(parse_micro(d) == Some(m));
    let a = smi_field(d);
    lemma_read_field(d, m);
    if n > 0 {
        let v = m as u64;
        assert(v as int == m);
        law_fractions_are_near(v, 1_000_000);
        assert(m * 1 == n as int * 1_000_000);
        lemma_other_fraction(a, m, 1_000_000, 1, n as int, 1, 1);
        law_near_is_within(a, n as int, 1, 1);
    }
}

/// A field that is a number of millionths is read as that number.
proof fn lemma_read_field(s: Seq<char>, m: int)
    requires
        parse_micro(trim(s)) == Some(m),
    ensures
        smi_field(s) == single(m, 1_000_000),
{
    reveal(smi_field);
}

/// A text without a comma ends where the next separator stands.
proof fn lemma_next_field(f: Seq<char>, rest: Seq<char>, k: nat)
    requires
        !f.contains(','),
        k > 1,
    ensures
        pieces(f + ", "@ + rest, ", "@, k) == seq![f] + pieces(rest, ", "@, (k - 1) as nat),
{
    reveal_strlit(", ");
    let p = ", "@;
    let t = f + p.drop_last();
    assert(!has_substring(t, p)) by {
        if has_substring(t, p) {
            let i = choose|i: int| crate::text::occurs_at(t, p, i);
            assert(t.subrange(i, i + 2)[0] == ',');
            assert(t[i] == ',');
            assert(i < f.len());
            assert(f[i] == ',');
        }
    }
    crate::text::law_cut_at_the_first_text(f, p, rest);
}

/// The fields from `i` on, with a comma and a blank between them.
pub open spec fn fields_from(f: Seq<Seq<char>>, i: int) -> Seq<char>
    decreases f.len() - i,
{
    if i + 1 >= f.len() {
        f[i]
    } else {
        f[i] + ", "@ + fields_from(f, i + 1)
    }
}

/// Such a text is cut into its fields.
proof fn lemma_fields(f: Seq<Seq<char>>, i: int)
    requires
        0 <= i < f.len(),
        forall|k: int| 0 <= k < f.len() ==> !(#[trigger] f[k]).contains(','),
    ensures
        pieces(fields_from(f, i), ", "@, (f.len() - i) as nat) == f.skip(i),
    decreases f.len() - i,
{
    let n = (f.len() - i) as nat;
    let t = fields_from(f, i);
    assert(!f[i].contains(','));
    if i + 1 >= f.len() {
        lemma_last_field(t);
        assert(f.skip(i) =~= seq![f[i]]);
    } else {
        lemma_fields(f, i + 1);
        let rest = fields_from(f, i + 1);
        let q = pieces(rest, ", "@, (n - 1) as nat);
        assert(t == f[i] + ", "@ + rest);
        lemma_next_field(f[i], rest, n);
        assert(pieces(t, ", "@, n) == seq![f[i]] + q);
        lemma_skip_one(f, i);
    }
}

/// The last field is what is left.
proof fn lemma_last_field(t: Seq<char>)
    ensures
        pieces(t, ", "@, 1) == seq![t],
{
}

/// What follows a place is what stands there and what follows it.
proof fn lemma_skip_one(f: Seq<Seq<char>>, i: int)
    requires
        0 <= i < f.len(),
    ensures
        f.skip(i) == seq![f[i]] + f.skip(i + 1),
{
    assert(f.skip(i) =~= seq![f[i]] + f.skip(i + 1));
}

/// A line of the graphics card's tool gives, in this order, its name, temperature, power,
/// the two clocks, the two loads, and the memory used and in all, which are shown in GiB.
#[verifier::rlimit(60)]
pub proof fn law_graphics_line_gives_nine_fields(
    out: &str,
    r: Vec<GroupReading>,
    f: Seq<Seq<char>>,
    v: Seq<u32>,
)
    requires
        call_ensures(collect_nvidia_smi, (out,), r),
        f.len() == 9,
        v.len() == 8,
        forall|i: int| 1 <= i < 9 ==> #[trigger] f[i] == dec(v[i - 1] as nat),
        !f[0].contains(','),
        trim(f[0]) == f[0],
        out@ == fields_from(f, 0),
        !out@.contains('\n'),
    ensures
        r@.len() == 1,
        r@[0]@.category == "GPU"@,
        r@[0]@.name == f[0],
        ({
            let s = r@[0]@.readings;
            &&& s.len() == 8
            &&& s[0].label == "Temperature"@ && s[0].unit == "°C"@
                && amounts_to(s[0].value, v[0] as int, 1)
            &&& s[1].label == "GPU Load"@ && s[1].unit == "%"@ && amounts_to(s[1].value, v[4] as int, 1)
            &&& s[2].label == "Memory Usage"@ && s[2].unit == "%"@
                && amounts_to(s[2].value, v[5] as int, 1)
            &&& s[3].label == "Power Draw"@ && s[3].unit == "W"@
                && amounts_to(s[3].value, v[1] as int, 1)
            &&& s[4].label == "GPU Clock"@ && s[4].unit == "MHz"@
                && amounts_to(s[4].value, v[2] as int, 1)
            &&& s[5].label == "Memory Clock"@ && s[5].unit == "MHz"@
                && amounts_to(s[5].value, v[3] as int, 1)
            &&& s[6].label == "VRAM Used"@ && s[6].unit == "GiB"@
                && amounts_to(s[6].value, v[6] as int, 1024)
            &&& s[7].label == "VRAM Total"@ && s[7].unit == "GiB"@
                && amounts_to(s[7].value, v[7] as int, 1024)
        }),
{
    let line = out@;
    assert forall|k: int| 0 <= k < f.len() implies !(#[trigger] f[k]).contains(',') by {
        if k > 0 {
            lemma_no_comma(v[k - 1]);
        }
    }
    lemma_fields(f, 0);
    assert(f.skip(0) =~= f);
    lemma_one_graphics_line(line, f);
    let g = smi_group(line)->0;
    assert(scan_views(r@).len() == r@.len());
    assert(scan_views(r@)[0] == r@[0]@);
    assert(r@[0]@ == g);
    lemma_card(line, f);
    assert(f[1] == dec(v[0] as nat));
    assert(f[2] == dec(v[1] as nat));
    assert(f[3] == dec(v[2] as nat));
    assert(f[4] == dec(v[3] as nat));
    assert(f[5] == dec(v[4] as nat));
    assert(f[6] == dec(v[5] as nat));
    assert(f[7] == dec(v[6] as nat));
    assert(f[8] == dec(v[7] as nat));
    lemma_smi_field(v[0]);
    lemma_smi_field(v[1]);
    lemma_smi_field(v[2]);
    lemma_smi_field(v[3]);
    lemma_smi_field(v[4]);
    lemma_smi_field(v[5]);
    lemma_smi_memory(v[6]);
    lemma_smi_memory(v[7]);
}

/// What is read of a card.
proof fn lemma_card(line: Seq<char>, f: Seq<Seq<char>>)
    requires
        f.len() == 9,
        pieces(line, ", "@, 9) == f,
        trim(f[0]) == f[0],
    ensures
        smi_group(line) is Some,
        ({
            let g = smi_group(line)->0;
            let s = g.readings;
            &&& g.category == "GPU"@ && g.name == f[0]
            &&& s.len() == 8
            &&& s[0] == reading("Temperature"@, "°C"@, smi_field(f[1]))
            &&& s[1] == reading("GPU Load"@, "%"@, smi_field(f[5]))
            &&& s[2] == reading("Memory Usage"@, "%"@, smi_field(f[6]))
            &&& s[3] == reading("Power Draw"@, "W"@, smi_field(f[2]))
            &&& s[4] == reading("GPU Clock"@, "MHz"@, smi_field(f[3]))
            &&& s[5] == reading("Memory Clock"@, "MHz"@, smi_field(f[4]))
            &&& s[6] == reading("VRAM Used"@, "GiB"@, single_quotient(smi_field(f[7]), single(1024, 1)))
            &&& s[7] == reading("VRAM Total"@, "GiB"@, single_quotient(smi_field(f[8]), single(1024, 1)))
        }),
{
}

/// A text of one line gives one card.
proof fn lemma_one_graphics_line(line: Seq<char>, f: Seq<Seq<char>>)
    requires
        !line.contains('\n'),
        f.len() == 9,
        pieces(line, ", "@, 9) == f,
    ensures
        smi_group(line) is Some,
        smi_groups(lines(line), lines(line).len()) == seq![smi_group(line)->0],
{
    reveal_strlit(", ");
    if line.len() == 0 {
        if has_substring(line, ", "@) {
            let i = choose|i: int| crate::text::occurs_at(line, ", "@, i);
            assert(i <= line.len() - 2);
        }
        assert(cut_at(line, ", "@) is None);
        assert(pieces(line, ", "@, 9) == seq![line]);
        assert(false);
    }
    crate::text::law_lines_end_at_breaks(line, line);
    let ls = lines(line);
    assert(ls =~= seq![line]);
    assert(smi_groups(ls, 0) =~= Seq::<GroupReadingView>::empty());
    assert(smi_groups(ls, 1) =~= seq![smi_group(line)->0]);
}

/// A number has no comma in it.
proof fn lemma_no_comma(n: u32)
    ensures
        !dec(n as nat).contains(','),
{
    lemma_dec_digits(n as nat);
    let d = dec(n as nat);
    if d.contains(',') {
        let k = choose|k: int| 0 <= k < d.len() && d[k] == ',';
        assert(is_digit(d[k]));
    }
}

/// Memory is shown in GiB.
proof fn lemma_smi_memory(n: u32)
    ensures
        amounts_to(single_quotient(smi_field(dec(n as nat)), single(1024, 1)), n as int, 1024),
{
    lemma_smi_field(n);
    let k = single(1024, 1);
    law_whole_numbers_are_exact(1024);
    let a = smi_field(dec(n as nat));
    if n == 0 {
        lemma_zero_products(k, k, k);
    } else {
        law_quotients_are_near(a, n as int, 1, 1, k, 1024, 1, 0);
        assert(n * 1 == n && 1 * 1024 == 1024);
        law_near_is_within(single_quotient(a, k), n as int, 1024, 3);
    }
}

/// The three averages are the first three words, each read as a number.
pub proof fn law_load_averages_are_the_first_three_words(
    text: &str,
    r: Option<(i64, i64, i64)>,
    w: (&[char], &[char], &[char]),
    n: (Option<i64>, Option<i64>, Option<i64>),
)
    requires
        call_ensures(read_load_avg, (text,), r),
        words(text@).len() >= 3,
        w.0@ == words(text@)[0] && w.1@ == words(text@)[1] && w.2@ == words(text@)[2],
        call_ensures(read_micro, (w.0,), n.0),
        call_ensures(read_micro, (w.1,), n.1),
        call_ensures(read_micro, (w.2,), n.2),
    ensures
        r is Some <==> n.0 is Some && n.1 is Some && n.2 is Some,
        r matches Some((a, b, c)) ==> n.0 == Some(a) && n.1 == Some(b) && n.2 == Some(c),
{
}

/// The driver tells what a device is: it has a title just where it is of a known class.
pub proof fn law_known_drivers_have_titles(
    driver: &str,
    hint: Option<&str>,
    class: DriverClass,
    r: Option<(String, String)>,
)
    requires
        call_ensures(classify_driver, (driver,), class),
        call_ensures(name_device, (driver, hint), r),
    ensures
        r is None <==> class == DriverClass::Other,
        r matches Some((category, _)) ==> {
            &&& class == DriverClass::Cpu ==> category@ == "CPU"@
            &&& class == DriverClass::Memory ==> category@ == "Memory"@
            &&& class == DriverClass::Storage ==> category@ == "Storage"@
            &&& class == DriverClass::Network ==> category@ == "Network"@
            &&& class == DriverClass::Gpu ==> category@ == "GPU"@
        },
{
}

} // verus!
