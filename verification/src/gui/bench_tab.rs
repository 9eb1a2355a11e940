//! The benchmark tab: how results are summed up, written and drawn to scale.

use vstd::arithmetic::power2::*;
use vstd::prelude::*;
use vstd::string::*;

use crate::binary::{
    difference, double, full, is_double, less, lower, negated, parts, parts_above, quotient, single,
    sum, within, Binary, Number, DOUBLE,
};
use crate::gui::theme::{load_color_for, load_ramp, ramp_color, Rgb};
use crate::mem_bench::{no_run, BandwidthResult, CacheSizes, LatencyPoint, MemLatencyResult};
use crate::number::{
    dec, decimal, hundredths, push_dec, push_hundredths, push_tenths, push_thousandths,
    tenths, thousandths,
};
use crate::text::opt_text;

verus! {

// ── Sizes ────────────────────────────────────────────────────────────────────

/// A size in the largest unit of which it holds at least one, rounded down.
pub open spec fn size_text(bytes: usize) -> Seq<char> {
    if bytes < 1024 {
        dec(bytes as nat) + " B"@
    } else if bytes < 1_048_576 {
        dec(bytes as nat / 1024) + " KiB"@
    } else {
        dec(bytes as nat / 1_048_576) + " MiB"@
    }
}

/// Writes a size.
pub fn fmt_size(bytes: usize) -> (r: String)
    ensures
        r@ == size_text(bytes),
{
    let n: u64 = bytes as u64;
    if bytes < 1024 {
        let mut s = decimal(n);
        s.append(" B");
        s
    } else if bytes < 1_048_576 {
        let mut s = decimal(n / 1024);
        s.append(" KiB");
        s
    } else {
        let mut s = decimal(n / 1_048_576);
        s.append(" MiB");
        s
    }
}

/// The short text of a working-set size that is measured.
pub open spec fn short_size(bytes: usize) -> Seq<char> {
    if bytes == 4096 {
        "4K"@
    } else if bytes == 8192 {
        "8K"@
    } else if bytes == 16384 {
        "16K"@
    } else if bytes == 32768 {
        "32K"@
    } else if bytes == 65536 {
        "64K"@
    } else if bytes == 131072 {
        "128K"@
    } else if bytes == 262144 {
        "256K"@
    } else if bytes == 524288 {
        "512K"@
    } else if bytes == 1048576 {
        "1M"@
    } else if bytes == 2097152 {
        "2M"@
    } else if bytes == 4194304 {
        "4M"@
    } else if bytes == 8388608 {
        "8M"@
    } else if bytes == 16777216 {
        "16M"@
    } else if bytes == 33554432 {
        "32M"@
    } else if bytes == 67108864 {
        "64M"@
    } else if bytes == 134217728 {
        "128M"@
    } else if bytes == 268435456 {
        "256M"@
    } else {
        "?"@
    }
}

/// The short text of a working-set size that is measured.
pub fn fmt_size_short(bytes: usize) -> (r: &'static str)
    ensures
        r@ == short_size(bytes),
{
    match bytes {
        4096 => "4K",
        8192 => "8K",
        16384 => "16K",
        32768 => "32K",
        65536 => "64K",
        131072 => "128K",
        262144 => "256K",
        524288 => "512K",
        1048576 => "1M",
        2097152 => "2M",
        4194304 => "4M",
        8388608 => "8M",
        16777216 => "16M",
        33554432 => "32M",
        67108864 => "64M",
        134217728 => "128M",
        268435456 => "256M",
        _ => "?",
    }
}

// ── Levels ───────────────────────────────────────────────────────────────────

/// The latencies of the working sets above `lo` and up to `hi`.
pub open spec fn latencies_in(points: Seq<LatencyPoint>, lo: usize, hi: usize) -> Seq<Number>
    decreases points.len(),
{
    if points.len() == 0 {
        Seq::empty()
    } else {
        let r = latencies_in(points.drop_last(), lo, hi);
        let p = points.last();
        if p.size_bytes > lo && p.size_bytes <= hi {
            r.push(p.time())
        } else {
            r
        }
    }
}

/// The sum of latencies.
pub open spec fn total(s: Seq<Number>) -> Number
    decreases s.len(),
{
    if s.len() == 0 {
        double(0, 1)
    } else {
        sum(total(s.drop_last()), s.last(), DOUBLE as nat)
    }
}

/// The average of latencies.
pub open spec fn average(s: Seq<Number>) -> Option<Number> {
    if s.len() == 0 {
        None
    } else {
        Some(quotient(total(s), double(s.len() as int, 1), DOUBLE as nat))
    }
}

/// The upper half of a list; of an odd number the middle one belongs to it.
pub open spec fn upper_half(s: Seq<Number>) -> Seq<Number> {
    s.skip(s.len() as int / 2)
}

/// The numbers that a list holds.
pub open spec fn numbers(s: Seq<Binary>) -> Seq<Number> {
    Seq::new(s.len(), |i: int| s[i]@)
}

/// Collects the latencies of the working sets above `lo` and up to `hi`.
fn collect_in(points: &[LatencyPoint], lo: usize, hi: usize) -> (r: Vec<Binary>)
    ensures
        numbers(r@) == latencies_in(points@, lo, hi),
        forall|i: int| 0 <= i < r.len() ==> is_double(#[trigger] r@[i]@),
{
    let mut r: Vec<Binary> = Vec::new();
    let mut i: usize = 0;
    assert(points@.take(0) =~= Seq::<LatencyPoint>::empty());
    assert(numbers(r@) =~= Seq::<Number>::empty());
    while i < points.len()
        invariant
            i <= points.len(),
            numbers(r@) == latencies_in(points@.take(i as int), lo, hi),
            forall|k: int| 0 <= k < r.len() ==> is_double(#[trigger] r@[k]@),
        decreases points.len() - i,
    {
        assert(points@.take(i + 1).drop_last() =~= points@.take(i as int));
        let p = points[i];
        if p.size_bytes > lo && p.size_bytes <= hi {
            let ghost before = numbers(r@);
            r.push(p.latency());
            assert(numbers(r@) =~= before.push(p.time()));
        }
        i += 1;
    }
    assert(points@.take(i as int) =~= points@);
    r
}

/// The number that a place may hold.
pub open spec fn opt_number(o: Option<Binary>) -> Option<Number> {
    match o {
        Some(b) => Some(b@),
        None => None,
    }
}

/// Averages the latencies from a place on.
fn average_from(v: &Vec<Binary>, from: usize) -> (r: Option<Binary>)
    requires
        from <= v.len(),
        forall|i: int| 0 <= i < v.len() ==> is_double(#[trigger] v@[i]@),
    ensures
        opt_number(r) == average(numbers(v@).skip(from as int)),
{
    let ghost tail = numbers(v@).skip(from as int);
    let n: usize = v.len() - from;
    if n == 0 {
        return None;
    }
    let mut all = Binary::double(0, 1);
    let mut i: usize = 0;
    assert(tail.take(0) =~= Seq::<Number>::empty());
    while i < n
        invariant
            i <= n,
            n == v.len() - from,
            from <= v.len(),
            tail == numbers(v@).skip(from as int),
            forall|k: int| 0 <= k < v.len() ==> is_double(#[trigger] v@[k]@),
            all@ == total(tail.take(i as int)),
            full(all@, DOUBLE as nat),
            within(all@, 10_000 + 200 * i),
        decreases n - i,
    {
        assert(tail.take(i + 1).drop_last() =~= tail.take(i as int));
        assert(tail[i as int] == v@[from + i]@);
        let next = v[from + i];
        assert(within(next@, 10_000 + 200 * i));
        all = all.plus(next, DOUBLE);
        i += 1;
    }
    assert(tail.take(i as int) =~= tail);
    Some(all.over(Binary::double(n as u64, 1), DOUBLE))
}

/// The average latency of each level: the three caches and the memory, of which the
/// upper half of the working sets counts.
pub open spec fn level_average(points: Seq<LatencyPoint>, cache: CacheSizes, level: int) -> Option<
    Number,
> {
    if level == 0 {
        average(latencies_in(points, 0, cache.l1d))
    } else if level == 1 {
        average(latencies_in(points, cache.l1d, cache.l2))
    } else if level == 2 {
        average(latencies_in(points, cache.l2, cache.l3))
    } else {
        average(upper_half(latencies_in(points, cache.l3, usize::MAX)))
    }
}

/// Averages the latencies of each level.
pub fn region_latencies(points: &[LatencyPoint], cache: &CacheSizes) -> (r: [Option<Binary>; 4])
    ensures
        forall|i: int| 0 <= i < 4 ==> opt_number(#[trigger] r[i]) == level_average(
            points@,
            *cache,
            i,
        ),
{
    let l1 = collect_in(points, 0, cache.l1d);
    let l2 = collect_in(points, cache.l1d, cache.l2);
    let l3 = collect_in(points, cache.l2, cache.l3);
    let dram = collect_in(points, cache.l3, usize::MAX);
    assert(numbers(l1@).skip(0) =~= numbers(l1@));
    assert(numbers(l2@).skip(0) =~= numbers(l2@));
    assert(numbers(l3@).skip(0) =~= numbers(l3@));
    [
        average_from(&l1, 0),
        average_from(&l2, 0),
        average_from(&l3, 0),
        average_from(&dram, dram.len() / 2),
    ]
}

/// The number of the level that a working set belongs to.
pub open spec fn level_of(size: usize, cache: CacheSizes) -> int {
    if size <= cache.l1d {
        0
    } else if size <= cache.l2 {
        1
    } else if size <= cache.l3 {
        2
    } else {
        3
    }
}

/// The number of the level that a working set belongs to.
pub fn region_index(size: usize, cache: &CacheSizes) -> (r: usize)
    ensures
        r == level_of(size, *cache),
{
    if size <= cache.l1d {
        0
    } else if size <= cache.l2 {
        1
    } else if size <= cache.l3 {
        2
    } else {
        3
    }
}

/// The name of a level.
pub open spec fn level_name(i: int) -> Seq<char> {
    if i == 0 {
        "L1"@
    } else if i == 1 {
        "L2"@
    } else if i == 2 {
        "L3"@
    } else {
        "DRAM"@
    }
}

/// The name of a level.
pub fn region_label(i: usize) -> (r: &'static str)
    ensures
        r@ == level_name(i as int),
{
    if i == 0 {
        "L1"
    } else if i == 1 {
        "L2"
    } else if i == 2 {
        "L3"
    } else {
        "DRAM"
    }
}

/// The caption of a level: its name and its size.
pub fn level_caption(i: usize, cache: &CacheSizes) -> (r: String)
    ensures
        r@ == level_name(i as int) + " · "@ + if i == 0 {
            size_text(cache.l1d)
        } else if i == 1 {
            size_text(cache.l2)
        } else if i == 2 {
            size_text(cache.l3)
        } else {
            "> "@ + size_text(cache.l3)
        },
{
    let mut s = region_label(i).to_owned();
    s.append(" · ");
    let mut size = String::new();
    if i == 0 {
        size = fmt_size(cache.l1d);
    } else if i == 1 {
        size = fmt_size(cache.l2);
    } else if i == 2 {
        size = fmt_size(cache.l3);
    } else {
        let l3 = fmt_size(cache.l3);
        size = "> ".to_owned();
        size.append(l3.as_str());
    }
    s.append(size.as_str());
    s
}

/// Each measured working set belongs to exactly one level, and counts there: the
/// levels are told apart by the sizes of the caches.
pub proof fn law_levels_partition_the_sizes(size: usize, cache: CacheSizes)
    requires
        0 < size,
        cache.l1d <= cache.l2 <= cache.l3,
    ensures
        level_of(size, cache) == 0 <==> 0 < size <= cache.l1d,
        level_of(size, cache) == 1 <==> cache.l1d < size <= cache.l2,
        level_of(size, cache) == 2 <==> cache.l2 < size <= cache.l3,
        level_of(size, cache) == 3 <==> cache.l3 < size,
{
}

// ── Texts ────────────────────────────────────────────────────────────────────

/// A latency in nanoseconds with one decimal place.
pub fn latency_text(ns: Option<Binary>) -> (r: String)
    ensures
        r@ == match ns {
            Some(v) => tenths(parts(v@, 10)) + " ns"@,
            None => "—"@,
        },
{
    match ns {
        Some(v) => {
            let mut s = String::new();
            push_tenths(&mut s, v.parts(10));
            s.append(" ns");
            assert(s@ =~= tenths(parts(v@, 10)) + " ns"@);
            s
        },
        None => "—".to_owned(),
    }
}

/// A latency in nanoseconds with two decimal places.
pub fn latency_detail(ns: Binary) -> (r: String)
    ensures
        r@ == hundredths(parts(ns@, 100)) + " ns"@,
{
    let mut s = String::new();
    push_hundredths(&mut s, ns.parts(100));
    s.append(" ns");
    assert(s@ =~= hundredths(parts(ns@, 100)) + " ns"@);
    s
}

/// What is said of a measured working set when the pointer is over it.
pub fn point_hover(p: &LatencyPoint) -> (r: String)
    ensures
        r@ == size_text(p.size_bytes) + "  →  "@ + tenths(parts(p.time(), 10)) + " ns"@,
{
    let mut s = fmt_size(p.size_bytes);
    s.append("  →  ");
    push_tenths(&mut s, p.latency().parts(10));
    s.append(" ns");
    s
}

/// One line of the table of results.
pub open spec fn csv_line(p: LatencyPoint) -> Seq<char> {
    dec(p.size_bytes as nat) + ","@ + size_text(p.size_bytes) + ","@ + thousandths(
        parts(p.time(), 1000),
    ) + "\n"@
}

/// The results as comma-separated values.
pub open spec fn csv_text(points: Seq<LatencyPoint>) -> Seq<char>
    decreases points.len(),
{
    if points.len() == 0 {
        "size_bytes,size_label,latency_ns\n"@
    } else {
        csv_text(points.drop_last()) + csv_line(points.last())
    }
}

/// Writes the results as comma-separated values.
pub fn build_csv(points: &[LatencyPoint]) -> (r: String)
    ensures
        r@ == csv_text(points@),
{
    let mut s = "size_bytes,size_label,latency_ns\n".to_owned();
    let mut i: usize = 0;
    assert(points@.take(0) =~= Seq::<LatencyPoint>::empty());
    while i < points.len()
        invariant
            i <= points.len(),
            s@ == csv_text(points@.take(i as int)),
        decreases points.len() - i,
    {
        assert(points@.take(i + 1).drop_last() =~= points@.take(i as int));
        let ghost before = s@;
        let p = points[i];
        push_dec(&mut s, p.size_bytes as u64);
        s.append(",");
        let size = fmt_size(p.size_bytes);
        s.append(size.as_str());
        s.append(",");
        push_thousandths(&mut s, p.latency().parts(1000));
        s.append("\n");
        assert(s@ =~= before + csv_line(p));
        i += 1;
    }
    assert(points@.take(i as int) =~= points@);
    s
}

/// What became of saving the results, in words.
pub fn csv_message(error: Option<&str>) -> (r: String)
    ensures
        r@ == match error {
            Some(e) => "Save failed: "@ + e@,
            None => "CSV saved."@,
        },
{
    match error {
        Some(e) => {
            let mut s = "Save failed: ".to_owned();
            s.append(e);
            s
        },
        None => "CSV saved.".to_owned(),
    }
}

/// The part of a bandwidth run that goes on, given its progress in thousandths.
pub fn stage_text(progress_milli: u32) -> (r: &'static str)
    ensures
        r@ == if progress_milli * 3 < 1000 {
            "Running Read…"@
        } else if progress_milli * 3 < 2000 {
            "Running Write…"@
        } else {
            "Running Copy…"@
        },
{
    let p: u64 = progress_milli as u64 * 3;
    if p < 1000 {
        "Running Read…"
    } else if p < 2000 {
        "Running Write…"
    } else {
        "Running Copy…"
    }
}

/// How a rate compares with the one before.
#[derive(Debug, Clone, Copy, PartialEq, Eq, Structural)]
pub enum Trend {
    Better,
    Worse,
    Same,
}

/// A rate in GB/s with two decimal places.
pub fn rate_text(gb_s: Binary) -> (r: String)
    ensures
        r@ == hundredths(parts(gb_s@, 100)) + " GB/s"@,
{
    let mut s = String::new();
    push_hundredths(&mut s, gb_s.parts(100));
    s.append(" GB/s");
    assert(s@ =~= hundredths(parts(gb_s@, 100)) + " GB/s"@);
    s
}

/// How far a rate lies from the one before, in words.
pub open spec fn delta_text(now: Number, prev: Option<Number>) -> Seq<char> {
    match prev {
        Some(p) => {
            let d = difference(now, p, DOUBLE as nat);
            (if d.neg {
                "-"@
            } else {
                "+"@
            }) + hundredths(parts(d, 100)) + " vs. previous"@
        },
        None => "no previous run"@,
    }
}

/// A rate is better or worse than the one before if it lies more than a twentieth
/// of a GB/s from it.
pub open spec fn trend_of(now: Number, prev: Option<Number>) -> Trend {
    match prev {
        Some(p) => {
            let d = difference(now, p, DOUBLE as nat);
            if less(double(1, 20), d) {
                Trend::Better
            } else if less(d, negated(double(1, 20))) {
                Trend::Worse
            } else {
                Trend::Same
            }
        },
        None => Trend::Same,
    }
}

/// How a rate compares with the one before.
pub fn compare_rate(now: Binary, prev: Option<Binary>) -> (r: (String, Trend))
    requires
        is_double(now@),
        prev is Some ==> is_double(prev->0@),
    ensures
        r.0@ == delta_text(now@, opt_number(prev)),
        r.1 == trend_of(now@, opt_number(prev)),
{
    match prev {
        Some(p) => {
            assert(within(now@, 10_000) && within(p@, 10_000));
            let d = now.minus(p, DOUBLE);
            assert(within(d@, 10_200));
            let mut s = (if d.neg {
                "-"
            } else {
                "+"
            }).to_owned();
            push_hundredths(&mut s, d.parts(100));
            s.append(" vs. previous");
            let step = Binary::double(1, 20);
            let trend = if step.is_less(d, DOUBLE) {
                Trend::Better
            } else if d.is_less(step.negated(), DOUBLE) {
                Trend::Worse
            } else {
                Trend::Same
            };
            (s, trend)
        },
        None => ("no previous run".to_owned(), Trend::Same),
    }
}

// ── Scale ────────────────────────────────────────────────────────────────────

/// The greatest latency.
pub open spec fn greatest(points: Seq<LatencyPoint>) -> Number
    decreases points.len(),
{
    if points.len() == 0 {
        double(0, 1)
    } else {
        let m = greatest(points.drop_last());
        if less(m, points.last().time()) {
            points.last().time()
        } else {
            m
        }
    }
}

/// The greatest latency.
pub fn max_latency(points: &[LatencyPoint]) -> (r: Binary)
    ensures
        r@ == greatest(points@),
        is_double(r@),
{
    let mut m = Binary::double(0, 1);
    let mut i: usize = 0;
    assert(points@.take(0) =~= Seq::<LatencyPoint>::empty());
    while i < points.len()
        invariant
            i <= points.len(),
            m@ == greatest(points@.take(i as int)),
            is_double(m@),
        decreases points.len() - i,
    {
        assert(points@.take(i + 1).drop_last() =~= points@.take(i as int));
        let ns = points[i].latency();
        if m.is_less(ns, DOUBLE) {
            m = ns;
        }
        i += 1;
    }
    assert(points@.take(i as int) =~= points@);
    m
}

/// The end of the scale: the greatest latency, and one nanosecond at least.
pub open spec fn scale_end(max: Number) -> Number {
    if less(max, double(1, 1)) {
        double(1, 1)
    } else {
        max
    }
}

/// The place of a latency on the load ramp, in thousandths of a percent: fast is
/// low.
pub open spec fn latency_load(ns: Number, max: Number) -> u32 {
    let share = quotient(ns, scale_end(max), DOUBLE as nat);
    let mpct = parts(share, 100_000);
    if !less(share, double(1, 1)) || mpct > 100_000 {
        100_000
    } else {
        mpct as u32
    }
}

/// The colour of a latency.
pub fn latency_color(dark_mode: bool, ns: Binary, max: Binary) -> (c: Rgb)
    requires
        is_double(ns@),
        is_double(max@),
    ensures
        c == ramp_color(load_ramp(dark_mode), latency_load(ns@, max@)),
{
    let one = Binary::double(1, 1);
    let top = if max.is_less(one, DOUBLE) {
        one
    } else {
        max
    };
    proof {
        if top.mant == 0 {
            let q = pow2((one.exp - lower(max@, negated(one@))) as nat);
            lemma_pow2_pos((one.exp - lower(max@, negated(one@))) as nat);
            let m = one.mant;
            assert(-(m as int) * q < 0) by (nonlinear_arith)
                requires
                    m > 0,
                    q > 0,
            ;
            let p = pow2((max.exp - lower(max@, negated(one@))) as nat);
            assert(0 * p == 0) by (nonlinear_arith);
        }
        assert(within(ns@, 10_000) && within(top@, 10_000));
    }
    let share = ns.over(top, DOUBLE);
    assert(within(share@, 20_200));
    let mpct: u128 = share.parts(100_000);
    if !share.is_less(one, DOUBLE) || mpct > 100_000 {
        load_color_for(dark_mode, 100_000)
    } else {
        load_color_for(dark_mode, mpct as u32)
    }
}

/// The least of the numbers 1, 2 and 5 times `m`, ten times `m` and so on that is
/// at least `n / d`.
pub open spec fn least_nice(n: nat, d: nat, m: nat) -> nat
    decreases
            if m * d < n && m > 0 && d > 0 {
                n - m * d
            } else {
                0
            },
    via least_nice_decreases
{
    if m == 0 || d == 0 || m * d >= n {
        m
    } else if 2 * m * d >= n {
        2 * m
    } else if 5 * m * d >= n {
        5 * m
    } else {
        least_nice(n, d, 10 * m)
    }
}

#[via_fn]
proof fn least_nice_decreases(n: nat, d: nat, m: nat) {
    if m > 0 && d > 0 {
        assert(10 * m * d > m * d) by (nonlinear_arith)
            requires
                m > 0,
                d > 0,
        ;
    }
}

/// A number that reads well and is at least `n / d`: 1, 2 or 5 times a power of ten.
pub fn nice_ceil(n: u128, d: u128) -> (r: u128)
    requires
        0 < d <= 10,
        n < 0x1000_0000_0000_0000_0000,
    ensures
        r as nat == least_nice(n as nat, d as nat, 1),
        r * d >= n,
        0 < r < 0x1_0000_0000_0000_0000_0000,
        r <= 10 * n + 5,
{
    let mut m: u128 = 1;
    while 5 * m * d < n
        invariant
            0 < d <= 10,
            n < 0x1000_0000_0000_0000_0000,
            0 < m < 0x2000_0000_0000_0000_0000,
            m == 1 || m <= 2 * n,
            5 * m * d < 0x1_0000_0000_0000_0000_0000_0000,
            least_nice(n as nat, d as nat, 1) == least_nice(n as nat, d as nat, m as nat),
        decreases 2 * n + 1 - m,
    {
        proof {
            assert(m * d < n && 2 * m * d < n && m < n && 10 * m <= 2 * n) by (nonlinear_arith)
                requires
                    5 * m * d < n,
                    d >= 1,
                    m >= 1,
            ;
            assert(5 * (10 * m) * d < 0x1_0000_0000_0000_0000_0000_0000) by (nonlinear_arith)
                requires
                    5 * m * d < n,
                    n < 0x1000_0000_0000_0000_0000,
            ;
            assert(10 * m < 0x2000_0000_0000_0000_0000) by (nonlinear_arith)
                requires
                    10 * m <= 2 * n,
                    5 * m * d < n,
                    d >= 1,
                    n < 0x1000_0000_0000_0000_0000,
            ;
        }
        m = 10 * m;
    }
    proof {
        assert(m * d <= 2 * m * d <= 5 * m * d) by (nonlinear_arith)
            requires
                m >= 1,
                d >= 1,
        ;
        assert((2 * m) * d == 2 * m * d && (5 * m) * d == 5 * m * d) by (nonlinear_arith);
    }
    if m * d >= n {
        m
    } else if 2 * m * d >= n {
        2 * m
    } else {
        5 * m
    }
}

/// The greatest latency and a good tenth more, in hundredths of a picosecond.
pub open spec fn scale_need(max: Number) -> nat {
    let n = parts_above(max, 112_000);
    if n > 0x7f_ffff_ffff_ffff_ffff {
        0x7f_ffff_ffff_ffff_ffff
    } else {
        n
    }
}

/// The top of the scale in hundredths of a picosecond: at least a good tenth above
/// the greatest latency, and 100 ns where nothing was measured.
pub open spec fn scale_top(max: Number) -> nat {
    if max.mant == 0 {
        10_000_000
    } else {
        least_nice(scale_need(max), 1, 1)
    }
}

/// The top of the scale in hundredths of a picosecond.
pub fn y_top(max: Binary) -> (r: u128)
    ensures
        r as nat == scale_top(max@),
        0 < r < 0x1000_0000_0000_0000_0000,
        max.mant != 0 ==> scale_need(max@) <= r,
{
    if max.mant == 0 {
        10_000_000
    } else {
        let n: u128 = max.parts_above(112_000);
        let need: u128 = if n > 0x7f_ffff_ffff_ffff_ffff {
            0x7f_ffff_ffff_ffff_ffff
        } else {
            n
        };
        nice_ceil(need, 1)
    }
}

/// The lines of the grid: the multiples of a number that reads well and is at least
/// a sixth of the top, up to half a step above it.
pub open spec fn grid(top: nat) -> Seq<u128> {
    let step = least_nice(top, 6, 1);
    Seq::new((2 * top + step) / (2 * step), |i: int| ((i + 1) * step) as u128)
}

/// The lines of the grid.
pub fn nice_y_steps(top: u128) -> (r: Vec<u128>)
    requires
        0 < top < 0x1000_0000_0000_0000_0000,
    ensures
        r@ == grid(top as nat),
{
    let step: u128 = nice_ceil(top, 6);
    let mut v: Vec<u128> = Vec::new();
    let mut cur: u128 = step;
    let ghost n: int = ((2 * top + step) / (2 * step as int)) as int;
    proof {
        lemma_grid_count(top as int, step as int, 0);
        assert((0 + 1) * step == step) by (nonlinear_arith);
    }
    while 2 * cur <= 2 * top + step
        invariant
            0 < step < 0x1_0000_0000_0000_0000_0000,
            top < 0x1000_0000_0000_0000_0000,
            step as nat == least_nice(top as nat, 6, 1),
            n == (2 * top + step) / (2 * step as int),
            v.len() <= n,
            cur as int == (v.len() + 1) * step,
            cur <= 0x2_0000_0000_0000_0000_0000,
            forall|i: int| 0 <= i < v.len() ==> #[trigger] v@[i] as int == (i + 1) * step,
        decreases 2 * top + step + 1 - 2 * cur + 2 * step,
    {
        let ghost k: int = v.len() as int;
        proof {
            lemma_grid_count(top as int, step as int, k);
            assert((k + 1) * step + step == (k + 2) * step) by (nonlinear_arith);
        }
        v.push(cur);
        cur = cur + step;
    }
    proof {
        lemma_grid_count(top as int, step as int, v.len() as int);
        assert(v@ =~= grid(top as nat));
    }
    v
}

/// A line belongs to the grid while it lies at most half a step above the top.
proof fn lemma_grid_count(top: int, step: int, k: int)
    requires
        top >= 0,
        step > 0,
        k >= 0,
    ensures
        2 * ((k + 1) * step) <= 2 * top + step <==> k < (2 * top + step) / (2 * step),
        (2 * top + step) / (2 * step) >= 0,
{
    let a = 2 * top + step;
    let b = 2 * step;
    let q = a / b;
    assert(q * b <= a < (q + 1) * b && q >= 0) by (nonlinear_arith)
        requires
            q == a / b,
            a >= 0,
            b > 0,
    ;
    assert(2 * ((k + 1) * step) == (k + 1) * b) by (nonlinear_arith)
        requires
            b == 2 * step,
    ;
    if k < q {
        assert((k + 1) * b <= q * b) by (nonlinear_arith)
            requires
                k + 1 <= q,
                b > 0,
        ;
    } else {
        assert((q + 1) * b <= (k + 1) * b) by (nonlinear_arith)
            requires
                q <= k,
                b > 0,
        ;
    }
}

// ── The tab ──────────────────────────────────────────────────────────────────

/// The tab.
pub struct BenchTab {
    pub last: MemLatencyResult,
    pub cache: CacheSizes,
    pub results_open: bool,
    /// The results of the last run were shown by themselves already.
    pub auto_opened: bool,
    pub graph_hover: Option<usize>,
    pub last_bw: BandwidthResult,
    /// The bandwidth runs that ended, newest last.
    pub bw_history: Vec<BandwidthResult>,
    pub csv_status: String,
}

impl BenchTab {
    /// The tab at the start.
    pub fn new(cache: CacheSizes) -> (r: BenchTab)
        ensures
            r.last.points@.len() == 0,
            r.last.progress@ == single(0, 1),
            r.last.current_size is None,
            !r.last.running,
            !r.last.complete,
            r.cache == cache,
            !r.results_open,
            !r.auto_opened,
            r.graph_hover is None,
            r.last_bw == no_run(),
            r.bw_history@.len() == 0,
            r.csv_status@.len() == 0,
    {
        BenchTab {
            last: MemLatencyResult::default(),
            cache,
            results_open: false,
            auto_opened: false,
            graph_hover: None,
            last_bw: BandwidthResult::default(),
            bw_history: Vec::new(),
            csv_status: String::new(),
        }
    }

    /// Takes in how the latency run stands. The results open by themselves once, when
    /// a run is complete; a new run may open them again.
    pub fn take_latency(&mut self, snap: MemLatencyResult)
        ensures
            final(self).last == if snap.running || snap.complete {
                snap
            } else {
                old(self).last
            },
            ({
                let last = final(self).last;
                let opens = last.complete && !old(self).auto_opened;
                &&& final(self).results_open == (old(self).results_open || opens)
                &&& final(self).auto_opened == (!last.running && (old(self).auto_opened || opens))
            }),
            *final(self) == (BenchTab {
                last: final(self).last,
                results_open: final(self).results_open,
                auto_opened: final(self).auto_opened,
                ..*old(self)
            }),
    {
        if snap.running || snap.complete {
            self.last = snap;
        }
        if self.last.complete && !self.auto_opened {
            self.results_open = true;
            self.auto_opened = true;
        }
        if self.last.running {
            self.auto_opened = false;
        }
    }

    /// Takes in how the bandwidth run stands; one that has just ended is recorded.
    pub fn take_bandwidth(&mut self, bw: BandwidthResult)
        ensures
            final(self).last_bw == if bw.running || bw.complete {
                bw
            } else {
                old(self).last_bw
            },
            final(self).bw_history@ == if old(self).last_bw.running
                && final(self).last_bw.complete {
                old(self).bw_history@.push(final(self).last_bw)
            } else {
                old(self).bw_history@
            },
            *final(self) == (BenchTab {
                last_bw: final(self).last_bw,
                bw_history: final(self).bw_history,
                ..*old(self)
            }),
    {
        let was_running = self.last_bw.running;
        if bw.running || bw.complete {
            self.last_bw = bw;
        }
        if was_running && self.last_bw.complete {
            self.bw_history.push(self.last_bw);
        }
    }

    /// The run before the last, where there is one.
    pub fn previous_run(&self) -> (r: Option<BandwidthResult>)
        ensures
            r == if self.bw_history@.len() >= 2 {
                Some(self.bw_history@[self.bw_history@.len() - 2])
            } else {
                None
            },
    {
        let n: usize = self.bw_history.len();
        if n >= 2 {
            Some(self.bw_history[n - 2])
        } else {
            None
        }
    }

    /// How many runs were recorded, in words, where there is more than one.
    pub fn runs_text(&self) -> (r: Option<String>)
        ensures
            opt_text(r) == if self.bw_history@.len() > 1 {
                Some(dec(self.bw_history@.len()) + " runs recorded"@)
            } else {
                None
            },
    {
        if self.bw_history.len() > 1 {
            let mut s = decimal(self.bw_history.len() as u64);
            s.append(" runs recorded");
            Some(s)
        } else {
            None
        }
    }

    /// Whether the window with the results is shown.
    pub fn shows_results(&self) -> (r: bool)
        ensures
            r == (self.results_open && self.last.complete && self.last.points@.len() > 0),
    {
        self.results_open && self.last.complete && self.last.points.len() > 0
    }
}

/// A block belongs to the first cache that holds it, and to memory where none does.
pub proof fn law_block_belongs_to_the_first_cache_that_holds_it(
    size: usize,
    cache: &CacheSizes,
    r: usize,
)
    requires
        call_ensures(region_index, (size, cache), r),
    ensures
        r <= 3,
        r == 0 <==> size <= cache.l1d,
        r == 1 ==> cache.l1d < size <= cache.l2,
        r == 2 ==> cache.l1d < size && cache.l2 < size <= cache.l3,
        r == 3 <==> cache.l1d < size && cache.l2 < size && cache.l3 < size,
{
}

/// The greatest latency is one of those measured, and none is greater.
pub proof fn law_greatest_latency_is_measured(points: &[LatencyPoint], r: Binary, i: int)
    requires
        call_ensures(max_latency, (points,), r),
        0 <= i < points@.len(),
    ensures
        !less(r@, points@[i].time()),
        r@ == double(0, 1) || exists|k: int| 0 <= k < points@.len()
            && r@ == (#[trigger] points@[k]).time(),
{
    lemma_greatest(points@, i);
}

/// What the greatest latency is.
proof fn lemma_greatest(p: Seq<LatencyPoint>, i: int)
    ensures
        0 <= i < p.len() ==> !less(greatest(p), p[i].time()),
        greatest(p) == double(0, 1) || exists|k: int|
            0 <= k < p.len() && greatest(p) == (#[trigger] p[k]).time(),
    decreases p.len(),
{
    if p.len() > 0 {
        let d = p.drop_last();
        lemma_greatest(d, i);
        let (g, m, t) = (greatest(p), greatest(d), p.last().time());
        crate::binary::lemma_order(m, t, m);
        crate::binary::lemma_order(t, m, t);
        crate::binary::lemma_order(t, t, t);
        assert(p[p.len() - 1] == p.last());
        if 0 <= i < d.len() {
            assert(d[i] == p[i]);
            crate::binary::lemma_order(t, m, p[i].time());
        }
        if g == m && m != double(0, 1) {
            let k = choose|k: int| 0 <= k < d.len() && m == (#[trigger] d[k]).time();
            assert(p[k] == d[k]);
        }
    }
}

/// The exported table has a heading and one line for each point, in their order.
pub proof fn law_table_has_a_line_for_each_point(
    points: &[LatencyPoint],
    more: &[LatencyPoint],
    p: LatencyPoint,
    r: String,
    s: String,
)
    requires
        call_ensures(build_csv, (points,), r),
        call_ensures(build_csv, (more,), s),
        more@ == points@.push(p),
    ensures
        points@.len() == 0 ==> r@ == "size_bytes,size_label,latency_ns\n"@,
        s@ == r@ + csv_line(p),
        exists|rest: Seq<char>| s@ == #[trigger] (r@ + (dec(p.size_bytes as nat) + ","@ + rest)),
{
    assert(more@.drop_last() =~= points@);
    let rest = size_text(p.size_bytes) + ","@ + thousandths(parts(p.time(), 1000)) + "\n"@;
    assert(csv_line(p) =~= dec(p.size_bytes as nat) + ","@ + rest);
}

/// A run that has ended complete is recorded, once; nothing else is.
pub proof fn law_complete_runs_are_recorded(
    tab: &mut BenchTab,
    next: &mut BenchTab,
    bw: BandwidthResult,
)
    requires
        call_ensures(BenchTab::take_bandwidth, (tab, bw), ()),
        *old(next) == *final(tab),
        call_ensures(BenchTab::take_bandwidth, (next, bw), ()),
        bw.complete ==> !bw.running,
    ensures
        old(tab).last_bw.running && bw.complete
            ==> final(tab).bw_history@ == old(tab).bw_history@.push(bw),
        !old(tab).last_bw.running ==> final(tab).bw_history@ == old(tab).bw_history@,
        bw.running && !bw.complete ==> final(tab).bw_history@ == old(tab).bw_history@,
        bw.running || bw.complete ==> final(tab).last_bw == bw,
        final(next).bw_history@ == final(tab).bw_history@ || (!bw.complete && !bw.running),
{
}

/// A level has a latency exactly where a block of its sizes was measured.
pub proof fn law_level_has_a_latency_where_it_was_measured(
    points: &[LatencyPoint],
    cache: &CacheSizes,
    r: [Option<Binary>; 4],
)
    requires
        call_ensures(region_latencies, (points, cache), r),
    ensures
        r[0] is Some <==> exists|k: int|
            0 <= k < points@.len() && 0 < (#[trigger] points@[k]).size_bytes <= cache.l1d,
        r[1] is Some <==> exists|k: int|
            0 <= k < points@.len() && cache.l1d < (#[trigger] points@[k]).size_bytes <= cache.l2,
        r[2] is Some <==> exists|k: int|
            0 <= k < points@.len() && cache.l2 < (#[trigger] points@[k]).size_bytes <= cache.l3,
        r[3] is Some <==> exists|k: int|
            0 <= k < points@.len() && cache.l3 < (#[trigger] points@[k]).size_bytes,
{
    lemma_latencies_in(points@, 0, cache.l1d);
    lemma_latencies_in(points@, cache.l1d, cache.l2);
    lemma_latencies_in(points@, cache.l2, cache.l3);
    lemma_latencies_in(points@, cache.l3, usize::MAX);
    assert(opt_number(r[0]) == level_average(points@, *cache, 0));
    assert(opt_number(r[1]) == level_average(points@, *cache, 1));
    assert(opt_number(r[2]) == level_average(points@, *cache, 2));
    assert(opt_number(r[3]) == level_average(points@, *cache, 3));
    let s = latencies_in(points@, cache.l3, usize::MAX);
    assert(upper_half(s).len() > 0 <==> s.len() > 0);
}

/// Whether a range of sizes was measured.
proof fn lemma_latencies_in(p: Seq<LatencyPoint>, lo: usize, hi: usize)
    ensures
        latencies_in(p, lo, hi).len() > 0 <==> exists|k: int|
            0 <= k < p.len() && lo < (#[trigger] p[k]).size_bytes <= hi,
    decreases p.len(),
{
    if p.len() > 0 {
        let d = p.drop_last();
        lemma_latencies_in(d, lo, hi);
        assert forall|k: int| 0 <= k < d.len() implies #[trigger] d[k] == p[k] by {}
        assert(p[p.len() - 1] == p.last());
        if exists|k: int| 0 <= k < d.len() && lo < (#[trigger] d[k]).size_bytes <= hi {
            let k = choose|k: int| 0 <= k < d.len() && lo < (#[trigger] d[k]).size_bytes <= hi;
            assert(p[k] == d[k]);
        }
        if exists|k: int| 0 <= k < p.len() && lo < (#[trigger] p[k]).size_bytes <= hi {
            let k = choose|k: int| 0 <= k < p.len() && lo < (#[trigger] p[k]).size_bytes <= hi;
            if k < d.len() {
                assert(d[k] == p[k]);
            }
        }
    }
}

/// A number is 1, 2 or 5, or ten times such a number.
pub open spec fn is_nice(x: nat) -> bool
    decreases x,
{
    x == 1 || x == 2 || x == 5 || (x >= 10 && x % 10 == 0 && is_nice(x / 10))
}

/// A scale ends at a nice number that reaches the value, and at no more than two and a
/// half times of what is needed.
pub proof fn law_scale_ends_at_the_next_nice_number(n: u128, d: u128, r: u128)
    requires
        call_ensures(nice_ceil, (n, d), r),
        0 < d <= 10,
        n < 0x1000_0000_0000_0000_0000,
    ensures
        is_nice(r as nat),
        r * d >= n,
        r == 1 || 2 * (r * d) < 5 * n,
{
    lemma_nice(n as nat, d as nat, 1);
    assert(is_nice(1));
}

/// What the least nice number is.
proof fn lemma_nice(n: nat, d: nat, m: nat)
    requires
        m > 0,
        d > 0,
        is_nice(m),
        m % 10 == 0 || m == 1,
        is_nice(2 * m) && is_nice(5 * m) && is_nice(10 * m),
        m == 1 || m * d < 2 * n,
    ensures
        is_nice(least_nice(n, d, m)),
        least_nice(n, d, m) == 1 || 2 * (least_nice(n, d, m) * d) < 5 * n,
    decreases
            if m * d < n {
                n - m * d
            } else {
                0
            },
{
    let x = m * d;
    assert(2 * m * d == 2 * x && 5 * m * d == 5 * x && (10 * m) * d == 10 * x) by (nonlinear_arith)
        requires
            x == m * d,
    ;
    assert((2 * m) * d == 2 * x && (5 * m) * d == 5 * x) by (nonlinear_arith)
        requires
            x == m * d,
    ;
    assert(x > 0) by (nonlinear_arith)
        requires
            x == m * d,
            m > 0,
            d > 0,
    ;
    if x >= n || 2 * x >= n || 5 * x >= n {
    } else {
        let t = 10 * m;
        assert(is_nice(2 * t)) by {
            assert((20 * m) % 10 == 0 && (20 * m) / 10 == 2 * m);
            assert(2 * t == 20 * m);
        }
        assert(is_nice(5 * t)) by {
            assert((50 * m) % 10 == 0 && (50 * m) / 10 == 5 * m);
            assert(5 * t == 50 * m);
        }
        assert(is_nice(10 * t)) by {
            assert((100 * m) % 10 == 0 && (100 * m) / 10 == 10 * m);
            assert(10 * t == 100 * m);
        }
        lemma_nice(n, d, t);
    }
}

} // verus!
