//! Memory benchmarks: the random pointer chase, cache sizes, buffer sizes and
//! the progress of a run.
//!
//! A buffer is filled with a random Hamiltonian cycle over its cache lines: the
//! first element of each line holds the index of the line to read next. Each
//! read then has to wait for the one before it. Taking the time is left to the
//! caller.

use vstd::prelude::*;
use vstd::string::*;

use crate::binary::{
    double, is_double, is_single, lemma_sum_is_positive, parts, product, quotient, single, sum, whole_parts, within, Binary,
    Number, DOUBLE, SINGLE,
};
use crate::number::{dec, parse_nat, push_wide, read_nat, read_u32};
use crate::text::{chars_of, is_text, sub_chars, trim, trimmed};

verus! {

/// The size of a cache line in bytes.
pub const CACHE_LINE: usize = 64;

/// The number of `u64` elements in a cache line.
pub const STRIDE: usize = 8;

/// The working-set sizes that are measured: 4 KiB to 256 MiB, each twice the one
/// before.
pub open spec fn test_size(i: int) -> nat
    decreases i,
{
    if i <= 0 {
        4096
    } else {
        2 * test_size(i - 1)
    }
}

/// The working-set sizes that are measured, in ascending order.
pub fn test_sizes() -> (v: Vec<usize>)
    ensures
        v.len() == 17,
        forall|i: int| 0 <= i < 17 ==> #[trigger] v[i] as nat == test_size(i),
        v[16] == 268_435_456,
{
    let mut v: Vec<usize> = Vec::new();
    let mut size: usize = 4096;
    let mut i: usize = 0;
    proof {
        reveal_with_fuel(test_size, 18);
        assert(test_size(16) == 268_435_456);
    }
    while i < 17
        invariant
            i <= 17,
            v.len() == i,
            forall|j: int| 0 <= j < i ==> #[trigger] v[j] as nat == test_size(j),
            i < 17 ==> size as nat == test_size(i as int),
            test_size(16) == 268_435_456,
        decreases 17 - i,
    {
        v.push(size);
        i += 1;
        if i < 17 {
            proof {
                lemma_test_size_bounded(i as int);
            }
            size = size * 2;
        }
    }
    v
}

/// No size exceeds the last.
proof fn lemma_test_size_bounded(i: int)
    requires
        0 <= i <= 16,
    ensures
        test_size(i) <= 268_435_456,
        i > 0 ==> test_size(i) == 2 * test_size(i - 1),
    decreases 16 - i,
{
    reveal_with_fuel(test_size, 18);
    if i < 16 {
        lemma_test_size_bounded(i + 1);
    }
}

// ── Pseudo-random numbers ────────────────────────────────────────────────────

/// A linear congruential generator.
#[derive(Debug, Clone, Copy, PartialEq, Eq, Structural)]
pub struct Lcg64 {
    pub state: u64,
}

/// The state after `x`, modulo 2^64.
pub open spec fn lcg_next(x: u64) -> u64 {
    ((x * 6_364_136_223_846_793_005 + 1_442_695_040_888_963_407) % 0x1_0000_0000_0000_0000) as u64
}

impl Lcg64 {
    /// A generator that starts from a seed.
    pub fn new(seed: u64) -> (r: Lcg64)
        ensures
            r.state == seed,
    {
        Lcg64 { state: seed }
    }

    /// The next number.
    pub fn next(&mut self) -> (r: u64)
        ensures
            r == lcg_next(old(self).state),
            final(self).state == r,
    {
        let m: u64 = self.state.wrapping_mul(6_364_136_223_846_793_005);
        let n: u64 = m.wrapping_add(1_442_695_040_888_963_407);
        proof {
            let x = self.state as int;
            let a = 6_364_136_223_846_793_005int;
            let c = 1_442_695_040_888_963_407int;
            let p = 0x1_0000_0000_0000_0000int;
            assert(m as int == (x * a) % p);
            assert(n as int == (m as int + c) % p);
            assert((x * a + c) % p == ((x * a) % p + c) % p) by {
                vstd::arithmetic::div_mod::lemma_add_mod_noop(x * a, c, p);
                vstd::arithmetic::div_mod::lemma_small_mod(c as nat, p as nat);
            }
        }
        self.state = n;
        n
    }

    /// The next number below `n`.
    pub fn next_bounded(&mut self, n: usize) -> (r: usize)
        requires
            n > 0,
        ensures
            r == lcg_next(old(self).state) % (n as u64),
            r < n,
            final(self).state == lcg_next(old(self).state),
    {
        let x: u64 = self.next();
        (x % (n as u64)) as usize
    }
}

// ── The order of the lines ───────────────────────────────────────────────────

/// `v` occurs in `s`.
pub open spec fn occurs(s: Seq<usize>, v: int) -> bool {
    exists|i: int| 0 <= i < s.len() && #[trigger] s[i] == v
}

/// The numbers `0..n` in some order.
pub open spec fn is_permutation(s: Seq<usize>, n: nat) -> bool {
    &&& s.len() == n
    &&& forall|i: int| 0 <= i < n ==> (#[trigger] s[i]) < n
    &&& forall|i: int, j: int| 0 <= i < j < n ==> s[i] != s[j]
    &&& forall|v: int| 0 <= v < n ==> #[trigger] occurs(s, v)
}

/// `s` with two places exchanged.
pub open spec fn swapped(s: Seq<usize>, i: int, j: int) -> Seq<usize> {
    s.update(i, s[j]).update(j, s[i])
}

/// The Fisher-Yates shuffle from place `i` down, with the generator at `x`.
pub open spec fn shuffled(s: Seq<usize>, x: u64, i: nat) -> Seq<usize>
    decreases i,
{
    if i == 0 {
        s
    } else {
        let y = lcg_next(x);
        let j = y as int % (i as int + 1);
        shuffled(swapped(s, i as int, j), y, (i - 1) as nat)
    }
}

/// The numbers `0..n` in ascending order.
pub open spec fn ascending(n: nat) -> Seq<usize> {
    Seq::new(n, |i: int| i as usize)
}

/// The number of lines of a working set, at least two.
pub open spec fn line_count(size: usize) -> nat {
    if size / 64 < 2 {
        2
    } else {
        (size / 64) as nat
    }
}

/// The seed for a working-set size.
pub open spec fn chase_seed(size: usize) -> u64 {
    0xDEAD_BEEF_CAFE_BABEu64 ^ (size as u64)
}

/// The order in which the lines of a working set are visited.
pub open spec fn chase_order(size: usize) -> Seq<usize> {
    let n = line_count(size);
    shuffled(ascending(n), chase_seed(size), (n - 1) as nat)
}

/// Exchanging two places keeps a permutation one.
proof fn lemma_swap_permutation(s: Seq<usize>, n: nat, i: int, j: int)
    requires
        is_permutation(s, n),
        0 <= i < n,
        0 <= j < n,
    ensures
        is_permutation(swapped(s, i, j), n),
{
    let t = swapped(s, i, j);
    assert forall|a: int, b: int| 0 <= a < b < n implies t[a] != t[b] by {
        let a2: int = if a == i { j } else if a == j { i } else { a };
        let b2: int = if b == i { j } else if b == j { i } else { b };
        assert(t[a] == s[a2] && t[b] == s[b2]);
        if a2 < b2 {
            assert(s[a2] != s[b2]);
        } else {
            assert(s[b2] != s[a2]);
        }
    }
    assert forall|v: int| 0 <= v < n implies #[trigger] occurs(t, v) by {
        assert(occurs(s, v));
        let k = choose|k: int| 0 <= k < n && #[trigger] s[k] == v;
        let k2: int = if k == i { j } else if k == j { i } else { k };
        assert(t[k2] == v);
    }
    assert forall|a: int| 0 <= a < n implies (#[trigger] t[a]) < n by {
        let a2: int = if a == i { j } else if a == j { i } else { a };
        assert(t[a] == s[a2]);
    }
}

/// Shuffling keeps a permutation one.
proof fn lemma_shuffle_permutation(s: Seq<usize>, x: u64, i: nat, n: nat)
    requires
        is_permutation(s, n),
        i < n,
    ensures
        is_permutation(shuffled(s, x, i), n),
    decreases i,
{
    if i > 0 {
        let y = lcg_next(x);
        let j = y as int % (i as int + 1);
        lemma_swap_permutation(s, n, i as int, j);
        lemma_shuffle_permutation(swapped(s, i as int, j), y, (i - 1) as nat, n);
    }
}

/// The lines are visited in an order that holds each line once.
pub proof fn lemma_chase_order(size: usize)
    ensures
        is_permutation(chase_order(size), line_count(size)),
{
    let n = line_count(size);
    let s = ascending(n);
    assert forall|v: int| 0 <= v < n implies #[trigger] occurs(s, v) by {
        assert(s[v] == v);
    }
    lemma_shuffle_permutation(s, chase_seed(size), (n - 1) as nat, n);
}

// ── The chase ────────────────────────────────────────────────────────────────

/// The index of the first element of the line at place `i` of the order.
pub open spec fn slot(order: Seq<usize>, i: int) -> int {
    order[i] * 8
}

/// A buffer whose lines are linked in the given order, the last to the first;
/// all elements but the first of each line are 0.
pub open spec fn links(buf: Seq<u64>, order: Seq<usize>) -> bool {
    let n = order.len();
    &&& buf.len() == n * 8
    &&& forall|i: int|
        0 <= i < n ==> buf[#[trigger] slot(order, i)] as int == order[(i + 1) % (n as int)] * 8
    &&& forall|p: int| 0 <= p < buf.len() && p % 8 != 0 ==> #[trigger] buf[p] == 0
}

/// Builds the buffer of a working set.
pub fn build_chase_array(size_bytes: usize) -> (buf: Vec<u64>)
    ensures
        links(buf@, chase_order(size_bytes)),
{
    let mut n: usize = size_bytes / CACHE_LINE;
    if n < 2 {
        n = 2;
    }
    let mut order: Vec<usize> = Vec::new();
    let mut k: usize = 0;
    while k < n
        invariant
            k <= n,
            order.len() == k,
            forall|j: int| 0 <= j < k ==> order[j] == j,
        decreases n - k,
    {
        order.push(k);
        k += 1;
    }
    assert(order@ =~= ascending(n as nat));
    let mut rng = Lcg64::new(0xDEAD_BEEF_CAFE_BABE ^ (size_bytes as u64));
    let mut i: usize = n - 1;
    while i > 0
        invariant
            i < n,
            n as nat == line_count(size_bytes),
            order.len() == n,
            shuffled(order@, rng.state, i as nat) == chase_order(size_bytes),
        decreases i,
    {
        let ghost before = order@;
        let j: usize = rng.next_bounded(i + 1);
        let a: usize = order[i];
        let b: usize = order[j];
        order.set(i, b);
        order.set(j, a);
        assert(order@ =~= swapped(before, i as int, j as int));
        i -= 1;
    }
    proof {
        lemma_chase_order(size_bytes);
    }
    let mut buf: Vec<u64> = vec![0u64; n * STRIDE];
    let mut m: usize = 0;
    while m < n
        invariant
            m <= n,
            n >= 2,
            n * 8 <= usize::MAX,
            order.len() == n,
            is_permutation(order@, n as nat),
            buf.len() == n * 8,
            forall|i: int|
                0 <= i < m ==> buf@[#[trigger] slot(order@, i)] as int == order@[(i + 1) % (
                n as int)] * 8,
            forall|p: int| 0 <= p < buf@.len() && p % 8 != 0 ==> #[trigger] buf@[p] == 0,
        decreases n - m,
    {
        let next: usize = if m + 1 == n {
            0
        } else {
            m + 1
        };
        assert(next as int == (m + 1) % (n as int)) by {
            if m + 1 == n {
                vstd::arithmetic::div_mod::lemma_mod_self_0(n as int);
            } else {
                vstd::arithmetic::div_mod::lemma_small_mod((m + 1) as nat, n as nat);
            }
        }
        assert(order@[m as int] < n && order@[next as int] < n);
        let ghost before = buf@;
        buf.set(order[m] * STRIDE, (order[next] * STRIDE) as u64);
        assert forall|i: int| 0 <= i < m + 1 implies buf@[#[trigger] slot(order@, i)] as int
            == order@[(i + 1) % (n as int)] * 8 by {
            assert(order@[i] < n);
            if i < m {
                assert(order@[i] != order@[m as int]);
                assert(buf@[slot(order@, i)] == before[slot(order@, i)]);
            }
        }
        m += 1;
    }
    buf
}

/// Every element is an index into the buffer.
pub open spec fn stays_inside(buf: Seq<u64>) -> bool {
    buf.len() > 0 && forall|p: int| 0 <= p < buf.len() ==> (#[trigger] buf[p]) < buf.len()
}

/// The index after `k` hops from `start`.
pub open spec fn hops(buf: Seq<u64>, start: int, k: nat) -> int
    decreases k,
{
    if k == 0 {
        start
    } else {
        buf[hops(buf, start, (k - 1) as nat)] as int
    }
}

/// Follows the chain `n` times from the first element. The caller takes the time.
pub fn chase(buf: &[u64], n: u64) -> (idx: u64)
    requires
        stays_inside(buf@),
    ensures
        idx as int == hops(buf@, 0, n as nat),
        idx < buf@.len(),
{
    let mut idx: u64 = 0;
    let mut k: u64 = 0;
    while k < n
        invariant
            k <= n,
            stays_inside(buf@),
            idx as int == hops(buf@, 0, k as nat),
            idx < buf@.len(),
        decreases n - k,
    {
        let len: usize = buf.len();
        assert(idx < len);
        idx = buf[idx as usize];
        k += 1;
    }
    idx
}

/// A chased index never leaves the buffer.
pub proof fn law_chase_stays_inside(size: usize, buf: Seq<u64>)
    requires
        links(buf, chase_order(size)),
    ensures
        stays_inside(buf),
{
    lemma_chase_order(size);
    let order = chase_order(size);
    let n = line_count(size) as int;
    assert forall|p: int| 0 <= p < buf.len() implies (#[trigger] buf[p]) < buf.len() by {
        if p % 8 == 0 {
            let v = p / 8;
            assert(occurs(order, v));
            let i = choose|i: int| 0 <= i < n && #[trigger] order[i] == v;
            let j = (i + 1) % n;
            assert(0 <= j < n) by {
                vstd::arithmetic::div_mod::lemma_mod_bound(i + 1, n);
            }
            assert(order[i] * 8 == p);
            assert(order[j] < n);
            assert(buf[slot(order, i)] as int == order[j] * 8);
        }
    }
}

/// From the line at place `a` of the order, `k` hops lead to the line `k` places
/// further round.
proof fn lemma_hops_follow_order(order: Seq<usize>, buf: Seq<u64>, a: int, k: nat)
    requires
        is_permutation(order, order.len()),
        links(buf, order),
        0 <= a < order.len(),
    ensures
        hops(buf, order[a] * 8, k) == order[(a + k) % (order.len() as int)] * 8,
    decreases k,
{
    let n = order.len() as int;
    if k == 0 {
        vstd::arithmetic::div_mod::lemma_small_mod(a as nat, n as nat);
    } else {
        lemma_hops_follow_order(order, buf, a, (k - 1) as nat);
        let i = (a + k - 1) % n;
        vstd::arithmetic::div_mod::lemma_mod_bound(a + k - 1, n);
        assert(buf[slot(order, i)] as int == order[(i + 1) % n] * 8);
        assert((i + 1) % n == (a + k) % n) by {
            vstd::arithmetic::div_mod::lemma_add_mod_noop(a + k - 1, 1, n);
            if n > 1 {
                vstd::arithmetic::div_mod::lemma_small_mod(1, n as nat);
            }
        }
    }
}

/// Fewer than `n` hops lead from line 0 to line `v`.
pub open spec fn reached(buf: Seq<u64>, v: int, n: nat) -> bool {
    exists|k: nat| k < n && #[trigger] hops(buf, 0, k) == v * 8
}

/// The chain comes to every line.
proof fn lemma_reaches(order: Seq<usize>, buf: Seq<u64>, a: int, v: int)
    requires
        is_permutation(order, order.len()),
        links(buf, order),
        0 <= a < order.len(),
        order[a] == 0,
        0 <= v < order.len(),
    ensures
        reached(buf, v, order.len()),
{
    let n = order.len() as int;
    assert(occurs(order, v));
    let i = choose|i: int| 0 <= i < n && #[trigger] order[i] == v;
    let k: int = if i >= a { i - a } else { i - a + n };
    lemma_hops_follow_order(order, buf, a, k as nat);
    lemma_wrap(a + k, n);
    assert(hops(buf, 0, k as nat) == v * 8);
}

/// The chain comes to no line twice within one round.
proof fn lemma_no_repeat(order: Seq<usize>, buf: Seq<u64>, a: int, j: nat, k: nat)
    requires
        is_permutation(order, order.len()),
        links(buf, order),
        0 <= a < order.len(),
        order[a] == 0,
        j < k < order.len(),
    ensures
        hops(buf, 0, j) != hops(buf, 0, k),
{
    let n = order.len() as int;
    lemma_hops_follow_order(order, buf, a, j);
    lemma_hops_follow_order(order, buf, a, k);
    let x: int = if a + j < n { a + j } else { a + j - n };
    let y: int = if a + k < n { a + k } else { a + k - n };
    lemma_wrap(a + j, n);
    lemma_wrap(a + k, n);
    if x < y {
        assert(order[x] != order[y]);
    } else {
        assert(order[y] != order[x]);
    }
}

/// The chase is one cycle over all cache lines: from line 0 it comes to every
/// line within the first round, to no line twice, and after one hop for each
/// line it is back.
pub proof fn law_chase_is_one_cycle(size: usize, buf: Seq<u64>)
    requires
        links(buf, chase_order(size)),
    ensures
        hops(buf, 0, line_count(size)) == 0,
        forall|v: int| 0 <= v < line_count(size) ==> #[trigger] reached(buf, v, line_count(size)),
        forall|j: nat, k: nat|
            j < k < line_count(size) ==> #[trigger] hops(buf, 0, j) != #[trigger] hops(buf, 0, k),
{
    lemma_chase_order(size);
    let order = chase_order(size);
    let n = line_count(size);
    assert(order.len() == n);
    assert(occurs(order, 0));
    let a = choose|i: int| 0 <= i < n && #[trigger] order[i] == 0;
    lemma_hops_follow_order(order, buf, a, n);
    lemma_wrap(a + n, n as int);
    assert forall|v: int| 0 <= v < n implies #[trigger] reached(buf, v, n) by {
        lemma_reaches(order, buf, a, v);
    }
    assert forall|j: nat, k: nat| j < k < n implies #[trigger] hops(buf, 0, j) != #[trigger] hops(
        buf,
        0,
        k,
    ) by {
        lemma_no_repeat(order, buf, a, j, k);
    }
}

/// The remainder of a number below twice the divisor.
proof fn lemma_wrap(x: int, n: int)
    requires
        0 <= x < 2 * n,
    ensures
        x % n == if x < n { x } else { x - n },
{
    if x < n {
        vstd::arithmetic::div_mod::lemma_small_mod(x as nat, n as nat);
    } else {
        vstd::arithmetic::div_mod::lemma_mod_sub_multiples_vanish(x, n);
        vstd::arithmetic::div_mod::lemma_small_mod((x - n) as nat, n as nat);
    }
}

// ── Cache sizes ──────────────────────────────────────────────────────────────

/// A size as the kernel writes it: a number, with `K` or `M` behind it for KiB or
/// MiB. Sizes beyond `usize` are none.
pub open spec fn cache_size(text: Seq<char>) -> Option<usize> {
    let s = trim(text);
    if s.len() > 0 && s.last() == 'K' {
        scaled(parse_nat(trim(s.drop_last()), usize::MAX as nat), 1024)
    } else if s.len() > 0 && s.last() == 'M' {
        scaled(parse_nat(trim(s.drop_last()), usize::MAX as nat), 1024 * 1024)
    } else {
        scaled(parse_nat(s, usize::MAX as nat), 1)
    }
}

/// A number of units, where it fits.
pub open spec fn scaled(n: Option<nat>, unit: nat) -> Option<usize> {
    match n {
        Some(k) => if k * unit <= usize::MAX {
            Some((k * unit) as usize)
        } else {
            None
        },
        None => None,
    }
}

/// Reads a number of units.
fn read_scaled(s: &[char], unit: usize) -> (r: Option<usize>)
    requires
        unit >= 1,
    ensures
        r == scaled(parse_nat(s@, usize::MAX as nat), unit as nat),
{
    match read_nat(s, usize::MAX as u64) {
        Some(n) => {
            let k: usize = n as usize;
            if k > usize::MAX / unit {
                proof {
                    assert(k * unit > usize::MAX) by (nonlinear_arith)
                        requires
                            k > usize::MAX / unit,
                            unit >= 1,
                    ;
                }
                None
            } else {
                proof {
                    assert(k * unit <= usize::MAX) by (nonlinear_arith)
                        requires
                            k <= usize::MAX / unit,
                            unit >= 1,
                    ;
                }
                Some(k * unit)
            }
        },
        None => None,
    }
}

/// Reads a cache size.
pub fn parse_cache_size(text: &str) -> (r: Option<usize>)
    ensures
        r == cache_size(text@),
{
    let cs = chars_of(text);
    let s = trimmed(&cs);
    let n: usize = s.len();
    if n > 0 && (s[n - 1] == 'K' || s[n - 1] == 'M') {
        let unit: usize = if s[n - 1] == 'K' {
            1024
        } else {
            1024 * 1024
        };
        let head = sub_chars(&s, 0, n - 1);
        assert(head@ =~= s@.drop_last());
        let h = trimmed(&head);
        read_scaled(&h, unit)
    } else {
        read_scaled(&s, 1)
    }
}

/// The texts of one cache description; none where a file could not be read.
pub struct CacheEntry {
    pub level: Option<String>,
    pub kind: Option<String>,
    pub size: Option<String>,
}

/// The sizes of the caches in bytes.
#[derive(Debug, Clone, Copy, PartialEq, Eq, Structural)]
pub struct CacheSizes {
    pub l1d: usize,
    pub l2: usize,
    pub l3: usize,
}

/// The level of a cache; 0 where it is not known.
pub open spec fn cache_level(e: CacheEntry) -> nat {
    match e.level {
        Some(t) => match parse_nat(trim(t@), u32::MAX as nat) {
            Some(n) => n,
            None => 0,
        },
        None => 0,
    }
}

/// Whether a cache holds data only.
pub open spec fn holds_data(e: CacheEntry) -> bool {
    match e.kind {
        Some(t) => trim(t@) == "Data"@,
        None => false,
    }
}

/// The sizes known after the first `n` descriptions. Before the first they are
/// 32 KiB, 512 KiB and 32 MiB; a level-3 cache counts only if it is larger than
/// what is known.
pub open spec fn cache_sizes(e: Seq<CacheEntry>, n: nat) -> CacheSizes
    decreases n,
{
    if n == 0 {
        CacheSizes { l1d: 32_768, l2: 524_288, l3: 33_554_432 }
    } else {
        let before = cache_sizes(e, (n - 1) as nat);
        let d = e[n - 1];
        match d.size {
            None => before,
            Some(t) => match cache_size(t@) {
                None => before,
                Some(sz) => if cache_level(d) == 1 && holds_data(d) {
                    CacheSizes { l1d: sz, ..before }
                } else if cache_level(d) == 2 {
                    CacheSizes { l2: sz, ..before }
                } else if cache_level(d) == 3 && sz > before.l3 {
                    CacheSizes { l3: sz, ..before }
                } else {
                    before
                },
            },
        }
    }
}

impl CacheSizes {
    /// The sizes that the descriptions of the first CPU's caches give.
    pub fn read(entries: &[CacheEntry]) -> (r: CacheSizes)
        ensures
            r == cache_sizes(entries@, entries@.len()),
    {
        let mut r = CacheSizes { l1d: 32 * 1024, l2: 512 * 1024, l3: 32 * 1024 * 1024 };
        let mut i: usize = 0;
        while i < entries.len()
            invariant
                i <= entries.len(),
                r == cache_sizes(entries@, i as nat),
            decreases entries.len() - i,
        {
            let e = &entries[i];
            let level: u32 = match &e.level {
                Some(t) => {
                    let cs = chars_of(t.as_str());
                    let s = trimmed(&cs);
                    match read_u32(&s) {
                        Some(n) => n,
                        None => 0,
                    }
                },
                None => 0,
            };
            let data = match &e.kind {
                Some(t) => {
                    let cs = chars_of(t.as_str());
                    let s = trimmed(&cs);
                    is_text(&s, "Data")
                },
                None => false,
            };
            let size = match &e.size {
                Some(t) => parse_cache_size(t.as_str()),
                None => None,
            };
            if let Some(sz) = size {
                if level == 1 && data {
                    r.l1d = sz;
                } else if level == 2 {
                    r.l2 = sz;
                } else if level == 3 && sz > r.l3 {
                    r.l3 = sz;
                }
            }
            i += 1;
        }
        r
    }
}

/// Descriptions never make the level-3 cache smaller than 32 MiB.
pub proof fn law_l3_is_at_least_the_default(e: Seq<CacheEntry>, n: nat)
    ensures
        cache_sizes(e, n).l3 >= 32 * 1024 * 1024,
    decreases n,
{
    if n > 0 {
        law_l3_is_at_least_the_default(e, (n - 1) as nat);
    }
}

// ── Latency runs ─────────────────────────────────────────────────────────────

/// The time of one access in nanoseconds, `accesses` of them having taken `nanos`; 0
/// where there was none.
pub open spec fn time_per_access(nanos: u64, accesses: u64) -> Number {
    if accesses == 0 {
        double(0, 1)
    } else {
        quotient(double(nanos as int, 1), double(accesses as int, 1), DOUBLE as nat)
    }
}

/// The time of one access in nanoseconds.
pub fn nanos_per_access(nanos: u64, accesses: u64) -> (r: Binary)
    ensures
        r@ == time_per_access(nanos, accesses),
        is_double(r@),
        !r.neg,
{
    if accesses == 0 {
        return Binary::double(0, 1);
    }
    let (t, n) = (Binary::double(nanos, 1), Binary::double(accesses, 1));
    assert(within(t@, 200) && within(n@, 200));
    let r = t.over(n, DOUBLE);
    assert(within(r@, 600));
    r
}

/// One measured working set: how long so many accesses took.
#[derive(Debug, Clone, Copy, PartialEq, Eq, Structural)]
pub struct LatencyPoint {
    pub size_bytes: usize,
    pub nanos: u64,
    pub accesses: u64,
}

impl LatencyPoint {
    /// The time of one access in nanoseconds.
    pub open spec fn time(&self) -> Number {
        time_per_access(self.nanos, self.accesses)
    }

    /// The time of one access in nanoseconds.
    pub fn latency(&self) -> (r: Binary)
        ensures
            r@ == self.time(),
            is_double(r@),
            !r.neg,
    {
        nanos_per_access(self.nanos, self.accesses)
    }
}

/// The progress of a latency run. The progress goes from 0 to 1.
#[derive(Debug)]
pub struct MemLatencyResult {
    pub points: Vec<LatencyPoint>,
    pub progress: Binary,
    pub current_size: Option<usize>,
    pub running: bool,
    pub complete: bool,
}

impl Default for MemLatencyResult {
    fn default() -> (r: Self)
        ensures
            r.points@.len() == 0,
            r.progress@ == single(0, 1),
            r.current_size is None,
            !r.running,
            !r.complete,
    {
        MemLatencyResult {
            points: Vec::new(),
            progress: Binary::single(0, 1),
            current_size: None,
            running: false,
            complete: false,
        }
    }
}

impl MemLatencyResult {
    /// Starts a run afresh; true where that was done. A run that goes on is left
    /// alone.
    pub fn start(&mut self) -> (started: bool)
        ensures
            started == !old(self).running,
            started ==> final(self).points@.len() == 0,
            started ==> final(self).progress@ == single(0, 1),
            started ==> final(self).current_size is None,
            started ==> final(self).running,
            started ==> !final(self).complete,
            !started ==> *final(self) == *old(self),
    {
        if self.running {
            return false;
        }
        *self = MemLatencyResult::default();
        self.running = true;
        true
    }

    /// The run has come to the size number `i` of `n`.
    pub fn reach(&mut self, i: usize, n: usize, size: usize)
        requires
            0 < n,
        ensures
            final(self).progress@ == quotient(
                single(i as int, 1),
                single(n as int, 1),
                SINGLE as nat,
            ),
            is_single(final(self).progress@),
            final(self).current_size == Some(size),
            final(self).points@ == old(self).points@,
            final(self).running == old(self).running,
            final(self).complete == old(self).complete,
    {
        let (a, b) = (Binary::single(i as u64, 1), Binary::single(n as u64, 1));
        assert(within(a@, 200) && within(b@, 200));
        let q = a.over(b, SINGLE);
        assert(within(q@, 600));
        self.progress = q;
        self.current_size = Some(size);
    }

    /// The progress in whole percent.
    pub fn progress_text(&self) -> (r: String)
        requires
            is_single(self.progress@),
        ensures
            r@ == dec(parts(product(self.progress@, single(100, 1), SINGLE as nat), 1)) + "%"@,
    {
        let pct = self.progress.times(Binary::single(100, 1), SINGLE);
        let mut r = String::new();
        push_wide(&mut r, pct.parts(1));
        r.append("%");
        assert(r@ =~= dec(parts(pct@, 1)) + "%"@);
        r
    }

    /// Notes a measured size.
    pub fn record(&mut self, point: LatencyPoint)
        ensures
            final(self).points@ == old(self).points@.push(point),
            final(self).progress == old(self).progress,
            final(self).current_size == old(self).current_size,
            final(self).running == old(self).running,
            final(self).complete == old(self).complete,
    {
        self.points.push(point);
    }

    /// The run is over. It is complete unless it was cancelled.
    pub fn finish(&mut self, cancelled: bool)
        ensures
            !final(self).running,
            final(self).complete == !cancelled,
            final(self).progress@ == single(1, 1),
            final(self).current_size is None,
            final(self).points@ == old(self).points@,
    {
        self.running = false;
        self.complete = !cancelled;
        self.progress = Binary::single(1, 1);
        self.current_size = None;
    }
}

/// How many accesses are timed: about 300 ms' worth by the estimate of a first
/// short run, between 100 000 and 500 000 000; none where the estimate is 0.
pub open spec fn accesses_for(nanos: u64, accesses: u64) -> Option<int> {
    let estimate = time_per_access(nanos, accesses);
    if estimate.mant == 0 {
        None
    } else {
        let n = whole_parts(quotient(double(300_000_000, 1), estimate, DOUBLE as nat), 1);
        Some(
            if n < 100_000 {
                100_000
            } else if n > 500_000_000 {
                500_000_000
            } else {
                n as int
            },
        )
    }
}

/// How many accesses are timed after a first short run.
pub fn access_count(nanos: u64, accesses: u64) -> (r: Option<u64>)
    ensures
        match r {
            Some(n) => accesses_for(nanos, accesses) == Some(n as int) && 100_000 <= n
                <= 500_000_000,
            None => accesses_for(nanos, accesses) is None,
        },
{
    let estimate = nanos_per_access(nanos, accesses);
    if estimate.mant == 0 {
        return None;
    }
    let n: u128 = Binary::double(300_000_000, 1).over(estimate, DOUBLE).whole_parts(1);
    if n < 100_000 {
        Some(100_000)
    } else if n > 500_000_000 {
        Some(500_000_000)
    } else {
        Some(n as u64)
    }
}

// ── Bandwidth runs ───────────────────────────────────────────────────────────

/// The number of `u64` elements of a bandwidth buffer: four times the level-3
/// cache, at least 512 MiB, rounded down to a multiple of 64.
pub open spec fn bandwidth_elements(l3: usize) -> int {
    let four = if l3 * 4 > usize::MAX {
        usize::MAX as int
    } else {
        l3 * 4
    };
    let bytes = if four > 536_870_912 {
        four
    } else {
        536_870_912int
    };
    bytes / 8 - bytes / 8 % 64
}

/// The number of `u64` elements of a bandwidth buffer.
pub fn bandwidth_len(l3: usize) -> (n: usize)
    ensures
        n as int == bandwidth_elements(l3),
        n % 64 == 0,
        n >= 64 * 1024 * 1024,
{
    let four: usize = if l3 > usize::MAX / 4 {
        usize::MAX
    } else {
        l3 * 4
    };
    let bytes: usize = if four > 512 * 1024 * 1024 {
        four
    } else {
        512 * 1024 * 1024
    };
    let elems: usize = bytes / 8;
    elems - elems % 64
}

/// Fills the source buffer with a pattern that differs at every place.
pub fn fill_source(src: &mut Vec<u64>)
    ensures
        final(src)@.len() == old(src)@.len(),
        forall|i: int|
            0 <= i < final(src)@.len() ==> #[trigger] final(src)@[i] == (i as u64)
                ^ 0xDEAD_BEEF_CAFE_1234u64,
{
    let mut i: usize = 0;
    let n: usize = src.len();
    while i < n
        invariant
            i <= n,
            src@.len() == n,
            n == old(src)@.len(),
            forall|j: int| 0 <= j < i ==> #[trigger] src@[j] == (j as u64) ^ 0xDEAD_BEEF_CAFE_1234u64,
        decreases n - i,
    {
        src.set(i, (i as u64) ^ 0xDEAD_BEEF_CAFE_1234);
        i += 1;
    }
}

/// Writes its own index into every element.
pub fn write_pass(dst: &mut Vec<u64>)
    ensures
        final(dst)@.len() == old(dst)@.len(),
        forall|i: int| 0 <= i < final(dst)@.len() ==> #[trigger] final(dst)@[i] == i as u64,
{
    let mut i: usize = 0;
    let n: usize = dst.len();
    while i < n
        invariant
            i <= n,
            dst@.len() == n,
            n == old(dst)@.len(),
            forall|j: int| 0 <= j < i ==> #[trigger] dst@[j] == j as u64,
        decreases n - i,
    {
        dst.set(i, i as u64);
        i += 1;
    }
}

/// The sum, modulo 2^64, of the elements of one lane in the first `chunks` runs
/// of eight.
pub open spec fn lane_sum(src: Seq<u64>, lane: int, chunks: nat) -> int
    decreases chunks,
{
    if chunks == 0 {
        0
    } else {
        (lane_sum(src, lane, (chunks - 1) as nat) + src[(chunks - 1) * 8 + lane])
            % 0x1_0000_0000_0000_0000
    }
}

/// Reads all whole runs of eight elements. Eight sums that do not depend on one
/// another let the reads overlap.
pub fn read_pass(src: &[u64]) -> (sums: [u64; 8])
    ensures
        forall|lane: int|
            0 <= lane < 8 ==> #[trigger] sums[lane] as int == lane_sum(
                src@,
                lane,
                (src@.len() / 8) as nat,
            ),
{
    let mut a: [u64; 8] = [0; 8];
    let total: usize = src.len();
    let n: usize = total / 8;
    let mut c: usize = 0;
    while c < n
        invariant
            c <= n,
            total == src@.len(),
            n == total / 8,
            forall|lane: int| 0 <= lane < 8 ==> #[trigger] a[lane] as int == lane_sum(src@, lane, c as nat),
        decreases n - c,
    {
        let base: usize = c * 8;
        let mut l: usize = 0;
        while l < 8
            invariant
                l <= 8,
                c < n,
                total == src@.len(),
                n == total / 8,
                base == c * 8,
                forall|lane: int|
                    0 <= lane < l ==> #[trigger] a[lane] as int == lane_sum(
                        src@,
                        lane,
                        (c + 1) as nat,
                    ),
                forall|lane: int|
                    l <= lane < 8 ==> #[trigger] a[lane] as int == lane_sum(src@, lane, c as nat),
            decreases 8 - l,
        {
            let x: u64 = a[l];
            let y: u64 = src[base + l];
            a[l] = x.wrapping_add(y);
            l += 1;
        }
        c += 1;
    }
    a
}

/// The progress of a bandwidth run. Rates are in GB/s, the progress in thousandths.
#[derive(Debug, Clone, Copy, PartialEq, Eq, Structural)]
pub struct BandwidthResult {
    pub read_gb_s: Binary,
    pub write_gb_s: Binary,
    pub copy_gb_s: Binary,
    pub running: bool,
    pub complete: bool,
    pub progress_milli: u32,
}

/// A run that has not started.
pub open spec fn no_run() -> BandwidthResult {
    let zero = Binary { neg: false, mant: 0, exp: 0 };
    BandwidthResult {
        read_gb_s: zero,
        write_gb_s: zero,
        copy_gb_s: zero,
        running: false,
        complete: false,
        progress_milli: 0,
    }
}

impl Default for BandwidthResult {
    fn default() -> (r: Self)
        ensures
            r == no_run(),
    {
        let zero = Binary::zero();
        BandwidthResult {
            read_gb_s: zero,
            write_gb_s: zero,
            copy_gb_s: zero,
            running: false,
            complete: false,
            progress_milli: 0,
        }
    }
}

impl BandwidthResult {
    /// A run that has just started.
    pub fn started() -> (r: BandwidthResult)
        ensures
            r == (BandwidthResult { running: true, ..no_run() }),
    {
        let mut r = BandwidthResult::default();
        r.running = true;
        r
    }

    /// Notes the rates known so far: a third of the progress for each.
    pub fn update(&mut self, progress_milli: u32, read: Binary, write: Binary, copy: Binary)
        ensures
            *final(self) == (BandwidthResult {
                read_gb_s: read,
                write_gb_s: write,
                copy_gb_s: copy,
                progress_milli,
                ..*old(self)
            }),
    {
        self.progress_milli = progress_milli;
        self.read_gb_s = read;
        self.write_gb_s = write;
        self.copy_gb_s = copy;
    }

    /// The run is over; one that was cancelled keeps its progress.
    pub fn mark_done(&mut self, complete: bool)
        ensures
            *final(self) == (BandwidthResult {
                running: false,
                complete,
                progress_milli: if complete {
                    1000
                } else {
                    old(self).progress_milli
                },
                ..*old(self)
            }),
    {
        self.running = false;
        self.complete = complete;
        if complete {
            self.progress_milli = 1000;
        }
    }
}

/// A time in nanoseconds, in seconds: the whole seconds and what is left are held on
/// their own.
pub open spec fn seconds(nanos: u64) -> Number {
    sum(
        double(nanos as int / 1_000_000_000, 1),
        double(nanos as int % 1_000_000_000, 1_000_000_000),
        DOUBLE as nat,
    )
}

/// The rate in GB/s at which `passes` passes over `bytes` bytes ran in `nanos`.
pub open spec fn rate_of(bytes: u64, passes: u64, nanos: u64) -> Number {
    let one = DOUBLE as nat;
    quotient(
        quotient(product(double(bytes as int, 1), double(passes as int, 1), one), seconds(nanos), one),
        double(1_000_000_000, 1),
        one,
    )
}

/// The rate in GB/s at which `passes` passes over `bytes` bytes ran in `nanos`.
pub fn throughput(bytes: u64, passes: u64, nanos: u64) -> (r: Binary)
    requires
        nanos > 0,
    ensures
        r@ == rate_of(bytes, passes, nanos),
        is_double(r@),
{
    let (b, n) = (Binary::double(bytes, 1), Binary::double(passes, 1));
    assert(within(b@, 200) && within(n@, 200));
    let moved = b.times(n, DOUBLE);
    let whole = Binary::double(nanos / 1_000_000_000, 1);
    let rest = Binary::double(nanos % 1_000_000_000, 1_000_000_000);
    assert(within(whole@, 200) && within(rest@, 200));
    let time = whole.plus(rest, DOUBLE);
    proof {
        lemma_sum_is_positive(whole@, rest@);
        assert(within(moved@, 600) && within(time@, 600));
    }
    let rate = moved.over(time, DOUBLE);
    let giga = Binary::double(1_000_000_000, 1);
    assert(within(rate@, 1400) && within(giga@, 1400));
    let r = rate.over(giga, DOUBLE);
    assert(within(r@, 3000));
    r
}

/// The blocks that are measured start at 4 KiB, and each is twice as large as the one
/// before.
pub proof fn law_measured_blocks_double(v: Vec<usize>, i: int)
    requires
        call_ensures(test_sizes, (), v),
        0 < i < v@.len(),
    ensures
        v@[0] == 4096,
        v@[i] == 2 * v@[i - 1],
        v@.last() == 256 * 1024 * 1024,
{
    assert(v@[0] as nat == test_size(0));
    assert(v@[i - 1] as nat == test_size(i - 1));
}

/// The sizes of caches come in bytes, in KiB with a `K` and in MiB with an `M`.
pub proof fn law_cache_sizes_are_read_in_their_units(
    text: &str,
    r: Option<usize>,
    n: u32,
    blanks: Seq<char>,
)
    requires
        call_ensures(parse_cache_size, (text,), r),
        forall|i: int| 0 <= i < blanks.len() ==> crate::text::is_space(#[trigger] blanks[i]),
    ensures
        text@ == dec(n as nat) + seq!['K'] + blanks && n * 1024 <= usize::MAX
            ==> r == Some((n * 1024) as usize),
        text@ == dec(n as nat) + seq!['M'] + blanks && n * 1_048_576 <= usize::MAX ==> r == Some(
            (n * 1_048_576) as usize,
        ),
        text@ == dec(n as nat) + blanks && n <= usize::MAX ==> r == Some(n as usize),
{
    let d = dec(n as nat);
    let none = Seq::<char>::empty();
    crate::number::lemma_dec_digits(n as nat);
    assert(crate::number::is_digit(d[0]) && crate::number::is_digit(d[d.len() - 1]));
    crate::text::law_visible_characters_are_no_blanks(d[0]);
    crate::text::law_visible_characters_are_no_blanks(d[d.len() - 1]);
    crate::text::law_visible_characters_are_no_blanks('K');
    crate::text::law_visible_characters_are_no_blanks('M');
    crate::text::law_trim_drops_blanks(none, d, blanks);
    crate::text::law_trim_drops_blanks(none, d, none);
    crate::text::law_trim_drops_blanks(none, d + seq!['K'], blanks);
    crate::text::law_trim_drops_blanks(none, d + seq!['M'], blanks);
    assert(none + d + blanks =~= d + blanks);
    assert(none + d + none =~= d);
    assert(none + (d + seq!['K']) + blanks =~= d + seq!['K'] + blanks);
    assert(none + (d + seq!['M']) + blanks =~= d + seq!['M'] + blanks);
    assert((d + seq!['K']).drop_last() =~= d);
    assert((d + seq!['M']).drop_last() =~= d);
    if n <= usize::MAX {
        crate::number::law_decimal_round_trip(n as nat, usize::MAX as nat);
    }
}

/// The array for bandwidth is four times as large as the last cache, at least 512 MiB,
/// but for less than 64 numbers.
pub proof fn law_bandwidth_array_exceeds_the_cache(l3: usize, n: usize)
    requires
        call_ensures(bandwidth_len, (l3,), n),
        l3 * 4 <= usize::MAX,
    ensures
        n * 8 + 512 > 4 * l3,
        n * 8 >= 512 * 1024 * 1024,
        4 * l3 >= 512 * 1024 * 1024 ==> n * 8 <= 4 * l3,
        4 * l3 < 512 * 1024 * 1024 ==> n * 8 == 512 * 1024 * 1024,
        n % 64 == 0,
{
}

/// The entry says that it is a cache of the level, of that many bytes.
pub open spec fn is_cache_of(e: CacheEntry, level: nat, bytes: usize) -> bool {
    e.size is Some && cache_size(e.size->0@) == Some(bytes) && cache_level(e) == level
}

/// The last second-level cache and the last data cache of the first level count, and the
/// largest of the third level.
pub proof fn law_cache_sizes_are_those_of_the_entries(
    entries: &[CacheEntry],
    r: CacheSizes,
    i: int,
    bytes: usize,
)
    requires
        call_ensures(CacheSizes::read, (entries,), r),
        0 <= i < entries@.len(),
    ensures
        is_cache_of(entries@[i], 3, bytes) ==> r.l3 >= bytes,
        r.l3 == 32 * 1024 * 1024 || exists|k: int|
            0 <= k < entries@.len() && is_cache_of(#[trigger] entries@[k], 3, r.l3),
        is_cache_of(entries@[i], 2, bytes) && (forall|k: int, b: usize|
            i < k < entries@.len() ==> !(#[trigger] is_cache_of(entries@[k], 2, b))) ==> r.l2 == bytes,
        is_cache_of(entries@[i], 1, bytes) && holds_data(entries@[i]) && (forall|k: int, b: usize|
            i < k < entries@.len() ==> !(#[trigger] is_cache_of(entries@[k], 1, b) && holds_data(
                entries@[k],
            ))) ==> r.l1d == bytes,
{
    lemma_cache_sizes(entries@, entries@.len(), i, bytes);
    lemma_third_level(entries@, entries@.len());
}

/// What an entry says of the sizes.
proof fn lemma_cache_sizes(e: Seq<CacheEntry>, n: nat, i: int, bytes: usize)
    requires
        0 <= i < n <= e.len(),
    ensures
        is_cache_of(e[i], 3, bytes) ==> cache_sizes(e, n).l3 >= bytes,
        is_cache_of(e[i], 2, bytes) && (forall|k: int, b: usize|
            i < k < n ==> !(#[trigger] is_cache_of(e[k], 2, b))) ==> cache_sizes(e, n).l2 == bytes,
        is_cache_of(e[i], 1, bytes) && holds_data(e[i]) && (forall|k: int, b: usize|
            i < k < n ==> !(#[trigger] is_cache_of(e[k], 1, b) && holds_data(e[k])))
            ==> cache_sizes(e, n).l1d == bytes,
    decreases n,
{
    if i < n - 1 {
        lemma_cache_sizes(e, (n - 1) as nat, i, bytes);
        let d = e[n - 1];
        if d.size is Some && cache_size(d.size->0@) is Some {
            let b = cache_size(d.size->0@)->0;
            assert(is_cache_of(d, cache_level(d), b));
        }
    }
}

/// The third level is the default or one of the entries.
proof fn lemma_third_level(e: Seq<CacheEntry>, n: nat)
    requires
        n <= e.len(),
    ensures
        cache_sizes(e, n).l3 == 32 * 1024 * 1024 || exists|k: int|
            0 <= k < n && is_cache_of(#[trigger] e[k], 3, cache_sizes(e, n).l3),
    decreases n,
{
    if n > 0 {
        lemma_third_level(e, (n - 1) as nat);
        let d = e[n - 1];
        let (x, y) = (cache_sizes(e, (n - 1) as nat).l3, cache_sizes(e, n).l3);
        if x == y {
            if x != 32 * 1024 * 1024 {
                let k = choose|k: int| 0 <= k < n - 1 && is_cache_of(#[trigger] e[k], 3, x);
                assert(is_cache_of(e[k], 3, y));
            }
        } else {
            assert(is_cache_of(d, 3, y));
        }
    }
}

/// The array that is walked has one slot of eight numbers for every 64 bytes, and the
/// walk passes through each slot once before it is back at the first.
pub proof fn law_walk_passes_every_line_once(size: usize, buf: Vec<u64>, j: nat, k: nat)
    requires
        call_ensures(build_chase_array, (size,), buf),
        size >= 128,
        j < k < buf@.len() / 8,
    ensures
        buf@.len() == size / 64 * 8,
        hops(buf@, 0, (buf@.len() / 8) as nat) == 0,
        hops(buf@, 0, j) != hops(buf@, 0, k),
        hops(buf@, 0, k) % 8 == 0,
        0 <= hops(buf@, 0, k) < buf@.len(),
{
    let n = line_count(size);
    let o = chase_order(size);
    lemma_chase_order(size);
    law_chase_is_one_cycle(size, buf@);
    law_chase_stays_inside(size, buf@);
    assert(buf@.len() == n * 8);
    assert(occurs(o, 0));
    let a = choose|i: int| 0 <= i < n && #[trigger] o[i] == 0;
    lemma_hops_follow_order(o, buf@, a, k);
    vstd::arithmetic::div_mod::lemma_mod_bound(a + k, n as int);
    assert(o[(a + k) % (n as int)] < n);
}

/// A measurement can be started where none runs; it is running then, and has no points.
/// Finished, it runs no more, keeps its points, and is complete unless it was cancelled.
pub proof fn law_measurement_runs_from_start_to_finish(
    m: &mut MemLatencyResult,
    n: &mut MemLatencyResult,
    e: &mut MemLatencyResult,
    p: LatencyPoint,
    cancelled: bool,
    started: bool,
)
    requires
        call_ensures(MemLatencyResult::start, (m,), started),
        *old(n) == *final(m),
        call_ensures(MemLatencyResult::record, (n, p), ()),
        *old(e) == *final(n),
        call_ensures(MemLatencyResult::finish, (e, cancelled), ()),
    ensures
        started <==> !old(m).running,
        started ==> final(m).running && !final(m).complete && final(m).points@.len() == 0,
        !started ==> *final(m) == *old(m),
        started ==> final(e).points@ =~= seq![p],
        !final(e).running,
        final(e).complete == !cancelled,
{
}

/// A run of the bandwidth test that is done runs no more; complete, it has made all of its
/// progress.
pub proof fn law_finished_run_runs_no_more(b: &mut BandwidthResult, complete: bool)
    requires
        call_ensures(BandwidthResult::mark_done, (b, complete), ()),
    ensures
        !final(b).running,
        final(b).complete == complete,
        complete ==> final(b).progress_milli == 1000,
        final(b).read_gb_s == old(b).read_gb_s,
        final(b).write_gb_s == old(b).write_gb_s,
        final(b).copy_gb_s == old(b).copy_gb_s,
{
}

} // verus!
