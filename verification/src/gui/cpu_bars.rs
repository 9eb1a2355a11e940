//! The per-core grid and the load history.

use std::collections::VecDeque;
use vstd::prelude::*;
use vstd::string::*;

use crate::binary::{
    double, exceeds, falls_short, law_adding_nothing_changes_nothing, law_near_is_within,
    law_quotients_are_near, law_sums_are_near, law_whole_numbers_are_exact,
    lemma_exponent_of_a_whole, lemma_smaller_fraction, numbers_of, parts, single, single_quotient,
    single_sum, Binary, Number, Single,
};
use crate::idset::IdSet;
use crate::number::{dec, hundredths, push_dec, push_hundredths, push_wide};
use crate::ring::{newest, push_capped};

verus! {

// ── History ──────────────────────────────────────────────────────────────────

/// The rolling average load, in thousandths of a percent.
pub struct CpuHistoryWidget {
    pub history: VecDeque<Single>,
    pub max_samples: usize,
}

impl CpuHistoryWidget {
    /// An empty history of 120 samples.
    pub fn new() -> (r: CpuHistoryWidget)
        ensures
            r.history@.len() == 0,
            r.max_samples == 120,
    {
        CpuHistoryWidget { history: VecDeque::new(), max_samples: 120 }
    }

    /// Adds a sample; the oldest goes where there are too many.
    pub fn push(&mut self, avg: Single)
        ensures
            final(self).history@ == newest(old(self).history@.push(avg), old(self).max_samples as nat),
            final(self).max_samples == old(self).max_samples,
    {
        let cap: usize = self.max_samples;
        push_capped(&mut self.history, avg, cap);
    }
}

/// The sum of loads.
pub open spec fn load_sum(s: Seq<Number>) -> Number
    decreases s.len(),
{
    if s.len() == 0 {
        single(0, 1)
    } else {
        single_sum(load_sum(s.drop_last()), s.last())
    }
}

/// The average of loads; 0 where there is none.
pub open spec fn load_average(s: Seq<Number>) -> Number {
    if s.len() == 0 {
        single(0, 1)
    } else {
        single_quotient(load_sum(s), single(s.len() as int, 1))
    }
}

/// The average of the loads.
pub fn average_load(pcts: &[Single]) -> (r: Single)
    ensures
        r@ == load_average(numbers_of(pcts@)),
{
    let n: usize = pcts.len();
    let mut total = Single::whole(0);
    if n == 0 {
        return total;
    }
    let ghost all = numbers_of(pcts@);
    let mut i: usize = 0;
    assert(all.take(0) =~= Seq::<Number>::empty());
    while i < n
        invariant
            i <= n,
            n == pcts.len(),
            all == numbers_of(pcts@),
            total@ == load_sum(all.take(i as int)),
        decreases n - i,
    {
        assert(all.take(i + 1).drop_last() =~= all.take(i as int));
        total = total.plus(pcts[i]);
        i += 1;
    }
    assert(all.take(i as int) =~= all);
    total.over(Single::whole(n as u64))
}

// ── Grid ─────────────────────────────────────────────────────────────────────

/// The number of columns in which `n` cells are laid out where at most `most` fit:
/// the greatest that divides `n`.
pub open spec fn grid_columns(n: nat, most: nat) -> nat
    decreases most,
{
    if most <= 1 {
        1
    } else if n % most == 0 {
        most
    } else {
        grid_columns(n, (most - 1) as nat)
    }
}

/// The number of columns for `n` cells where `fit` of them fit side by side.
pub fn columns_for(n: usize, fit: usize) -> (cols: usize)
    requires
        n > 0,
    ensures
        cols as nat == grid_columns(
            n as nat,
            (if fit < 1 {
                1
            } else if fit > n {
                n
            } else {
                fit
            }) as nat,
        ),
        1 <= cols <= n,
        n % cols == 0,
{
    let mut c: usize = if fit < 1 {
        1
    } else if fit > n {
        n
    } else {
        fit
    };
    let ghost most = c as nat;
    while c > 1 && n % c != 0
        invariant
            1 <= c <= n,
            grid_columns(n as nat, most) == grid_columns(n as nat, c as nat),
        decreases c,
    {
        c -= 1;
    }
    c
}

// ── Tooltip ──────────────────────────────────────────────────────────────────

/// A frequency in kHz as it is shown.
pub open spec fn freq_text(khz: u64) -> Seq<char> {
    if khz >= 1_000_000 {
        hundredths(parts(double(khz as int, 1_000_000), 100)) + " GHz"@
    } else {
        dec((khz / 1_000) as nat) + " MHz"@
    }
}

/// What is shown while the pointer is over a core.
pub open spec fn core_tip(cpu: nat, offline: bool, pct: Number, freq: Option<u64>) -> Seq<char> {
    "CPU "@ + dec(cpu) + " — "@ + (if offline {
        "parked (offline)"@
    } else {
        dec(parts(pct, 1)) + "% load"@
    }) + "\n"@ + (match freq {
        Some(khz) => freq_text(khz),
        None => "frequency unavailable"@,
    })
}

/// A frequency with its unit.
pub fn fmt_freq(khz: u64) -> (r: String)
    ensures
        r@ == freq_text(khz),
{
    let mut r = String::new();
    if khz >= 1_000_000 {
        push_hundredths(&mut r, Binary::double(khz, 1_000_000).parts(100));
        r.append(" GHz");
    } else {
        push_dec(&mut r, khz / 1_000);
        r.append(" MHz");
    }
    assert(r@ =~= freq_text(khz));
    r
}

/// What is shown while the pointer is over a core.
pub fn core_hover_text(cpu: u32, offline: bool, pct: Single, freq: Option<u64>) -> (r: String)
    ensures
        r@ == core_tip(cpu as nat, offline, pct@, freq),
{
    let mut r = "CPU ".to_owned();
    push_dec(&mut r, cpu as u64);
    r.append(" — ");
    let mut state = String::new();
    if offline {
        state.append("parked (offline)");
    } else {
        push_wide(&mut state, pct.get().parts(1));
        state.append("% load");
    }
    r.append(state.as_str());
    r.append("\n");
    let f = match freq {
        Some(khz) => fmt_freq(khz),
        None => "frequency unavailable".to_owned(),
    };
    r.append(f.as_str());
    assert(r@ =~= core_tip(cpu as nat, offline, pct@, freq));
    r
}

/// The text in a cell of the grid: the load, or `off` for a parked core.
pub fn core_cell_text(offline: bool, pct: Single) -> (r: String)
    ensures
        r@ == if offline {
            "off"@
        } else {
            dec(parts(pct@, 1)) + "%"@
        },
{
    if offline {
        return "off".to_owned();
    }
    let mut r = String::new();
    push_wide(&mut r, pct.get().parts(1));
    r.append("%");
    assert(r@ =~= dec(parts(pct@, 1)) + "%"@);
    r
}

/// The loads and frequencies that the grid shows.
pub struct CpuBarsWidget {
    pub cpu_pcts: Vec<Single>,
    pub cpu_freqs: Vec<Option<u64>>,
    pub offline: IdSet,
}

impl CpuBarsWidget {
    /// An empty grid.
    pub fn new() -> (r: CpuBarsWidget)
        ensures
            r.cpu_pcts@.len() == 0,
            r.cpu_freqs@.len() == 0,
            r.offline@ == Set::<u32>::empty(),
    {
        CpuBarsWidget { cpu_pcts: Vec::new(), cpu_freqs: Vec::new(), offline: IdSet::new() }
    }

    /// Takes in new readings.
    pub fn update(&mut self, pcts: Vec<Single>, freqs: Vec<Option<u64>>, offline: IdSet)
        ensures
            final(self).cpu_pcts == pcts,
            final(self).cpu_freqs == freqs,
            final(self).offline == offline,
    {
        self.cpu_pcts = pcts;
        self.cpu_freqs = freqs;
        self.offline = offline;
    }
}

/// The bars stand in full rows, as many to a row as fit.
pub proof fn law_rows_of_bars_are_full(n: usize, fit: usize, cols: usize, k: nat)
    requires
        call_ensures(columns_for, (n, fit), cols),
        n > 0,
        0 < k <= n,
        n as nat % k == 0,
    ensures
        n % cols == 0,
        fit >= 1 ==> cols <= fit,
        k <= fit ==> cols >= k,
        cols >= 1,
{
    let most = (if fit < 1 {
        1
    } else if fit > n {
        n
    } else {
        fit
    }) as nat;
    lemma_most_columns(n as nat, most, k);
}

/// No more columns than fit, and no fewer than any number that fits.
proof fn lemma_most_columns(n: nat, most: nat, k: nat)
    requires
        most >= 1,
        0 < k,
        n % k == 0,
    ensures
        grid_columns(n, most) <= most,
        k <= most ==> grid_columns(n, most) >= k,
    decreases most,
{
    if most > 1 && n % most != 0 {
        lemma_most_columns(n, (most - 1) as nat, k);
    }
}

/// The average of one load is that load; of none it is nothing.
pub proof fn law_average_of_one_is_itself(pcts: &[Single], r: Single, v: u64)
    requires
        call_ensures(average_load, (pcts,), r),
        0 < v < 0x100_0000,
    ensures
        pcts@.len() == 0 ==> r@.mant == 0,
        pcts@.len() == 1 && pcts@[0]@ == single(v as int, 1) ==> !exceeds(
            r@,
            v * 1_000_001,
            1_000_000,
        ) && !falls_short(r@, v * 999_999, 1_000_000),
{
    let s = numbers_of(pcts@);
    if pcts@.len() == 1 && pcts@[0]@ == single(v as int, 1) {
        let a = single(v as int, 1);
        assert(s.len() == 1 && s.last() == a);
        assert(s.drop_last() =~= Seq::<Number>::empty());
        assert(load_sum(s.drop_last()) == single(0, 1));
        law_whole_numbers_are_exact(v);
        law_whole_numbers_are_exact(1);
        law_adding_nothing_changes_nothing(a);
        law_quotients_are_near(a, v as int, 1, 0, single(1, 1), 1, 1, 0);
        assert(v * 1 == v);
        law_near_is_within(r@, v as int, 1, 2);
    }
}

/// The average of two loads lies in the middle between them, to within one part in a
/// million.
pub proof fn law_average_of_two_is_their_middle(pcts: &[Single], r: Single, v: u32, w: u32)
    requires
        call_ensures(average_load, (pcts,), r),
        0 < v < 0x10_0000,
        0 < w < 0x10_0000,
        pcts@.len() == 2,
        pcts@[0]@ == single(v as int, 1),
        pcts@[1]@ == single(w as int, 1),
    ensures
        !exceeds(r@, (v + w) * 1_000_001, 2_000_000),
        !falls_short(r@, (v + w) * 999_999, 2_000_000),
{
    let s = numbers_of(pcts@);
    let (a, b) = (single(v as int, 1), single(w as int, 1));
    assert(s.len() == 2 && s[0] == a && s[1] == b);
    let t = s.drop_last();
    assert(t.len() == 1 && t.last() == a);
    assert(s.last() == b);
    assert(t.drop_last() =~= Seq::<Number>::empty());
    assert(load_sum(t.drop_last()) == single(0, 1));
    law_whole_numbers_are_exact(v as u64);
    law_whole_numbers_are_exact(w as u64);
    law_whole_numbers_are_exact(2);
    law_adding_nothing_changes_nothing(a);
    assert(load_sum(t) == a);
    lemma_smaller_fraction(a, v as int, 1, 1, 1);
    lemma_smaller_fraction(b, w as int, 1, 1, 1);
    lemma_exponent_of_a_whole(a);
    lemma_exponent_of_a_whole(b);
    law_sums_are_near(a, v as int, 1, b, w as int, 1, 0);
    let total = single_sum(a, b);
    let n = v as int + w as int;
    assert(v as int * 1 + w as int * 1 == n);
    law_quotients_are_near(total, n, 1, 2, single(2, 1), 2, 1, 0);
    law_near_is_within(r@, n, 2, 4);
}

} // verus!
