//! The hardware tab: which sensors are shown, and how their values are written.

use vstd::prelude::*;
use vstd::string::*;

use crate::binary::{parts, Binary, Number, Single};
use crate::gui::theme::{sem_for, sem_palette, Rgb};
use crate::hw_monitor::{group_views, sensor_views, GroupView, HwMonitorData, SensorView};
use crate::lower::{lowercase, lowered, uppercase, uppered};
use crate::number::{
    dec, hundredths, push_hundredths, push_tenths, push_thousandths, push_wide, tenths,
    thousandths,
};
use crate::text::{
    contains_text, has_substring, holds_text, remove_text, same_text, texts, trim, trimmed_text,
    without_text,
};

verus! {

// ── The tab ──────────────────────────────────────────────────────────────────

/// The tab. Widths are in thousandths of a point.
pub struct HwMonitorTab {
    pub show_sparklines: bool,
    pub filter: String,
    /// The categories that are shown; all where there is none.
    pub cat_filter: Vec<String>,
    /// The widths of the columns with the value, the least, the greatest and the
    /// average.
    pub col_widths: [u32; 4],
    pub last_avail_w: u32,
    /// A column was resized in the last frame.
    pub cols_dirty: bool,
}

/// The widths at the start.
pub open spec fn default_widths() -> [u32; 4] {
    [100_000, 72_000, 72_000, 72_000]
}

/// A width that follows the window, within its limits.
pub open spec fn scaled_width(w: u32, avail: u32, last: u32) -> u32 {
    let x = w * avail / last as int;
    if x < 30_000 {
        30_000
    } else if x > 300_000 {
        300_000
    } else {
        x as u32
    }
}

/// Scales a width.
fn scale_width(w: u32, avail: u32, last: u32) -> (r: u32)
    requires
        last > 0,
    ensures
        r == scaled_width(w, avail, last),
{
    proof {
        assert(w * avail <= u32::MAX * u32::MAX) by (nonlinear_arith)
            requires
                w <= u32::MAX,
                avail <= u32::MAX,
        ;
    }
    let x: u64 = w as u64 * avail as u64 / last as u64;
    if x < 30_000 {
        30_000
    } else if x > 300_000 {
        300_000
    } else {
        x as u32
    }
}

/// The window has changed its width by more than four points.
pub open spec fn resized(avail: u32, last: u32) -> bool {
    last > 0 && (avail - last > 4000 || last - avail > 4000)
}

impl HwMonitorTab {
    /// The tab at the start.
    pub fn new() -> (r: HwMonitorTab)
        ensures
            r.show_sparklines,
            r.filter@.len() == 0,
            r.cat_filter@.len() == 0,
            r.col_widths == default_widths(),
            r.last_avail_w == 0,
            !r.cols_dirty,
    {
        HwMonitorTab {
            show_sparklines: true,
            filter: String::new(),
            cat_filter: Vec::new(),
            col_widths: [100_000, 72_000, 72_000, 72_000],
            last_avail_w: 0,
            cols_dirty: false,
        }
    }

    /// The tab at the start with widths from the configuration, if these are four.
    pub fn new_with_widths(widths: &[u32]) -> (r: HwMonitorTab)
        ensures
            r.show_sparklines,
            r.filter@.len() == 0,
            r.cat_filter@.len() == 0,
            r.col_widths@ == if widths@.len() == 4 {
                widths@
            } else {
                default_widths()@
            },
            r.last_avail_w == 0,
            !r.cols_dirty,
    {
        let mut s = HwMonitorTab::new();
        if widths.len() == 4 {
            s.col_widths = [widths[0], widths[1], widths[2], widths[3]];
            assert(s.col_widths@ =~= widths@);
        }
        s
    }

    /// A category passes the chips.
    pub open spec fn shows_category(&self, category: Seq<char>) -> bool {
        self.cat_filter@.len() == 0 || texts(self.cat_filter@).contains(category)
    }

    /// Whether a category passes the chips.
    pub fn category_enabled(&self, category: &str) -> (r: bool)
        ensures
            r == self.shows_category(category@),
    {
        self.cat_filter.len() == 0 || holds_text(&self.cat_filter, category)
    }

    /// Switches the chip of a category.
    pub fn toggle_category(&mut self, category: &str)
        ensures
            texts(final(self).cat_filter@) == if texts(old(self).cat_filter@).contains(category@) {
                without_text(texts(old(self).cat_filter@), category@)
            } else {
                texts(old(self).cat_filter@).push(category@)
            },
            *final(self) == (HwMonitorTab { cat_filter: final(self).cat_filter, ..*old(self) }),
    {
        let ghost all = texts(self.cat_filter@);
        if holds_text(&self.cat_filter, category) {
            let rest = remove_text(&self.cat_filter, category);
            self.cat_filter = rest;
        } else {
            self.cat_filter.push(category.to_owned());
            assert(texts(self.cat_filter@) =~= all.push(category@));
        }
    }

    /// Takes in the width of the window; the columns follow it.
    pub fn fit_width(&mut self, avail: u32)
        ensures
            final(self).col_widths@ == if resized(avail, old(self).last_avail_w) {
                Seq::new(
                    4,
                    |i: int|
                        scaled_width(old(self).col_widths[i], avail, if old(self).last_avail_w
                            < 1000 {
                            1000
                        } else {
                            old(self).last_avail_w
                        }),
                )
            } else {
                old(self).col_widths@
            },
            *final(self) == (HwMonitorTab {
                col_widths: final(self).col_widths,
                last_avail_w: avail,
                ..*old(self)
            }),
    {
        let last: u32 = self.last_avail_w;
        let differs = if avail > last {
            avail - last > 4000
        } else {
            last - avail > 4000
        };
        if last > 0 && differs {
            let base: u32 = if last < 1000 {
                1000
            } else {
                last
            };
            let w = self.col_widths;
            self.col_widths = [
                scale_width(w[0], avail, base),
                scale_width(w[1], avail, base),
                scale_width(w[2], avail, base),
                scale_width(w[3], avail, base),
            ];
            assert(self.col_widths@ =~= Seq::new(4, |i: int| scaled_width(w[i], avail, base)));
        }
        self.last_avail_w = avail;
    }

    /// Takes in how far the edges of the columns were dragged. A drag of no more than
    /// a thousandth of a point does not count.
    pub fn drag_columns(&mut self, deltas: [i32; 4])
        ensures
            forall|i: int|
                0 <= i < 4 ==> #[trigger] final(self).col_widths[i] == dragged(
                    old(self).col_widths[i],
                    deltas[i],
                ),
            final(self).cols_dirty == exists|i: int| 0 <= i < 4 && counts(#[trigger] deltas[i]),
            *final(self) == (HwMonitorTab {
                col_widths: final(self).col_widths,
                cols_dirty: final(self).cols_dirty,
                ..*old(self)
            }),
    {
        let w = self.col_widths;
        self.col_widths = [
            drag(w[0], deltas[0]),
            drag(w[1], deltas[1]),
            drag(w[2], deltas[2]),
            drag(w[3], deltas[3]),
        ];
        self.cols_dirty = does_count(deltas[0]) || does_count(deltas[1]) || does_count(deltas[2])
            || does_count(deltas[3]);
        proof {
            assert(counts(deltas[0]) || !counts(deltas[0]));
            assert(counts(deltas[1]) || !counts(deltas[1]));
            assert(counts(deltas[2]) || !counts(deltas[2]));
            assert(counts(deltas[3]) || !counts(deltas[3]));
            assert forall|i: int| 0 <= i < 4 implies #[trigger] self.col_widths[i] == dragged(
                w[i],
                deltas[i],
            ) by {
                if i == 0 {
                } else if i == 1 {
                } else if i == 2 {
                } else {
                }
            }
            if exists|i: int| 0 <= i < 4 && counts(#[trigger] deltas[i]) {
                let i = choose|i: int| 0 <= i < 4 && counts(#[trigger] deltas[i]);
                assert(i == 0 || i == 1 || i == 2 || i == 3);
            }
        }
    }

    /// The search text, trimmed and in lower case.
    pub fn search(&self) -> (r: String)
        ensures
            r@ == lowercase(trim(self.filter@)),
    {
        let t = trimmed_text(self.filter.as_str());
        lowered(t.as_str())
    }
}

/// A drag counts.
pub open spec fn counts(delta: i32) -> bool {
    delta > 1 || delta < -1
}

/// Whether a drag counts.
fn does_count(delta: i32) -> (r: bool)
    ensures
        r == counts(delta),
{
    delta > 1 || delta < -1
}

/// A width after its edge was dragged; it stays at thirty points at least.
pub open spec fn dragged(w: u32, delta: i32) -> u32 {
    if counts(delta) {
        let x = w + delta;
        if x < 30_000 {
            30_000
        } else if x > u32::MAX {
            u32::MAX
        } else {
            x as u32
        }
    } else {
        w
    }
}

/// Drags the edge of a column.
fn drag(w: u32, delta: i32) -> (r: u32)
    ensures
        r == dragged(w, delta),
{
    if does_count(delta) {
        let x: i64 = w as i64 + delta as i64;
        if x < 30_000 {
            30_000
        } else if x > u32::MAX as i64 {
            u32::MAX
        } else {
            x as u32
        }
    } else {
        w
    }
}

// ── What is shown ────────────────────────────────────────────────────────────

/// The categories in the order in which they are shown.
pub open spec fn known_categories() -> Seq<Seq<char>> {
    seq!["CPU"@, "GPU"@, "Memory"@, "Storage"@, "Network"@, "System"@]
}

/// The categories in the order in which they are shown; unknown ones follow in the
/// order in which they occur.
pub open spec fn ordered_categories(g: Seq<GroupView>) -> Seq<Seq<char>>
    decreases g.len(),
{
    if g.len() == 0 {
        known_categories()
    } else {
        let before = ordered_categories(g.drop_last());
        if before.contains(g.last().category) {
            before
        } else {
            before.push(g.last().category)
        }
    }
}

/// A search finds a group: it is empty, or a part of the name or of the category in
/// lower case.
pub open spec fn found_group(
    low_name: Seq<char>,
    low_category: Seq<char>,
    search: Seq<char>,
) -> bool {
    ||| search.len() == 0
    ||| has_substring(low_name, search)
    ||| has_substring(low_category, search)
}

/// Whether a search finds a group, all texts being in lower case.
pub fn finds_group(low_name: &str, low_category: &str, search: &str) -> (r: bool)
    ensures
        r == found_group(low_name@, low_category@, search@),
{
    search.is_empty() || contains_text(low_name, search) || contains_text(low_category, search)
}

/// The search finds the group itself.
pub open spec fn group_hit(g: GroupView, search: Seq<char>) -> bool {
    found_group(lowercase(g.name), lowercase(g.category), search)
}

/// The places of the sensors that the search leaves.
pub open spec fn shown_sensors(s: Seq<SensorView>, all: bool, search: Seq<char>) -> Seq<usize>
    decreases s.len(),
{
    if s.len() == 0 {
        Seq::empty()
    } else {
        let r = shown_sensors(s.drop_last(), all, search);
        if all || has_substring(lowercase(s.last().label), search) {
            r.push((s.len() - 1) as usize)
        } else {
            r
        }
    }
}

/// The groups of one category that are shown, with their sensors.
pub open spec fn shown_in(
    g: Seq<GroupView>,
    category: Seq<char>,
    search: Seq<char>,
) -> Seq<(usize, Seq<usize>)>
    decreases g.len(),
{
    if g.len() == 0 {
        Seq::empty()
    } else {
        let r = shown_in(g.drop_last(), category, search);
        let last = g.last();
        let s = shown_sensors(last.sensors, group_hit(last, search), search);
        if last.category == category && s.len() > 0 {
            r.push(((g.len() - 1) as usize, s))
        } else {
            r
        }
    }
}

/// The groups that are shown, with their sensors.
pub open spec fn shown_groups(
    cats: Seq<Seq<char>>,
    tab: HwMonitorTab,
    g: Seq<GroupView>,
    search: Seq<char>,
) -> Seq<(usize, Seq<usize>)>
    decreases cats.len(),
{
    if cats.len() == 0 {
        Seq::empty()
    } else {
        let r = shown_groups(cats.drop_last(), tab, g, search);
        if tab.shows_category(cats.last()) {
            r + shown_in(g, cats.last(), search)
        } else {
            r
        }
    }
}

/// A list of groups with their sensors, as values.
pub open spec fn group_list(v: Seq<(usize, Vec<usize>)>) -> Seq<(usize, Seq<usize>)> {
    Seq::new(v.len(), |i: int| (v[i].0, v[i].1@))
}

/// The categories in the order in which they are shown.
fn category_order(data: &HwMonitorData) -> (r: Vec<String>)
    ensures
        texts(r@) == ordered_categories(group_views(data.groups@)),
{
    let mut r: Vec<String> = Vec::new();
    r.push("CPU".to_owned());
    r.push("GPU".to_owned());
    r.push("Memory".to_owned());
    r.push("Storage".to_owned());
    r.push("Network".to_owned());
    r.push("System".to_owned());
    let ghost all = group_views(data.groups@);
    let mut i: usize = 0;
    proof {
        assert(all.take(0) =~= Seq::<GroupView>::empty());
        assert(texts(r@) =~= known_categories());
    }
    while i < data.groups.len()
        invariant
            i <= data.groups.len(),
            all == group_views(data.groups@),
            texts(r@) == ordered_categories(all.take(i as int)),
        decreases data.groups.len() - i,
    {
        assert(all.take(i + 1).drop_last() =~= all.take(i as int));
        assert(all.take(i + 1).last() == data.groups@[i as int]@);
        let ghost before = texts(r@);
        let c = data.groups[i].category.as_str();
        if !holds_text(&r, c) {
            r.push(c.to_owned());
            assert(texts(r@) =~= before.push(c@));
        }
        i += 1;
    }
    assert(all.take(i as int) =~= all);
    r
}

/// The places of the sensors of a group that the search leaves.
fn visible_sensors(data: &HwMonitorData, k: usize, search: &str) -> (r: Vec<usize>)
    requires
        k < data.groups@.len(),
    ensures
        r@ == shown_sensors(
            data.groups@[k as int]@.sensors,
            group_hit(data.groups@[k as int]@, search@),
            search@,
        ),
{
    let g = &data.groups[k];
    let low_name = lowered(g.name.as_str());
    let low_category = lowered(g.category.as_str());
    let hit = finds_group(low_name.as_str(), low_category.as_str(), search);
    let ghost all = sensor_views(g.sensors@);
    let mut r: Vec<usize> = Vec::new();
    let mut i: usize = 0;
    assert(all.take(0) =~= Seq::<SensorView>::empty());
    while i < g.sensors.len()
        invariant
            i <= g.sensors.len(),
            all == sensor_views(g.sensors@),
            r@ == shown_sensors(all.take(i as int), hit, search@),
        decreases g.sensors.len() - i,
    {
        assert(all.take(i + 1).drop_last() =~= all.take(i as int));
        assert(all.take(i + 1).last() == g.sensors@[i as int]@);
        let mut shown = hit;
        if !shown {
            let low = lowered(g.sensors[i].label().as_str());
            shown = contains_text(low.as_str(), search);
        }
        if shown {
            r.push(i);
        }
        i += 1;
    }
    assert(all.take(i as int) =~= all);
    r
}

impl HwMonitorTab {
    /// The groups that the chips and the search leave, in the order of the
    /// categories, with their sensors. A search that finds a group shows all its
    /// sensors. The search text is in lower case.
    pub fn collect_visible(&self, data: &HwMonitorData, search: &str) -> (r: Vec<
        (usize, Vec<usize>),
    >)
        ensures
            group_list(r@) == shown_groups(
                ordered_categories(group_views(data.groups@)),
                *self,
                group_views(data.groups@),
                search@,
            ),
    {
        let cats = category_order(data);
        let ghost cs = texts(cats@);
        let ghost gs = group_views(data.groups@);
        let mut r: Vec<(usize, Vec<usize>)> = Vec::new();
        let mut c: usize = 0;
        proof {
            assert(cs.take(0) =~= Seq::<Seq<char>>::empty());
            assert(group_list(r@) =~= Seq::<(usize, Seq<usize>)>::empty());
        }
        while c < cats.len()
            invariant
                c <= cats.len(),
                cs == texts(cats@),
                gs == group_views(data.groups@),
                group_list(r@) == shown_groups(cs.take(c as int), *self, gs, search@),
            decreases cats.len() - c,
        {
            assert(cs.take(c + 1).drop_last() =~= cs.take(c as int));
            assert(cs.take(c + 1).last() == cats@[c as int]@);
            let category = cats[c].as_str();
            if self.category_enabled(category) {
                let ghost before = group_list(r@);
                let mut i: usize = 0;
                proof {
                    assert(gs.take(0) =~= Seq::<GroupView>::empty());
                    assert(before + shown_in(gs.take(0), category@, search@) =~= before);
                }
                while i < data.groups.len()
                    invariant
                        i <= data.groups.len(),
                        gs == group_views(data.groups@),
                        group_list(r@) == before + shown_in(
                            gs.take(i as int),
                            category@,
                            search@,
                        ),
                    decreases data.groups.len() - i,
                {
                    assert(gs.take(i + 1).drop_last() =~= gs.take(i as int));
                    assert(gs.take(i + 1).last() == data.groups@[i as int]@);
                    if same_text(data.groups[i].category.as_str(), category) {
                        let s = visible_sensors(data, i, search);
                        if s.len() > 0 {
                            let ghost sv = s@;
                            let ghost was = group_list(r@);
                            r.push((i, s));
                            assert(group_list(r@) =~= was.push((i, sv)));
                            assert(was.push((i, sv)) =~= before + shown_in(
                                gs.take(i as int),
                                category@,
                                search@,
                            ).push((i, sv)));
                        }
                    }
                    i += 1;
                }
                assert(gs.take(i as int) =~= gs);
            }
            c += 1;
        }
        assert(cs.take(c as int) =~= cs);
        r
    }
}

/// The category of each group has its place in the order.
proof fn lemma_category_is_ordered(g: Seq<GroupView>, k: int)
    requires
        0 <= k < g.len(),
    ensures
        ordered_categories(g).contains(g[k].category),
    decreases g.len(),
{
    let before = ordered_categories(g.drop_last());
    let all = ordered_categories(g);
    if k < g.len() - 1 {
        lemma_category_is_ordered(g.drop_last(), k);
        let i = choose|i: int| 0 <= i < before.len() && before[i] == g[k].category;
        assert(all[i] == g[k].category);
    } else if !before.contains(g.last().category) {
        assert(all[before.len() as int] == g[k].category);
    }
}

/// All places up to a number.
pub open spec fn all_places(n: nat) -> Seq<usize> {
    Seq::new(n, |i: int| i as usize)
}

/// Without a search all sensors of a group are shown.
proof fn lemma_all_sensors(s: Seq<SensorView>, search: Seq<char>)
    ensures
        shown_sensors(s, true, search) == all_places(s.len()),
    decreases s.len(),
{
    if s.len() > 0 {
        lemma_all_sensors(s.drop_last(), search);
    }
    assert(shown_sensors(s, true, search) =~= all_places(s.len()));
}

/// A group with sensors that are shown is among the groups of its category.
proof fn lemma_group_is_shown(g: Seq<GroupView>, search: Seq<char>, k: int)
    requires
        0 <= k < g.len(),
        g.len() <= usize::MAX,
        shown_sensors(g[k].sensors, group_hit(g[k], search), search).len() > 0,
    ensures
        shown_in(g, g[k].category, search).contains(
            (k as usize, shown_sensors(g[k].sensors, group_hit(g[k], search), search)),
        ),
    decreases g.len(),
{
    let c = g[k].category;
    let e = (k as usize, shown_sensors(g[k].sensors, group_hit(g[k], search), search));
    let all = shown_in(g, c, search);
    let before = shown_in(g.drop_last(), c, search);
    if k < g.len() - 1 {
        assert(g.drop_last()[k] == g[k]);
        lemma_group_is_shown(g.drop_last(), search, k);
        let i = choose|i: int| 0 <= i < before.len() && before[i] == e;
        assert(all[i] == e);
    } else {
        assert(all[before.len() as int] == e);
    }
}

/// The groups of a category that is shown are shown.
proof fn lemma_category_is_shown(
    cats: Seq<Seq<char>>,
    tab: HwMonitorTab,
    g: Seq<GroupView>,
    search: Seq<char>,
    i: int,
    e: (usize, Seq<usize>),
)
    requires
        0 <= i < cats.len(),
        tab.shows_category(cats[i]),
        shown_in(g, cats[i], search).contains(e),
    ensures
        shown_groups(cats, tab, g, search).contains(e),
    decreases cats.len(),
{
    let all = shown_groups(cats, tab, g, search);
    let before = shown_groups(cats.drop_last(), tab, g, search);
    if i < cats.len() - 1 {
        lemma_category_is_shown(cats.drop_last(), tab, g, search, i, e);
        let k = choose|k: int| 0 <= k < before.len() && before[k] == e;
        assert(all[k] == e);
    } else {
        let s = shown_in(g, cats[i], search);
        let k = choose|k: int| 0 <= k < s.len() && s[k] == e;
        assert(all[before.len() + k] == e);
    }
}

/// Without chips and without a search every group that has sensors is shown, with
/// all of them, whatever its category.
pub proof fn law_nothing_is_hidden_without_a_filter(tab: HwMonitorTab, g: Seq<GroupView>, k: int)
    requires
        tab.cat_filter@.len() == 0,
        0 <= k < g.len(),
        g.len() <= usize::MAX,
        g[k].sensors.len() > 0,
    ensures
        shown_groups(ordered_categories(g), tab, g, Seq::empty()).contains(
            (k as usize, all_places(g[k].sensors.len())),
        ),
{
    let search = Seq::<char>::empty();
    lemma_category_is_ordered(g, k);
    lemma_all_sensors(g[k].sensors, search);
    lemma_group_is_shown(g, search, k);
    let cats = ordered_categories(g);
    let i = choose|i: int| 0 <= i < cats.len() && cats[i] == g[k].category;
    lemma_category_is_shown(
        cats,
        tab,
        g,
        search,
        i,
        (k as usize, all_places(g[k].sensors.len())),
    );
}

/// Of a category whose chip is off nothing is shown, where any chip is on.
pub proof fn law_chips_hide_other_categories(
    cats: Seq<Seq<char>>,
    tab: HwMonitorTab,
    g: Seq<GroupView>,
    search: Seq<char>,
    i: int,
)
    requires
        0 <= i < shown_groups(cats, tab, g, search).len(),
        g.len() <= usize::MAX,
    ensures
        ({
            let k = shown_groups(cats, tab, g, search)[i].0;
            k < g.len() && tab.shows_category(g[k as int].category)
        }),
    decreases cats.len(),
{
    let before = shown_groups(cats.drop_last(), tab, g, search);
    if i < before.len() {
        law_chips_hide_other_categories(cats.drop_last(), tab, g, search, i);
    } else {
        lemma_shown_in_category(g, cats.last(), search, i - before.len());
    }
}

/// What is shown of a category belongs to it.
proof fn lemma_shown_in_category(g: Seq<GroupView>, c: Seq<char>, search: Seq<char>, i: int)
    requires
        0 <= i < shown_in(g, c, search).len(),
        g.len() <= usize::MAX,
    ensures
        ({
            let k = shown_in(g, c, search)[i].0;
            k < g.len() && g[k as int].category == c
        }),
    decreases g.len(),
{
    let before = shown_in(g.drop_last(), c, search);
    if i < before.len() {
        lemma_shown_in_category(g.drop_last(), c, search, i);
    }
}

// ── Texts ────────────────────────────────────────────────────────────────────

/// The heading of a group.
pub fn group_title(category: &str, name: &str) -> (r: String)
    ensures
        r@ == uppercase(category@) + " · "@ + name@,
{
    let mut s = uppered(category);
    s.append(" · ");
    s.append(name);
    s
}

/// How many decimal places the values of a unit are written with.
pub open spec fn places_of(unit: Seq<char>) -> int {
    if unit == "°C"@ || unit == "%"@ {
        1
    } else if unit == "RPM"@ || unit == "MHz"@ || unit == "MB"@ {
        0
    } else if unit == "V"@ {
        3
    } else {
        2
    }
}

/// The size of a value with some decimal places.
pub open spec fn size_of_value(v: Number, places: int) -> Seq<char> {
    if places == 0 {
        dec(parts(v, 1))
    } else if places == 1 {
        tenths(parts(v, 10))
    } else if places == 2 {
        hundredths(parts(v, 100))
    } else {
        thousandths(parts(v, 1000))
    }
}

/// A value and its unit.
pub open spec fn value_text(v: Number, unit: Seq<char>) -> Seq<char> {
    let size = size_of_value(v, places_of(unit));
    let number = if v.neg {
        "-"@ + size
    } else {
        size
    };
    if unit == "%"@ {
        number + "%"@
    } else if unit.len() == 0 {
        number
    } else {
        number + " "@ + unit
    }
}

/// Writes a value and its unit.
pub fn fmt_val(v: Binary, unit: &str) -> (r: String)
    ensures
        r@ == value_text(v@, unit@),
{
    let places: u8 = if same_text(unit, "°C") || same_text(unit, "%") {
        1
    } else if same_text(unit, "RPM") || same_text(unit, "MHz") || same_text(unit, "MB") {
        0
    } else if same_text(unit, "V") {
        3
    } else {
        2
    };
    assert(places as int == places_of(unit@));
    let mut s = String::new();
    assert(s@ =~= Seq::<char>::empty());
    if v.neg {
        s.append("-");
    }
    let ghost sign = s@;
    if places == 0 {
        push_wide(&mut s, v.parts(1));
    } else if places == 1 {
        push_tenths(&mut s, v.parts(10));
    } else if places == 2 {
        push_hundredths(&mut s, v.parts(100));
    } else {
        push_thousandths(&mut s, v.parts(1000));
    }
    let ghost size = size_of_value(v@, places as int);
    assert(s@ == sign + size);
    assert(v.neg ==> sign =~= "-"@);
    assert(!v.neg ==> sign + size =~= size);
    if same_text(unit, "%") {
        s.append("%");
    } else if !unit.is_empty() {
        s.append(" ");
        s.append(unit);
    }
    s
}

/// A value in thousandths, to the nearest one; at most the greatest that fits.
pub open spec fn thousandths_of(v: Number) -> int {
    let n = if parts(v, 1000) > i64::MAX {
        i64::MAX as int
    } else {
        parts(v, 1000) as int
    };
    if v.neg {
        -n
    } else {
        n
    }
}

/// Counts the thousandths of a value.
fn count_thousandths(v: Single) -> (r: i64)
    ensures
        r as int == thousandths_of(v@),
{
    let b = v.get();
    let n: u128 = b.parts(1000);
    let m: i64 = if n > i64::MAX as u128 {
        i64::MAX
    } else {
        n as i64
    };
    if b.neg {
        -m
    } else {
        m
    }
}

/// The place of a temperature on the load ramp: 40 degrees are cool, 100 are
/// critical. Temperatures are in thousandths of a degree, places in thousandths of a
/// percent.
pub open spec fn temp_load(milli: i64) -> u32 {
    if milli <= 40_000 {
        0
    } else if milli >= 100_000 {
        100_000
    } else {
        ((milli - 40_000) * 5 / 3) as u32
    }
}

/// The place of a temperature on the load ramp.
pub fn temp_pct(milli: i64) -> (r: u32)
    ensures
        r == temp_load(milli),
{
    if milli <= 40_000 {
        0
    } else if milli >= 100_000 {
        100_000
    } else {
        ((milli - 40_000) * 5 / 3) as u32
    }
}

/// The place of a value on the load ramp; none for a unit that has no load. 300 W are
/// full load.
pub open spec fn value_load(v: Number, unit: Seq<char>) -> Option<u32> {
    let m = thousandths_of(v);
    if unit == "°C"@ {
        Some(temp_load(m as i64))
    } else if unit == "%"@ {
        Some(
            if m < 0 {
                0
            } else if m > 100_000 {
                100_000
            } else {
                m as u32
            },
        )
    } else if unit == "W"@ {
        Some(
            if m < 0 {
                0
            } else if m > 300_000 {
                100_000
            } else {
                (m / 3) as u32
            },
        )
    } else {
        None
    }
}

/// The place of a value on the load ramp.
pub fn value_mpct(v: Single, unit: &str) -> (r: Option<u32>)
    ensures
        r == value_load(v@, unit@),
{
    let m: i64 = count_thousandths(v);
    if same_text(unit, "°C") {
        Some(temp_pct(m))
    } else if same_text(unit, "%") {
        Some(
            if m < 0 {
                0
            } else if m > 100_000 {
                100_000
            } else {
                m as u32
            },
        )
    } else if same_text(unit, "W") {
        Some(
            if m < 0 {
                0
            } else if m > 300_000 {
                100_000
            } else {
                (m / 3) as u32
            },
        )
    } else {
        None
    }
}

/// A hotter sensor never looks cooler.
pub proof fn law_hotter_is_no_cooler(a: i64, b: i64)
    requires
        a <= b,
    ensures
        temp_load(a) <= temp_load(b) <= 100_000,
{
}

/// The colour of a category; none for unknown ones.
pub fn category_color(dark_mode: bool, category: &str) -> (r: Option<Rgb>)
    ensures
        r == if category@ == "CPU"@ {
            Some(sem_palette(dark_mode).accent)
        } else if category@ == "GPU"@ {
            Some(sem_palette(dark_mode).ok)
        } else if category@ == "Memory"@ {
            Some(sem_palette(dark_mode).manual)
        } else if category@ == "Storage"@ {
            Some(sem_palette(dark_mode).warning)
        } else if category@ == "Network"@ {
            Some(sem_palette(dark_mode).mid)
        } else {
            None
        },
{
    let s = sem_for(dark_mode);
    if same_text(category, "CPU") {
        Some(s.accent)
    } else if same_text(category, "GPU") {
        Some(s.ok)
    } else if same_text(category, "Memory") {
        Some(s.manual)
    } else if same_text(category, "Storage") {
        Some(s.warning)
    } else if same_text(category, "Network") {
        Some(s.mid)
    } else {
        None
    }
}

/// A category that was chosen is shown, and so is each where none was; a second click
/// takes the choice back.
pub proof fn law_chosen_categories_are_shown(
    tab: &mut HwMonitorTab,
    category: &str,
    after: &HwMonitorTab,
    before: &HwMonitorTab,
    r: bool,
    s: bool,
)
    requires
        call_ensures(HwMonitorTab::toggle_category, (tab, category), ()),
        *after == *final(tab),
        *before == *old(tab),
        call_ensures(HwMonitorTab::category_enabled, (after, category), r),
        call_ensures(HwMonitorTab::category_enabled, (before, category), s),
    ensures
        old(tab).cat_filter@.len() == 0 ==> s && r && final(tab).cat_filter@.len() == 1,
        !texts(old(tab).cat_filter@).contains(category@) ==> r,
        texts(old(tab).cat_filter@).contains(category@) ==> s && !texts(
            final(tab).cat_filter@,
        ).contains(category@),
{
    let (x, y) = (texts(old(tab).cat_filter@), texts(final(tab).cat_filter@));
    assert(x.len() == old(tab).cat_filter@.len() && y.len() == final(tab).cat_filter@.len());
    if x.contains(category@) {
        lemma_left_out(x, category@);
    } else {
        assert(y[x.len() as int] == category@);
    }
}

/// A text that was left out is not there.
proof fn lemma_left_out(s: Seq<Seq<char>>, t: Seq<char>)
    ensures
        !without_text(s, t).contains(t),
    decreases s.len(),
{
    if s.len() > 0 {
        let d = s.drop_last();
        lemma_left_out(d, t);
        let r = without_text(s, t);
        if r.contains(t) {
            let i = choose|i: int| 0 <= i < r.len() && r[i] == t;
            if i < without_text(d, t).len() {
                assert(without_text(d, t)[i] == t);
            }
        }
    }
}

/// A temperature is calm up to 40 degrees, alarming from 100 on, and between them the
/// hotter the higher.
pub proof fn law_hotter_is_higher(a: i64, b: i64, r: u32, s: u32)
    requires
        call_ensures(temp_pct, (a,), r),
        call_ensures(temp_pct, (b,), s),
        a <= b,
    ensures
        r <= s <= 100_000,
        a <= 40_000 ==> r == 0,
        b >= 100_000 ==> s == 100_000,
        40_000 <= a < b <= 100_000 ==> r < s && 3 * r <= 5 * (a - 40_000) < 3 * (r + 1),
{
}

/// A search finds a group by its name or its category, and everything where it is empty.
pub proof fn law_groups_are_found_by_name_or_category(
    name: &str,
    category: &str,
    search: &str,
    r: bool,
)
    requires
        call_ensures(finds_group, (name, category, search), r),
    ensures
        r <==> search@.len() == 0 || (exists|a: Seq<char>, b: Seq<char>|
            name@ == #[trigger] (a + search@ + b)) || (exists|a: Seq<char>, b: Seq<char>|
            category@ == #[trigger] (a + search@ + b)),
{
    crate::text::law_substring_stands_between(name@, search@);
    crate::text::law_substring_stands_between(category@, search@);
}

/// Which sensors of a group are shown.
proof fn lemma_shown_sensors(s: Seq<SensorView>, all: bool, search: Seq<char>, i: usize)
    requires
        s.len() <= usize::MAX,
    ensures
        shown_sensors(s, all, search).contains(i) <==> i < s.len() && (all || has_substring(
            lowercase(s[i as int].label),
            search,
        )),
    decreases s.len(),
{
    if s.len() > 0 {
        let d = s.drop_last();
        lemma_shown_sensors(d, all, search, i);
        let (a, b) = (shown_sensors(d, all, search), shown_sensors(s, all, search));
        let last = (s.len() - 1) as usize;
        if i < last {
            assert(d[i as int] == s[i as int]);
        }
        assert(s[last as int] == s.last());
        if all || has_substring(lowercase(s.last().label), search) {
            assert(b[a.len() as int] == last);
            if a.contains(i) {
                let k = choose|k: int| 0 <= k < a.len() && a[k] == i;
                assert(b[k] == i);
            }
            if b.contains(i) && i != last {
                let k = choose|k: int| 0 <= k < b.len() && b[k] == i;
                assert(a[k] == i);
            }
        }
    }
}

/// Which groups of a category are shown.
proof fn lemma_shown_in(
    g: Seq<GroupView>,
    category: Seq<char>,
    search: Seq<char>,
    k: usize,
)
    requires
        g.len() <= usize::MAX,
        k < g.len(),
    ensures
        ({
            let s = shown_sensors(g[k as int].sensors, group_hit(g[k as int], search), search);
            g[k as int].category == category && s.len() > 0 ==> shown_in(g, category, search).contains(
                (k, s),
            )
        }),
    decreases g.len(),
{
    let d = g.drop_last();
    let last = (g.len() - 1) as usize;
    let s = shown_sensors(g[k as int].sensors, group_hit(g[k as int], search), search);
    let (a, b) = (shown_in(d, category, search), shown_in(g, category, search));
    if k < last {
        lemma_shown_in(d, category, search, k);
        assert(d[k as int] == g[k as int]);
        if a.contains((k, s)) {
            let i = choose|i: int| 0 <= i < a.len() && a[i] == (k, s);
            assert(b[i] == (k, s));
        }
    } else if g[k as int].category == category && s.len() > 0 {
        assert(b[a.len() as int] == (k, s));
    }
}

/// The groups of the categories that are shown.
proof fn lemma_shown_groups(
    cats: Seq<Seq<char>>,
    tab: HwMonitorTab,
    g: Seq<GroupView>,
    search: Seq<char>,
    c: int,
    x: (usize, Seq<usize>),
)
    requires
        0 <= c < cats.len(),
        tab.shows_category(cats[c]),
        shown_in(g, cats[c], search).contains(x),
    ensures
        shown_groups(cats, tab, g, search).contains(x),
    decreases cats.len(),
{
    let d = cats.drop_last();
    let (a, b) = (shown_groups(d, tab, g, search), shown_groups(cats, tab, g, search));
    if c < d.len() {
        lemma_shown_groups(d, tab, g, search, c, x);
        let i = choose|i: int| 0 <= i < a.len() && a[i] == x;
        assert(b[i] == x);
    } else {
        let s = shown_in(g, cats[c], search);
        let i = choose|i: int| 0 <= i < s.len() && s[i] == x;
        assert(b[a.len() + i] == x);
    }
}

/// Every category of a group is in the order of the categories.
proof fn lemma_category_is_listed(g: Seq<GroupView>, k: int)
    requires
        0 <= k < g.len(),
    ensures
        ordered_categories(g).contains(g[k].category),
    decreases g.len(),
{
    let d = g.drop_last();
    let (a, b) = (ordered_categories(d), ordered_categories(g));
    if k < d.len() {
        lemma_category_is_listed(d, k);
        assert(d[k] == g[k]);
        if a != b {
            let i = choose|i: int| 0 <= i < a.len() && a[i] == g[k].category;
            assert(b[i] == g[k].category);
        }
    } else if !a.contains(g.last().category) {
        assert(b[a.len() as int] == g.last().category);
    }
}

/// A sensor of a category that is shown is shown where the text stands in its own name, or
/// in the name or the category of its group, without regard to case.
pub proof fn law_sensors_are_found_by_any_of_their_names(
    tab: &HwMonitorTab,
    data: &HwMonitorData,
    search: &str,
    r: Vec<(usize, Vec<usize>)>,
    category: &str,
    shown: bool,
    k: usize,
    i: usize,
)
    requires
        call_ensures(HwMonitorTab::collect_visible, (tab, data, search), r),
        k < data.groups@.len(),
        category@ == data.groups@[k as int].category@,
        call_ensures(HwMonitorTab::category_enabled, (tab, category), shown),
        shown,
        i < data.groups@[k as int].sensors@.len(),
        data.groups@[k as int].sensors@.len() <= usize::MAX,
        search@.len() == 0 || (exists|a: Seq<char>, b: Seq<char>|
            lowercase(data.groups@[k as int].sensors@[i as int]@.label) == #[trigger] (a + search@
                + b)) || (exists|a: Seq<char>, b: Seq<char>|
            lowercase(data.groups@[k as int].name@) == #[trigger] (a + search@ + b)) || (exists|
            a: Seq<char>,
            b: Seq<char>,
        | lowercase(data.groups@[k as int].category@) == #[trigger] (a + search@ + b)),
    ensures
        exists|j: int| 0 <= j < r@.len() && (#[trigger] r@[j]).0 == k && r@[j].1@.contains(i),
{
    let g = group_views(data.groups@);
    assert(data.groups.len() == data.groups@.len());
    let v = g[k as int];
    let s = v.sensors;
    let hit = group_hit(v, search@);
    assert(v == data.groups@[k as int]@);
    assert(s.len() == data.groups@[k as int].sensors@.len());
    assert(s[i as int] == data.groups@[k as int].sensors@[i as int]@);
    crate::text::law_substring_stands_between(lowercase(s[i as int].label), search@);
    crate::text::law_substring_stands_between(lowercase(v.name), search@);
    crate::text::law_substring_stands_between(lowercase(v.category), search@);
    lemma_shown_sensors(s, hit, search@, i);
    let q = shown_sensors(s, hit, search@);
    assert(q.contains(i));
    lemma_shown_in(g, v.category, search@, k);
    let cats = ordered_categories(g);
    lemma_category_is_listed(g, k as int);
    let c = choose|c: int| 0 <= c < cats.len() && cats[c] == v.category;
    lemma_shown_groups(cats, *tab, g, search@, c, (k, q));
    let l = group_list(r@);
    let j = choose|j: int| 0 <= j < l.len() && l[j] == (k, q);
    assert(l[j] == (r@[j].0, r@[j].1@));
    assert(r@[j].0 == k);
}

} // verus!
