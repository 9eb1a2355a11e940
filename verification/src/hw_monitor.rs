//! Hardware sensors: their readings, extremes, averages and histories.

use std::collections::VecDeque;
use vstd::prelude::*;
use vstd::string::*;

use crate::binary::{
    double, full, lemma_order, less, narrowed, numbers_of, quotient, single, single_sum, sum, within,
    Binary, Number, Single, DOUBLE, SINGLE,
};
use crate::ring::{newest, push_capped};
use crate::text::same_text;

verus! {

/// The number of readings that a sensor remembers.
pub const HISTORY_LEN: usize = 120;

// ── Sensor ───────────────────────────────────────────────────────────────────

/// One sensor.
pub struct Sensor {
    label: String,
    value: Single,
    unit: String,
    min: Single,
    max: Single,
    /// The sum of the readings, in double precision.
    sum: Binary,
    count: u64,
    history: VecDeque<Single>,
}

/// One sensor, as what is known of it.
pub struct SensorView {
    pub label: Seq<char>,
    pub value: Number,
    pub unit: Seq<char>,
    pub min: Number,
    pub max: Number,
    /// The sum of all readings, and how many they are.
    pub sum: Number,
    pub count: nat,
    pub history: Seq<Number>,
}

impl View for Sensor {
    type V = SensorView;

    closed spec fn view(&self) -> SensorView {
        SensorView {
            label: self.label@,
            value: self.value@,
            unit: self.unit@,
            min: self.min@,
            max: self.max@,
            sum: self.sum@,
            count: self.count as nat,
            history: numbers_of(self.history@),
        }
    }
}

/// A sensor without readings.
pub open spec fn fresh_sensor(label: Seq<char>, unit: Seq<char>) -> SensorView {
    SensorView {
        label,
        value: single(0, 1),
        unit,
        min: single(0, 1),
        max: single(0, 1),
        sum: double(0, 1),
        count: 0,
        history: Seq::empty(),
    }
}

/// A sensor after one more reading.
pub open spec fn sensor_pushed(s: SensorView, v: Number) -> SensorView {
    SensorView {
        label: s.label,
        value: v,
        unit: s.unit,
        min: if s.count == 0 || less(v, s.min) {
            v
        } else {
            s.min
        },
        max: if s.count == 0 || less(s.max, v) {
            v
        } else {
            s.max
        },
        sum: if s.count < u64::MAX {
            sum(s.sum, narrowed(v, DOUBLE as nat), DOUBLE as nat)
        } else {
            s.sum
        },
        count: if s.count < u64::MAX {
            s.count + 1
        } else {
            s.count
        },
        history: newest(s.history.push(v), HISTORY_LEN as nat),
    }
}

/// The average of all readings, 0 where there is none.
pub open spec fn sensor_average(s: SensorView) -> Number {
    if s.count == 0 {
        single(0, 1)
    } else {
        narrowed(quotient(s.sum, double(s.count as int, 1), DOUBLE as nat), SINGLE as nat)
    }
}

impl Sensor {
    #[verifier::type_invariant]
    closed spec fn well_formed(self) -> bool {
        full(self.sum@, DOUBLE as nat) && within(self.sum@, 20_000 + 400 * self.count)
    }

    /// A sensor without readings.
    pub fn new(label: &str, unit: &str) -> (r: Sensor)
        ensures
            r@ == fresh_sensor(label@, unit@),
    {
        let r = Sensor {
            label: label.to_owned(),
            value: Single::whole(0),
            unit: unit.to_owned(),
            min: Single::whole(0),
            max: Single::whole(0),
            sum: Binary::double(0, 1),
            count: 0,
            history: VecDeque::new(),
        };
        assert(r@.history =~= Seq::<Number>::empty());
        r
    }

    /// The same sensor.
    pub fn copy(&self) -> (r: Sensor)
        ensures
            r@ == self@,
    {
        proof {
            use_type_invariant(self);
        }
        let mut history: VecDeque<Single> = VecDeque::new();
        let mut i: usize = 0;
        while i < self.history.len()
            invariant
                i <= self.history@.len(),
                history@ == self.history@.take(i as int),
            decreases self.history@.len() - i,
        {
            history.push_back(self.history[i]);
            assert(self.history@.take(i + 1) =~= self.history@.take(i as int).push(
                self.history@[i as int],
            ));
            i += 1;
        }
        assert(history@ =~= self.history@);
        Sensor {
            label: self.label.clone(),
            value: self.value,
            unit: self.unit.clone(),
            min: self.min,
            max: self.max,
            sum: self.sum,
            count: self.count,
            history,
        }
    }

    /// What the sensor measures.
    pub fn label(&self) -> (r: &String)
        ensures
            r@ == self@.label,
    {
        &self.label
    }

    /// The unit of its values.
    pub fn unit(&self) -> (r: &String)
        ensures
            r@ == self@.unit,
    {
        &self.unit
    }

    /// The last reading.
    pub fn value(&self) -> (r: Single)
        ensures
            r@ == self@.value,
    {
        self.value
    }

    /// The last readings, oldest first.
    pub fn history(&self) -> (r: &VecDeque<Single>)
        ensures
            numbers_of(r@) == self@.history,
    {
        &self.history
    }

    /// Takes in a reading.
    pub fn push(&mut self, value: Single)
        ensures
            final(self)@ == sensor_pushed(old(self)@, value@),
    {
        proof {
            use_type_invariant(&*self);
        }
        let ghost before = self@;
        let mut min = self.min;
        let mut max = self.max;
        if self.count == 0 || value.is_less(min) {
            min = value;
        }
        if self.count == 0 || max.is_less(value) {
            max = value;
        }
        let mut sum = self.sum;
        let mut count: u64 = self.count;
        if count < u64::MAX {
            let reading = value.get();
            assert(within(reading@, 10_000));
            let wide = reading.narrowed(DOUBLE);
            assert(within(wide@, 20_000 + 400 * count) && within(sum@, 20_000 + 400 * count));
            sum = sum.plus(wide, DOUBLE);
            count += 1;
        }
        let mut history: VecDeque<Single> = VecDeque::new();
        std::mem::swap(&mut self.history, &mut history);
        let ghost were = history@;
        push_capped(&mut history, value, HISTORY_LEN);
        assert(numbers_of(history@) =~= newest(
            numbers_of(were).push(value@),
            HISTORY_LEN as nat,
        ));
        let mut label = String::new();
        std::mem::swap(&mut self.label, &mut label);
        let mut unit = String::new();
        std::mem::swap(&mut self.unit, &mut unit);
        *self = Sensor { label, value, unit, min, max, sum, count, history };
    }

    /// The average of all readings.
    pub fn avg(&self) -> (r: Binary)
        ensures
            r@ == sensor_average(self@),
    {
        proof {
            use_type_invariant(self);
        }
        if self.count == 0 {
            return Binary::single(0, 1);
        }
        let count = Binary::double(self.count, 1);
        assert(within(count@, 20_000 + 400 * self.count));
        let mean = self.sum.over(count, DOUBLE);
        assert(within(mean@, 2 * (20_000 + 400 * self.count) + 200));
        mean.narrowed(SINGLE)
    }

    /// The least reading, 0 where there is none.
    pub fn min_display(&self) -> (r: Single)
        ensures
            r@ == if self@.count == 0 {
                single(0, 1)
            } else {
                self@.min
            },
    {
        if self.count == 0 {
            Single::whole(0)
        } else {
            self.min
        }
    }

    /// The greatest reading, 0 where there is none.
    pub fn max_display(&self) -> (r: Single)
        ensures
            r@ == if self@.count == 0 {
                single(0, 1)
            } else {
                self@.max
            },
    {
        if self.count == 0 {
            Single::whole(0)
        } else {
            self.max
        }
    }
}

/// The least and the greatest reading enclose every reading: after a reading the
/// bounds hold it and what they held before.
pub proof fn law_extremes_enclose_readings(s: SensorView, v: Number)
    ensures
        ({
            let t = sensor_pushed(s, v);
            &&& !less(v, t.min) && !less(t.max, v)
            &&& s.count > 0 ==> !less(s.min, t.min) && !less(t.max, s.max)
        }),
{
    lemma_order(v, s.min, s.min);
    lemma_order(s.min, v, v);
    lemma_order(v, s.max, s.max);
    lemma_order(s.max, v, v);
}

// ── Groups ───────────────────────────────────────────────────────────────────

/// The sensors of one device.
pub struct SensorGroup {
    /// `CPU`, `GPU`, `Memory`, `Storage`, `Network` or `System`.
    pub category: String,
    pub name: String,
    pub sensors: Vec<Sensor>,
}

/// The sensors of one device, as what is known of them.
pub struct GroupView {
    pub category: Seq<char>,
    pub name: Seq<char>,
    pub sensors: Seq<SensorView>,
}

/// The views of a list of sensors.
pub open spec fn sensor_views(s: Seq<Sensor>) -> Seq<SensorView> {
    Seq::new(s.len(), |i: int| s[i]@)
}

impl View for SensorGroup {
    type V = GroupView;

    open spec fn view(&self) -> GroupView {
        GroupView {
            category: self.category@,
            name: self.name@,
            sensors: sensor_views(self.sensors@),
        }
    }
}

/// The views of a list of groups.
pub open spec fn group_views(s: Seq<SensorGroup>) -> Seq<GroupView> {
    Seq::new(s.len(), |i: int| s[i]@)
}

/// All groups.
pub struct HwMonitorData {
    pub groups: Vec<SensorGroup>,
}

impl SensorGroup {
    /// The same group.
    pub fn copy(&self) -> (r: SensorGroup)
        ensures
            r@ == self@,
    {
        let mut sensors: Vec<Sensor> = Vec::new();
        let mut i: usize = 0;
        while i < self.sensors.len()
            invariant
                i <= self.sensors.len(),
                sensors.len() == i,
                forall|k: int| 0 <= k < i ==> #[trigger] sensors@[k]@ == self.sensors@[k]@,
            decreases self.sensors.len() - i,
        {
            sensors.push(self.sensors[i].copy());
            i += 1;
        }
        assert(sensor_views(sensors@) =~= sensor_views(self.sensors@));
        SensorGroup { category: self.category.clone(), name: self.name.clone(), sensors }
    }
}

impl HwMonitorData {
    /// The same groups.
    pub fn copy(&self) -> (r: HwMonitorData)
        ensures
            group_views(r.groups@) == group_views(self.groups@),
    {
        let mut groups: Vec<SensorGroup> = Vec::new();
        let mut i: usize = 0;
        while i < self.groups.len()
            invariant
                i <= self.groups.len(),
                groups.len() == i,
                forall|k: int| 0 <= k < i ==> #[trigger] groups@[k]@ == self.groups@[k]@,
            decreases self.groups.len() - i,
        {
            groups.push(self.groups[i].copy());
            i += 1;
        }
        assert(group_views(groups@) =~= group_views(self.groups@));
        HwMonitorData { groups }
    }
}

impl Default for HwMonitorData {
    fn default() -> (r: Self)
        ensures
            r.groups@.len() == 0,
    {
        HwMonitorData { groups: Vec::new() }
    }
}

/// A value that was read.
pub struct Reading {
    pub label: String,
    pub unit: String,
    pub value: Single,
}

/// The values that were read from one device.
pub struct GroupReading {
    pub category: String,
    pub name: String,
    pub readings: Vec<Reading>,
}

/// A value that was read.
pub struct ReadingView {
    pub label: Seq<char>,
    pub unit: Seq<char>,
    pub value: Number,
}

impl View for Reading {
    type V = ReadingView;

    open spec fn view(&self) -> ReadingView {
        ReadingView { label: self.label@, unit: self.unit@, value: self.value@ }
    }
}

/// The views of a list of readings.
pub open spec fn reading_views(s: Seq<Reading>) -> Seq<ReadingView> {
    Seq::new(s.len(), |i: int| s[i]@)
}

/// The values that were read from one device.
pub struct GroupReadingView {
    pub category: Seq<char>,
    pub name: Seq<char>,
    pub readings: Seq<ReadingView>,
}

impl View for GroupReading {
    type V = GroupReadingView;

    open spec fn view(&self) -> GroupReadingView {
        GroupReadingView {
            category: self.category@,
            name: self.name@,
            readings: reading_views(self.readings@),
        }
    }
}

/// The views of a list of readings by device.
pub open spec fn scan_views(s: Seq<GroupReading>) -> Seq<GroupReadingView> {
    Seq::new(s.len(), |i: int| s[i]@)
}

/// The first sensor with a label.
pub open spec fn find_label(s: Seq<SensorView>, label: Seq<char>) -> Option<int>
    decreases s.len(),
{
    if s.len() == 0 {
        None
    } else {
        match find_label(s.drop_last(), label) {
            Some(i) => Some(i),
            None => if s.last().label == label {
                Some(s.len() - 1)
            } else {
                None
            },
        }
    }
}

/// The first group with a name.
pub open spec fn find_group(s: Seq<GroupView>, name: Seq<char>) -> Option<int>
    decreases s.len(),
{
    if s.len() == 0 {
        None
    } else {
        match find_group(s.drop_last(), name) {
            Some(i) => Some(i),
            None => if s.last().name == name {
                Some(s.len() - 1)
            } else {
                None
            },
        }
    }
}

/// The sensors after one reading: the sensor with its label takes it in; where
/// there is none, one is added.
pub open spec fn with_reading(s: Seq<SensorView>, r: ReadingView) -> Seq<SensorView> {
    match find_label(s, r.label) {
        Some(i) => s.update(i, sensor_pushed(s[i], r.value)),
        None => s.push(sensor_pushed(fresh_sensor(r.label, r.unit), r.value)),
    }
}

/// The sensors after the first `n` readings.
pub open spec fn with_readings(s: Seq<SensorView>, r: Seq<ReadingView>, n: nat) -> Seq<SensorView>
    decreases n,
{
    if n == 0 {
        s
    } else {
        with_reading(with_readings(s, r, (n - 1) as nat), r[n - 1])
    }
}

/// The groups after the readings of one device: the group with its name takes them
/// in; where there is none, one is added.
pub open spec fn with_group(g: Seq<GroupView>, r: GroupReadingView) -> Seq<GroupView> {
    match find_group(g, r.name) {
        Some(i) => g.update(
            i,
            GroupView {
                sensors: with_readings(g[i].sensors, r.readings, r.readings.len()),
                ..g[i]
            },
        ),
        None => g.push(
            GroupView {
                category: r.category,
                name: r.name,
                sensors: with_readings(Seq::empty(), r.readings, r.readings.len()),
            },
        ),
    }
}

/// The groups after the readings of the first `n` devices.
pub open spec fn with_groups(g: Seq<GroupView>, r: Seq<GroupReadingView>, n: nat) -> Seq<GroupView>
    decreases n,
{
    if n == 0 {
        g
    } else {
        with_group(with_groups(g, r, (n - 1) as nat), r[n - 1])
    }
}

/// What is found at the end of a prefix is found in the whole.
proof fn lemma_find_label_prefix(s: Seq<SensorView>, label: Seq<char>, n: int)
    requires
        0 <= n <= s.len(),
        find_label(s.take(n), label) is Some,
    ensures
        find_label(s, label) == find_label(s.take(n), label),
    decreases s.len() - n,
{
    if n < s.len() {
        assert(s.take(n + 1).drop_last() =~= s.take(n));
        lemma_find_label_prefix(s, label, n + 1);
    } else {
        assert(s.take(n) =~= s);
    }
}

/// What is found at the end of a prefix is found in the whole.
proof fn lemma_find_group_prefix(s: Seq<GroupView>, name: Seq<char>, n: int)
    requires
        0 <= n <= s.len(),
        find_group(s.take(n), name) is Some,
    ensures
        find_group(s, name) == find_group(s.take(n), name),
    decreases s.len() - n,
{
    if n < s.len() {
        assert(s.take(n + 1).drop_last() =~= s.take(n));
        lemma_find_group_prefix(s, name, n + 1);
    } else {
        assert(s.take(n) =~= s);
    }
}

/// Finds the first sensor with a label.
fn position_of_label(sensors: &Vec<Sensor>, label: &str) -> (r: Option<usize>)
    ensures
        match r {
            Some(i) => i < sensors.len() && find_label(sensor_views(sensors@), label@) == Some(
                i as int,
            ),
            None => find_label(sensor_views(sensors@), label@) is None,
        },
{
    let ghost all = sensor_views(sensors@);
    let mut i: usize = 0;
    assert(all.take(0) =~= Seq::<SensorView>::empty());
    while i < sensors.len()
        invariant
            i <= sensors.len(),
            all == sensor_views(sensors@),
            find_label(all.take(i as int), label@) is None,
        decreases sensors.len() - i,
    {
        assert(all.take(i + 1).drop_last() =~= all.take(i as int));
        assert(all.take(i + 1).last() == sensors@[i as int]@);
        if same_text(sensors[i].label().as_str(), label) {
            proof {
                lemma_find_label_prefix(all, label@, i + 1);
            }
            return Some(i);
        }
        i += 1;
    }
    assert(all.take(i as int) =~= all);
    None
}

/// Finds the first group with a name.
fn position_of_group(groups: &Vec<SensorGroup>, name: &str) -> (r: Option<usize>)
    ensures
        match r {
            Some(i) => i < groups.len() && find_group(group_views(groups@), name@) == Some(
                i as int,
            ),
            None => find_group(group_views(groups@), name@) is None,
        },
{
    let ghost all = group_views(groups@);
    let mut i: usize = 0;
    assert(all.take(0) =~= Seq::<GroupView>::empty());
    while i < groups.len()
        invariant
            i <= groups.len(),
            all == group_views(groups@),
            find_group(all.take(i as int), name@) is None,
        decreases groups.len() - i,
    {
        assert(all.take(i + 1).drop_last() =~= all.take(i as int));
        assert(all.take(i + 1).last() == groups@[i as int]@);
        if same_text(groups[i].name.as_str(), name) {
            proof {
                lemma_find_group_prefix(all, name@, i + 1);
            }
            return Some(i);
        }
        i += 1;
    }
    assert(all.take(i as int) =~= all);
    None
}

/// Takes one reading into a list of sensors.
fn take_reading(sensors: &mut Vec<Sensor>, r: &Reading)
    ensures
        sensor_views(final(sensors)@) == with_reading(sensor_views(old(sensors)@), r@),
{
    let ghost before = sensor_views(sensors@);
    match position_of_label(sensors, r.label.as_str()) {
        Some(i) => {
            let ghost was = sensors@;
            let mut s = sensors.remove(i);
            s.push(r.value);
            sensors.insert(i, s);
            assert(sensor_views(sensors@) =~= before.update(
                i as int,
                sensor_pushed(before[i as int], r.value@),
            ));
        },
        None => {
            let mut s = Sensor::new(r.label.as_str(), r.unit.as_str());
            s.push(r.value);
            let ghost v = s@;
            sensors.push(s);
            assert(sensor_views(sensors@) =~= before.push(v));
        },
    }
}

/// Takes the readings of one device into a list of sensors.
fn take_readings(sensors: &mut Vec<Sensor>, readings: &Vec<Reading>)
    ensures
        sensor_views(final(sensors)@) == with_readings(
            sensor_views(old(sensors)@),
            reading_views(readings@),
            readings@.len(),
        ),
{
    let ghost start = sensor_views(sensors@);
    let mut i: usize = 0;
    while i < readings.len()
        invariant
            i <= readings.len(),
            sensor_views(sensors@) == with_readings(start, reading_views(readings@), i as nat),
        decreases readings.len() - i,
    {
        take_reading(sensors, &readings[i]);
        i += 1;
    }
}

impl HwMonitorData {
    /// Takes in the readings of all devices. Sensors and groups that are known keep
    /// their place and their history.
    pub fn merge(&mut self, scan: &Vec<GroupReading>)
        ensures
            group_views(final(self).groups@) == with_groups(
                group_views(old(self).groups@),
                scan_views(scan@),
                scan@.len(),
            ),
    {
        let ghost start = group_views(self.groups@);
        let mut i: usize = 0;
        while i < scan.len()
            invariant
                i <= scan.len(),
                group_views(self.groups@) == with_groups(start, scan_views(scan@), i as nat),
            decreases scan.len() - i,
        {
            let r = &scan[i];
            let ghost before = group_views(self.groups@);
            match position_of_group(&self.groups, r.name.as_str()) {
                Some(k) => {
                    let ghost was = self.groups@;
                    let mut g = self.groups.remove(k);
                    take_readings(&mut g.sensors, &r.readings);
                    self.groups.insert(k, g);
                    assert(group_views(self.groups@) =~= before.update(
                        k as int,
                        GroupView {
                            sensors: with_readings(
                                before[k as int].sensors,
                                r@.readings,
                                r@.readings.len(),
                            ),
                            ..before[k as int]
                        },
                    ));
                },
                None => {
                    let mut sensors: Vec<Sensor> = Vec::new();
                    assert(sensor_views(sensors@) =~= Seq::<SensorView>::empty());
                    take_readings(&mut sensors, &r.readings);
                    let g = SensorGroup {
                        category: r.category.clone(),
                        name: r.name.clone(),
                        sensors,
                    };
                    let ghost v = g@;
                    self.groups.push(g);
                    assert(group_views(self.groups@) =~= before.push(v));
                },
            }
            i += 1;
        }
    }
}

/// Merging never drops a group or renames one: the groups known before keep their
/// places, names and categories.
pub proof fn law_merge_keeps_groups(g: Seq<GroupView>, r: Seq<GroupReadingView>, n: nat)
    requires
        n <= r.len(),
    ensures
        g.len() <= with_groups(g, r, n).len(),
        forall|i: int|
            0 <= i < g.len() ==> (#[trigger] with_groups(g, r, n)[i]).name == g[i].name
                && with_groups(g, r, n)[i].category == g[i].category,
    decreases n,
{
    if n > 0 {
        law_merge_keeps_groups(g, r, (n - 1) as nat);
        let before = with_groups(g, r, (n - 1) as nat);
        lemma_find_group_bound(before, r[n - 1].name);
    }
}

/// A group that is found is in the list.
proof fn lemma_find_group_bound(s: Seq<GroupView>, name: Seq<char>)
    ensures
        match find_group(s, name) {
            Some(i) => 0 <= i < s.len() && s[i].name == name,
            None => true,
        },
    decreases s.len(),
{
    if s.len() > 0 {
        lemma_find_group_bound(s.drop_last(), name);
    }
}

// ── Totals ───────────────────────────────────────────────────────────────────

/// The sum of the sensors with a label, over the groups of a category that measure
/// input and output.
pub open spec fn sensor_total(s: Seq<SensorView>, label: Seq<char>, start: Number, n: nat) -> Number
    decreases n,
{
    if n == 0 {
        start
    } else {
        let before = sensor_total(s, label, start, (n - 1) as nat);
        if s[n - 1].label == label {
            single_sum(before, s[n - 1].value)
        } else {
            before
        }
    }
}

/// A group that measures input and output in a category.
pub open spec fn is_io_group(g: GroupView, category: Seq<char>) -> bool {
    crate::text::has_prefix(g.name, "I/O ["@) && g.category == category
}

/// The sum over the first `n` groups.
pub open spec fn io_total(g: Seq<GroupView>, category: Seq<char>, label: Seq<char>, n: nat) -> Number
    decreases n,
{
    if n == 0 {
        single(0, 1)
    } else {
        let before = io_total(g, category, label, (n - 1) as nat);
        if is_io_group(g[n - 1], category) {
            sensor_total(g[n - 1].sensors, label, before, g[n - 1].sensors.len())
        } else {
            before
        }
    }
}

/// Sums the sensors with a label over the groups of a category.
fn total(data: &HwMonitorData, category: &str, label: &str) -> (r: Single)
    ensures
        r@ == io_total(
            group_views(data.groups@),
            category@,
            label@,
            data.groups@.len(),
        ),
{
    let mut sum = Single::whole(0);
    let mut i: usize = 0;
    while i < data.groups.len()
        invariant
            i <= data.groups.len(),
            sum@ == io_total(group_views(data.groups@), category@, label@, i as nat),
        decreases data.groups.len() - i,
    {
        let g = &data.groups[i];
        let name = crate::text::chars_of(g.name.as_str());
        if crate::text::begins_with(&name, "I/O [") && same_text(g.category.as_str(), category) {
            let ghost start = sum@;
            let mut k: usize = 0;
            while k < g.sensors.len()
                invariant
                    k <= g.sensors.len(),
                    sum@ == sensor_total(sensor_views(g.sensors@), label@, start, k as nat),
                decreases g.sensors.len() - k,
            {
                if same_text(g.sensors[k].label().as_str(), label) {
                    sum = sum.plus(g.sensors[k].value());
                }
                k += 1;
            }
        }
        i += 1;
    }
    sum
}

/// Disk rates (read, write) and network rates (received, sent) over all devices.
pub fn hw_io_totals(data: &HwMonitorData) -> (r: ((Single, Single), (Single, Single)))
    ensures
        ({
            let g = group_views(data.groups@);
            let n = g.len();
            &&& r.0.0@ == io_total(g, "Storage"@, "Read"@, n)
            &&& r.0.1@ == io_total(g, "Storage"@, "Write"@, n)
            &&& r.1.0@ == io_total(g, "Network"@, "Receive"@, n)
            &&& r.1.1@ == io_total(g, "Network"@, "Transmit"@, n)
        }),
{
    (
        (total(data, "Storage", "Read"), total(data, "Storage", "Write")),
        (total(data, "Network", "Receive"), total(data, "Network", "Transmit")),
    )
}

/// A reading becomes the value of its sensor and the last one of its history; the
/// smallest and the greatest value are the bounds of everything read.
pub proof fn law_extremes_bound_what_was_read(s: &mut Sensor, v: Single)
    requires
        call_ensures(Sensor::push, (s, v), ()),
    ensures
        final(s)@.value == v@,
        final(s)@.history.last() == v@,
        final(s)@.history.len() <= 120,
        !less(v@, final(s)@.min),
        !less(final(s)@.max, v@),
        old(s)@.count == 0 ==> final(s)@.min == v@ && final(s)@.max == v@,
        old(s)@.count > 0 ==> {
            &&& !less(old(s)@.min, final(s)@.min)
            &&& !less(final(s)@.max, old(s)@.max)
            &&& final(s)@.min == v@ || final(s)@.min == old(s)@.min
            &&& final(s)@.max == v@ || final(s)@.max == old(s)@.max
        },
        final(s)@.label == old(s)@.label,
        final(s)@.unit == old(s)@.unit,
{
    crate::binary::lemma_order(v@, v@, v@);
    crate::binary::lemma_order(old(s)@.min, old(s)@.min, v@);
    crate::binary::lemma_order(old(s)@.max, old(s)@.max, v@);
    crate::binary::lemma_order(old(s)@.min, v@, v@);
    crate::binary::lemma_order(old(s)@.max, v@, v@);
    crate::binary::lemma_order(v@, old(s)@.min, v@);
    crate::binary::lemma_order(v@, old(s)@.max, v@);
}

/// The first sensor with the label.
proof fn lemma_find_label(s: Seq<SensorView>, label: Seq<char>)
    ensures
        match find_label(s, label) {
            Some(i) => 0 <= i < s.len() && s[i].label == label && forall|k: int|
                0 <= k < i ==> (#[trigger] s[k]).label != label,
            None => forall|k: int| 0 <= k < s.len() ==> (#[trigger] s[k]).label != label,
        },
    decreases s.len(),
{
    if s.len() > 0 {
        let d = s.drop_last();
        lemma_find_label(d, label);
        assert forall|k: int| 0 <= k < d.len() implies #[trigger] s[k] == d[k] by {}
    }
}

/// The first group with the name.
proof fn lemma_find_group(s: Seq<GroupView>, name: Seq<char>)
    ensures
        match find_group(s, name) {
            Some(i) => 0 <= i < s.len() && s[i].name == name && forall|k: int|
                0 <= k < i ==> (#[trigger] s[k]).name != name,
            None => forall|k: int| 0 <= k < s.len() ==> (#[trigger] s[k]).name != name,
        },
    decreases s.len(),
{
    if s.len() > 0 {
        let d = s.drop_last();
        lemma_find_group(d, name);
        assert forall|k: int| 0 <= k < d.len() implies #[trigger] s[k] == d[k] by {}
    }
}

/// A reading goes to the sensor of its label in the group of its name, which are made
/// where they are not there; other groups and sensors stay as they are, in their places.
pub proof fn law_reading_goes_to_its_sensor(
    data: &mut HwMonitorData,
    scan: &Vec<GroupReading>,
    k: int,
    j: int,
)
    requires
        call_ensures(HwMonitorData::merge, (data, scan), ()),
        scan@.len() == 1,
        scan@[0].readings@.len() == 1,
        0 <= k < old(data).groups@.len(),
        0 <= j < old(data).groups@[k].sensors@.len(),
    ensures
        ({
            let (name, r) = (scan@[0].name@, scan@[0].readings@[0]@);
            let (before, after) = (group_views(old(data).groups@), group_views(final(data).groups@));
            &&& exists|g: int, i: int|
                0 <= g < after.len() && 0 <= i < after[g].sensors.len() && after[g].name == name && (
                #[trigger] after[g].sensors[i]).label == r.label && after[g].sensors[i].value
                    == r.value
            &&& after.len() >= before.len()
            &&& before[k].name != name ==> after[k] == before[k]
            &&& after[k].name == before[k].name && after[k].category == before[k].category
            &&& before[k].sensors[j].label != r.label ==> after[k].sensors[j] == before[k].sensors[j]
        }),
{
    let (name, r) = (scan@[0].name@, scan@[0].readings@[0]@);
    let (before, after) = (group_views(old(data).groups@), group_views(final(data).groups@));
    let v = scan_views(scan@);
    assert(v.len() == 1);
    assert(v[0] == scan@[0]@);
    let rs = v[0].readings;
    assert(rs.len() == 1);
    assert(rs[0] == r);
    assert(with_groups(before, v, 0) == before);
    assert(with_groups(before, v, 1) == with_group(before, v[0]));
    assert(after == with_group(before, v[0]));
    lemma_find_group(before, name);
    match find_group(before, name) {
        Some(g) => {
            let s = before[g].sensors;
            assert(with_readings(s, rs, 0) == s);
            assert(with_readings(s, rs, 1) == with_reading(s, r));
            lemma_find_label(s, r.label);
            let t = with_reading(s, r);
            assert(after[g].sensors == t);
            let i = match find_label(s, r.label) {
                Some(i) => i,
                None => s.len() as int,
            };
            assert(t[i].label == r.label && t[i].value == r.value);
            assert(after[g].sensors[i].label == r.label);
        },
        None => {
            let s = Seq::<SensorView>::empty();
            assert(with_readings(s, rs, 0) == s);
            assert(with_readings(s, rs, 1) == with_reading(s, r));
            lemma_find_label(s, r.label);
            let g = before.len() as int;
            assert(after[g].sensors == with_reading(s, r));
            assert(after[g].sensors[0].label == r.label);
        },
    }
}

/// Groups without disk or network rates add nothing to the totals.
pub proof fn law_totals_count_rates_only(
    data: &HwMonitorData,
    r: ((Single, Single), (Single, Single)),
)
    requires
        call_ensures(hw_io_totals, (data,), r),
    ensures
        (forall|i: int| 0 <= i < data.groups@.len() ==> (#[trigger] data.groups@[i]).category@
            != "Storage"@ || !crate::text::has_prefix(data.groups@[i].name@, "I/O ["@)) ==> r.0.0@.mant
            == 0 && r.0.1@.mant == 0,
        (forall|i: int| 0 <= i < data.groups@.len() ==> (#[trigger] data.groups@[i]).category@
            != "Network"@ || !crate::text::has_prefix(data.groups@[i].name@, "I/O ["@)) ==> r.1.0@.mant
            == 0 && r.1.1@.mant == 0,
{
    let g = group_views(data.groups@);
    assert forall|i: int| 0 <= i < g.len() implies #[trigger] g[i] == data.groups@[i]@ by {}
    if forall|i: int| 0 <= i < data.groups@.len() ==> (#[trigger] data.groups@[i]).category@
        != "Storage"@ || !crate::text::has_prefix(data.groups@[i].name@, "I/O ["@) {
        assert forall|i: int| 0 <= i < g.len() implies !is_io_group(#[trigger] g[i], "Storage"@) by {
            assert(data.groups@[i].category@ != "Storage"@ || !crate::text::has_prefix(
                data.groups@[i].name@,
                "I/O ["@,
            ));
        }
        lemma_no_rates(g, "Storage"@, "Read"@, g.len());
        lemma_no_rates(g, "Storage"@, "Write"@, g.len());
    }
    if forall|i: int| 0 <= i < data.groups@.len() ==> (#[trigger] data.groups@[i]).category@
        != "Network"@ || !crate::text::has_prefix(data.groups@[i].name@, "I/O ["@) {
        assert forall|i: int| 0 <= i < g.len() implies !is_io_group(#[trigger] g[i], "Network"@) by {
            assert(data.groups@[i].category@ != "Network"@ || !crate::text::has_prefix(
                data.groups@[i].name@,
                "I/O ["@,
            ));
        }
        lemma_no_rates(g, "Network"@, "Receive"@, g.len());
        lemma_no_rates(g, "Network"@, "Transmit"@, g.len());
    }
}

/// No group, no rates.
proof fn lemma_no_rates(g: Seq<GroupView>, category: Seq<char>, label: Seq<char>, n: nat)
    requires
        n <= g.len(),
        forall|i: int| 0 <= i < n ==> !is_io_group(#[trigger] g[i], category),
    ensures
        io_total(g, category, label, n) == single(0, 1),
    decreases n,
{
    if n > 0 {
        assert(!is_io_group(g[n - 1], category));
        lemma_no_rates(g, category, label, (n - 1) as nat);
    }
}

/// A total holds the rate of each disk: with one disk it is the rate of that disk.
pub proof fn law_total_of_one_disk_is_its_rate(
    data: &HwMonitorData,
    r: ((Single, Single), (Single, Single)),
)
    requires
        call_ensures(hw_io_totals, (data,), r),
        data.groups@.len() == 1,
        data.groups@[0].category@ == "Storage"@,
        crate::text::has_prefix(data.groups@[0].name@, "I/O ["@),
        data.groups@[0].sensors@.len() == 2,
        data.groups@[0].sensors@[0]@.label == "Read"@,
        data.groups@[0].sensors@[1]@.label == "Write"@,
        forall|i: int| 0 <= i < 2 ==> {
            let v = (#[trigger] data.groups@[0].sensors@[i])@.value;
            !v.neg && SINGLE <= v.mant < 2 * SINGLE && within(v, 2000)
        },
    ensures
        r.0.0@ == data.groups@[0].sensors@[0]@.value,
        r.0.1@ == data.groups@[0].sensors@[1]@.value,
        r.1.0@.mant == 0,
        r.1.1@.mant == 0,
{
    reveal_strlit("Read");
    reveal_strlit("Write");
    reveal_strlit("Storage");
    reveal_strlit("Network");
    assert("Read"@.len() != "Write"@.len());
    assert("Storage"@[0] != "Network"@[0]);
    let g = group_views(data.groups@);
    let s = g[0].sensors;
    let z = single(0, 1);
    assert(g.len() == 1 && g[0] == data.groups@[0]@);
    assert(s.len() == 2);
    assert(s[0] == data.groups@[0].sensors@[0]@ && s[1] == data.groups@[0].sensors@[1]@);
    let (a, b) = (data.groups@[0].sensors@[0]@.value, data.groups@[0].sensors@[1]@.value);
    crate::binary::law_adding_nothing_changes_nothing(a);
    crate::binary::law_adding_nothing_changes_nothing(b);
    reveal_with_fuel(sensor_total, 3);
    reveal_with_fuel(io_total, 2);
    assert(sensor_total(s, "Read"@, z, 2) == a);
    assert(sensor_total(s, "Write"@, z, 2) == b);
}

} // verus!
