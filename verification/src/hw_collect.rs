//! A scan of all sensors, put together and taken into the histories.

use vstd::prelude::*;
use vstd::string::*;

use crate::hw_monitor::{
    group_views, reading_views, scan_views, with_groups, GroupReading, GroupReadingView,
    HwMonitorData, Reading,
};
use crate::hw_parse::{
    classify_driver, collect_disk_io, collect_net_io, device_readings, device_title,
    driver_class, io_groups, name_device, read_device, DriverClass, HwmonDevice,
};
use crate::namemap::NameMap;
use crate::text::{trim, trimmed_text};

verus! {

// ── hwmon devices ────────────────────────────────────────────────────────────

/// The view of an optional string.
pub open spec fn hint_of(d: HwmonDevice) -> Option<Seq<char>> {
    match d.hint {
        Some(h) => Some(h@),
        None => None,
    }
}

/// A device of a class that has readings.
pub open spec fn device_group(d: HwmonDevice, class: DriverClass) -> Option<GroupReadingView> {
    let driver = trim(d.driver@);
    if driver_class(driver) == class && device_readings(d).len() > 0 {
        match device_title(driver, hint_of(d)) {
            Some((category, name)) => Some(
                GroupReadingView { category, name, readings: device_readings(d) },
            ),
            None => None,
        }
    } else {
        None
    }
}

/// The devices of a class that have readings, among the first `n`.
pub open spec fn device_groups(d: Seq<HwmonDevice>, class: DriverClass, n: nat) -> Seq<
    GroupReadingView,
>
    decreases n,
{
    if n == 0 {
        Seq::empty()
    } else {
        let before = device_groups(d, class, (n - 1) as nat);
        match device_group(d[n - 1], class) {
            Some(g) => before.push(g),
            None => before,
        }
    }
}

/// Reads the devices of a class.
pub fn collect_hwmon_where(devices: &Vec<HwmonDevice>, class: DriverClass) -> (r: Vec<GroupReading>)
    ensures
        scan_views(r@) == device_groups(devices@, class, devices@.len()),
{
    let mut r: Vec<GroupReading> = Vec::new();
    let mut i: usize = 0;
    assert(scan_views(r@) =~= Seq::<GroupReadingView>::empty());
    while i < devices.len()
        invariant
            i <= devices.len(),
            scan_views(r@) == device_groups(devices@, class, i as nat),
        decreases devices.len() - i,
    {
        let d = &devices[i];
        let ghost before = scan_views(r@);
        let driver = trimmed_text(d.driver.as_str());
        if classify_driver(driver.as_str()) == class {
            let readings = read_device(d);
            assert(readings@.len() == device_readings(*d).len());
            if readings.len() > 0 {
                let hint = match &d.hint {
                    Some(h) => Some(h.as_str()),
                    None => None,
                };
                if let Some((category, name)) = name_device(driver.as_str(), hint) {
                    let g = GroupReading { category, name, readings };
                    let ghost gv = g@;
                    r.push(g);
                    assert(scan_views(r@) =~= before.push(gv));
                }
            }
        }
        i += 1;
    }
    r
}

// ── A whole scan ─────────────────────────────────────────────────────────────

/// What one scan read.
pub struct HwScan {
    pub cpu: Vec<GroupReading>,
    pub freqs: Option<GroupReading>,
    pub load: Option<GroupReading>,
    /// Graphics cards by `nvidia-smi`.
    pub nvidia: Vec<GroupReading>,
    /// Graphics cards by hwmon.
    pub gpu: Vec<GroupReading>,
    pub memory: Vec<GroupReading>,
    pub meminfo: Option<GroupReading>,
    pub storage: Vec<GroupReading>,
    pub network: Vec<GroupReading>,
    /// Sectors read and written.
    pub disk: NameMap<(u64, u64)>,
    /// Bytes received and sent.
    pub net: NameMap<(u64, u64)>,
    /// The models of the disks.
    pub models: NameMap<String>,
}

/// One group or none.
pub open spec fn opt_group(o: Option<GroupReading>) -> Seq<GroupReadingView> {
    match o {
        Some(g) => seq![g@],
        None => Seq::empty(),
    }
}

/// All readings of a scan, in the order in which they are shown. The hwmon readings
/// of graphics cards are used where `nvidia-smi` gives none.
pub open spec fn assembled(
    s: HwScan,
    prev_disk: Map<Seq<char>, (u64, u64)>,
    prev_net: Map<Seq<char>, (u64, u64)>,
    ms: nat,
) -> Seq<GroupReadingView> {
    scan_views(s.cpu@) + opt_group(s.freqs) + opt_group(s.load) + (if s.nvidia@.len() > 0 {
        scan_views(s.nvidia@)
    } else {
        scan_views(s.gpu@)
    }) + scan_views(s.memory@) + opt_group(s.meminfo) + scan_views(s.storage@) + io_groups(
        true,
        prev_disk,
        s.disk@,
        s.models@,
        ms,
    ) + scan_views(s.network@) + io_groups(
        false,
        prev_net,
        s.net@,
        Map::<Seq<char>, String>::empty(),
        ms,
    )
}

/// Appends groups.
fn add_groups(out: &mut Vec<GroupReading>, more: Vec<GroupReading>)
    ensures
        scan_views(final(out)@) == scan_views(old(out)@) + scan_views(more@),
{
    let ghost a = out@;
    let ghost b = more@;
    let mut m = more;
    out.append(&mut m);
    assert(scan_views(out@) =~= scan_views(a) + scan_views(b));
}

/// Appends a group where there is one.
fn add_group(out: &mut Vec<GroupReading>, more: Option<GroupReading>)
    ensures
        scan_views(final(out)@) == scan_views(old(out)@) + opt_group(more),
{
    let ghost a = out@;
    match more {
        Some(g) => {
            let ghost gv = g@;
            out.push(g);
            assert(scan_views(out@) =~= scan_views(a) + seq![gv]);
        },
        None => {
            assert(scan_views(out@) =~= scan_views(a) + Seq::<GroupReadingView>::empty());
        },
    }
}

/// The sensors with their histories, and the counters of the last scan.
pub struct HwCollector {
    pub data: HwMonitorData,
    pub prev_disk: NameMap<(u64, u64)>,
    pub prev_net: NameMap<(u64, u64)>,
    pub prev_ms: u64,
}

/// The time since the last scan, at least a tenth of a second.
pub open spec fn elapsed(now: u64, prev: u64) -> nat {
    if now >= prev + 100 {
        (now - prev) as nat
    } else {
        100
    }
}

impl HwCollector {
    /// A collector that starts with the counters of now.
    pub fn new(disk: NameMap<(u64, u64)>, net: NameMap<(u64, u64)>, now_ms: u64) -> (r: HwCollector)
        ensures
            r.data.groups@.len() == 0,
            r.prev_disk == disk,
            r.prev_net == net,
            r.prev_ms == now_ms,
    {
        HwCollector {
            data: HwMonitorData::default(),
            prev_disk: disk,
            prev_net: net,
            prev_ms: now_ms,
        }
    }

    /// Takes in a scan.
    pub fn update(&mut self, scan: HwScan, now_ms: u64)
        ensures
            group_views(final(self).data.groups@) == with_groups(
                group_views(old(self).data.groups@),
                assembled(
                    scan,
                    old(self).prev_disk@,
                    old(self).prev_net@,
                    elapsed(now_ms, old(self).prev_ms),
                ),
                assembled(
                    scan,
                    old(self).prev_disk@,
                    old(self).prev_net@,
                    elapsed(now_ms, old(self).prev_ms),
                ).len(),
            ),
            final(self).prev_disk == scan.disk,
            final(self).prev_net == scan.net,
            final(self).prev_ms == now_ms,
    {
        let ms: u64 = if now_ms >= self.prev_ms && now_ms - self.prev_ms >= 100 {
            now_ms - self.prev_ms
        } else {
            100
        };
        let ghost all = assembled(scan, self.prev_disk@, self.prev_net@, ms as nat);
        let mut out: Vec<GroupReading> = Vec::new();
        assert(scan_views(out@) =~= Seq::<GroupReadingView>::empty());
        add_groups(&mut out, scan.cpu);
        add_group(&mut out, scan.freqs);
        add_group(&mut out, scan.load);
        if scan.nvidia.len() > 0 {
            add_groups(&mut out, scan.nvidia);
        } else {
            add_groups(&mut out, scan.gpu);
        }
        add_groups(&mut out, scan.memory);
        add_group(&mut out, scan.meminfo);
        add_groups(&mut out, scan.storage);
        add_groups(&mut out, collect_disk_io(&self.prev_disk, &scan.disk, &scan.models, ms));
        add_groups(&mut out, scan.network);
        add_groups(&mut out, collect_net_io(&self.prev_net, &scan.net, ms));
        assert(scan_views(out@) =~= all);
        self.data.merge(&out);
        self.prev_disk = scan.disk;
        self.prev_net = scan.net;
        self.prev_ms = now_ms;
    }
}

/// After an update the counters and the time are those of the scan, so that the next rates
/// are those since then.
pub proof fn law_next_rates_count_from_this_scan(c: &mut HwCollector, scan: HwScan, now: u64)
    requires
        call_ensures(HwCollector::update, (c, scan, now), ()),
    ensures
        final(c).prev_disk == scan.disk,
        final(c).prev_net == scan.net,
        final(c).prev_ms == now,
{
}

/// A device is among the groups of its class, under its title, where it has readings, and
/// among those of no other class.
pub proof fn law_devices_are_grouped_by_class(
    devices: &Vec<HwmonDevice>,
    class: DriverClass,
    r: Vec<GroupReading>,
    i: int,
    readings: Vec<Reading>,
    name: &str,
    kind: DriverClass,
)
    requires
        call_ensures(collect_hwmon_where, (devices, class), r),
        0 <= i < devices@.len(),
        call_ensures(read_device, (&devices@[i],), readings),
        name@ == trim(devices@[i].driver@),
        call_ensures(classify_driver, (name,), kind),
        kind != DriverClass::Other,
    ensures
        kind == class && readings@.len() > 0 ==> exists|k: int|
            0 <= k < r@.len() && (#[trigger] r@[k])@.readings == reading_views(readings@),
        (forall|k: int| 0 <= k < devices@.len() ==> driver_class(
            trim((#[trigger] devices@[k]).driver@),
        ) != class) ==> r@.len() == 0,
{
    let v = scan_views(r@);
    assert(v.len() == r@.len());
    assert(reading_views(readings@).len() == readings@.len());
    if kind == class && readings@.len() > 0 {
        lemma_device_groups(devices@, class, devices@.len(), i);
        let g = device_group(devices@[i], class)->0;
        let k = choose|k: int| 0 <= k < v.len() && v[k] == g;
        assert(v[k] == r@[k]@);
    }
    if forall|k: int| 0 <= k < devices@.len() ==> driver_class(
        trim((#[trigger] devices@[k]).driver@),
    ) != class {
        lemma_no_device(devices@, class, devices@.len());
    }
}

/// A device that makes a group has it among the groups.
proof fn lemma_device_groups(d: Seq<HwmonDevice>, class: DriverClass, n: nat, i: int)
    requires
        0 <= i < n <= d.len(),
        device_group(d[i], class) is Some,
    ensures
        device_groups(d, class, n).contains(device_group(d[i], class)->0),
    decreases n,
{
    let g = device_group(d[i], class)->0;
    let (a, b) = (device_groups(d, class, (n - 1) as nat), device_groups(d, class, n));
    if i == n - 1 {
        assert(b[a.len() as int] == g);
    } else {
        lemma_device_groups(d, class, (n - 1) as nat, i);
        let k = choose|k: int| 0 <= k < a.len() && a[k] == g;
        assert(b[k] == g);
    }
}

/// No device of a class, no groups of it.
proof fn lemma_no_device(d: Seq<HwmonDevice>, class: DriverClass, n: nat)
    requires
        n <= d.len(),
        forall|k: int| 0 <= k < n ==> driver_class(trim((#[trigger] d[k]).driver@))
            != class,
    ensures
        device_groups(d, class, n).len() == 0,
    decreases n,
{
    if n > 0 {
        assert(driver_class(trim(d[n - 1].driver@)) != class);
        lemma_no_device(d, class, (n - 1) as nat);
    }
}

/// Rates are taken over a tenth of a second at least: two updates within it show the same.
pub proof fn law_short_times_count_as_a_tenth_of_a_second(
    c: &mut HwCollector,
    d: &mut HwCollector,
    scan: HwScan,
    now: u64,
    later: u64,
)
    requires
        call_ensures(HwCollector::update, (c, scan, now), ()),
        call_ensures(HwCollector::update, (d, scan, later), ()),
        *old(c) == *old(d),
        now <= later <= old(c).prev_ms + 100,
    ensures
        group_views(final(c).data.groups@) == group_views(final(d).data.groups@),
{
}

} // verus!
