//! Temperature alerts.

use vstd::prelude::*;
use vstd::string::*;

use crate::binary::{
    falls_short, full, law_limits_compare_by_value, less, parts, single, Binary, Number, SINGLE,
};
use crate::hw_monitor::{group_views, GroupView, HwMonitorData, SensorView};
use crate::namemap::NameMap;
use crate::number::{dec, push_wide};
use crate::text::same_text;

verus! {

/// When the user is warned of a temperature. The threshold is in thousandths of a
/// degree, the time between two warnings of the same sensor in milliseconds.
#[derive(Debug, Clone, Copy, PartialEq, Eq, Structural)]
pub struct HwAlertConfig {
    pub enabled: bool,
    pub temp_threshold_milli: i64,
    pub cooldown_ms: u64,
}

/// A warning: the line for the log and the text of the notification.
pub struct Alert {
    pub log: String,
    pub body: String,
}

/// The texts of a warning.
pub struct AlertView {
    pub log: Seq<char>,
    pub body: Seq<char>,
}

impl View for Alert {
    type V = AlertView;

    open spec fn view(&self) -> AlertView {
        AlertView { log: self.log@, body: self.body@ }
    }
}

/// The views of a list of warnings.
pub open spec fn alert_views(s: Seq<Alert>) -> Seq<AlertView> {
    Seq::new(s.len(), |i: int| s[i]@)
}

/// A temperature in whole degrees.
pub open spec fn whole_text(a: Number) -> Seq<char> {
    if a.neg {
        "-"@ + dec(parts(a, 1))
    } else {
        dec(parts(a, 1))
    }
}

/// Appends a temperature in whole degrees.
fn push_whole(s: &mut String, a: Binary)
    ensures
        final(s)@ == old(s)@ + whole_text(a@),
{
    let ghost start = s@;
    if a.neg {
        s.append("-");
    }
    push_wide(s, a.parts(1));
    assert(s@ =~= start + whole_text(a@));
}

/// The temperature of a sensor.
pub open spec fn degrees(s: SensorView) -> Number {
    s.value
}

/// The temperature from which on the user is warned.
pub open spec fn limit(cfg: HwAlertConfig) -> Number {
    single(cfg.temp_threshold_milli as int, 1000)
}

/// What a sensor is called in warnings.
pub open spec fn alert_key(g: GroupView, s: SensorView) -> Seq<char> {
    g.name + "/"@ + s.label
}

/// A warning of a sensor is due.
pub open spec fn is_due(
    last: Map<Seq<char>, u64>,
    g: GroupView,
    s: SensorView,
    cfg: HwAlertConfig,
    now: u64,
) -> bool {
    &&& s.unit == "°C"@
    &&& !less(degrees(s), limit(cfg))
    &&& last.contains_key(alert_key(g, s)) ==> now >= last[alert_key(g, s)] && now - last[alert_key(
        g,
        s,
    )] >= cfg.cooldown_ms
}

/// The warning of a sensor.
pub open spec fn alert_text(g: GroupView, s: SensorView, cfg: HwAlertConfig) -> AlertView {
    AlertView {
        log: "[HW Alert] "@ + g.name + " — "@ + s.label + " "@ + whole_text(degrees(s)) + s.unit
            + "  (threshold: "@ + whole_text(limit(cfg)) + "°C)"@,
        body: alert_key(g, s) + ": "@ + whole_text(degrees(s)) + "°C (limit: "@ + whole_text(
            limit(cfg),
        ) + "°C)"@,
    }
}

/// When each sensor was warned of, and the warnings, after the first `n` sensors of
/// a group.
pub open spec fn group_alerts(
    start: (Map<Seq<char>, u64>, Seq<AlertView>),
    g: GroupView,
    cfg: HwAlertConfig,
    now: u64,
    n: nat,
) -> (Map<Seq<char>, u64>, Seq<AlertView>)
    decreases n,
{
    if n == 0 {
        start
    } else {
        let (last, out) = group_alerts(start, g, cfg, now, (n - 1) as nat);
        let s = g.sensors[n - 1];
        if is_due(last, g, s, cfg, now) {
            (last.insert(alert_key(g, s), now), out.push(alert_text(g, s, cfg)))
        } else {
            (last, out)
        }
    }
}

/// When each sensor was warned of, and the warnings, after the first `n` groups.
pub open spec fn all_alerts(
    last: Map<Seq<char>, u64>,
    g: Seq<GroupView>,
    cfg: HwAlertConfig,
    now: u64,
    n: nat,
) -> (Map<Seq<char>, u64>, Seq<AlertView>)
    decreases n,
{
    if n == 0 {
        (last, Seq::empty())
    } else {
        group_alerts(
            all_alerts(last, g, cfg, now, (n - 1) as nat),
            g[n - 1],
            cfg,
            now,
            g[n - 1].sensors.len(),
        )
    }
}

/// The warnings that are due now. `last_alert` remembers when each sensor was warned
/// of last.
pub fn check_hw_alerts(
    data: &HwMonitorData,
    cfg: &HwAlertConfig,
    last_alert: &mut NameMap<u64>,
    now: u64,
) -> (alerts: Vec<Alert>)
    ensures
        (final(last_alert)@, alert_views(alerts@)) == if cfg.enabled {
            all_alerts(
                old(last_alert)@,
                group_views(data.groups@),
                *cfg,
                now,
                data.groups@.len(),
            )
        } else {
            (old(last_alert)@, Seq::empty())
        },
{
    let mut out: Vec<Alert> = Vec::new();
    assert(alert_views(out@) =~= Seq::<AlertView>::empty());
    if !cfg.enabled {
        return out;
    }
    let ghost first = last_alert@;
    let ghost gs = group_views(data.groups@);
    let mut i: usize = 0;
    while i < data.groups.len()
        invariant
            i <= data.groups.len(),
            gs == group_views(data.groups@),
            (last_alert@, alert_views(out@)) == all_alerts(first, gs, *cfg, now, i as nat),
        decreases data.groups.len() - i,
    {
        let g = &data.groups[i];
        let ghost start = (last_alert@, alert_views(out@));
        assert(gs[i as int] == g@);
        let mut k: usize = 0;
        while k < g.sensors.len()
            invariant
                k <= g.sensors.len(),
                (last_alert@, alert_views(out@)) == group_alerts(start, g@, *cfg, now, k as nat),
            decreases g.sensors.len() - k,
        {
            let s = &g.sensors[k];
            let ghost before = alert_views(out@);
            assert(g@.sensors[k as int] == s@);
            let value = s.value().get();
            let threshold = Binary::signed_single(cfg.temp_threshold_milli, 1000);
            if same_text(s.unit().as_str(), "°C") && !value.is_less(threshold, SINGLE) {
                let mut key = g.name.clone();
                key.append("/");
                key.append(s.label().as_str());
                let due = match last_alert.get(key.as_str()) {
                    Some(t) => now >= *t && now - *t >= cfg.cooldown_ms,
                    None => true,
                };
                if due {
                    let mut log = "[HW Alert] ".to_owned();
                    log.append(g.name.as_str());
                    log.append(" — ");
                    log.append(s.label().as_str());
                    log.append(" ");
                    push_whole(&mut log, value);
                    log.append(s.unit().as_str());
                    log.append("  (threshold: ");
                    push_whole(&mut log, threshold);
                    log.append("°C)");
                    let mut body = key.clone();
                    body.append(": ");
                    push_whole(&mut body, value);
                    body.append("°C (limit: ");
                    push_whole(&mut body, threshold);
                    body.append("°C)");
                    last_alert.insert(key, now);
                    let a = Alert { log, body };
                    let ghost av = a@;
                    out.push(a);
                    assert(alert_views(out@) =~= before.push(av));
                }
            }
            k += 1;
        }
        i += 1;
    }
    out
}

/// No sensor is warned of twice within the cooldown: right after a warning none is
/// due, as long as there is a cooldown at all.
pub proof fn law_cooldown_separates_warnings(
    last: Map<Seq<char>, u64>,
    g: GroupView,
    s: SensorView,
    cfg: HwAlertConfig,
    now: u64,
    later: u64,
)
    requires
        now <= later,
        later - now < cfg.cooldown_ms,
    ensures
        !is_due(last.insert(alert_key(g, s), now), g, s, cfg, later),
{
}

/// The temperature of a sensor is at the limit or above it, and the cooldown of its last
/// warning is over.
pub open spec fn calls_for_warning(
    last: Map<Seq<char>, u64>,
    group: Seq<char>,
    s: SensorView,
    cfg: HwAlertConfig,
    now: u64,
) -> bool {
    let key = group + "/"@ + s.label;
    &&& s.unit == "°C"@
    &&& !falls_short(s.value, cfg.temp_threshold_milli as int, 1000) || s.value == single(
        cfg.temp_threshold_milli as int,
        1000,
    )
    &&& last.contains_key(key) ==> last[key] + cfg.cooldown_ms <= now
}

/// Enabled warnings come of exactly the sensors whose temperature is at the limit or
/// above it and whose cooldown is over; the time of each is kept, and of no other.
pub proof fn law_hot_sensors_are_warned_of(
    data: &HwMonitorData,
    cfg: &HwAlertConfig,
    last: &mut NameMap<u64>,
    now: u64,
    r: Vec<Alert>,
    key: Seq<char>,
)
    requires
        call_ensures(check_hw_alerts, (data, cfg, last, now), r),
        cfg.temp_threshold_milli >= 0,
        forall|g: int, i: int|
            0 <= g < data.groups@.len() && 0 <= i < data.groups@[g].sensors@.len() ==> full(
                (#[trigger] data.groups@[g].sensors@[i])@.value,
                SINGLE as nat,
            ),
    ensures
        !cfg.enabled ==> r@.len() == 0 && final(last)@ == old(last)@,
        cfg.enabled ==> {
            &&& forall|g: int, i: int|
                0 <= g < data.groups@.len() && 0 <= i < data.groups@[g].sensors@.len()
                    && calls_for_warning(
                    old(last)@,
                    data.groups@[g].name@,
                    #[trigger] data.groups@[g].sensors@[i]@,
                    *cfg,
                    now,
                ) && key == data.groups@[g].name@ + "/"@ + data.groups@[g].sensors@[i]@.label
                    ==> r@.len() > 0 && final(last)@.contains_key(key) && final(last)@[key] == now
            &&& (forall|g: int, i: int|
                0 <= g < data.groups@.len() && 0 <= i < data.groups@[g].sensors@.len()
                    && calls_for_warning(
                    old(last)@,
                    data.groups@[g].name@,
                    #[trigger] data.groups@[g].sensors@[i]@,
                    *cfg,
                    now,
                ) ==> key != data.groups@[g].name@ + "/"@ + data.groups@[g].sensors@[i]@.label)
                ==> final(last)@.contains_key(key) == old(last)@.contains_key(key)
                    && (final(last)@.contains_key(key) ==> final(last)@[key] == old(last)@[key])
        },
{
    let gs = group_views(data.groups@);
    assert(alert_views(r@).len() == r@.len());
    if cfg.enabled {
        lemma_all_alerts(old(last)@, gs, *cfg, now, gs.len(), key);
        assert forall|g: int, i: int|
            0 <= g < data.groups@.len() && 0 <= i < data.groups@[g].sensors@.len() implies gs[g].name
            == data.groups@[g].name@ && gs[g].sensors[i] == (
        #[trigger] data.groups@[g].sensors@[i])@
            && (is_due(old(last)@, gs[g], gs[g].sensors[i], *cfg, now)
            == calls_for_warning(
            old(last)@,
            data.groups@[g].name@,
            data.groups@[g].sensors@[i]@,
            *cfg,
            now,
        )) by {
            law_limits_compare_by_value(
                data.groups@[g].sensors@[i]@.value,
                cfg.temp_threshold_milli as int,
                1000,
            );
        }
        if warned(old(last)@, gs, *cfg, now, gs.len(), key) {
            let (g, i) = choose|g: int, i: int| warns(old(last)@, gs, *cfg, now, gs.len(), key, g, i);
            assert(gs[g].sensors[i] == data.groups@[g].sensors@[i]@);
        }
        assert forall|g: int, i: int|
            0 <= g < data.groups@.len() && 0 <= i < data.groups@[g].sensors@.len()
                && calls_for_warning(
                old(last)@,
                data.groups@[g].name@,
                #[trigger] data.groups@[g].sensors@[i]@,
                *cfg,
                now,
            ) && key == data.groups@[g].name@ + "/"@ + data.groups@[g].sensors@[i]@.label
                implies warned(
            old(last)@,
            gs,
            *cfg,
            now,
            gs.len(),
            key,
        ) by {
            assert(warns(old(last)@, gs, *cfg, now, gs.len(), key, g, i));
        }
    }
}

/// The sensor at `i` of the group at `g`, one of the first `n`, has the key and is due.
spec fn warns(
    last: Map<Seq<char>, u64>,
    gs: Seq<GroupView>,
    cfg: HwAlertConfig,
    now: u64,
    n: nat,
    key: Seq<char>,
    g: int,
    i: int,
) -> bool {
    &&& 0 <= g < n
    &&& 0 <= i < gs[g].sensors.len()
    &&& alert_key(gs[g], gs[g].sensors[i]) == key
    &&& is_due(last, gs[g], gs[g].sensors[i], cfg, now)
}

/// A sensor of the first `n` groups has the key and is due.
spec fn warned(
    last: Map<Seq<char>, u64>,
    gs: Seq<GroupView>,
    cfg: HwAlertConfig,
    now: u64,
    n: nat,
    key: Seq<char>,
) -> bool {
    exists|g: int, i: int| warns(last, gs, cfg, now, n, key, g, i)
}

/// What is remembered of a key, compared with the start.
spec fn remembers(
    m: Map<Seq<char>, u64>,
    last: Map<Seq<char>, u64>,
    key: Seq<char>,
    now: u64,
    changed: bool,
) -> bool {
    if changed {
        m.contains_key(key) && m[key] == now
    } else {
        m.contains_key(key) == last.contains_key(key) && (m.contains_key(key) ==> m[key]
            == last[key])
    }
}

/// What one group changes of a key.
proof fn lemma_group_alerts(
    last: Map<Seq<char>, u64>,
    start: (Map<Seq<char>, u64>, Seq<AlertView>),
    g: GroupView,
    cfg: HwAlertConfig,
    now: u64,
    n: nat,
    key: Seq<char>,
    before: bool,
)
    requires
        n <= g.sensors.len(),
        remembers(start.0, last, key, now, before),
        before ==> start.1.len() > 0,
    ensures
        ({
            let (m, out) = group_alerts(start, g, cfg, now, n);
            let changed = before || exists|i: int|
                0 <= i < n && alert_key(g, #[trigger] g.sensors[i]) == key && is_due(
                    last,
                    g,
                    g.sensors[i],
                    cfg,
                    now,
                );
            &&& remembers(m, last, key, now, changed)
            &&& changed ==> out.len() > 0
        }),
    decreases n,
{
    if n > 0 {
        lemma_group_alerts(last, start, g, cfg, now, (n - 1) as nat, key, before);
        let s = g.sensors[n - 1];
        assert(alert_key(g, s) == alert_key(g, g.sensors[n - 1]));
    }
}

/// What all groups change of a key.
proof fn lemma_all_alerts(
    last: Map<Seq<char>, u64>,
    gs: Seq<GroupView>,
    cfg: HwAlertConfig,
    now: u64,
    n: nat,
    key: Seq<char>,
)
    requires
        n <= gs.len(),
    ensures
        ({
            let (m, out) = all_alerts(last, gs, cfg, now, n);
            let changed = warned(last, gs, cfg, now, n, key);
            &&& remembers(m, last, key, now, changed)
            &&& changed ==> out.len() > 0
        }),
    decreases n,
{
    if n > 0 {
        let m = (n - 1) as nat;
        lemma_all_alerts(last, gs, cfg, now, m, key);
        let before = warned(last, gs, cfg, now, m, key);
        let g = gs[n - 1];
        lemma_group_alerts(
            last,
            all_alerts(last, gs, cfg, now, m),
            g,
            cfg,
            now,
            g.sensors.len(),
            key,
            before,
        );
        if before {
            let (a, i) = choose|a: int, i: int| warns(last, gs, cfg, now, m, key, a, i);
            assert(warns(last, gs, cfg, now, n, key, a, i));
        }
        if exists|i: int|
            0 <= i < g.sensors.len() && alert_key(g, #[trigger] g.sensors[i]) == key && is_due(
                last,
                g,
                g.sensors[i],
                cfg,
                now,
            ) {
            let i = choose|i: int|
                0 <= i < g.sensors.len() && alert_key(g, #[trigger] g.sensors[i]) == key && is_due(
                    last,
                    g,
                    g.sensors[i],
                    cfg,
                    now,
                );
            assert(warns(last, gs, cfg, now, n, key, n - 1, i));
        }
        if warned(last, gs, cfg, now, n, key) {
            let (a, i) = choose|a: int, i: int| warns(last, gs, cfg, now, n, key, a, i);
            if a < m {
                assert(warns(last, gs, cfg, now, m, key, a, i));
            } else {
                assert(gs[a] == g && alert_key(g, g.sensors[i]) == key);
            }
        }
    }
}

} // verus!
