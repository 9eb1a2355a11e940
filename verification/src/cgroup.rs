//! Throttling of whole applications through their systemd user unit.
//!
//! A desktop application is held back without root by setting `CPUWeight` and
//! `CPUQuota` on the unit that its processes live in, never by moving processes
//! between control groups. This module finds the unit of a process and makes the
//! `systemctl` commands; running them is left to the caller.

use vstd::prelude::*;
use vstd::string::*;

use crate::number::{dec, parse_nat, push_dec, read_u64};
use crate::text::{
    begins_with, chars_of, cut_at, cut_text, finishes_with, has_prefix, has_substring, has_suffix,
    law_cut_at_the_first_text, law_one_piece, law_pieces_end_at_separators,
    law_prefix_is_the_beginning, law_substring_stands_between, law_suffix_is_the_end, lines,
    nonempty, split_at_char, split_on, sub_chars, text_lines, text_of, texts, trim, trimmed,
    views, without_empty,
};

verus! {

// ── Which unit ───────────────────────────────────────────────────────────────

/// The names between the slashes of a path.
pub open spec fn components(path: Seq<char>) -> Seq<Seq<char>> {
    nonempty(split_on(path, '/'))
}

/// A unit that may be throttled: a scope or a service, but no login session,
/// which holds the whole desktop.
pub open spec fn is_app_unit(unit: Seq<char>) -> bool {
    &&& has_suffix(unit, ".scope"@) || has_suffix(unit, ".service"@)
    &&& !has_prefix(unit, "session-"@)
}

/// The throttleable unit of a control group path: its last component, where the
/// path leads through a user manager and at least one slice below it.
pub open spec fn app_unit(path: Seq<char>) -> Option<Seq<char>> {
    match cut_at(path, "/user@"@) {
        None => None,
        Some((_, below)) => {
            let c = components(below);
            if c.len() >= 3 && is_app_unit(c.last()) {
                Some(c.last())
            } else {
                None
            }
        },
    }
}

/// The throttleable unit of a control group path.
pub fn unit_from_cgroup_path(path: &str) -> (r: Option<String>)
    ensures
        match r {
            Some(u) => app_unit(path@) == Some(u@),
            None => app_unit(path@) is None,
        },
{
    let cs = chars_of(path);
    match cut_text(&cs, "/user@") {
        None => None,
        Some((_, below)) => {
            let comps = without_empty(split_at_char(&below, '/'));
            let ghost c = components(below@);
            let n: usize = comps.len();
            if n < 3 {
                return None;
            }
            let unit = &comps[n - 1];
            assert(unit@ == c.last());
            if !(finishes_with(unit, ".scope") || finishes_with(unit, ".service")) {
                return None;
            }
            if begins_with(unit, "session-") {
                return None;
            }
            Some(text_of(unit))
        },
    }
}

/// The path in the line for the unified hierarchy, the first that begins with
/// `0::`.
pub open spec fn unified_path(ls: Seq<Seq<char>>) -> Option<Seq<char>>
    decreases ls.len(),
{
    if ls.len() == 0 {
        None
    } else if has_prefix(ls[0], "0::"@) {
        Some(trim(ls[0].skip(3)))
    } else {
        unified_path(ls.drop_first())
    }
}

/// The throttleable unit of a process, from the text of its `cgroup` file.
pub fn unit_for_pid(cgroup_file: &str) -> (r: Option<String>)
    ensures
        match unified_path(lines(cgroup_file@)) {
            None => r is None,
            Some(path) => match r {
                Some(u) => app_unit(path) == Some(u@),
                None => app_unit(path) is None,
            },
        },
{
    let ls = text_lines(cgroup_file);
    let ghost all = views(ls@);
    let mut i: usize = 0;
    assert(all.skip(0) =~= all);
    while i < ls.len()
        invariant
            i <= ls.len(),
            all == views(ls@),
            all == lines(cgroup_file@),
            unified_path(all) == unified_path(all.skip(i as int)),
        decreases ls.len() - i,
    {
        assert(all.skip(i as int)[0] == ls@[i as int]@);
        if begins_with(&ls[i], "0::") {
            proof {
                reveal_strlit("0::");
            }
            let rest = sub_chars(&ls[i], 3, ls[i].len());
            assert(rest@ =~= all[i as int].skip(3));
            let path = trimmed(&rest);
            let text = text_of(&path);
            return unit_from_cgroup_path(text.as_str());
        }
        assert(all.skip(i as int).drop_first() =~= all.skip(i + 1));
        i += 1;
    }
    None
}

/// A login session is never throttled, nor anything that is neither a scope nor
/// a service, nor anything outside a user manager.
pub proof fn law_only_applications_are_throttled(path: Seq<char>)
    ensures
        match app_unit(path) {
            Some(u) => is_app_unit(u) && crate::text::has_substring(path, "/user@"@),
            None => true,
        },
{
}

// ── Commands ─────────────────────────────────────────────────────────────────

/// The arguments of `systemctl` that ask for the weight of a unit. The `--` keeps
/// a unit name that begins with a hyphen from being taken for an option.
pub fn cpu_weight_query(unit: &str) -> (args: Vec<String>)
    ensures
        texts(args@) == seq![
            "--user"@,
            "show"@,
            "-p"@,
            "CPUWeight"@,
            "--value"@,
            "--"@,
            unit@,
        ],
{
    let mut args: Vec<String> = Vec::new();
    args.push("--user".to_owned());
    args.push("show".to_owned());
    args.push("-p".to_owned());
    args.push("CPUWeight".to_owned());
    args.push("--value".to_owned());
    args.push("--".to_owned());
    args.push(unit.to_owned());
    assert(texts(args@) =~= seq![
        "--user"@,
        "show"@,
        "-p"@,
        "CPUWeight"@,
        "--value"@,
        "--"@,
        unit@,
    ]);
    args
}

/// The weight in the answer to `cpu_weight_query`; none where the command failed
/// or the weight is not set.
pub fn read_unit_cpu_weight(success: bool, stdout: &str) -> (r: Option<u64>)
    ensures
        r == (if success {
            match parse_nat(trim(stdout@), u64::MAX as nat) {
                Some(n) => Some(n as u64),
                None => None,
            }
        } else {
            None
        }),
{
    if !success {
        return None;
    }
    let cs = chars_of(stdout);
    let t = trimmed(&cs);
    read_u64(&t)
}

/// The assignment of a weight.
pub open spec fn weight_prop(weight: nat) -> Seq<char> {
    "CPUWeight="@ + dec(weight)
}

/// The assignment of a quota.
pub open spec fn quota_prop(percent: nat) -> Seq<char> {
    "CPUQuota="@ + dec(percent) + "%"@
}

/// The arguments of `systemctl` that set properties of a unit for this boot.
pub open spec fn set_property_args(unit: Seq<char>) -> Seq<Seq<char>> {
    seq!["--user"@, "set-property"@, "--runtime"@, "--"@, unit]
}

/// Begins a command that sets properties of a unit.
fn set_property(unit: &str) -> (args: Vec<String>)
    ensures
        texts(args@) == set_property_args(unit@),
{
    let mut args: Vec<String> = Vec::new();
    args.push("--user".to_owned());
    args.push("set-property".to_owned());
    args.push("--runtime".to_owned());
    args.push("--".to_owned());
    args.push(unit.to_owned());
    assert(texts(args@) =~= set_property_args(unit@));
    args
}

/// The arguments of `systemctl` that throttle a unit. A quota of 0 sets no hard
/// cap.
pub fn throttle_unit(unit: &str, weight: u32, quota_percent: u32) -> (args: Vec<String>)
    ensures
        texts(args@) == set_property_args(unit@).push(weight_prop(weight as nat)) + (if quota_percent
            > 0 {
            seq![quota_prop(quota_percent as nat)]
        } else {
            Seq::empty()
        }),
{
    let mut args = set_property(unit);
    let ghost base = texts(args@);
    let mut w = "CPUWeight=".to_owned();
    push_dec(&mut w, weight as u64);
    args.push(w);
    if quota_percent > 0 {
        let mut q = "CPUQuota=".to_owned();
        push_dec(&mut q, quota_percent as u64);
        q.append("%");
        args.push(q);
        assert(texts(args@) =~= base.push(weight_prop(weight as nat)) + seq![
            quota_prop(quota_percent as nat),
        ]);
    } else {
        assert(texts(args@) =~= base.push(weight_prop(weight as nat)) + Seq::<Seq<char>>::empty());
    }
    args
}

/// The arguments of `systemctl` that undo a throttle: the recorded weight, or the
/// unset default, comes back, and any quota is cleared.
pub fn restore_unit(unit: &str, original_weight: Option<u64>) -> (args: Vec<String>)
    ensures
        texts(args@) == set_property_args(unit@).push(
            match original_weight {
                Some(w) => weight_prop(w as nat),
                None => "CPUWeight="@,
            },
        ).push("CPUQuota="@),
{
    let mut args = set_property(unit);
    let ghost base = texts(args@);
    let mut w = "CPUWeight=".to_owned();
    if let Some(n) = original_weight {
        push_dec(&mut w, n);
    }
    let ghost wt = w@;
    args.push(w);
    args.push("CPUQuota=".to_owned());
    assert(texts(args@) =~= base.push(wt).push("CPUQuota="@));
    args
}

/// The application of a process is the last part of its path below the user's manager,
/// where that is a scope or a service at least two levels below it and no login session.
pub proof fn law_application_is_the_last_part(
    path: &str,
    r: Option<String>,
    a: Seq<char>,
    manager: Seq<char>,
    slice: Seq<char>,
    unit: Seq<char>,
)
    requires
        call_ensures(unit_from_cgroup_path, (path,), r),
        path@ == a + "/user@"@ + (manager + seq!['/'] + slice + seq!['/'] + unit),
        !has_substring(a + "/user"@, "/user@"@),
        manager.len() > 0 && slice.len() > 0 && unit.len() > 0,
        !manager.contains('/') && !slice.contains('/') && !unit.contains('/'),
    ensures
        r is Some ==> r->0@ == unit,
        r is Some <==> {
            &&& (exists|s: Seq<char>| unit == #[trigger] (s + ".scope"@)) || (exists|s: Seq<char>|
                unit == #[trigger] (s + ".service"@))
            &&& !exists|s: Seq<char>| unit == #[trigger] ("session-"@ + s)
        },
{
    let below = manager + seq!['/'] + slice + seq!['/'] + unit;
    reveal_strlit("/user@");
    reveal_strlit("/user");
    assert("/user@"@.drop_last() =~= "/user"@);
    law_cut_at_the_first_text(a, "/user@"@, below);
    let c = components(below);
    let rest = slice + seq!['/'] + unit;
    assert(below =~= manager + seq!['/'] + rest);
    law_pieces_end_at_separators(manager, rest, '/');
    law_pieces_end_at_separators(slice, unit, '/');
    law_one_piece(unit, '/');
    let p = split_on(below, '/');
    assert(p =~= seq![manager, slice, unit]);
    assert(p.drop_last() =~= seq![manager, slice]);
    assert(p.drop_last().drop_last() =~= seq![manager]);
    assert(p.drop_last().drop_last().drop_last() =~= Seq::<Seq<char>>::empty());
    let (one, two) = (seq![manager], seq![manager, slice]);
    assert(one.drop_last() =~= Seq::<Seq<char>>::empty());
    assert(nonempty(one.drop_last()) =~= Seq::<Seq<char>>::empty());
    assert(nonempty(one) =~= one);
    assert(two.drop_last() =~= one);
    assert(nonempty(two) =~= two);
    assert(nonempty(p) =~= p);
    assert(c.last() == unit);
    law_suffix_is_the_end(unit, ".scope"@);
    law_suffix_is_the_end(unit, ".service"@);
    law_prefix_is_the_beginning(unit, "session-"@);
}

/// A path that does not lead below a user's manager has no application.
pub proof fn law_no_application_outside_the_manager(path: &str, r: Option<String>)
    requires
        call_ensures(unit_from_cgroup_path, (path,), r),
        forall|a: Seq<char>, b: Seq<char>| path@ != #[trigger] (a + "/user@"@ + b),
    ensures
        r is None,
{
    law_substring_stands_between(path@, "/user@"@);
}

/// An application is throttled by its weight, and by a quota where there is one; it is
/// restored to the weight that it had, without a quota.
pub proof fn law_weights_are_set_and_restored(
    unit: &str,
    weight: u32,
    quota: u32,
    t: Vec<String>,
    original: Option<u64>,
    r: Vec<String>,
)
    requires
        call_ensures(throttle_unit, (unit, weight, quota), t),
        call_ensures(restore_unit, (unit, original), r),
    ensures
        t@.len() == if quota > 0 {
            7int
        } else {
            6
        },
        r@.len() == 7,
        t@[1]@ == "set-property"@ && r@[1]@ == "set-property"@,
        t@[2]@ == "--runtime"@ && r@[2]@ == "--runtime"@,
        t@[4]@ == unit@ && r@[4]@ == unit@,
        t@[5]@ == "CPUWeight="@ + dec(weight as nat),
        quota > 0 ==> t@[6]@ == "CPUQuota="@ + dec(quota as nat) + "%"@,
        original matches Some(w) ==> r@[5]@ == "CPUWeight="@ + dec(w as nat),
        original is None ==> r@[5]@ == "CPUWeight="@,
        r@[6]@ == "CPUQuota="@,
{
    let (x, y) = (texts(t@), texts(r@));
    assert(x.len() == t@.len() && y.len() == r@.len());
    assert(x[1] == t@[1]@ && x[2] == t@[2]@ && x[4] == t@[4]@ && x[5] == t@[5]@);
    assert(y[1] == r@[1]@ && y[2] == r@[2]@ && y[4] == r@[4]@ && y[5] == r@[5]@ && y[6] == r@[6]@);
    if quota > 0 {
        assert(x[6] == t@[6]@);
    }
}

/// The weight of a unit is the number that the command printed, where it succeeded.
pub proof fn law_weight_is_the_number_printed(
    success: bool,
    out: &str,
    r: Option<u64>,
    n: u64,
    b: Seq<char>,
)
    requires
        call_ensures(read_unit_cpu_weight, (success, out), r),
        forall|i: int| 0 <= i < b.len() ==> crate::text::is_space(#[trigger] b[i]),
    ensures
        !success ==> r is None,
        success && out@ == dec(n as nat) + b ==> r == Some(n),
{
    crate::number::law_blanks_around_numbers_are_dropped(Seq::empty(), n as nat, b);
    assert(Seq::<char>::empty() + dec(n as nat) + b =~= dec(n as nat) + b);
    crate::number::law_decimal_round_trip(n as nat, u64::MAX as nat);
}

/// What stands directly below the user's manager is no application.
pub proof fn law_manager_itself_has_no_application(
    path: &str,
    r: Option<String>,
    a: Seq<char>,
    manager: Seq<char>,
    unit: Seq<char>,
)
    requires
        call_ensures(unit_from_cgroup_path, (path,), r),
        path@ == a + "/user@"@ + (manager + seq!['/'] + unit),
        !has_substring(a + "/user"@, "/user@"@),
        !manager.contains('/') && !unit.contains('/'),
    ensures
        r is None,
{
    let below = manager + seq!['/'] + unit;
    reveal_strlit("/user@");
    reveal_strlit("/user");
    assert("/user@"@.drop_last() =~= "/user"@);
    law_cut_at_the_first_text(a, "/user@"@, below);
    law_pieces_end_at_separators(manager, unit, '/');
    law_one_piece(unit, '/');
    let p = split_on(below, '/');
    assert(p =~= seq![manager, unit]);
    lemma_nonempty_is_no_longer(p);
}

/// Leaving out the empty parts makes a list no longer.
proof fn lemma_nonempty_is_no_longer(p: Seq<Seq<char>>)
    ensures
        nonempty(p).len() <= p.len(),
    decreases p.len(),
{
    if p.len() > 0 {
        lemma_nonempty_is_no_longer(p.drop_last());
    }
}

/// The application of a process is that of the path behind `0::` in its first such line.
pub proof fn law_application_of_a_process_is_that_of_its_path(
    file: &str,
    r: Option<String>,
    i: int,
    path: &str,
    u: Option<String>,
)
    requires
        call_ensures(unit_for_pid, (file,), r),
        0 <= i < lines(file@).len(),
        lines(file@)[i] == seq!['0', ':', ':'] + path@,
        trim(path@) == path@,
        forall|k: int| 0 <= k < i ==> !has_prefix(#[trigger] lines(file@)[k], seq!['0', ':', ':']),
        call_ensures(unit_from_cgroup_path, (path,), u),
    ensures
        r is Some <==> u is Some,
        r is Some ==> r->0@ == u->0@,
{
    reveal_strlit("0::");
    assert("0::"@ =~= seq!['0', ':', ':']);
    lemma_unified_path(lines(file@), i, path@);
}

/// The first line with the unified path.
proof fn lemma_unified_path(ls: Seq<Seq<char>>, i: int, path: Seq<char>)
    requires
        0 <= i < ls.len(),
        "0::"@ == seq!['0', ':', ':'],
        ls[i] == seq!['0', ':', ':'] + path,
        forall|k: int| 0 <= k < i ==> !has_prefix(#[trigger] ls[k], seq!['0', ':', ':']),
    ensures
        unified_path(ls) == Some(trim(path)),
    decreases i,
{
    if i == 0 {
        assert(ls[0].take(3) =~= "0::"@);
        assert(ls[0].skip(3) =~= path);
    } else {
        assert(!has_prefix(ls[0], "0::"@));
        let d = ls.drop_first();
        assert forall|k: int| 0 <= k < i - 1 implies !has_prefix(
            #[trigger] d[k],
            seq!['0', ':', ':'],
        ) by {
            assert(d[k] == ls[k + 1]);
        }
        lemma_unified_path(d, i - 1, path);
    }
}

} // verus!
