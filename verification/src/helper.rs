//! The privileged helpers: one script for each operation, each with its own
//! polkit action, and the command that installs them.
//!
//! `pkexec` grants by the path of the executable, not by its arguments. One
//! executable for each operation therefore lets an administrator tighten one
//! grant without losing the others.

use vstd::prelude::*;
use vstd::string::*;

use crate::number::{dec_int, push_int};
use crate::text::{
    chars_of, contains_text, has_substring, is_space, law_substring_stands_between,
    law_visible_characters_are_no_blanks, lemma_substring_of_concat, space, sub_chars, text_of, trim,
    trimmed,
};

verus! {

/// Where the helpers are installed.
pub const HELPER_DIR: &'static str = "/usr/local/lib/argus-lasso";

/// Where the polkit policy is installed.
pub const POLICY_PATH: &'static str = "/usr/share/polkit-1/actions/io.github.franzjeger.argus-lasso.policy";

/// The single helper of older installations.
pub const LEGACY_HELPER: &'static str = "/usr/local/bin/argus-lasso-sysfs";

/// The sudoers rule of older installations.
pub const LEGACY_SUDOERS: &'static str = "/etc/sudoers.d/argus-lasso";

/// Changes whenever a helper changes, so that an outdated installation can be
/// told from a missing one.
pub const HELPER_VERSION: &'static str = "argus-lasso-helper v2";

/// The operation that takes CPUs offline and back.
pub const OP_PARK: &'static str = "cpu-park";

/// The operation that sets governor and energy preference.
pub const OP_POWER: &'static str = "power-profile";

/// The operation that changes nice values.
pub const OP_RENICE: &'static str = "renice";

// ── Scripts ──────────────────────────────────────────────────────────────────

/// The beginning of every script, before the version marker.
pub const SCRIPT_HEAD: &'static str = "#!/bin/bash\n# ";

/// Takes CPUs offline and back online.
pub const PARK_BODY: &'static str = r#" — CPU parking. Managed by argus-lasso; do not edit.
set -euo pipefail
case "${1-}" in
    online)
        [[ "${2-}" =~ ^[0-9]+$ ]] || exit 2
        [[ "${3-}" =~ ^[01]$   ]] || exit 2
        echo "$3" > "/sys/devices/system/cpu/cpu$2/online"
        ;;
    unpark-all)
        offline=$(cat /sys/devices/system/cpu/offline 2>/dev/null || true)
        [ -z "$offline" ] && exit 0
        for part in $(echo "$offline" | tr ',' ' '); do
            if [[ "$part" == *-* ]]; then
                lo=${part%-*}; hi=${part#*-}
                for ((c=lo; c<=hi; c++)); do
                    echo 1 > "/sys/devices/system/cpu/cpu${c}/online" 2>/dev/null || true
                done
            else
                echo 1 > "/sys/devices/system/cpu/cpu${part}/online" 2>/dev/null || true
            fi
        done
        ;;
    --check)
        exit 0 ;;
    *)
        echo "usage: cpu-park online <cpu> <0|1> | unpark-all" >&2; exit 2 ;;
esac
"#;

/// Sets the scaling governor and the energy performance preference.
pub const POWER_BODY: &'static str = r#" — CPU governor and energy preference.
set -euo pipefail
case "${1-}" in
    governor)
        [[ "${2-}" =~ ^[a-z_-]+$ ]] || exit 2
        for f in /sys/devices/system/cpu/cpu*/cpufreq/scaling_governor; do
            echo "$2" > "$f" 2>/dev/null || true
        done
        ;;
    epp)
        [[ "${2-}" =~ ^[a-z_-]+$ ]] || exit 2
        for f in /sys/devices/system/cpu/cpu*/cpufreq/energy_performance_preference; do
            echo "$2" > "$f" 2>/dev/null || true
        done
        ;;
    *)
        echo "usage: power-profile governor <name> | epp <name>" >&2; exit 2 ;;
esac
"#;

/// Changes the nice value of a process that the caller owns. A negative value
/// needs privileges; `pkexec` says who asks, and without it the script refuses.
pub const RENICE_BODY: &'static str = r#" — renice, restricted to the caller's own processes.
set -euo pipefail
[[ "${1-}" =~ ^-?[0-9]+$ ]] || exit 2
[[ "${2-}" =~ ^[0-9]+$   ]] || exit 2
nice_val=$1
pid=$2
if [ -z "${PKEXEC_UID-}" ]; then
    echo "refusing: not invoked through pkexec" >&2
    exit 2
fi
owner=$(stat -c %u "/proc/$pid" 2>/dev/null) || { echo "no such process: $pid" >&2; exit 1; }
if [ "$owner" != "$PKEXEC_UID" ]; then
    echo "refusing: PID $pid belongs to uid $owner, not $PKEXEC_UID" >&2
    exit 1
fi
renice -n "$nice_val" -p "$pid" >/dev/null
"#;

/// A whole script.
pub open spec fn script_text(body: Seq<char>) -> Seq<char> {
    SCRIPT_HEAD@ + HELPER_VERSION@ + body
}

/// Puts a script together.
fn script(body: &str) -> (r: String)
    ensures
        r@ == script_text(body@),
{
    let mut r = SCRIPT_HEAD.to_owned();
    r.append(HELPER_VERSION);
    r.append(body);
    r
}

/// The helper that takes CPUs offline and back online.
pub fn park_script() -> (r: String)
    ensures
        r@ == script_text(PARK_BODY@),
{
    script(PARK_BODY)
}

/// The helper that sets governor and energy preference.
pub fn power_script() -> (r: String)
    ensures
        r@ == script_text(POWER_BODY@),
{
    script(POWER_BODY)
}

/// The helper that changes nice values.
pub fn renice_script() -> (r: String)
    ensures
        r@ == script_text(RENICE_BODY@),
{
    script(RENICE_BODY)
}

/// Every helper carries the version marker.
pub proof fn law_every_helper_carries_the_version_marker(body: Seq<char>)
    ensures
        has_substring(script_text(body), HELPER_VERSION@),
{
    lemma_substring_of_concat(SCRIPT_HEAD@, HELPER_VERSION@, body);
}

/// The path of a helper.
pub open spec fn path_of(op: Seq<char>) -> Seq<char> {
    HELPER_DIR@ + "/"@ + op
}

/// The path of a helper.
pub fn helper_path(op: &str) -> (r: String)
    ensures
        r@ == path_of(op@),
{
    let mut r = HELPER_DIR.to_owned();
    r.append("/");
    r.append(op);
    r
}

// ── Policy ───────────────────────────────────────────────────────────────────

/// The name of the polkit action of an operation.
pub open spec fn action_id(op: Seq<char>) -> Seq<char> {
    "io.github.franzjeger.argus-lasso."@ + op
}

/// The part of an action before the path of its helper.
pub open spec fn action_head(op: Seq<char>, desc: Seq<char>, msg: Seq<char>) -> Seq<char> {
    "  <action id=\""@ + action_id(op) + "\">\n    <description>"@ + desc
        + "</description>\n    <message>"@ + msg
        + "</message>\n    <defaults>\n      <allow_any>no</allow_any>\n      <allow_inactive>no</allow_inactive>\n      <allow_active>yes</allow_active>\n    </defaults>\n    <annotate key=\"org.freedesktop.policykit.exec.path\">"@
}

/// The part of an action behind the path of its helper.
pub open spec fn action_tail() -> Seq<char> {
    "</annotate>\n    <annotate key=\"org.freedesktop.policykit.exec.allow_gui\">true</annotate>\n  </action>\n"@
}

/// The polkit action of an operation: the user at the seat needs no password,
/// nobody else is let in.
pub open spec fn action_text(op: Seq<char>, desc: Seq<char>, msg: Seq<char>) -> Seq<char> {
    action_head(op, desc, msg) + path_of(op) + action_tail()
}

/// The part of the policy before its actions.
pub open spec fn policy_head() -> Seq<char> {
    "<?xml version=\"1.0\" encoding=\"UTF-8\"?>\n<!DOCTYPE policyconfig PUBLIC \"-//freedesktop//DTD PolicyKit Policy Configuration 1.0//EN\"\n \"http://www.freedesktop.org/standards/PolicyKit/1.0/policyconfig.dtd\">\n<policyconfig>\n  <vendor>Argus-Lasso</vendor>\n  <vendor_url>https://github.com/franzjeger/process-lasso-linux-rs</vendor_url>\n"@
}

/// The action for parking.
pub open spec fn park_action() -> Seq<char> {
    action_text(
        OP_PARK@,
        "Take CPU cores offline or bring them back online"@,
        "Authentication is required to park CPU cores"@,
    )
}

/// The action for power profiles.
pub open spec fn power_action() -> Seq<char> {
    action_text(
        OP_POWER@,
        "Set the CPU scaling governor and energy performance preference"@,
        "Authentication is required to change the CPU power profile"@,
    )
}

/// The action for nice values.
pub open spec fn renice_action() -> Seq<char> {
    action_text(
        OP_RENICE@,
        "Raise the scheduling priority of one of your own processes"@,
        "Authentication is required to change process priority"@,
    )
}

/// The whole policy.
pub open spec fn policy_text() -> Seq<char> {
    policy_head() + park_action() + power_action() + renice_action() + "</policyconfig>\n"@
}

/// Writes an action.
fn action(op: &str, desc: &str, msg: &str) -> (r: String)
    ensures
        r@ == action_text(op@, desc@, msg@),
{
    let mut r = "  <action id=\"".to_owned();
    let mut id = "io.github.franzjeger.argus-lasso.".to_owned();
    id.append(op);
    r.append(id.as_str());
    r.append("\">\n    <description>");
    r.append(desc);
    r.append("</description>\n    <message>");
    r.append(msg);
    r.append(
        "</message>\n    <defaults>\n      <allow_any>no</allow_any>\n      <allow_inactive>no</allow_inactive>\n      <allow_active>yes</allow_active>\n    </defaults>\n    <annotate key=\"org.freedesktop.policykit.exec.path\">",
    );
    let path = helper_path(op);
    r.append(path.as_str());
    r.append(
        "</annotate>\n    <annotate key=\"org.freedesktop.policykit.exec.allow_gui\">true</annotate>\n  </action>\n",
    );
    r
}

/// The polkit policy, with one action for each operation.
pub fn policy_xml() -> (r: String)
    ensures
        r@ == policy_text(),
{
    let mut r =
        "<?xml version=\"1.0\" encoding=\"UTF-8\"?>\n<!DOCTYPE policyconfig PUBLIC \"-//freedesktop//DTD PolicyKit Policy Configuration 1.0//EN\"\n \"http://www.freedesktop.org/standards/PolicyKit/1.0/policyconfig.dtd\">\n<policyconfig>\n  <vendor>Argus-Lasso</vendor>\n  <vendor_url>https://github.com/franzjeger/process-lasso-linux-rs</vendor_url>\n".to_owned();
    let park = action(
        OP_PARK,
        "Take CPU cores offline or bring them back online",
        "Authentication is required to park CPU cores",
    );
    r.append(park.as_str());
    let power = action(
        OP_POWER,
        "Set the CPU scaling governor and energy performance preference",
        "Authentication is required to change the CPU power profile",
    );
    r.append(power.as_str());
    let renice = action(
        OP_RENICE,
        "Raise the scheduling priority of one of your own processes",
        "Authentication is required to change process priority",
    );
    r.append(renice.as_str());
    r.append("</policyconfig>\n");
    r
}

/// An action names itself and the helper that it is for, wherever it stands.
proof fn lemma_action_is_named(
    before: Seq<char>,
    op: Seq<char>,
    desc: Seq<char>,
    msg: Seq<char>,
    after: Seq<char>,
)
    ensures
        has_substring(before + action_text(op, desc, msg) + after, action_id(op)),
        has_substring(before + action_text(op, desc, msg) + after, path_of(op)),
{
    let head = action_head(op, desc, msg);
    let open = "  <action id=\""@;
    let rest = head.skip((open.len() + action_id(op).len()) as int);
    let whole = before + action_text(op, desc, msg) + after;
    assert(head =~= open + action_id(op) + rest);
    assert(whole =~= (before + open) + action_id(op) + (rest + path_of(op) + action_tail() + after));
    lemma_substring_of_concat(
        before + open,
        action_id(op),
        rest + path_of(op) + action_tail() + after,
    );
    assert(whole =~= (before + head) + path_of(op) + (action_tail() + after));
    lemma_substring_of_concat(before + head, path_of(op), action_tail() + after);
}

/// The policy names an action, and the helper that it is for, for every
/// operation: none would be left without a grant.
pub proof fn law_policy_covers_every_helper(op: Seq<char>)
    requires
        op == OP_PARK@ || op == OP_POWER@ || op == OP_RENICE@,
    ensures
        has_substring(policy_text(), action_id(op)),
        has_substring(policy_text(), path_of(op)),
{
    let (h, a, b, c, t) = (
        policy_head(),
        park_action(),
        power_action(),
        renice_action(),
        "</policyconfig>\n"@,
    );
    if op == OP_PARK@ {
        lemma_action_is_named(
            h,
            op,
            "Take CPU cores offline or bring them back online"@,
            "Authentication is required to park CPU cores"@,
            b + c + t,
        );
        assert(policy_text() =~= h + a + (b + c + t));
    } else if op == OP_POWER@ {
        lemma_action_is_named(
            h + a,
            op,
            "Set the CPU scaling governor and energy performance preference"@,
            "Authentication is required to change the CPU power profile"@,
            c + t,
        );
        assert(policy_text() =~= (h + a) + b + (c + t));
    } else {
        lemma_action_is_named(
            h + a + b,
            op,
            "Raise the scheduling priority of one of your own processes"@,
            "Authentication is required to change process priority"@,
            t,
        );
        assert(policy_text() =~= (h + a + b) + c + t);
    }
}

// ── State of the installation ────────────────────────────────────────────────

/// Whether the helpers are installed: all three can be executed and the policy is
/// there.
pub fn is_helper_installed(park: bool, power: bool, renice: bool, policy: bool) -> (r: bool)
    ensures
        r == (park && power && renice && policy),
{
    park && power && renice && policy
}

/// Whether the installed helpers are current, from the text of the parking helper.
pub fn is_helper_current(installed: bool, park_text: Option<&str>) -> (r: bool)
    ensures
        r == (installed && match park_text {
            Some(t) => has_substring(t@, HELPER_VERSION@),
            None => false,
        }),
{
    installed && match park_text {
        Some(t) => contains_text(t, HELPER_VERSION),
        None => false,
    }
}

/// Whether anything of an older installation is left.
pub fn legacy_install_present(sudoers_exists: bool, helper_exists: bool) -> (r: bool)
    ensures
        r == (sudoers_exists || helper_exists),
{
    sudoers_exists || helper_exists
}

/// Whether polkit would authorise: what `pkcheck` said, or that the helpers are
/// installed where it could not be asked.
pub fn is_helper_authorized(installed: bool, pkcheck: Option<bool>) -> (r: bool)
    ensures
        r == (installed && match pkcheck {
            Some(ok) => ok,
            None => true,
        }),
{
    installed && match pkcheck {
        Some(ok) => ok,
        None => true,
    }
}

// ── Running a helper ─────────────────────────────────────────────────────────

/// What came of running a helper.
#[derive(Debug)]
pub enum HelperRun {
    NotInstalled,
    /// The command could not be started.
    NotStarted(String),
    /// The command ended: its exit code, if it has one, and what it wrote.
    Ended { code: Option<i32>, stdout: String, stderr: String },
}

/// A helper succeeded.
pub open spec fn run_ok(run: HelperRun) -> bool {
    run matches HelperRun::Ended { code, .. } && code == Some(0i32)
}

/// What is said of a helper that ran. The codes 126 and 127 are those of `pkexec`
/// for a dismissed dialog and for a refusal.
pub open spec fn run_message(run: HelperRun) -> Seq<char> {
    match run {
        HelperRun::NotInstalled => "Helper not installed. Run install first."@,
        HelperRun::NotStarted(e) => e@,
        HelperRun::Ended { code, stdout, stderr } => if code == Some(0i32) {
            Seq::empty()
        } else if code == Some(126i32) || code == Some(127i32) {
            "Not authorised by polkit (dialog dismissed, or no polkit agent running)."@
        } else if trim(stderr@).len() == 0 {
            trim(stdout@)
        } else {
            trim(stderr@)
        },
    }
}

/// Whether a helper succeeded, and what is said of it.
pub fn run_helper(run: &HelperRun) -> (r: (bool, String))
    ensures
        r.0 == run_ok(*run),
        r.1@ == run_message(*run),
{
    match run {
        HelperRun::NotInstalled => (false, "Helper not installed. Run install first.".to_owned()),
        HelperRun::NotStarted(e) => (false, e.clone()),
        HelperRun::Ended { code, stdout, stderr } => match code {
            Some(0) => (true, String::new()),
            Some(126) | Some(127) => (
                false,
                "Not authorised by polkit (dialog dismissed, or no polkit agent running).".to_owned(),
            ),
            _ => {
                let e = chars_of(stderr.as_str());
                let msg = trimmed(&e);
                if msg.len() == 0 {
                    let o = chars_of(stdout.as_str());
                    let out = trimmed(&o);
                    (false, text_of(&out))
                } else {
                    (false, text_of(&msg))
                }
            },
        },
    }
}

// ── Installation ─────────────────────────────────────────────────────────────

/// A staging directory that can stand in a shell command as it is.
pub open spec fn is_safe_path(dir: Seq<char>) -> bool {
    forall|i: int| 0 <= i < dir.len() ==> (#[trigger] dir[i]) != '\'' && !is_space(dir[i])
}

/// Whether a staging directory can stand in a shell command as it is.
pub fn safe_path(dir: &str) -> (r: bool)
    ensures
        r == is_safe_path(dir@),
{
    let cs = chars_of(dir);
    let mut i: usize = 0;
    while i < cs.len()
        invariant
            i <= cs.len(),
            cs@ == dir@,
            forall|k: int| 0 <= k < i ==> (#[trigger] cs@[k]) != '\'' && !is_space(cs@[k]),
        decreases cs.len() - i,
    {
        if cs[i] == '\'' || space(cs[i]) {
            assert(dir@[i as int] == cs@[i as int]);
            return false;
        }
        i += 1;
    }
    true
}

/// Installs one helper from the staging directory.
pub open spec fn install_line(dir: Seq<char>, op: Seq<char>) -> Seq<char> {
    "install -m 755 -o root -g root "@ + dir + "/"@ + op + " "@ + HELPER_DIR@ + "/"@ + op + " && "@
}

/// The command that installs the helpers and the policy from a staging directory
/// and removes what older installations left.
pub open spec fn install_text(dir: Seq<char>) -> Seq<char> {
    "set -e && install -d -m 755 -o root -g root "@ + HELPER_DIR@ + " && "@ + install_line(
        dir,
        OP_PARK@,
    ) + install_line(dir, OP_POWER@) + install_line(dir, OP_RENICE@)
        + "install -D -m 644 -o root -g root "@ + dir + "/policy.xml "@ + POLICY_PATH@
        + " && rm -f "@ + LEGACY_SUDOERS@ + " "@ + LEGACY_HELPER@ + " && echo INSTALL_OK"@
}

/// Writes the line that installs one helper.
fn install_one(dir: &str, op: &str) -> (r: String)
    ensures
        r@ == install_line(dir@, op@),
{
    let mut r = "install -m 755 -o root -g root ".to_owned();
    r.append(dir);
    r.append("/");
    r.append(op);
    r.append(" ");
    r.append(HELPER_DIR);
    r.append("/");
    r.append(op);
    r.append(" && ");
    r
}

/// The command that installs the helpers from a staging directory; refused where
/// the directory's name is not safe in a command.
pub fn stage_install(dir: &str) -> (r: Result<String, String>)
    ensures
        match r {
            Ok(cmd) => is_safe_path(dir@) && cmd@ == install_text(dir@),
            Err(e) => !is_safe_path(dir@) && e@ == "Staging path contains unsafe characters."@,
        },
{
    if !safe_path(dir) {
        return Err("Staging path contains unsafe characters.".to_owned());
    }
    let mut r = "set -e && install -d -m 755 -o root -g root ".to_owned();
    r.append(HELPER_DIR);
    r.append(" && ");
    let a = install_one(dir, OP_PARK);
    r.append(a.as_str());
    let b = install_one(dir, OP_POWER);
    r.append(b.as_str());
    let c = install_one(dir, OP_RENICE);
    r.append(c.as_str());
    r.append("install -D -m 644 -o root -g root ");
    r.append(dir);
    r.append("/policy.xml ");
    r.append(POLICY_PATH);
    r.append(" && rm -f ");
    r.append(LEGACY_SUDOERS);
    r.append(" ");
    r.append(LEGACY_HELPER);
    r.append(" && echo INSTALL_OK");
    Ok(r)
}

/// The last `n` characters.
pub open spec fn last_chars(s: Seq<char>, n: nat) -> Seq<char> {
    if s.len() > n {
        s.skip(s.len() - n)
    } else {
        s
    }
}

/// An exit code as it is shown.
pub open spec fn code_text(code: Option<i32>) -> Seq<char> {
    match code {
        Some(c) => "Some("@ + dec_int(c as int) + ")"@,
        None => "None"@,
    }
}

/// Whether the installation succeeded.
pub open spec fn installed_ok(stdout: Seq<char>, stderr: Seq<char>) -> bool {
    has_substring(stdout + stderr, "INSTALL_OK"@)
}

/// Whether the installation succeeded, and what is said of it.
pub fn install_outcome(code: Option<i32>, stdout: &str, stderr: &str) -> (r: (bool, String))
    ensures
        r.0 == installed_ok(stdout@, stderr@),
        r.1@ == if installed_ok(stdout@, stderr@) {
            "Helpers and polkit policy installed; the old sudoers rule was removed."@
        } else {
            "Install failed (rc="@ + code_text(code) + "): "@ + last_chars(
                trim(stdout@ + stderr@),
                300,
            )
        },
{
    let mut combined = stdout.to_owned();
    combined.append(stderr);
    if contains_text(combined.as_str(), "INSTALL_OK") {
        return (
            true,
            "Helpers and polkit policy installed; the old sudoers rule was removed.".to_owned(),
        );
    }
    let cs = chars_of(combined.as_str());
    let t = trimmed(&cs);
    let n: usize = t.len();
    let from: usize = if n > 300 {
        n - 300
    } else {
        0
    };
    let tail = sub_chars(&t, from, n);
    assert(tail@ =~= last_chars(t@, 300));
    let mut msg = "Install failed (rc=".to_owned();
    let rc = match code {
        Some(c) => {
            let mut s = "Some(".to_owned();
            push_int(&mut s, c as i64);
            s.append(")");
            s
        },
        None => "None".to_owned(),
    };
    msg.append(rc.as_str());
    msg.append("): ");
    let tail_text = text_of(&tail);
    msg.append(tail_text.as_str());
    (false, msg)
}

/// What is said after `pkexec` ran the installation.
pub open spec fn install_says(run: HelperRun) -> (bool, Seq<char>) {
    match run {
        HelperRun::NotInstalled => (
            false,
            "pkexec was not found. Argus-Lasso authorises its privileged helpers through polkit, so install polkit first."@,
        ),
        HelperRun::NotStarted(e) => (false, "pkexec spawn failed: "@ + e@),
        HelperRun::Ended { code, stdout, stderr } => if code == Some(126i32) || code == Some(
            127i32,
        ) {
            (false, "Authentication cancelled or failed."@)
        } else if installed_ok(stdout@, stderr@) {
            (true, "Helpers and polkit policy installed; the old sudoers rule was removed."@)
        } else {
            (
                false,
                "Install failed (rc="@ + code_text(code) + "): "@ + last_chars(
                    trim(stdout@ + stderr@),
                    300,
                ),
            )
        },
    }
}

/// Whether the installation through `pkexec` succeeded, and what is said of it.
/// `NotInstalled` stands for a system without `pkexec`.
pub fn install_helper_via_pkexec(run: &HelperRun) -> (r: (bool, String))
    ensures
        (r.0, r.1@) == install_says(*run),
{
    match run {
        HelperRun::NotInstalled => (
            false,
            "pkexec was not found. Argus-Lasso authorises its privileged helpers through polkit, so install polkit first.".to_owned(),
        ),
        HelperRun::NotStarted(e) => {
            let mut m = "pkexec spawn failed: ".to_owned();
            m.append(e.as_str());
            (false, m)
        },
        HelperRun::Ended { code, stdout, stderr } => match code {
            Some(126) | Some(127) => (false, "Authentication cancelled or failed.".to_owned()),
            _ => install_outcome(*code, stdout.as_str(), stderr.as_str()),
        },
    }
}

/// A helper succeeded just where it ended with code 0, and then nothing is said of it. Of
/// every other end something is said: that it is missing, why it did not start, that the
/// user or polkit refused it, or else what it wrote.
pub proof fn law_helper_succeeds_with_code_0(run: &HelperRun, r: (bool, String))
    requires
        call_ensures(run_helper, (run,), r),
    ensures
        r.0 <==> (run matches HelperRun::Ended { code, .. } && code == Some(0i32)),
        r.0 ==> r.1@.len() == 0,
        run is NotInstalled ==> r.1@ == "Helper not installed. Run install first."@,
        run matches HelperRun::NotStarted(e) ==> r.1@ == e@,
        run matches HelperRun::Ended { code, stdout, stderr } ==> {
            &&& code == Some(126i32) || code == Some(127i32) ==> has_substring(r.1@, "polkit"@)
            &&& code != Some(0i32) && code != Some(126i32) && code != Some(127i32) ==> r.1@ == (
            if trim(stderr@).len() > 0 {
                trim(stderr@)
            } else {
                trim(stdout@)
            })
        },
{
    if let HelperRun::Ended { code, stdout, stderr } = run {
        if *code == Some(126i32) || *code == Some(127i32) {
            let m = "Not authorised by polkit (dialog dismissed, or no polkit agent running)."@;
            reveal_strlit("Not authorised by polkit (dialog dismissed, or no polkit agent running).");
            reveal_strlit("polkit");
            assert(m.subrange(18, 24) =~= "polkit"@);
            assert(crate::text::occurs_at(m, "polkit"@, 18));
        }
    }
}

/// The helper counts as installed where all of its files are there, as current where it
/// carries this version, and as allowed unless it was asked and refused.
pub proof fn law_helper_needs_all_its_files(
    park: bool,
    power: bool,
    renice: bool,
    policy: bool,
    installed: bool,
    text: Option<&str>,
    current: bool,
    answer: Option<bool>,
    allowed: bool,
)
    requires
        call_ensures(is_helper_installed, (park, power, renice, policy), installed),
        call_ensures(is_helper_current, (installed, text), current),
        call_ensures(is_helper_authorized, (installed, answer), allowed),
    ensures
        installed <==> park && power && renice && policy,
        current ==> installed && text is Some,
        current <==> installed && text is Some && exists|a: Seq<char>, b: Seq<char>|
            text->0@ == #[trigger] (a + HELPER_VERSION@ + b),
        allowed <==> installed && answer != Some(false),
{
    if text is Some {
        law_substring_stands_between(text->0@, HELPER_VERSION@);
    }
}

/// A helper that this library writes is current.
pub proof fn law_written_helper_is_current(r: String, text: Option<&str>, current: bool)
    requires
        call_ensures(park_script, (), r),
        text is Some && text->0@ == r@,
        call_ensures(is_helper_current, (true, text), current),
    ensures
        current,
{
    law_every_helper_carries_the_version_marker(PARK_BODY@);
}

/// Nothing is installed from a directory whose name would have to be quoted.
pub proof fn law_unsafe_directories_are_refused(
    dir: &str,
    r: Result<String, String>,
    i: int,
)
    requires
        call_ensures(stage_install, (dir,), r),
        0 <= i < dir@.len(),
    ensures
        dir@[i] == ' ' || dir@[i] == '\'' || dir@[i] == '\n' || dir@[i] == '\t' ==> r is Err,
        (forall|k: int| 0 <= k < dir@.len() ==> '*' <= #[trigger] dir@[k] <= '~') ==> r is Ok,
        r matches Ok(cmd) ==> has_substring(cmd@, dir@),
{
    law_visible_characters_are_no_blanks(dir@[i]);
    if forall|k: int| 0 <= k < dir@.len() ==> '*' <= #[trigger] dir@[k] <= '~' {
        assert forall|k: int| 0 <= k < dir@.len() implies (#[trigger] dir@[k]) != '\''
            && !is_space(dir@[k]) by {
            law_visible_characters_are_no_blanks(dir@[k]);
        }
    }
    if r is Ok {
        let head = "set -e && install -d -m 755 -o root -g root "@ + HELPER_DIR@ + " && "@
            + install_line(dir@, OP_PARK@) + install_line(dir@, OP_POWER@) + install_line(dir@, OP_RENICE@)
            + "install -D -m 644 -o root -g root "@;
        let tail = "/policy.xml "@ + POLICY_PATH@ + " && rm -f "@ + LEGACY_SUDOERS@ + " "@
            + LEGACY_HELPER@ + " && echo INSTALL_OK"@;
        assert(r->Ok_0@ =~= head + dir@ + tail);
        law_substring_stands_between(r->Ok_0@, dir@);
    }
}

/// An installation has succeeded where the command says so; a refused one has not.
pub proof fn law_installation_succeeds_where_it_says_so(run: &HelperRun, r: (bool, String))
    requires
        call_ensures(install_helper_via_pkexec, (run,), r),
    ensures
        !(*run is Ended) ==> !r.0,
        *run matches HelperRun::Ended { code, stdout, stderr } ==> {
            &&& code == Some(126i32) || code == Some(127i32) ==> !r.0
            &&& code != Some(126i32) && code != Some(127i32) ==> (r.0 <==> has_substring(
                stdout@ + stderr@,
                "INSTALL_OK"@,
            ))
        },
{
}

} // verus!
