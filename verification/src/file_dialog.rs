//! File pickers: which program shows them, and with which arguments.

use vstd::prelude::*;
use vstd::string::*;

use crate::text::{opt_text, texts, trim, trimmed_text};

verus! {

/// A program that shows file pickers.
#[derive(Debug, Clone, Copy, PartialEq, Eq, Structural)]
pub enum Backend {
    Kdialog,
    Zenity,
    Qarma,
}

/// The program that is used, given which are installed.
pub fn backend(kdialog: bool, zenity: bool, qarma: bool) -> (r: Option<Backend>)
    ensures
        r == if kdialog {
            Some(Backend::Kdialog)
        } else if zenity {
            Some(Backend::Zenity)
        } else if qarma {
            Some(Backend::Qarma)
        } else {
            None
        },
{
    if kdialog {
        Some(Backend::Kdialog)
    } else if zenity {
        Some(Backend::Zenity)
    } else if qarma {
        Some(Backend::Qarma)
    } else {
        None
    }
}

/// The command that picks a file to open.
pub open spec fn open_command(b: Backend, filter: Seq<char>) -> Seq<Seq<char>> {
    match b {
        Backend::Kdialog => seq!["kdialog"@, "--getopenfilename"@, "."@, filter],
        Backend::Zenity => seq!["zenity"@, "--file-selection"@, "--title=Open file"@],
        Backend::Qarma => seq!["qarma"@, "--file-selection"@],
    }
}

/// The command that picks a file to save to.
pub open spec fn save_command(b: Backend, name: Seq<char>, filter: Seq<char>) -> Seq<Seq<char>> {
    match b {
        Backend::Kdialog => seq!["kdialog"@, "--getsavefilename"@, name, filter],
        Backend::Zenity => seq![
            "zenity"@,
            "--file-selection"@,
            "--save"@,
            "--confirm-overwrite"@,
            "--filename="@ + name,
        ],
        Backend::Qarma => seq!["qarma"@, "--file-selection"@, "--save"@, "--filename="@ + name],
    }
}

/// The program and arguments that pick a file to open; `filter` is a pattern such
/// as `*.json`.
pub fn open(b: Backend, filter: &str) -> (r: Vec<String>)
    ensures
        texts(r@) == open_command(b, filter@),
{
    let mut v: Vec<String> = Vec::new();
    match b {
        Backend::Kdialog => {
            v.push("kdialog".to_owned());
            v.push("--getopenfilename".to_owned());
            v.push(".".to_owned());
            v.push(filter.to_owned());
        },
        Backend::Zenity => {
            v.push("zenity".to_owned());
            v.push("--file-selection".to_owned());
            v.push("--title=Open file".to_owned());
        },
        Backend::Qarma => {
            v.push("qarma".to_owned());
            v.push("--file-selection".to_owned());
        },
    }
    assert(texts(v@) =~= open_command(b, filter@));
    v
}

/// The program and arguments that pick a file to save to; `default_name` is filled
/// in already.
pub fn save(b: Backend, default_name: &str, filter: &str) -> (r: Vec<String>)
    ensures
        texts(r@) == save_command(b, default_name@, filter@),
{
    let mut file = "--filename=".to_owned();
    file.append(default_name);
    let mut v: Vec<String> = Vec::new();
    match b {
        Backend::Kdialog => {
            v.push("kdialog".to_owned());
            v.push("--getsavefilename".to_owned());
            v.push(default_name.to_owned());
            v.push(filter.to_owned());
        },
        Backend::Zenity => {
            v.push("zenity".to_owned());
            v.push("--file-selection".to_owned());
            v.push("--save".to_owned());
            v.push("--confirm-overwrite".to_owned());
            v.push(file);
        },
        Backend::Qarma => {
            v.push("qarma".to_owned());
            v.push("--file-selection".to_owned());
            v.push("--save".to_owned());
            v.push(file);
        },
    }
    assert(texts(v@) =~= save_command(b, default_name@, filter@));
    v
}

/// The path that was picked; none where the picker was cancelled.
pub fn picked(success: bool, stdout: &str) -> (r: Option<String>)
    ensures
        opt_text(r) == if success && trim(stdout@).len() > 0 {
            Some(trim(stdout@))
        } else {
            None
        },
{
    if !success {
        return None;
    }
    let t = trimmed_text(stdout);
    if t.as_str().is_empty() {
        None
    } else {
        Some(t)
    }
}

/// The first program that is there shows the dialogs, KDE's before the others.
pub proof fn law_first_program_shows_the_dialogs(k: bool, z: bool, q: bool, r: Option<Backend>)
    requires
        call_ensures(backend, (k, z, q), r),
    ensures
        k ==> r == Some(Backend::Kdialog),
        !k && z ==> r == Some(Backend::Zenity),
        !k && !z && q ==> r == Some(Backend::Qarma),
        !k && !z && !q ==> r is None,
{
}

/// The file that was chosen is the text that the program printed, without the blanks
/// around it; none where it failed or printed nothing.
pub proof fn law_chosen_file_is_what_was_printed(
    success: bool,
    out: &str,
    r: Option<String>,
    a: Seq<char>,
    p: Seq<char>,
    b: Seq<char>,
)
    requires
        call_ensures(picked, (success, out), r),
        out@ == a + p + b,
        forall|i: int| 0 <= i < a.len() ==> crate::text::is_space(#[trigger] a[i]),
        forall|i: int| 0 <= i < b.len() ==> crate::text::is_space(#[trigger] b[i]),
        p.len() > 0 ==> !crate::text::is_space(p[0]) && !crate::text::is_space(p.last()),
    ensures
        success && p.len() > 0 ==> r is Some && r->0@ == p,
        !success || p.len() == 0 ==> r is None,
{
    crate::text::law_trim_drops_blanks(a, p, b);
}

/// Saving proposes the name and never opens; opening never saves.
pub proof fn law_saving_proposes_the_name(
    b: Backend,
    name: &str,
    filter: &str,
    s: Vec<String>,
    o: Vec<String>,
)
    requires
        call_ensures(save, (b, name, filter), s),
        call_ensures(open, (b, filter), o),
    ensures
        s@.len() > 0 && o@.len() > 0 && s@[0]@ == o@[0]@,
        b == Backend::Kdialog ==> s@[1]@ == "--getsavefilename"@ && s@[2]@ == name@ && s@[3]@
            == filter@ && o@[1]@ == "--getopenfilename"@ && o@[3]@ == filter@,
        b != Backend::Kdialog ==> s@[2]@ == "--save"@ && s@.last()@ == "--filename="@ + name@,
{
    let (x, y) = (texts(s@), texts(o@));
    assert(x.len() == s@.len() && y.len() == o@.len());
    assert forall|i: int| 0 <= i < x.len() implies #[trigger] s@[i]@ == x[i] by {}
    assert forall|i: int| 0 <= i < y.len() implies #[trigger] o@[i]@ == y[i] by {}
    assert(s@[s@.len() - 1]@ == x[x.len() - 1]);
}

} // verus!
