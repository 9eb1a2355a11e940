//! The log file, which is rotated once it has grown to a mebibyte.

use vstd::prelude::*;
use vstd::string::*;

use crate::config::{below, join_path};
use crate::text::opt_text;

verus! {

/// The size at which the log file is rotated.
pub const MAX_BYTES: u64 = 1_048_576;

/// The directory for data: the one that is set, else the usual one below the home
/// directory.
pub open spec fn data_dir(xdg: Option<&str>, home: Option<&str>) -> Option<Seq<char>> {
    match xdg {
        Some(x) => Some(x@),
        None => match home {
            Some(h) => Some(below(h@, ".local/share"@)),
            None => None,
        },
    }
}

/// The log file, given the directory for data that is set and the home directory.
pub fn log_path(xdg: Option<&str>, home: Option<&str>) -> (r: Option<String>)
    ensures
        opt_text(r) == match data_dir(xdg, home) {
            Some(d) => Some(below(below(d, "argus-lasso"@), "argus-lasso.log"@)),
            None => None,
        },
{
    let base = match xdg {
        Some(x) => x.to_owned(),
        None => match home {
            Some(h) => join_path(h, ".local/share"),
            None => {
                return None;
            },
        },
    };
    let dir = join_path(base.as_str(), "argus-lasso");
    Some(join_path(dir.as_str(), "argus-lasso.log"))
}

/// The file to which the log file is rotated.
pub fn rotated_path(path: &str) -> (r: String)
    ensures
        r@ == path@ + ".1"@,
{
    let mut s = path.to_owned();
    s.append(".1");
    s
}

/// How much an open log file holds, in bytes.
#[derive(Debug, Clone, Copy, PartialEq, Eq, Structural)]
pub struct LogSize {
    pub written: u64,
}

/// The size after one more line: a line that could not be written does not count.
pub open spec fn size_after(written: nat, line_bytes: nat, ok: bool) -> nat {
    if ok {
        written + line_bytes + 1
    } else {
        written
    }
}

impl LogSize {
    /// A log file that held this much when it was opened; nothing where that is not
    /// known.
    pub fn opened(bytes: Option<u64>) -> (r: LogSize)
        ensures
            r.written == match bytes {
                Some(n) => n,
                None => 0,
            },
    {
        LogSize {
            written: match bytes {
                Some(n) => n,
                None => 0,
            },
        }
    }

    /// Whether the file is to be rotated before the next line.
    pub fn is_full(&self) -> (r: bool)
        ensures
            r == (self.written >= MAX_BYTES),
    {
        self.written >= MAX_BYTES
    }

    /// Counts a line of this many bytes and its end.
    pub fn count(&mut self, line_bytes: u64, ok: bool)
        requires
            old(self).written + line_bytes < u64::MAX,
        ensures
            final(self).written as nat == size_after(
                old(self).written as nat,
                line_bytes as nat,
                ok,
            ),
    {
        if ok {
            self.written = self.written + line_bytes + 1;
        }
    }
}

/// The log file never grows beyond its bound by more than the one line that reached
/// it: a line is written only where the file is not full.
pub proof fn law_log_file_is_bounded(written: nat, line_bytes: nat, ok: bool)
    requires
        written < MAX_BYTES,
    ensures
        size_after(written, line_bytes, ok) <= MAX_BYTES + line_bytes,
{
}

/// A log file of one MiB or more is full; each line that was written adds its bytes and
/// a line break, one that was not written nothing.
pub proof fn law_log_file_is_full_from_one_mib(
    s: &mut LogSize,
    line_bytes: u64,
    ok: bool,
    t: &LogSize,
    full: bool,
)
    requires
        call_ensures(LogSize::count, (s, line_bytes, ok), ()),
        *t == *final(s),
        call_ensures(LogSize::is_full, (t,), full),
    ensures
        ok ==> final(s).written == old(s).written + line_bytes + 1,
        !ok ==> final(s).written == old(s).written,
        full <==> final(s).written >= 1024 * 1024,
{
}

/// A log file that is there already counts with what it holds.
pub proof fn law_log_file_counts_what_it_holds(bytes: Option<u64>, r: LogSize)
    requires
        call_ensures(LogSize::opened, (bytes,), r),
    ensures
        bytes matches Some(n) ==> r.written == n,
        bytes is None ==> r.written == 0,
{
}

} // verus!
