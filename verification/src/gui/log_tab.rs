//! The log view: each line as time, category and message, filtered.

use std::collections::VecDeque;
use vstd::prelude::*;
use vstd::string::*;

use crate::gui::theme::{Rgb, Sem};
use crate::lower::{lowercase, lowered};
use crate::number::is_digit;
use crate::text::{
    chars_of, contains_text, find_char, has_substring, sub_chars, text_of, trim_start,
    trimmed_start,
};

verus! {

/// What a log line is about.
#[derive(Debug, Clone, Copy, PartialEq, Eq, Structural)]
pub enum Category {
    Gaming,
    Rules,
    Manual,
    Hw,
    Error,
}

/// The short name of a category.
pub open spec fn category_label(c: Category) -> Seq<char> {
    match c {
        Category::Gaming => "Gaming"@,
        Category::Rules => "Rules"@,
        Category::Manual => "Manual"@,
        Category::Hw => "HW"@,
        Category::Error => "Errors"@,
    }
}

impl Category {
    /// All categories, in the order of their chips.
    pub fn all() -> (r: Vec<Category>)
        ensures
            r@ == seq![
                Category::Gaming,
                Category::Rules,
                Category::Manual,
                Category::Hw,
                Category::Error,
            ],
    {
        let mut v: Vec<Category> = Vec::new();
        v.push(Category::Gaming);
        v.push(Category::Rules);
        v.push(Category::Manual);
        v.push(Category::Hw);
        v.push(Category::Error);
        assert(v@ =~= seq![
            Category::Gaming,
            Category::Rules,
            Category::Manual,
            Category::Hw,
            Category::Error,
        ]);
        v
    }

    /// The short name on the chip and in the category column.
    pub fn label(self) -> (r: &'static str)
        ensures
            r@ == category_label(self),
    {
        match self {
            Category::Gaming => "Gaming",
            Category::Rules => "Rules",
            Category::Manual => "Manual",
            Category::Hw => "HW",
            Category::Error => "Errors",
        }
    }

    /// The colour of the category.
    pub fn color(self, sem: &Sem) -> (c: Rgb)
        ensures
            c == match self {
                Category::Gaming => sem.ok,
                Category::Rules => sem.accent,
                Category::Manual => sem.manual,
                Category::Hw => sem.warning,
                Category::Error => sem.negative,
            },
    {
        match self {
            Category::Gaming => sem.ok,
            Category::Rules => sem.accent,
            Category::Manual => sem.manual,
            Category::Hw => sem.warning,
            Category::Error => sem.negative,
        }
    }
}

/// The category of a line, by the tags in it. An error is an error whatever it is
/// about.
pub open spec fn category_of(line: Seq<char>) -> Option<Category> {
    if has_substring(line, "FAILED"@) || has_substring(line, "failed"@) || has_substring(
        line,
        "error"@,
    ) {
        Some(Category::Error)
    } else if has_substring(line, "[Gaming Mode]"@) || has_substring(line, "[Launcher]"@)
        || has_substring(line, "[Profile]"@) || has_substring(line, "[Reset]"@) || has_substring(
        line,
        "[Park]"@,
    ) {
        Some(Category::Gaming)
    } else if has_substring(line, "[Rule:"@) || has_substring(line, "[Default]"@) {
        Some(Category::Rules)
    } else if has_substring(line, "[Manual]"@) {
        Some(Category::Manual)
    } else if has_substring(line, "[HW Alert]"@) {
        Some(Category::Hw)
    } else {
        None
    }
}

/// The category of a line.
pub fn categorize(line: &str) -> (r: Option<Category>)
    ensures
        r == category_of(line@),
{
    if contains_text(line, "FAILED") || contains_text(line, "failed") || contains_text(
        line,
        "error",
    ) {
        Some(Category::Error)
    } else if contains_text(line, "[Gaming Mode]") || contains_text(line, "[Launcher]")
        || contains_text(line, "[Profile]") || contains_text(line, "[Reset]") || contains_text(
        line,
        "[Park]",
    ) {
        Some(Category::Gaming)
    } else if contains_text(line, "[Rule:") || contains_text(line, "[Default]") {
        Some(Category::Rules)
    } else if contains_text(line, "[Manual]") {
        Some(Category::Manual)
    } else if contains_text(line, "[HW Alert]") {
        Some(Category::Hw)
    } else {
        None
    }
}

/// A failure is shown as an error, whatever else the line speaks of.
pub proof fn law_errors_win(line: Seq<char>)
    requires
        has_substring(line, "failed"@),
    ensures
        category_of(line) == Some(Category::Error),
{
}

/// A time of day, `HH:MM:SS`.
pub open spec fn is_stamp(s: Seq<char>) -> bool {
    &&& s.len() == 8
    &&& s[2] == ':' && s[5] == ':'
    &&& is_digit(s[0]) && is_digit(s[1]) && is_digit(s[3]) && is_digit(s[4]) && is_digit(s[6])
        && is_digit(s[7])
}

/// The time at the head of a line and the rest; no time where there is none.
pub open spec fn time_and_rest(line: Seq<char>) -> (Seq<char>, Seq<char>) {
    if line.len() > 0 && line[0] == '[' {
        let rest = line.skip(1);
        match rest.index_of_first(']') {
            Some(end) if is_stamp(rest.take(end)) => (
                rest.take(end),
                trim_start(rest.skip(end + 1)),
            ),
            _ => (Seq::empty(), line),
        }
    } else {
        (Seq::empty(), line)
    }
}

/// Whether a character is a digit.
fn digit_here(s: &[char], i: usize) -> (r: bool)
    requires
        i < s.len(),
    ensures
        r == is_digit(s@[i as int]),
{
    let c: char = s[i];
    '0' <= c && c <= '9'
}

/// Splits the time off a line.
pub fn split_time(line: &str) -> (r: (String, String))
    ensures
        (r.0@, r.1@) == time_and_rest(line@),
{
    let cs = chars_of(line);
    let n: usize = cs.len();
    if n > 0 && cs[0] == '[' {
        let rest = sub_chars(&cs, 1, n);
        assert(rest@ =~= line@.skip(1));
        proof {
            rest@.index_of_first_ensures(']');
        }
        match find_char(&rest, ']') {
            Some(end) => {
                assert(rest@.contains(']'));
                assert(rest@.index_of_first(']') == Some(end as int));
                let stamp = sub_chars(&rest, 0, end);
                assert(stamp@ =~= rest@.take(end as int));
                if stamp.len() == 8 && stamp[2] == ':' && stamp[5] == ':' && digit_here(&stamp, 0)
                    && digit_here(&stamp, 1) && digit_here(&stamp, 3) && digit_here(&stamp, 4)
                    && digit_here(&stamp, 6) && digit_here(&stamp, 7) {
                    let m: usize = rest.len();
                    let tail = sub_chars(&rest, end + 1, m);
                    assert(tail@ =~= rest@.skip(end + 1));
                    let msg = trimmed_start(&tail);
                    return (text_of(&stamp), text_of(&msg));
                }
            },
            None => {},
        }
    }
    (String::new(), line.to_owned())
}

/// One line as it is shown.
#[derive(Debug)]
pub struct LogRow {
    pub time: String,
    pub msg: String,
    pub cat: Option<Category>,
}

/// The state of the log view.
pub struct LogTab {
    pub auto_scroll: bool,
    /// The categories shown; none chosen shows all.
    pub active: Vec<Category>,
    /// Only lines whose message holds this, in any case, are shown.
    pub search: String,
}

/// The chosen categories let a line through.
pub open spec fn category_passes(active: Seq<Category>, cat: Option<Category>) -> bool {
    active.len() == 0 || (cat is Some && active.contains(cat->0))
}

/// A message holds what is searched for; both are in lower case.
pub open spec fn search_passes(msg: Seq<char>, needle: Seq<char>) -> bool {
    needle.len() == 0 || has_substring(msg, needle)
}

/// A line is shown.
pub open spec fn line_shown(line: Seq<char>, active: Seq<Category>, search: Seq<char>) -> bool {
    category_passes(active, category_of(line)) && search_passes(
        lowercase(time_and_rest(line).1),
        lowercase(search),
    )
}

/// The places of the first `n` lines that are shown.
pub open spec fn shown_lines(
    lines: Seq<String>,
    active: Seq<Category>,
    search: Seq<char>,
    n: nat,
) -> Seq<int>
    decreases n,
{
    if n == 0 {
        Seq::empty()
    } else if line_shown(lines[n - 1]@, active, search) {
        shown_lines(lines, active, search, (n - 1) as nat).push(n - 1)
    } else {
        shown_lines(lines, active, search, (n - 1) as nat)
    }
}

/// A row shows a line.
pub open spec fn row_shows(row: LogRow, line: Seq<char>) -> bool {
    (row.time@, row.msg@) == time_and_rest(line) && row.cat == category_of(line)
}

/// The place of a category in a list.
fn find_category(active: &Vec<Category>, cat: Category) -> (r: Option<usize>)
    ensures
        match r {
            Some(i) => i < active.len() && active[i as int] == cat,
            None => !active@.contains(cat),
        },
{
    let mut i: usize = 0;
    while i < active.len()
        invariant
            i <= active.len(),
            forall|k: int| 0 <= k < i ==> active@[k] != cat,
        decreases active.len() - i,
    {
        if active[i] == cat {
            return Some(i);
        }
        i += 1;
    }
    None
}

/// The list without a category.
pub open spec fn without_category(s: Seq<Category>, cat: Category) -> Seq<Category>
    decreases s.len(),
{
    if s.len() == 0 {
        s
    } else if s.last() == cat {
        without_category(s.drop_last(), cat)
    } else {
        without_category(s.drop_last(), cat).push(s.last())
    }
}

impl LogTab {
    /// A view that shows all lines and follows the newest.
    pub fn new() -> (r: LogTab)
        ensures
            r.auto_scroll,
            r.active@.len() == 0,
            r.search@.len() == 0,
    {
        LogTab { auto_scroll: true, active: Vec::new(), search: String::new() }
    }

    /// A click on the chip of a category: chooses it, or takes it back.
    pub fn toggle(&mut self, cat: Category)
        ensures
            final(self).active@ == if old(self).active@.contains(cat) {
                without_category(old(self).active@, cat)
            } else {
                old(self).active@.push(cat)
            },
            final(self).auto_scroll == old(self).auto_scroll,
            final(self).search == old(self).search,
    {
        match find_category(&self.active, cat) {
            None => {
                self.active.push(cat);
            },
            Some(at) => {
                assert(self.active@.contains(cat)) by {
                    assert(self.active@[at as int] == cat);
                }
                let mut rest: Vec<Category> = Vec::new();
                let mut i: usize = 0;
                let ghost all = self.active@;
                assert(all.take(0) =~= Seq::<Category>::empty());
                while i < self.active.len()
                    invariant
                        i <= self.active.len(),
                        all == self.active@,
                        rest@ == without_category(all.take(i as int), cat),
                    decreases self.active.len() - i,
                {
                    assert(all.take(i + 1).drop_last() =~= all.take(i as int));
                    if self.active[i] != cat {
                        rest.push(self.active[i]);
                    }
                    i += 1;
                }
                assert(all.take(i as int) =~= all);
                self.active = rest;
            },
        }
    }

    /// Whether the chosen categories let a line through.
    pub fn lets_through(&self, cat: Option<Category>) -> (r: bool)
        ensures
            r == category_passes(self.active@, cat),
    {
        if self.active.len() == 0 {
            return true;
        }
        match cat {
            Some(c) => match find_category(&self.active, c) {
                Some(i) => {
                    assert(self.active@[i as int] == c);
                    true
                },
                None => false,
            },
            None => false,
        }
    }

    /// The lines that are shown, oldest first.
    pub fn rows(&self, lines: &VecDeque<String>) -> (r: Vec<LogRow>)
        ensures
            r.len() == shown_lines(lines@, self.active@, self.search@, lines@.len()).len(),
            forall|i: int|
                0 <= i < r.len() ==> row_shows(
                    #[trigger] r[i],
                    lines@[shown_lines(lines@, self.active@, self.search@, lines@.len())[i]]@,
                ),
    {
        let needle = lowered(self.search.as_str());
        let mut r: Vec<LogRow> = Vec::new();
        let mut i: usize = 0;
        while i < lines.len()
            invariant
                i <= lines.len(),
                needle@ == lowercase(self.search@),
                r.len() == shown_lines(lines@, self.active@, self.search@, i as nat).len(),
                forall|k: int|
                    0 <= k < r.len() ==> row_shows(
                        #[trigger] r[k],
                        lines@[shown_lines(lines@, self.active@, self.search@, i as nat)[k]]@,
                    ),
            decreases lines.len() - i,
        {
            let line = lines[i].as_str();
            let cat = categorize(line);
            let (time, msg) = split_time(line);
            let low = lowered(msg.as_str());
            if self.lets_through(cat) && search_hit(low.as_str(), needle.as_str()) {
                r.push(LogRow { time, msg, cat });
            }
            i += 1;
        }
        r
    }
}

/// Whether a message holds what is searched for, both in lower case.
pub fn search_hit(msg: &str, needle: &str) -> (r: bool)
    ensures
        r == search_passes(msg@, needle@),
{
    needle.is_empty() || contains_text(msg, needle)
}

/// The label of a chip: a cross marks that clicking it again clears it.
pub fn chip_label(label: &str, active: bool) -> (r: String)
    ensures
        r@ == if active {
            label@ + " ✕"@
        } else {
            label@
        },
{
    let mut r = label.to_owned();
    if active {
        r.append(" ✕");
    }
    r
}

/// Choosing a category and taking it back leaves the choice as it was.
pub proof fn law_toggle_twice_changes_nothing(active: Seq<Category>, cat: Category)
    requires
        !active.contains(cat),
    ensures
        without_category(active.push(cat), cat) == active,
{
    assert(active.push(cat).drop_last() =~= active);
    lemma_without_absent(active, cat);
}

/// Taking out what is not there changes nothing.
proof fn lemma_without_absent(s: Seq<Category>, cat: Category)
    requires
        !s.contains(cat),
    ensures
        without_category(s, cat) == s,
    decreases s.len(),
{
    if s.len() > 0 {
        let d = s.drop_last();
        assert forall|i: int| 0 <= i < d.len() implies d[i] != cat by {
            assert(s[i] == d[i]);
        }
        assert(s.contains(s.last()));
        lemma_without_absent(d, cat);
        assert(d.push(s.last()) =~= s);
    }
}

/// A line with a time of day in brackets before it is shown in two parts.
pub proof fn law_time_is_split_off(
    line: &str,
    r: (String, String),
    stamp: Seq<char>,
    msg: Seq<char>,
)
    requires
        call_ensures(split_time, (line,), r),
        line@ == seq!['['] + stamp + seq![']', ' '] + msg,
        stamp.len() == 8,
        stamp[2] == ':' && stamp[5] == ':',
        forall|i: int| 0 <= i < 8 && i != 2 && i != 5 ==> '0' <= #[trigger] stamp[i] <= '9',
        msg.len() > 0,
        '!' <= msg[0] <= '~',
    ensures
        r.0@ == stamp,
        r.1@ == msg,
{
    let rest = line@.skip(1);
    assert(rest =~= stamp + seq![']'] + (seq![' '] + msg));
    assert(!stamp.contains(']')) by {
        if stamp.contains(']') {
            let i = choose|i: int| 0 <= i < stamp.len() && stamp[i] == ']';
            assert(i != 2 && i != 5);
        }
    }
    rest.index_of_first_ensures(']');
    assert(rest[8] == ']');
    let end = rest.index_of_first(']')->0;
    if end < 8 {
        assert(stamp[end] == ']');
    }
    assert(end == 8);
    assert(rest.take(8) =~= stamp);
    assert(is_stamp(stamp));
    let tail = rest.skip(9);
    assert(tail =~= seq![' '] + msg);
    crate::text::law_visible_characters_are_no_blanks(msg[0]);
    crate::text::law_visible_characters_are_no_blanks(' ');
    assert(tail.drop_first() =~= msg);
    assert(trim_start(msg) == msg);
    assert(trim_start(tail) == trim_start(tail.drop_first()));
}

/// Which lines are shown.
proof fn lemma_shown_lines(
    lines: Seq<String>,
    active: Seq<Category>,
    search: Seq<char>,
    n: nat,
    k: int,
)
    requires
        n <= lines.len(),
    ensures
        shown_lines(lines, active, search, n).contains(k) <==> 0 <= k < n && line_shown(
            lines[k]@,
            active,
            search,
        ),
    decreases n,
{
    if n > 0 {
        lemma_shown_lines(lines, active, search, (n - 1) as nat, k);
        let (b, a) = (
            shown_lines(lines, active, search, (n - 1) as nat),
            shown_lines(lines, active, search, n),
        );
        if line_shown(lines[n - 1]@, active, search) {
            assert(a[b.len() as int] == n - 1);
            if b.contains(k) {
                let i = choose|i: int| 0 <= i < b.len() && b[i] == k;
                assert(a[i] == k);
            }
            if a.contains(k) && k != n - 1 {
                let i = choose|i: int| 0 <= i < a.len() && a[i] == k;
                assert(b[i] == k);
            }
        }
    }
}

/// A line is shown where its category is chosen, or none is, and what is looked for
/// stands in its message, without regard to case.
pub proof fn law_lines_are_shown_by_category_and_text(
    tab: &LogTab,
    lines: &VecDeque<String>,
    r: Vec<LogRow>,
    k: int,
    line: &str,
    cat: Option<Category>,
    part: (String, String),
)
    requires
        call_ensures(LogTab::rows, (tab, lines), r),
        0 <= k < lines@.len(),
        line@ == lines@[k]@,
        call_ensures(categorize, (line,), cat),
        call_ensures(split_time, (line,), part),
    ensures
        ({
            let chosen = tab.active@.len() == 0 || (cat is Some && tab.active@.contains(cat->0));
            let found = lowercase(tab.search@).len() == 0 || exists|a: Seq<char>, b: Seq<char>|
                lowercase(part.1@) == #[trigger] (a + lowercase(tab.search@) + b);
            &&& chosen && found ==> exists|i: int|
                0 <= i < r@.len() && (#[trigger] r@[i]).time@ == part.0@ && r@[i].msg@ == part.1@
                    && r@[i].cat == cat
            &&& tab.active@.len() == 0 && lowercase(tab.search@).len() == 0 ==> r@.len() == lines@.len()
        }),
{
    let s = shown_lines(lines@, tab.active@, tab.search@, lines@.len());
    lemma_shown_lines(lines@, tab.active@, tab.search@, lines@.len(), k);
    crate::text::law_substring_stands_between(lowercase(part.1@), lowercase(tab.search@));
    if s.contains(k) {
        let i = choose|i: int| 0 <= i < s.len() && s[i] == k;
        assert(row_shows(r@[i], lines@[s[i]]@));
    }
    if tab.active@.len() == 0 && lowercase(tab.search@).len() == 0 {
        lemma_all_lines(lines@, tab.active@, tab.search@, lines@.len());
    }
}

/// Without categories and text every line is shown.
proof fn lemma_all_lines(lines: Seq<String>, active: Seq<Category>, search: Seq<char>, n: nat)
    requires
        n <= lines.len(),
        active.len() == 0,
        lowercase(search).len() == 0,
    ensures
        shown_lines(lines, active, search, n).len() == n,
    decreases n,
{
    if n > 0 {
        lemma_all_lines(lines, active, search, (n - 1) as nat);
    }
}

/// A line that tells of a failure is an error; one of gaming mode, of a rule, of a change
/// by hand or of heat is of that category.
pub proof fn law_lines_are_told_apart_by_their_marks(
    line: &str,
    r: Option<Category>,
    a: Seq<char>,
    b: Seq<char>,
)
    requires
        call_ensures(categorize, (line,), r),
    ensures
        line@ == a + "failed"@ + b || line@ == a + "FAILED"@ + b || line@ == a + "error"@ + b
            ==> r == Some(Category::Error),
        line@ == a + "[Gaming Mode]"@ + b || line@ == a + "[Launcher]"@ + b ==> r == Some(
            Category::Gaming,
        ) || r == Some(Category::Error),
        r == Some(Category::Manual) ==> has_substring(line@, "[Manual]"@),
        r == Some(Category::Hw) ==> has_substring(line@, "[HW Alert]"@),
        r == Some(Category::Rules) ==> has_substring(line@, "[Rule:"@) || has_substring(
            line@,
            "[Default]"@,
        ),
        r is None ==> !has_substring(line@, "[Manual]"@) && !has_substring(line@, "[HW Alert]"@)
            && !has_substring(line@, "[Rule:"@) && !has_substring(line@, "[Profile]"@),
{
    crate::text::law_substring_stands_between(line@, "failed"@);
    crate::text::law_substring_stands_between(line@, "FAILED"@);
    crate::text::law_substring_stands_between(line@, "error"@);
    crate::text::law_substring_stands_between(line@, "[Gaming Mode]"@);
    crate::text::law_substring_stands_between(line@, "[Launcher]"@);
}

/// A category that is chosen lets its lines through and keeps back the others; chosen
/// again it is chosen no more. Where none is chosen, every line passes.
pub proof fn law_chosen_category_lets_its_lines_through(
    tab: &mut LogTab,
    cat: Category,
    after: &LogTab,
    other: Option<Category>,
    r: bool,
    s: bool,
)
    requires
        call_ensures(LogTab::toggle, (tab, cat), ()),
        *after == *final(tab),
        call_ensures(LogTab::lets_through, (after, Some(cat)), r),
        call_ensures(LogTab::lets_through, (after, other), s),
    ensures
        old(tab).active@.len() == 0 ==> r && (s <==> other == Some(cat)),
        !old(tab).active@.contains(cat) ==> r,
        old(tab).active@ == seq![cat] ==> r && s,
        final(tab).search == old(tab).search,
{
    let (x, y) = (old(tab).active@, final(tab).active@);
    if !x.contains(cat) {
        assert(y[x.len() as int] == cat);
    }
    if x == seq![cat] {
        assert(x[0] == cat);
        assert(x.drop_last() =~= Seq::<Category>::empty());
        assert(without_category(x.drop_last(), cat) =~= Seq::<Category>::empty());
        assert(y.len() == 0);
    }
    if x.len() == 0 {
        assert(y =~= seq![cat]);
    }
}

} // verus!
