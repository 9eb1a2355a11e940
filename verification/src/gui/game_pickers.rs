//! The dialogs in which an installed game is picked, and what the libraries of
//! Steam and Lutris say of the games.

use vstd::prelude::*;
use vstd::string::*;

use crate::config::{below, join_path};
use crate::lower::{lowercase, lowered};
use crate::namemap::{names_of, NameMap, TextKey};
use crate::number::{dec, decimal};
use crate::sort::{sorted_places, sorts_before};
use crate::text::{
    begins_with, chars_of, contains_text, cut_at, cut_text, finishes_with, has_prefix,
    has_substring, has_suffix, holds_text, is_space, law_cut_at_the_first,
    law_substring_stands_between, lines, occurs_at, opt_text, split_at_char,
    split_first, split_on, split_once_at, text_le, text_lines, text_of, texts, trim, trim_end,
    trim_start, trimmed, trimmed_text,
};

verus! {

// ── Steam's files ────────────────────────────────────────────────────────────

/// What stands behind the `n`-th separator.
pub open spec fn rest_after(s: Seq<char>, sep: char, n: nat) -> Option<Seq<char>>
    decreases n,
{
    if n == 0 {
        Some(s)
    } else {
        match split_first(s, sep) {
            Some((_, rest)) => rest_after(rest, sep, (n - 1) as nat),
            None => None,
        }
    }
}

/// What stands behind the `n`-th separator.
fn find_rest(s: &Vec<char>, sep: char, n: u8) -> (r: Option<Vec<char>>)
    ensures
        match r {
            Some(v) => rest_after(s@, sep, n as nat) == Some(v@),
            None => rest_after(s@, sep, n as nat) is None,
        },
    decreases n,
{
    if n == 0 {
        let n_chars: usize = s.len();
        let v = crate::text::sub_chars(s, 0, n_chars);
        assert(v@ =~= s@);
        return Some(v);
    }
    match split_once_at(s, sep) {
        Some((_, rest)) => find_rest(&rest, sep, n - 1),
        None => None,
    }
}

/// The value of a field: what stands behind the third quotation mark of the first
/// line that begins with the quoted name and has that many.
pub open spec fn vdf_field(ls: Seq<Seq<char>>, field: Seq<char>) -> Option<Seq<char>>
    decreases ls.len(),
{
    if ls.len() == 0 {
        None
    } else {
        let t = trim(ls[0]);
        if has_prefix(t, "\""@ + field + "\""@) && rest_after(t, '"', 3) is Some {
            rest_after(t, '"', 3)
        } else {
            vdf_field(ls.drop_first(), field)
        }
    }
}

/// Reads a field of one of Steam's text files.
pub fn extract_vdf_field(text: &str, field: &str) -> (r: Option<String>)
    ensures
        opt_text(r) == vdf_field(lines(text@), field@),
{
    let mut key = "\"".to_owned();
    key.append(field);
    key.append("\"");
    let ls = text_lines(text);
    let ghost all = lines(text@);
    assert(all.skip(0) =~= all);
    let mut i: usize = 0;
    while i < ls.len()
        invariant
            i <= ls.len(),
            all.len() == ls.len(),
            all == crate::text::views(ls@),
            key@ == "\""@ + field@ + "\""@,
            vdf_field(all, field@) == vdf_field(all.skip(i as int), field@),
            all == lines(text@),
        decreases ls.len() - i,
    {
        let ghost rest = all.skip(i as int);
        let t = trimmed(&ls[i]);
        assert(rest[0] == ls@[i as int]@);
        if begins_with(&t, key.as_str()) {
            if let Some(v) = find_rest(&t, '"', 3) {
                return Some(text_of(&v));
            }
        }
        assert(rest.drop_first() =~= all.skip(i + 1));
        i += 1;
    }
    assert(all.skip(i as int).len() == 0);
    None
}

/// The library folders that a list of folders names: the fourth piece between
/// quotation marks of each line that holds `"path"`.
pub open spec fn folders(ls: Seq<Seq<char>>) -> Seq<Seq<char>>
    decreases ls.len(),
{
    if ls.len() == 0 {
        Seq::empty()
    } else {
        let p = split_on(ls.last(), '"');
        if has_substring(ls.last(), "\"path\""@) && p.len() > 3 {
            folders(ls.drop_last()).push(p[3])
        } else {
            folders(ls.drop_last())
        }
    }
}

/// Reads the library folders out of a list of folders.
pub fn library_folders(text: &str) -> (r: Vec<String>)
    ensures
        texts(r@) == folders(lines(text@)),
{
    let ls = text_lines(text);
    let ghost all = lines(text@);
    let pat = chars_of("\"path\"");
    let mut r: Vec<String> = Vec::new();
    let mut i: usize = 0;
    assert(texts(r@) =~= folders(all.take(0)));
    while i < ls.len()
        invariant
            i <= ls.len(),
            all == crate::text::views(ls@),
            pat@ == "\"path\""@,
            texts(r@) == folders(all.take(i as int)),
        decreases ls.len() - i,
    {
        let ghost before = texts(r@);
        assert(all.take(i + 1).drop_last() =~= all.take(i as int));
        assert(all.take(i + 1).last() == ls@[i as int]@);
        if crate::text::contains_chars(&ls[i], &pat) {
            let p = split_at_char(&ls[i], '"');
            if p.len() > 3 {
                r.push(text_of(&p[3]));
                assert(texts(r@) =~= before.push(p@[3]@));
            }
        }
        i += 1;
    }
    assert(all.take(i as int) =~= all);
    r
}

/// Whether a file describes an installed game.
pub fn is_manifest_name(name: &str) -> (r: bool)
    ensures
        r == (has_prefix(name@, "appmanifest_"@) && has_suffix(name@, ".acf"@)),
{
    let v = chars_of(name);
    begins_with(&v, "appmanifest_") && finishes_with(&v, ".acf")
}

/// The two places at which Steam is looked for.
pub fn steam_roots(home: &str) -> (r: (String, String))
    ensures
        r.0@ == below(home@, ".steam/steam"@),
        r.1@ == below(home@, ".local/share/Steam"@),
{
    (join_path(home, ".steam/steam"), join_path(home, ".local/share/Steam"))
}

/// The library directories that were found.
pub struct Libraries {
    /// What was looked at already.
    pub seen: Vec<String>,
    pub dirs: Vec<String>,
}

impl Libraries {
    /// No directory yet.
    pub fn new() -> (r: Libraries)
        ensures
            r.seen@.len() == 0,
            r.dirs@.len() == 0,
    {
        Libraries { seen: Vec::new(), dirs: Vec::new() }
    }

    /// Takes a directory of Steam's, once: its `steamapps` is a library.
    pub fn add_root(&mut self, resolved: &str)
        ensures
            if texts(old(self).seen@).contains(resolved@) {
                *final(self) == *old(self)
            } else {
                &&& texts(final(self).seen@) == texts(old(self).seen@).push(resolved@)
                &&& texts(final(self).dirs@) == texts(old(self).dirs@).push(
                    below(resolved@, "steamapps"@),
                )
            },
    {
        if !holds_text(&self.seen, resolved) {
            let ghost s = texts(self.seen@);
            let ghost d = texts(self.dirs@);
            self.seen.push(resolved.to_owned());
            self.dirs.push(join_path(resolved, "steamapps"));
            assert(texts(self.seen@) =~= s.push(resolved@));
            assert(texts(self.dirs@) =~= d.push(below(resolved@, "steamapps"@)));
        }
    }

    /// Takes the `steamapps` directory of a library folder, once.
    pub fn add_library(&mut self, resolved: &str)
        ensures
            if texts(old(self).seen@).contains(resolved@) {
                *final(self) == *old(self)
            } else {
                &&& texts(final(self).seen@) == texts(old(self).seen@).push(resolved@)
                &&& texts(final(self).dirs@) == texts(old(self).dirs@).push(resolved@)
            },
    {
        if !holds_text(&self.seen, resolved) {
            let ghost s = texts(self.seen@);
            let ghost d = texts(self.dirs@);
            self.seen.push(resolved.to_owned());
            self.dirs.push(resolved.to_owned());
            assert(texts(self.seen@) =~= s.push(resolved@));
            assert(texts(self.dirs@) =~= d.push(resolved@));
        }
    }
}

/// The games that a list of manifests describes, by their ids. Of two manifests
/// with one id the later counts, and one without id or name does not.
pub open spec fn games_in(manifests: Seq<Seq<char>>) -> Map<Seq<char>, Seq<char>>
    decreases manifests.len(),
{
    if manifests.len() == 0 {
        Map::empty()
    } else {
        let m = games_in(manifests.drop_last());
        let ls = lines(manifests.last());
        match (vdf_field(ls, "appid"@), vdf_field(ls, "name"@)) {
            (Some(id), Some(name)) => m.insert(id, name),
            _ => m,
        }
    }
}

/// The texts of a list of pairs.
pub open spec fn pairs_of(s: Seq<(String, String)>) -> Seq<(Seq<char>, Seq<char>)> {
    Seq::new(s.len(), |i: int| (s[i].0@, s[i].1@))
}

/// The texts of a map of texts.
pub open spec fn texts_of_map(m: Map<Seq<char>, String>) -> Map<Seq<char>, Seq<char>> {
    m.map_values(|v: String| v@)
}

/// A list holds just the entries of a map, each once.
pub open spec fn lists(s: Seq<(Seq<char>, Seq<char>)>, m: Map<Seq<char>, Seq<char>>) -> bool {
    &&& forall|i: int|
        0 <= i < s.len() ==> m.contains_key((#[trigger] s[i]).0) && m[s[i].0] == s[i].1
    &&& forall|k: Seq<char>| #[trigger]
        m.contains_key(k) ==> exists|i: int| 0 <= i < s.len() && (#[trigger] s[i]).0 == k
    &&& forall|i: int, j: int| 0 <= i < j < s.len() ==> (#[trigger] s[i]).0 != (#[trigger] s[j]).0
}

/// The names of a list ascend if case is ignored.
pub open spec fn by_name(s: Seq<(Seq<char>, Seq<char>)>) -> bool {
    forall|i: int, j: int|
        0 <= i < j < s.len() ==> text_le(
            lowercase((#[trigger] s[i]).1),
            lowercase((#[trigger] s[j]).1),
        )
}

/// Reads the manifests of the installed games.
fn read_manifests(manifests: &Vec<String>) -> (r: NameMap<String>)
    ensures
        texts_of_map(r@) == games_in(texts(manifests@)),
{
    let mut m: NameMap<String> = NameMap::new();
    let ghost all = texts(manifests@);
    let mut i: usize = 0;
    assert(texts_of_map(m@) =~= games_in(all.take(0)));
    while i < manifests.len()
        invariant
            i <= manifests.len(),
            all == texts(manifests@),
            texts_of_map(m@) == games_in(all.take(i as int)),
        decreases manifests.len() - i,
    {
        assert(all.take(i + 1).drop_last() =~= all.take(i as int));
        let text = manifests[i].as_str();
        assert(all.take(i + 1).last() == text@);
        let ghost before = texts_of_map(m@);
        let id = extract_vdf_field(text, "appid");
        let name = extract_vdf_field(text, "name");
        if let Some(k) = id {
            if let Some(n) = name {
                let ghost (gk, gn) = (k@, n@);
                m.insert(k, n);
                assert(texts_of_map(m@) =~= before.insert(gk, gn));
            }
        }
        i += 1;
    }
    assert(all.take(i as int) =~= all);
    m
}

/// The installed games, as pairs of id and name, ordered by name if case is
/// ignored. The order of games of one name is not fixed.
pub fn scan_steam_library(manifests: &Vec<String>) -> (r: Vec<(String, String)>)
    ensures
        lists(pairs_of(r@), games_in(texts(manifests@))),
        by_name(pairs_of(r@)),
{
    let m = read_manifests(manifests);
    let entries = m.entries();
    let mut keys: Vec<TextKey> = Vec::new();
    let mut i: usize = 0;
    while i < entries.len()
        invariant
            i <= entries.len(),
            keys.len() == i,
            forall|k: int| 0 <= k < i ==> (#[trigger] keys[k]).text@ == lowercase(entries[k].1@),
        decreases entries.len() - i,
    {
        let low = lowered(entries[i].1.as_str());
        keys.push(TextKey { text: chars_of(low.as_str()) });
        i += 1;
    }
    let order = sorted_places(&keys);
    let mut r: Vec<(String, String)> = Vec::new();
    let mut j: usize = 0;
    while j < order.len()
        invariant
            j <= order.len(),
            r.len() == j,
            keys.len() == entries.len(),
            forall|k: int| 0 <= k < order.len() ==> (#[trigger] order[k]) < entries.len(),
            forall|k: int|
                0 <= k < j ==> (#[trigger] r[k]).0@ == entries[order[k] as int].0@ && r[k].1@
                    == entries[order[k] as int].1@,
        decreases order.len() - j,
    {
        let e = &entries[order[j]];
        r.push((e.0.clone(), e.1.clone()));
        j += 1;
    }
    proof {
        let t = pairs_of(r@);
        let g = games_in(texts(manifests@));
        assert(g == texts_of_map(m@));
        let ns = names_of(entries@);
        assert forall|i: int| 0 <= i < t.len() implies g.contains_key((#[trigger] t[i]).0)
            && g[t[i].0] == t[i].1 by {
            let e = entries@[order[i] as int];
            assert(r[i].0@ == e.0@ && r[i].1@ == e.1@);
            assert(m@.contains_key(e.0@) && m@[e.0@] == e.1);
        }
        assert forall|k: Seq<char>| #[trigger] g.contains_key(k) implies exists|i: int|
            0 <= i < t.len() && (#[trigger] t[i]).0 == k by {
            assert(m@.dom().contains(k));
            assert(ns.to_set().contains(k));
            let x = choose|x: int| 0 <= x < ns.len() && ns[x] == k;
            assert(order@.contains(x as usize));
            let i = choose|i: int| 0 <= i < order@.len() && order@[i] == x as usize;
            assert(r[i].0@ == entries[order[i] as int].0@);
            assert(t[i].0 == k);
        }
        assert forall|a: int, b: int| 0 <= a < b < t.len() implies (#[trigger] t[a]).0 != (
        #[trigger] t[b]).0 && text_le(lowercase(t[a].1), lowercase(t[b].1)) by {
            let (x, y) = (order[a] as int, order[b] as int);
            assert(r[a].0@ == entries[x].0@ && r[b].0@ == entries[y].0@);
            assert(r[a].1@ == entries[x].1@ && r[b].1@ == entries[y].1@);
            assert(sorts_before(keys@, x, y));
            assert(keys[x].text@ == lowercase(entries[x].1@));
            assert(keys[y].text@ == lowercase(entries[y].1@));
            if x < y {
                assert(ns[x] != ns[y]);
            } else if y < x {
                assert(ns[y] != ns[x]);
            }
        }
    }
    r
}

// ── Steam dialog ─────────────────────────────────────────────────────────────

/// A game stands in the list of those that a filter in lower case leaves: the
/// filter is empty, or it is a part of the name in lower case or of the id.
pub open spec fn game_shown(
    filter: Seq<char>,
    low_name: Seq<char>,
    id: Option<Seq<char>>,
) -> bool {
    ||| filter.len() == 0
    ||| has_substring(low_name, filter)
    ||| id is Some && has_substring(id->0, filter)
}

/// Whether a filter leaves a game in the list.
pub fn shows_game(filter: &str, low_name: &str, id: Option<&str>) -> (r: bool)
    ensures
        r == game_shown(
            filter@,
            low_name@,
            match id {
                Some(s) => Some(s@),
                None => None,
            },
        ),
{
    if filter.is_empty() || contains_text(low_name, filter) {
        return true;
    }
    match id {
        Some(s) => contains_text(s, filter),
        None => false,
    }
}

/// The places of the games that a filter leaves, in order.
pub open spec fn shown_games(
    games: Seq<(Seq<char>, Seq<char>)>,
    filter: Seq<char>,
    by_id: bool,
) -> Seq<usize>
    decreases games.len(),
{
    if games.len() == 0 {
        Seq::empty()
    } else {
        let r = shown_games(games.drop_last(), filter, by_id);
        let g = games.last();
        if game_shown(
            lowercase(filter),
            lowercase(g.1),
            if by_id {
                Some(g.0)
            } else {
                None
            },
        ) {
            r.push((games.len() - 1) as usize)
        } else {
            r
        }
    }
}

/// The places of the games that a filter leaves.
fn filter_games(games: &Vec<(String, String)>, filter: &str, by_id: bool) -> (r: Vec<usize>)
    ensures
        r@ == shown_games(pairs_of(games@), filter@, by_id),
{
    let f = lowered(filter);
    let ghost all = pairs_of(games@);
    let mut r: Vec<usize> = Vec::new();
    let mut i: usize = 0;
    assert(r@ =~= shown_games(all.take(0), filter@, by_id));
    while i < games.len()
        invariant
            i <= games.len(),
            all == pairs_of(games@),
            f@ == lowercase(filter@),
            r@ == shown_games(all.take(i as int), filter@, by_id),
        decreases games.len() - i,
    {
        assert(all.take(i + 1).drop_last() =~= all.take(i as int));
        assert(all.take(i + 1).last() == all[i as int]);
        let low = lowered(games[i].1.as_str());
        let id = if by_id {
            Some(games[i].0.as_str())
        } else {
            None
        };
        if shows_game(f.as_str(), low.as_str(), id) {
            r.push(i);
        }
        i += 1;
    }
    assert(all.take(i as int) =~= all);
    r
}

/// What a game dialog gives, as texts.
pub open spec fn pick_of(r: Option<Option<(String, String)>>) -> Option<
    Option<(Seq<char>, Seq<char>)>,
> {
    match r {
        Some(Some(p)) => Some(Some((p.0@, p.1@))),
        Some(None) => Some(None),
        None => None,
    }
}

/// The same answer.
fn copy_pick(r: &Option<Option<(String, String)>>) -> (c: Option<Option<(String, String)>>)
    ensures
        pick_of(c) == pick_of(*r),
{
    match r {
        Some(Some(p)) => Some(Some((p.0.clone(), p.1.clone()))),
        Some(None) => Some(None),
        None => None,
    }
}

/// What a game dialog gives at the end of a frame, if it gives anything.
pub open spec fn game_answer(
    accepted: bool,
    cancelled: bool,
    picked: Option<(Seq<char>, Seq<char>)>,
) -> Option<Option<(Seq<char>, Seq<char>)>> {
    if accepted && picked is Some {
        Some(picked)
    } else if cancelled {
        Some(None)
    } else {
        None
    }
}

/// The game at a place of a list.
pub open spec fn game_at(
    games: Seq<(Seq<char>, Seq<char>)>,
    place: Option<usize>,
) -> Option<(Seq<char>, Seq<char>)> {
    match place {
        Some(i) => if i < games.len() {
            Some(games[i as int])
        } else {
            None
        },
        None => None,
    }
}

/// The dialog in which a Steam game is picked.
pub struct SteamGamePickerDialog {
    pub open: bool,
    /// Ids and names.
    pub games: Vec<(String, String)>,
    pub filter: String,
    pub selected: Option<usize>,
    /// What was decided; within it nothing where it was cancelled.
    pub result: Option<Option<(String, String)>>,
    pub loaded: bool,
}

/// A text, filled up with blanks to a width.
pub open spec fn padded(s: Seq<char>, width: int) -> Seq<char> {
    if s.len() >= width {
        s
    } else {
        s + Seq::new((width - s.len()) as nat, |i: int| ' ')
    }
}

impl SteamGamePickerDialog {
    /// A dialog that offers the games of these manifests.
    pub fn new(manifests: &Vec<String>) -> (r: SteamGamePickerDialog)
        ensures
            r.open,
            r.loaded,
            lists(pairs_of(r.games@), games_in(texts(manifests@))),
            by_name(pairs_of(r.games@)),
            r.filter@ == Seq::<char>::empty(),
            r.selected is None,
            r.result is None,
    {
        SteamGamePickerDialog {
            open: true,
            games: scan_steam_library(manifests),
            filter: String::new(),
            selected: None,
            result: None,
            loaded: true,
        }
    }

    /// The places of the games that the filter leaves.
    pub fn visible(&self) -> (r: Vec<usize>)
        ensures
            r@ == shown_games(pairs_of(self.games@), self.filter@, true),
    {
        filter_games(&self.games, self.filter.as_str(), true)
    }

    /// The row of a game: the id, ten wide, and the name.
    pub fn row_text(&self, i: usize) -> (r: String)
        requires
            i < self.games@.len(),
        ensures
            r@ == padded(self.games@[i as int].0@, 10) + " "@ + self.games@[i as int].1@,
    {
        let mut s = self.games[i].0.clone();
        let ghost id = s@;
        let n: usize = s.as_str().unicode_len();
        let mut k: usize = n;
        while k < 10
            invariant
                n == id.len(),
                n <= k,
                k <= 10 || k == n,
                s@ == id + Seq::new((k - n) as nat, |i: int| ' '),
            decreases 10 - k,
        {
            s.push(' ');
            k += 1;
            assert(s@ =~= id + Seq::new((k - n) as nat, |i: int| ' '));
        }
        assert(s@ =~= padded(id, 10));
        s.append(" ");
        s.append(self.games[i].1.as_str());
        s
    }

    /// How many games there are, in words.
    pub fn count_text(&self) -> (r: String)
        ensures
            r@ == dec(self.games@.len() as nat) + " games found"@,
    {
        let mut s = decimal(self.games.len() as u64);
        s.append(" games found");
        s
    }

    /// What the dialog gives at the end of a frame.
    pub fn finish(&mut self, accepted: bool, cancelled: bool) -> (r: Option<
        Option<(String, String)>,
    >)
        ensures
            if !old(self).open {
                pick_of(r) == pick_of(old(self).result) && *final(self) == *old(self)
            } else {
                &&& pick_of(r) == game_answer(
                    accepted,
                    cancelled,
                    game_at(pairs_of(old(self).games@), old(self).selected),
                )
                &&& r is None ==> *final(self) == *old(self)
                &&& r is Some ==> pick_of(final(self).result) == pick_of(r) && *final(self) == (
                SteamGamePickerDialog { open: false, result: final(self).result, ..*old(self) })
            },
    {
        if !self.open {
            return copy_pick(&self.result);
        }
        if accepted {
            if let Some(idx) = self.selected {
                if idx < self.games.len() {
                    let g = &self.games[idx];
                    let p = (g.0.clone(), g.1.clone());
                    let q = (g.0.clone(), g.1.clone());
                    self.open = false;
                    self.result = Some(Some(p));
                    return Some(Some(q));
                }
            }
        }
        if cancelled {
            self.open = false;
            self.result = Some(None);
            return Some(None);
        }
        None
    }
}

// ── Lutris ───────────────────────────────────────────────────────────────────

/// The database of Lutris.
pub fn lutris_db(home: &str) -> (r: String)
    ensures
        r@ == home@ + "/.local/share/lutris/pga.db"@,
{
    let mut s = home.to_owned();
    s.append("/.local/share/lutris/pga.db");
    s
}

/// What is asked of the database.
pub fn lutris_query() -> (r: &'static str)
    ensures
        r@ == "SELECT name,slug,runner FROM games WHERE installed=1 ORDER BY name COLLATE NOCASE"@,
{
    "SELECT name,slug,runner FROM games WHERE installed=1 ORDER BY name COLLATE NOCASE"
}

/// How the query went.
pub enum LutrisRun {
    /// There is no database.
    NoDatabase,
    /// The query could not be started, for this reason.
    NotStarted(String),
    /// It ended.
    Ended { success: bool, stdout: String, stderr: String },
}

/// The label of a game: its name and what runs it.
pub open spec fn lutris_label(name: Seq<char>, runner: Seq<char>) -> Seq<char> {
    name + "  ["@ + runner + "]"@
}

/// A line of the answer as a game: slug and label.
pub open spec fn lutris_game(line: Seq<char>) -> Option<(Seq<char>, Seq<char>)> {
    match split_first(line, '|') {
        Some((name, rest)) => match split_first(rest, '|') {
            Some((slug, runner)) => Some((trim(slug), lutris_label(trim(name), trim(runner)))),
            None => None,
        },
        None => None,
    }
}

/// The games of an answer.
pub open spec fn lutris_games(ls: Seq<Seq<char>>) -> Seq<(Seq<char>, Seq<char>)>
    decreases ls.len(),
{
    if ls.len() == 0 {
        Seq::empty()
    } else {
        match lutris_game(ls.last()) {
            Some(g) => lutris_games(ls.drop_last()).push(g),
            None => lutris_games(ls.drop_last()),
        }
    }
}

/// Reads a line of the answer.
fn read_lutris_game(line: &Vec<char>) -> (r: Option<(String, String)>)
    ensures
        match r {
            Some(g) => lutris_game(line@) == Some((g.0@, g.1@)),
            None => lutris_game(line@) is None,
        },
{
    match split_once_at(line, '|') {
        Some((name, rest)) => match split_once_at(&rest, '|') {
            Some((slug, runner)) => {
                let mut label = text_of(&trimmed(&name));
                label.append("  [");
                label.append(text_of(&trimmed(&runner)).as_str());
                label.append("]");
                Some((text_of(&trimmed(&slug)), label))
            },
            None => None,
        },
        None => None,
    }
}

/// Reads the games of an answer.
fn read_lutris_games(text: &str) -> (r: Vec<(String, String)>)
    ensures
        pairs_of(r@) == lutris_games(lines(text@)),
{
    let ls = text_lines(text);
    let ghost all = lines(text@);
    let mut r: Vec<(String, String)> = Vec::new();
    let mut i: usize = 0;
    assert(pairs_of(r@) =~= lutris_games(all.take(0)));
    while i < ls.len()
        invariant
            i <= ls.len(),
            all == crate::text::views(ls@),
            pairs_of(r@) == lutris_games(all.take(i as int)),
        decreases ls.len() - i,
    {
        let ghost before = pairs_of(r@);
        assert(all.take(i + 1).drop_last() =~= all.take(i as int));
        assert(all.take(i + 1).last() == ls@[i as int]@);
        if let Some(g) = read_lutris_game(&ls[i]) {
            let ghost v = (g.0@, g.1@);
            r.push(g);
            assert(pairs_of(r@) =~= before.push(v));
        }
        i += 1;
    }
    assert(all.take(i as int) =~= all);
    r
}

/// The games that Lutris has installed.
pub open spec fn lutris_found(run: LutrisRun) -> Seq<(Seq<char>, Seq<char>)> {
    match run {
        LutrisRun::Ended { success, stdout, .. } => if success {
            lutris_games(lines(stdout@))
        } else {
            Seq::empty()
        },
        _ => Seq::empty(),
    }
}

/// How the search went, in words.
pub open spec fn lutris_status(run: LutrisRun) -> Seq<char> {
    match run {
        LutrisRun::NoDatabase => "Lutris database not found."@,
        LutrisRun::NotStarted(e) => "sqlite3 not found: "@ + e@,
        LutrisRun::Ended { success, stdout, stderr } => if success {
            dec(lutris_games(lines(stdout@)).len()) + " installed games found"@
        } else {
            "sqlite3 error: "@ + trim(stderr@)
        },
    }
}

/// Reads the games that Lutris has installed.
pub fn scan_lutris_library(run: &LutrisRun) -> (r: (Vec<(String, String)>, String))
    ensures
        pairs_of(r.0@) == lutris_found(*run),
        r.1@ == lutris_status(*run),
{
    match run {
        LutrisRun::NoDatabase => {
            let v: Vec<(String, String)> = Vec::new();
            assert(pairs_of(v@) =~= Seq::empty());
            (v, "Lutris database not found.".to_owned())
        },
        LutrisRun::NotStarted(e) => {
            let v: Vec<(String, String)> = Vec::new();
            assert(pairs_of(v@) =~= Seq::empty());
            let mut s = "sqlite3 not found: ".to_owned();
            s.append(e.as_str());
            (v, s)
        },
        LutrisRun::Ended { success, stdout, stderr } => {
            if *success {
                let v = read_lutris_games(stdout.as_str());
                assert(v@.len() == pairs_of(v@).len());
                let mut s = decimal(v.len() as u64);
                s.append(" installed games found");
                (v, s)
            } else {
                let v: Vec<(String, String)> = Vec::new();
                assert(pairs_of(v@) =~= Seq::empty());
                let mut s = "sqlite3 error: ".to_owned();
                let t = trimmed_text(stderr.as_str());
                s.append(t.as_str());
                (v, s)
            }
        },
    }
}

/// The dialog in which a Lutris game is picked.
pub struct LutrisGamePickerDialog {
    pub open: bool,
    /// Slugs and labels.
    pub games: Vec<(String, String)>,
    pub filter: String,
    pub selected: Option<usize>,
    /// Slug and name, once decided; within it nothing where it was cancelled.
    pub result: Option<Option<(String, String)>>,
    pub status: String,
}

/// The name in a label: what stands before the runner.
pub open spec fn name_in_label(label: Seq<char>) -> Seq<char> {
    match cut_at(label, "  ["@) {
        Some((name, _)) => name,
        None => label,
    }
}

/// A game as it is given, with its name.
pub open spec fn named_game(g: Option<(Seq<char>, Seq<char>)>) -> Option<(Seq<char>, Seq<char>)> {
    match g {
        Some(p) => Some((p.0, name_in_label(p.1))),
        None => None,
    }
}

impl LutrisGamePickerDialog {
    /// A dialog that offers the games that a search found.
    pub fn new(run: &LutrisRun) -> (r: LutrisGamePickerDialog)
        ensures
            r.open,
            pairs_of(r.games@) == lutris_found(*run),
            r.status@ == lutris_status(*run),
            r.filter@ == Seq::<char>::empty(),
            r.selected is None,
            r.result is None,
    {
        let (games, status) = scan_lutris_library(run);
        LutrisGamePickerDialog {
            open: true,
            games,
            filter: String::new(),
            selected: None,
            result: None,
            status,
        }
    }

    /// The places of the games that the filter leaves.
    pub fn visible(&self) -> (r: Vec<usize>)
        ensures
            r@ == shown_games(pairs_of(self.games@), self.filter@, false),
    {
        filter_games(&self.games, self.filter.as_str(), false)
    }

    /// What the dialog gives at the end of a frame.
    pub fn finish(&mut self, accepted: bool, cancelled: bool) -> (r: Option<
        Option<(String, String)>,
    >)
        ensures
            if !old(self).open {
                pick_of(r) == pick_of(old(self).result) && *final(self) == *old(self)
            } else {
                &&& pick_of(r) == game_answer(
                    accepted,
                    cancelled,
                    named_game(game_at(pairs_of(old(self).games@), old(self).selected)),
                )
                &&& r is None ==> *final(self) == *old(self)
                &&& r is Some ==> pick_of(final(self).result) == pick_of(r) && *final(self) == (
                LutrisGamePickerDialog { open: false, result: final(self).result, ..*old(self) })
            },
    {
        if !self.open {
            return copy_pick(&self.result);
        }
        if accepted {
            if let Some(idx) = self.selected {
                if idx < self.games.len() {
                    let label = chars_of(self.games[idx].1.as_str());
                    let name = match cut_text(&label, "  [") {
                        Some((a, _)) => text_of(&a),
                        None => self.games[idx].1.clone(),
                    };
                    let p = (self.games[idx].0.clone(), name.clone());
                    let q = (self.games[idx].0.clone(), name);
                    self.open = false;
                    self.result = Some(Some(p));
                    return Some(Some(q));
                }
            }
        }
        if cancelled {
            self.open = false;
            self.result = Some(None);
            return Some(None);
        }
        None
    }
}

/// Trimmed text does not end in white space.
proof fn lemma_trim_end_has_no_blank(s: Seq<char>)
    ensures
        trim_end(s).len() > 0 ==> !is_space(trim_end(s).last()),
    decreases s.len(),
{
    if s.len() > 0 && is_space(s.last()) {
        lemma_trim_end_has_no_blank(s.drop_last());
    }
}

/// The name that was put into a label is the name that is found in it, unless the
/// name itself holds what separates it from the runner.
pub proof fn law_label_keeps_the_name(text: Seq<char>, runner: Seq<char>)
    requires
        !has_substring(trim(text), "  ["@),
    ensures
        name_in_label(lutris_label(trim(text), runner)) == trim(text),
{
    reveal_strlit("  [");
    let p = "  ["@;
    let name = trim(text);
    lemma_trim_end_has_no_blank(trim_start(text));
    let l = lutris_label(name, runner);
    let n = name.len() as int;
    assert(l.subrange(n, n + 3) =~= p);
    assert(occurs_at(l, p, n));
    assert forall|j: int| 0 <= j < n implies !occurs_at(l, p, j) by {
        if occurs_at(l, p, j) {
            let w = l.subrange(j, j + 3);
            assert(w[0] == ' ' && w[1] == ' ' && w[2] == '[');
            assert(w[0] == l[j] && w[1] == l[j + 1] && w[2] == l[j + 2]);
            if j + 3 <= n {
                assert(name.subrange(j, j + 3) =~= w);
                assert(occurs_at(name, p, j));
            } else if j + 2 == n {
                assert(name.last() == ' ');
            } else {
                assert(name.last() == ' ');
            }
        }
    }
    let k = crate::text::first_place(l, p);
    assert(occurs_at(l, p, k) && forall|j: int| 0 <= j < k ==> !occurs_at(l, p, j));
    assert(k == n);
    assert(l.take(n) =~= name);
}

/// A field stands in quotes, and so does its value behind it; the value runs from the
/// third quote on.
pub proof fn law_field_value_is_behind_the_third_quote(
    text: &str,
    field: &str,
    r: Option<String>,
    between: Seq<char>,
    value: Seq<char>,
)
    requires
        call_ensures(extract_vdf_field, (text, field), r),
        lines(text@).len() > 0,
        trim(lines(text@)[0]) == seq!['"'] + field@ + seq!['"'] + between + seq!['"'] + value,
        !field@.contains('"'),
        !between.contains('"'),
    ensures
        r is Some,
        r->0@ == value,
{
    reveal_strlit("\"");
    assert("\""@ =~= seq!['"']);
    let t = trim(lines(text@)[0]);
    let none = Seq::<char>::empty();
    let c = value;
    let b = between + seq!['"'] + c;
    let a = field@ + seq!['"'] + b;
    assert(t =~= none + seq!['"'] + a);
    law_cut_at_the_first(none, a, '"');
    law_cut_at_the_first(field@, b, '"');
    law_cut_at_the_first(between, c, '"');
    assert(rest_after(c, '"', 0) == Some(c));
    assert(rest_after(b, '"', 1) == rest_after(c, '"', 0));
    assert(rest_after(a, '"', 2) == rest_after(b, '"', 1));
    assert(rest_after(t, '"', 3) == rest_after(a, '"', 2));
    let p = "\""@ + field@ + "\""@;
    assert(t.take(p.len() as int) =~= p);
}

/// A game of the list is shown where the text stands in its name or its number, without
/// regard to case.
pub proof fn law_games_are_found_by_name_or_number(
    d: &SteamGamePickerDialog,
    r: Vec<usize>,
    i: usize,
)
    requires
        call_ensures(SteamGamePickerDialog::visible, (d,), r),
        i < d.games@.len(),
    ensures
        r@.contains(i) <==> {
            let f = lowercase(d.filter@);
            ||| f.len() == 0
            ||| exists|a: Seq<char>, b: Seq<char>|
                lowercase(d.games@[i as int].1@) == #[trigger] (a + f + b)
            ||| exists|a: Seq<char>, b: Seq<char>| d.games@[i as int].0@ == #[trigger] (a + f + b)
        },
{
    let g = pairs_of(d.games@);
    let f = lowercase(d.filter@);
    assert(d.games.len() == d.games@.len());
    lemma_shown_games(g, d.filter@, true, i);
    law_substring_stands_between(g[i as int].1, f);
    law_substring_stands_between(lowercase(g[i as int].1), f);
    law_substring_stands_between(g[i as int].0, f);
}

/// Which games are shown.
proof fn lemma_shown_games(g: Seq<(Seq<char>, Seq<char>)>, filter: Seq<char>, by_id: bool, i: usize)
    requires
        g.len() <= usize::MAX,
    ensures
        shown_games(g, filter, by_id).contains(i) <==> i < g.len() && game_shown(
            lowercase(filter),
            lowercase(g[i as int].1),
            if by_id {
                Some(g[i as int].0)
            } else {
                None
            },
        ),
    decreases g.len(),
{
    if g.len() > 0 {
        let d = g.drop_last();
        lemma_shown_games(d, filter, by_id, i);
        let (b, a) = (shown_games(d, filter, by_id), shown_games(g, filter, by_id));
        let last = (g.len() - 1) as usize;
        if i < last {
            assert(d[i as int] == g[i as int]);
        }
        if b != a {
            assert(a[b.len() as int] == last);
            if b.contains(i) {
                let k = choose|k: int| 0 <= k < b.len() && b[k] == i;
                assert(a[k] == i);
            }
            if a.contains(i) && i != last {
                let k = choose|k: int| 0 <= k < a.len() && a[k] == i;
                assert(b[k] == i);
            }
        }
    }
}

/// The list holds each game of the manifests once, under its name, in the order of the
/// names.
pub proof fn law_games_stand_in_the_order_of_their_names(
    manifests: &Vec<String>,
    r: Vec<(String, String)>,
    i: int,
    j: int,
)
    requires
        call_ensures(scan_steam_library, (manifests,), r),
        0 <= i < j < r@.len(),
    ensures
        r@[i].0@ != r@[j].0@,
        text_le(lowercase(r@[i].1@), lowercase(r@[j].1@)),
{
    let p = pairs_of(r@);
    assert(p[i].0 != p[j].0);
    assert(text_le(lowercase(p[i].1), lowercase(p[j].1)));
}

/// A line of the Lutris database gives the name, the short name and the runner of a game.
pub proof fn law_lutris_line_is_name_slug_runner(
    run: &LutrisRun,
    r: (Vec<(String, String)>, String),
    name: Seq<char>,
    slug: Seq<char>,
    runner: Seq<char>,
)
    requires
        call_ensures(scan_lutris_library, (run,), r),
        *run matches LutrisRun::Ended { success, stdout, .. } && success && stdout@ == name
            + seq!['|'] + slug + seq!['|'] + runner,
        !name.contains('|') && !slug.contains('|'),
        !name.contains('\n') && !slug.contains('\n') && !runner.contains('\n'),
        trim(name) == name && trim(slug) == slug && trim(runner) == runner,
    ensures
        r.0@.len() == 1,
        r.0@[0].0@ == slug,
        r.0@[0].1@ == name + "  ["@ + runner + "]"@,
{
    let rest = slug + seq!['|'] + runner;
    let line = name + seq!['|'] + rest;
    let out = name + seq!['|'] + slug + seq!['|'] + runner;
    assert(out =~= line);
    assert(!line.contains('\n')) by {
        if line.contains('\n') {
            let i = choose|i: int| 0 <= i < line.len() && line[i] == '\n';
            if i < name.len() {
                assert(name[i] == '\n');
            } else if name.len() < i <= name.len() + slug.len() {
                assert(slug[i - name.len() - 1] == '\n');
            } else if i > name.len() + slug.len() + 1 {
                assert(runner[i - name.len() - slug.len() - 2] == '\n');
            }
        }
    }
    crate::text::law_lines_end_at_breaks(line, line);
    law_cut_at_the_first(name, rest, '|');
    law_cut_at_the_first(slug, runner, '|');
    let ls = lines(line);
    assert(ls =~= seq![line]);
    assert(ls.drop_last() =~= Seq::<Seq<char>>::empty());
    assert(lutris_games(ls.drop_last()) =~= Seq::<(Seq<char>, Seq<char>)>::empty());
    assert(lutris_game(line) == Some((slug, lutris_label(name, runner))));
    let p = pairs_of(r.0@);
    assert(p =~= seq![(slug, lutris_label(name, runner))]);
    assert(p.len() == r.0@.len());
    assert(p[0] == (r.0@[0].0@, r.0@[0].1@));
}

/// The dialog gives the chosen game where one was chosen and accepted, and nothing where
/// it was cancelled; it is closed then.
pub proof fn law_picker_gives_the_chosen_game(
    d: &mut SteamGamePickerDialog,
    accepted: bool,
    cancelled: bool,
    r: Option<Option<(String, String)>>,
    i: usize,
)
    requires
        call_ensures(SteamGamePickerDialog::finish, (d, accepted, cancelled), r),
        old(d).open,
        i < old(d).games@.len(),
    ensures
        accepted && old(d).selected == Some(i) ==> !final(d).open && (r matches Some(Some(g)) && g.0@
            == old(d).games@[i as int].0@ && g.1@ == old(d).games@[i as int].1@),
        cancelled && !accepted ==> !final(d).open && r == Some(None::<(String, String)>),
        !cancelled && !accepted ==> final(d).open && r is None,
        !cancelled && old(d).selected is None ==> final(d).open && r is None,
{
}

} // verus!
