//! Recognising the process of a game by its name.

use vstd::prelude::*;
use vstd::string::*;

use crate::text::{chars_of, contains_chars, has_substring, trim, trimmed};

verus! {

/// What `char::is_alphanumeric` says of a character.
pub uninterp spec fn alphanumeric(c: char) -> bool;

/// What `char::to_lowercase` gives for a character.
pub uninterp spec fn lower_char(c: char) -> Seq<char>;

/// Calls `char::is_alphanumeric`. Its result, which Unicode's tables determine,
/// depends on the character alone; it is called `alphanumeric` here.
#[verifier::external_body]
fn is_alphanumeric(c: char) -> (r: bool)
    ensures
        r == alphanumeric(c),
{
    c.is_alphanumeric()
}

/// Calls `char::to_lowercase` and collects what it gives. The result, which
/// Unicode's case tables determine, depends on the character alone; it is called
/// `lower_char` here.
#[verifier::external_body]
fn lowered_char(c: char) -> (r: Vec<char>)
    ensures
        r@ == lower_char(c),
{
    c.to_lowercase().collect()
}

/// A name without everything that is neither letter nor digit, in lower case.
pub open spec fn normal(s: Seq<char>) -> Seq<char>
    decreases s.len(),
{
    if s.len() == 0 {
        Seq::empty()
    } else if alphanumeric(s.last()) {
        normal(s.drop_last()) + lower_char(s.last())
    } else {
        normal(s.drop_last())
    }
}

/// A name without everything that is neither letter nor digit, in lower case.
pub fn normalised(s: &[char]) -> (r: Vec<char>)
    ensures
        r@ == normal(s@),
{
    let mut r: Vec<char> = Vec::new();
    let mut i: usize = 0;
    assert(s@.take(0) =~= Seq::<char>::empty());
    while i < s.len()
        invariant
            i <= s.len(),
            r@ == normal(s@.take(i as int)),
        decreases s.len() - i,
    {
        assert(s@.take(i + 1).drop_last() =~= s@.take(i as int));
        assert(s@.take(i + 1).last() == s@[i as int]);
        if is_alphanumeric(s[i]) {
            let ghost before = r@;
            let mut low = lowered_char(s[i]);
            let ghost l = low@;
            r.append(&mut low);
            assert(r@ =~= before + l);
        }
        i += 1;
    }
    assert(s@.take(i as int) =~= s@);
    r
}

/// A game and a process go by one name: one of the two names holds the other, or
/// the command line holds the name of the game.
pub open spec fn same_game(name: Seq<char>, comm: Seq<char>, cmdline: Option<Seq<char>>) -> bool {
    ||| has_substring(name, comm)
    ||| has_substring(comm, name)
    ||| cmdline is Some && has_substring(cmdline->0, name)
}

/// Whether a game and a process go by one name, all names being normalised.
pub fn names_agree(name: &[char], comm: &[char], cmdline: &Option<Vec<char>>) -> (r: bool)
    ensures
        r == same_game(
            name@,
            comm@,
            match *cmdline {
                Some(c) => Some(c@),
                None => None,
            },
        ),
{
    if contains_chars(name, comm) || contains_chars(comm, name) {
        return true;
    }
    match cmdline {
        Some(c) => contains_chars(c, name),
        None => false,
    }
}

/// A process as it is looked at: a name that could not be read is empty.
pub struct GameProc {
    pub pid: u32,
    pub comm: String,
    pub cmdline: Option<String>,
}

/// A process is the one of a game.
pub open spec fn is_game(game: Seq<char>, p: GameProc) -> bool {
    same_game(
        normal(game),
        normal(trim(p.comm@)),
        match p.cmdline {
            Some(c) => Some(normal(c@)),
            None => None,
        },
    )
}

/// Whether a process is the one of a game.
pub fn proc_name_matches(game_name: &str, p: &GameProc) -> (r: bool)
    ensures
        r == is_game(game_name@, *p),
{
    let name = chars_of(game_name);
    let comm_text = chars_of(p.comm.as_str());
    let name_n = normalised(&name);
    let comm_n = normalised(&trimmed(&comm_text));
    let cmdline_n = match &p.cmdline {
        Some(c) => {
            let text = chars_of(c.as_str());
            Some(normalised(&text))
        },
        None => None,
    };
    names_agree(&name_n, &comm_n, &cmdline_n)
}

/// The first process that is the one of a game.
pub open spec fn first_game(game: Seq<char>, procs: Seq<GameProc>) -> Option<u32>
    decreases procs.len(),
{
    if procs.len() == 0 {
        None
    } else if is_game(game, procs[0]) {
        Some(procs[0].pid)
    } else {
        first_game(game, procs.drop_first())
    }
}

/// The first process that is the one of a game.
pub fn find_game(game_name: &str, procs: &Vec<GameProc>) -> (r: Option<u32>)
    ensures
        r == first_game(game_name@, procs@),
{
    let mut i: usize = 0;
    assert(procs@.skip(0) =~= procs@);
    while i < procs.len()
        invariant
            i <= procs.len(),
            first_game(game_name@, procs@) == first_game(game_name@, procs@.skip(i as int)),
        decreases procs.len() - i,
    {
        assert(procs@.skip(i as int)[0] == procs@[i as int]);
        if proc_name_matches(game_name, &procs[i]) {
            return Some(procs[i].pid);
        }
        assert(procs@.skip(i as int).drop_first() =~= procs@.skip(i + 1));
        i += 1;
    }
    assert(procs@.skip(i as int).len() == 0);
    None
}

/// The first process that belongs to the game.
pub proof fn lemma_first_game(game: Seq<char>, procs: Seq<GameProc>, i: int)
    ensures
        (forall|k: int| 0 <= k < procs.len() ==> !is_game(game, #[trigger] procs[k]))
            ==> first_game(game, procs) is None,
        0 <= i < procs.len() && is_game(game, procs[i]) && (forall|k: int|
            0 <= k < i ==> !is_game(game, #[trigger] procs[k])) ==> first_game(game, procs) == Some(
            procs[i].pid,
        ),
    decreases procs.len(),
{
    if procs.len() > 0 {
        let d = procs.drop_first();
        lemma_first_game(game, d, i - 1);
        assert forall|k: int| 0 <= k < d.len() implies #[trigger] d[k] == procs[k + 1] by {}
        if forall|k: int| 0 <= k < procs.len() ==> !is_game(game, #[trigger] procs[k]) {
            assert(!is_game(game, procs[0]));
            assert forall|k: int| 0 <= k < d.len() implies !is_game(game, #[trigger] d[k]) by {
                assert(!is_game(game, procs[k + 1]));
            }
        }
        if 0 < i < procs.len() && is_game(game, procs[i]) && (forall|k: int|
            0 <= k < i ==> !is_game(game, #[trigger] procs[k])) {
            assert(!is_game(game, procs[0]));
            assert(d[i - 1] == procs[i]);
            assert forall|k: int| 0 <= k < i - 1 implies !is_game(game, #[trigger] d[k]) by {
                assert(!is_game(game, procs[k + 1]));
            }
        }
    }
}

/// The process that is found is the first one that belongs to the game.
pub proof fn law_first_process_of_the_game_is_found(
    game: &str,
    procs: &Vec<GameProc>,
    r: Option<u32>,
    i: int,
)
    requires
        call_ensures(find_game, (game, procs), r),
    ensures
        (forall|k: int| 0 <= k < procs@.len() ==> !is_game(game@, #[trigger] procs@[k])) ==> r is None,
        0 <= i < procs@.len() && is_game(game@, procs@[i]) && (forall|k: int|
            0 <= k < i ==> !is_game(game@, #[trigger] procs@[k]))
            ==> r == Some(procs@[i].pid),
{
    lemma_first_game(game@, procs@, i);
}

/// Two names agree where one stands in the other, or the game's in the command line.
pub proof fn law_names_agree_where_one_holds_the_other(
    name: &[char],
    comm: &[char],
    cmdline: &Option<Vec<char>>,
    r: bool,
)
    requires
        call_ensures(names_agree, (name, comm, cmdline), r),
    ensures
        r <==> (exists|a: Seq<char>, b: Seq<char>| name@ == #[trigger] (a + comm@ + b)) || (exists|
            a: Seq<char>,
            b: Seq<char>,
        | comm@ == #[trigger] (a + name@ + b)) || (*cmdline is Some && exists|
            a: Seq<char>,
            b: Seq<char>,
        | cmdline->0@ == #[trigger] (a + name@ + b)),
{
    crate::text::law_substring_stands_between(name@, comm@);
    crate::text::law_substring_stands_between(comm@, name@);
    if *cmdline is Some {
        crate::text::law_substring_stands_between(cmdline->0@, name@);
    }
}

/// Names are compared without regard to case and without anything but letters and digits:
/// each character is kept in lower case or dropped, in its place.
pub proof fn law_names_keep_letters_and_digits(
    a: &[char],
    b: &[char],
    r: Vec<char>,
    s: Vec<char>,
    c: char,
)
    requires
        call_ensures(normalised, (a,), r),
        call_ensures(normalised, (b,), s),
        b@ == a@.push(c),
    ensures
        a@.len() == 0 ==> r@.len() == 0,
        alphanumeric(c) ==> s@ == r@ + lower_char(c),
        !alphanumeric(c) ==> s@ == r@,
{
    assert(b@.drop_last() =~= a@);
}

} // verus!
