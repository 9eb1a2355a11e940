//! Text primitives: views of texts as sequences of characters, splitting,
//! trimming, searching, and decimal numbers.

use vstd::prelude::*;
use vstd::string::*;

verus! {

/// Appends one character (`String::push`): the text grows by exactly `c` at its end.
pub assume_specification[ String::push ](s: &mut String, c: char)
    ensures
        final(s)@ == old(s)@.push(c),
;

// ── Views ────────────────────────────────────────────────────────────────────

/// The character sequences of a list of character vectors.
pub open spec fn views(v: Seq<Vec<char>>) -> Seq<Seq<char>> {
    Seq::new(v.len(), |i: int| v[i]@)
}

/// The character sequences of a list of strings.
pub open spec fn texts(v: Seq<String>) -> Seq<Seq<char>> {
    Seq::new(v.len(), |i: int| v[i]@)
}

/// The view of an optional string.
pub open spec fn opt_text(o: Option<String>) -> Option<Seq<char>> {
    match o {
        Some(s) => Some(s@),
        None => None,
    }
}

/// The characters of a text, in order.
pub fn chars_of(s: &str) -> (v: Vec<char>)
    ensures
        v@ == s@,
{
    let mut v: Vec<char> = Vec::new();
    for c in it: s.chars()
        invariant
            v@ == s@.take(it.index() as int),
            it.seq() == s@,
    {
        v.push(c);
        assert(s@.take(it.index() + 1) =~= s@.take(it.index() as int).push(c));
    }
    assert(s@.take(s@.len() as int) =~= s@);
    v
}

/// The text made of the given characters.
pub fn text_of(v: &[char]) -> (s: String)
    ensures
        s@ == v@,
{
    let mut s = String::new();
    let mut i: usize = 0;
    while i < v.len()
        invariant
            i <= v.len(),
            s@ == v@.take(i as int),
        decreases v.len() - i,
    {
        s.push(v[i]);
        i += 1;
        assert(v@.take(i as int) =~= v@.take(i - 1).push(v[i - 1]));
    }
    assert(v@.take(v@.len() as int) =~= v@);
    s
}

/// A copy of a slice of characters.
pub fn copy_chars(v: &[char]) -> (w: Vec<char>)
    ensures
        w@ == v@,
{
    sub_chars(v, 0, v.len())
}

/// The characters `from..to`.
pub fn sub_chars(v: &[char], from: usize, to: usize) -> (w: Vec<char>)
    requires
        from <= to <= v.len(),
    ensures
        w@ == v@.subrange(from as int, to as int),
{
    let mut w: Vec<char> = Vec::new();
    let mut i: usize = from;
    while i < to
        invariant
            from <= i <= to <= v.len(),
            w@ == v@.subrange(from as int, i as int),
        decreases to - i,
    {
        w.push(v[i]);
        i += 1;
        assert(v@.subrange(from as int, i as int) =~= v@.subrange(from as int, i - 1).push(
            v[i - 1],
        ));
    }
    w
}

/// Copies a list of strings.
pub fn copy_texts(v: &Vec<String>) -> (w: Vec<String>)
    ensures
        texts(w@) == texts(v@),
{
    let mut w: Vec<String> = Vec::new();
    let mut i: usize = 0;
    while i < v.len()
        invariant
            i <= v.len(),
            w.len() == i,
            forall|j: int| 0 <= j < i ==> w[j]@ == v[j]@,
        decreases v.len() - i,
    {
        w.push(v[i].clone());
        i += 1;
    }
    assert(texts(w@) =~= texts(v@));
    w
}

// ── Equality, prefixes, substrings ───────────────────────────────────────────

/// Whether two character slices hold the same characters.
pub fn same_chars(a: &[char], b: &[char]) -> (r: bool)
    ensures
        r == (a@ == b@),
{
    if a.len() != b.len() {
        return false;
    }
    let mut i: usize = 0;
    while i < a.len()
        invariant
            i <= a.len(),
            a.len() == b.len(),
            forall|j: int| 0 <= j < i ==> a[j] == b[j],
        decreases a.len() - i,
    {
        if a[i] != b[i] {
            return false;
        }
        i += 1;
    }
    assert(a@ =~= b@);
    true
}

/// Whether two texts are equal.
pub fn same_text(a: &str, b: &str) -> (r: bool)
    ensures
        r == (a@ == b@),
{
    let x = chars_of(a);
    let y = chars_of(b);
    same_chars(&x, &y)
}

/// Whether two lists hold the same texts.
pub fn same_texts(a: &Vec<String>, b: &Vec<String>) -> (r: bool)
    ensures
        r == (texts(a@) == texts(b@)),
{
    if a.len() != b.len() {
        assert(texts(a@).len() != texts(b@).len());
        return false;
    }
    let mut i: usize = 0;
    while i < a.len()
        invariant
            i <= a.len(),
            a.len() == b.len(),
            forall|k: int| 0 <= k < i ==> texts(a@)[k] == texts(b@)[k],
        decreases a.len() - i,
    {
        if !same_text(a[i].as_str(), b[i].as_str()) {
            assert(texts(a@)[i as int] != texts(b@)[i as int]);
            return false;
        }
        i += 1;
    }
    assert(texts(a@) =~= texts(b@));
    true
}

/// The list without a text.
pub open spec fn without_text(list: Seq<Seq<char>>, s: Seq<char>) -> Seq<Seq<char>>
    decreases list.len(),
{
    if list.len() == 0 {
        list
    } else if list.last() == s {
        without_text(list.drop_last(), s)
    } else {
        without_text(list.drop_last(), s).push(list.last())
    }
}

/// The list without a text.
pub fn remove_text(list: &Vec<String>, s: &str) -> (r: Vec<String>)
    ensures
        texts(r@) == without_text(texts(list@), s@),
{
    let mut r: Vec<String> = Vec::new();
    let mut i: usize = 0;
    let ghost all = texts(list@);
    proof {
        assert(all.take(0) =~= Seq::<Seq<char>>::empty());
        assert(texts(r@) =~= Seq::<Seq<char>>::empty());
    }
    while i < list.len()
        invariant
            i <= list.len(),
            all == texts(list@),
            texts(r@) == without_text(all.take(i as int), s@),
        decreases list.len() - i,
    {
        assert(all.take(i + 1).drop_last() =~= all.take(i as int));
        let ghost before = texts(r@);
        if !same_text(list[i].as_str(), s) {
            r.push(list[i].clone());
            assert(texts(r@) =~= before.push(all[i as int]));
        }
        i += 1;
    }
    assert(all.take(i as int) =~= all);
    r
}

/// Whether a list holds a text.
pub fn holds_text(list: &Vec<String>, s: &str) -> (r: bool)
    ensures
        r == texts(list@).contains(s@),
{
    let mut i: usize = 0;
    while i < list.len()
        invariant
            i <= list.len(),
            forall|k: int| 0 <= k < i ==> texts(list@)[k] != s@,
        decreases list.len() - i,
    {
        if same_text(list[i].as_str(), s) {
            assert(texts(list@)[i as int] == s@);
            return true;
        }
        i += 1;
    }
    false
}

/// Whether the characters of `a` are those of the text `b`.
pub fn is_text(a: &[char], b: &str) -> (r: bool)
    ensures
        r == (a@ == b@),
{
    let y = chars_of(b);
    same_chars(a, &y)
}

/// `s` begins with `p`.
pub open spec fn has_prefix(s: Seq<char>, p: Seq<char>) -> bool {
    p.len() <= s.len() && s.take(p.len() as int) == p
}

/// `s` ends with `p`.
pub open spec fn has_suffix(s: Seq<char>, p: Seq<char>) -> bool {
    p.len() <= s.len() && s.skip(s.len() - p.len()) == p
}

/// `p` stands in `s` from position `i` on.
pub open spec fn occurs_at(s: Seq<char>, p: Seq<char>, i: int) -> bool {
    0 <= i <= s.len() - p.len() && s.subrange(i, i + p.len()) == p
}

/// `p` is a substring of `s`.
pub open spec fn has_substring(s: Seq<char>, p: Seq<char>) -> bool {
    exists|i: int| occurs_at(s, p, i)
}

/// Whether `p` stands in `s` from position `i` on.
pub fn occurs_here(s: &[char], p: &[char], i: usize) -> (r: bool)
    ensures
        r == occurs_at(s@, p@, i as int),
{
    if i > s.len() || p.len() > s.len() - i {
        return false;
    }
    let mut j: usize = 0;
    while j < p.len()
        invariant
            i + p.len() <= s.len(),
            j <= p.len(),
            forall|k: int| 0 <= k < j ==> s[i + k] == p[k],
        decreases p.len() - j,
    {
        if s[i + j] != p[j] {
            assert(s@.subrange(i as int, i + p@.len())[j as int] != p@[j as int]);
            return false;
        }
        j += 1;
    }
    assert(s@.subrange(i as int, i + p@.len()) =~= p@);
    true
}

/// Whether `s` begins with `p`.
pub fn begins_with(s: &[char], p: &str) -> (r: bool)
    ensures
        r == has_prefix(s@, p@),
{
    let q = chars_of(p);
    let r = occurs_here(s, &q, 0);
    proof {
        if p@.len() <= s@.len() {
            assert(s@.subrange(0, p@.len() as int) =~= s@.take(p@.len() as int));
        }
    }
    r
}

/// Whether `s` ends with `p`.
pub fn finishes_with(s: &[char], p: &str) -> (r: bool)
    ensures
        r == has_suffix(s@, p@),
{
    let q = chars_of(p);
    if q.len() > s.len() {
        return false;
    }
    let at: usize = s.len() - q.len();
    proof {
        assert(s@.subrange(at as int, at + q@.len()) =~= s@.skip(s@.len() - p@.len()));
    }
    occurs_here(s, &q, at)
}

/// The first position from `from` on at which `p` stands in `s`.
pub fn find_from(s: &[char], p: &[char], from: usize) -> (r: Option<usize>)
    ensures
        match r {
            Some(i) => from <= i && occurs_at(s@, p@, i as int) && forall|j: int|
                from <= j < i ==> !occurs_at(s@, p@, j),
            None => forall|j: int| from <= j ==> !occurs_at(s@, p@, j),
        },
{
    let mut i: usize = from;
    while i <= s.len()
        invariant
            from <= i,
            forall|j: int| from <= j < i ==> !occurs_at(s@, p@, j),
        decreases s.len() + 1 - i,
    {
        if occurs_here(s, p, i) {
            return Some(i);
        }
        if i == s.len() {
            return None;
        }
        i += 1;
    }
    None
}

/// Whether `p` is a substring of `s`.
pub fn contains_chars(s: &[char], p: &[char]) -> (r: bool)
    ensures
        r == has_substring(s@, p@),
{
    match find_from(s, p, 0) {
        Some(i) => {
            assert(occurs_at(s@, p@, i as int));
            true
        },
        None => false,
    }
}

/// Whether the text `p` is a substring of the text `s`.
pub fn contains_text(s: &str, p: &str) -> (r: bool)
    ensures
        r == has_substring(s@, p@),
{
    let a = chars_of(s);
    let b = chars_of(p);
    contains_chars(&a, &b)
}

/// A text holds each of its own prefixes, middles and suffixes.
pub proof fn lemma_substring_of_concat(a: Seq<char>, b: Seq<char>, c: Seq<char>)
    ensures
        has_substring(a + b + c, b),
{
    assert((a + b + c).subrange(a.len() as int, (a.len() + b.len()) as int) =~= b);
    assert(occurs_at(a + b + c, b, a.len() as int));
}

/// The first place at which `p` stands in `s`.
pub open spec fn first_place(s: Seq<char>, p: Seq<char>) -> int {
    choose|i: int| occurs_at(s, p, i) && forall|j: int| 0 <= j < i ==> !occurs_at(s, p, j)
}

/// The texts before and behind the first place at which `p` stands in `s`.
pub open spec fn cut_at(s: Seq<char>, p: Seq<char>) -> Option<(Seq<char>, Seq<char>)> {
    if has_substring(s, p) {
        let i = first_place(s, p);
        Some((s.take(i), s.skip(i + p.len())))
    } else {
        None
    }
}

/// Cuts `s` at the first place at which `p` stands in it.
pub fn cut_text(s: &[char], p: &str) -> (r: Option<(Vec<char>, Vec<char>)>)
    ensures
        match r {
            Some((a, b)) => cut_at(s@, p@) == Some((a@, b@)),
            None => cut_at(s@, p@) is None,
        },
{
    let q = chars_of(p);
    match find_from(s, &q, 0) {
        Some(i) => {
            let n: usize = s.len();
            proof {
                assert(occurs_at(s@, p@, i as int));
                let k = first_place(s@, p@);
                assert(occurs_at(s@, p@, k) && forall|j: int| 0 <= j < k ==> !occurs_at(s@, p@, j));
                assert(k == i);
            }
            let a = sub_chars(s, 0, i);
            let b = sub_chars(s, i + q.len(), n);
            assert(a@ =~= s@.take(i as int));
            assert(b@ =~= s@.skip(i + p@.len()));
            Some((a, b))
        },
        None => None,
    }
}

// ── White space ──────────────────────────────────────────────────────────────

/// Unicode's white space characters.
pub open spec fn is_space(c: char) -> bool {
    let n = c as u32;
    ||| 0x9 <= n <= 0xd
    ||| n == 0x20
    ||| n == 0x85
    ||| n == 0xa0
    ||| n == 0x1680
    ||| 0x2000 <= n <= 0x200a
    ||| n == 0x2028
    ||| n == 0x2029
    ||| n == 0x202f
    ||| n == 0x205f
    ||| n == 0x3000
}

/// Whether a character is white space.
pub fn space(c: char) -> (r: bool)
    ensures
        r == is_space(c),
{
    let n: u32 = c as u32;
    (0x9 <= n && n <= 0xd) || n == 0x20 || n == 0x85 || n == 0xa0 || n == 0x1680 || (0x2000 <= n
        && n <= 0x200a) || n == 0x2028 || n == 0x2029 || n == 0x202f || n == 0x205f || n == 0x3000
}

/// `s` without its leading white space.
pub open spec fn trim_start(s: Seq<char>) -> Seq<char>
    decreases s.len(),
{
    if s.len() > 0 && is_space(s[0]) {
        trim_start(s.drop_first())
    } else {
        s
    }
}

/// `s` without its trailing white space.
pub open spec fn trim_end(s: Seq<char>) -> Seq<char>
    decreases s.len(),
{
    if s.len() > 0 && is_space(s.last()) {
        trim_end(s.drop_last())
    } else {
        s
    }
}

/// `s` without white space at either end.
pub open spec fn trim(s: Seq<char>) -> Seq<char> {
    trim_end(trim_start(s))
}

/// Drops leading white space.
pub fn trimmed_start(s: &[char]) -> (w: Vec<char>)
    ensures
        w@ == trim_start(s@),
{
    let mut i: usize = 0;
    assert(s@.skip(0) =~= s@);
    while i < s.len() && space(s[i])
        invariant
            i <= s.len(),
            trim_start(s@) == trim_start(s@.skip(i as int)),
        decreases s.len() - i,
    {
        assert(s@.skip(i as int).drop_first() =~= s@.skip(i + 1));
        i += 1;
    }
    assert(s@.subrange(i as int, s@.len() as int) =~= s@.skip(i as int));
    sub_chars(s, i, s.len())
}

/// Drops white space at both ends.
pub fn trimmed(s: &[char]) -> (w: Vec<char>)
    ensures
        w@ == trim(s@),
{
    let a = trimmed_start(s);
    let mut n: usize = a.len();
    assert(a@.take(n as int) =~= a@);
    while n > 0 && space(a[n - 1])
        invariant
            n <= a.len(),
            trim_end(a@) == trim_end(a@.take(n as int)),
        decreases n,
    {
        assert(a@.take(n as int).drop_last() =~= a@.take(n - 1));
        n -= 1;
    }
    assert(a@.subrange(0, n as int) =~= a@.take(n as int));
    sub_chars(&a, 0, n)
}

/// Drops white space at both ends of a text.
pub fn trimmed_text(s: &str) -> (w: String)
    ensures
        w@ == trim(s@),
{
    let a = chars_of(s);
    let b = trimmed(&a);
    text_of(&b)
}

// ── Splitting ────────────────────────────────────────────────────────────────

/// The pieces of `s` between the separators `sep`; always at least one piece.
pub open spec fn split_on(s: Seq<char>, sep: char) -> Seq<Seq<char>>
    decreases s.len(),
{
    if s.len() == 0 {
        seq![Seq::empty()]
    } else {
        let r = split_on(s.drop_last(), sep);
        if s.last() == sep {
            r.push(Seq::empty())
        } else {
            r.drop_last().push(r.last().push(s.last()))
        }
    }
}

/// There is always at least one piece.
pub proof fn lemma_split_nonempty(s: Seq<char>, sep: char)
    ensures
        split_on(s, sep).len() >= 1,
    decreases s.len(),
{
    if s.len() > 0 {
        lemma_split_nonempty(s.drop_last(), sep);
    }
}

/// Splits at every `sep`.
pub fn split_at_char(s: &[char], sep: char) -> (v: Vec<Vec<char>>)
    ensures
        views(v@) == split_on(s@, sep),
        v.len() >= 1,
{
    let mut done: Vec<Vec<char>> = Vec::new();
    let mut cur: Vec<char> = Vec::new();
    let mut i: usize = 0;
    proof {
        assert(s@.take(0) =~= Seq::<char>::empty());
        assert(views(done@).push(cur@) =~= split_on(s@.take(0), sep));
    }
    while i < s.len()
        invariant
            i <= s.len(),
            views(done@).push(cur@) == split_on(s@.take(i as int), sep),
        decreases s.len() - i,
    {
        let ghost before = views(done@);
        let ghost piece = cur@;
        let c = s[i];
        proof {
            assert(s@.take(i + 1).drop_last() =~= s@.take(i as int));
            assert(before.push(piece).drop_last() =~= before);
        }
        if c == sep {
            done.push(cur);
            cur = Vec::new();
            assert(views(done@) =~= before.push(piece));
        } else {
            cur.push(c);
        }
        i += 1;
    }
    assert(s@.take(i as int) =~= s@);
    let ghost before = views(done@);
    let ghost piece = cur@;
    done.push(cur);
    assert(views(done@) =~= before.push(piece));
    done
}

/// The part of `s` before its first `sep`, and the part behind it.
pub open spec fn split_first(s: Seq<char>, sep: char) -> Option<(Seq<char>, Seq<char>)> {
    match s.index_of_first(sep) {
        Some(i) => Some((s.take(i), s.skip(i + 1))),
        None => None,
    }
}

/// The first position of `c` in `s`.
pub fn find_char(s: &[char], c: char) -> (r: Option<usize>)
    ensures
        match r {
            Some(i) => i < s@.len() && s@[i as int] == c && forall|j: int|
                0 <= j < i ==> s@[j] != c,
            None => !s@.contains(c),
        },
{
    let mut i: usize = 0;
    while i < s.len()
        invariant
            i <= s.len(),
            forall|j: int| 0 <= j < i ==> s@[j] != c,
        decreases s.len() - i,
    {
        if s[i] == c {
            return Some(i);
        }
        i += 1;
    }
    None
}

/// Splits at the first `sep`.
pub fn split_once_at(s: &[char], sep: char) -> (r: Option<(Vec<char>, Vec<char>)>)
    ensures
        match r {
            Some((a, b)) => split_first(s@, sep) == Some((a@, b@)),
            None => split_first(s@, sep) is None,
        },
{
    match find_char(s, sep) {
        Some(i) => {
            proof {
                s@.index_of_first_ensures(sep);
                assert(s@.contains(sep));
            }
            let n: usize = s.len();
            let a = sub_chars(s, 0, i);
            let b = sub_chars(s, i + 1, n);
            assert(a@ =~= s@.take(i as int));
            assert(b@ =~= s@.skip(i + 1));
            Some((a, b))
        },
        None => {
            proof {
                s@.index_of_first_ensures(sep);
            }
            None
        },
    }
}

/// One line of a text whose line break has been found: a carriage return before
/// the break belongs to it.
pub open spec fn without_cr(s: Seq<char>) -> Seq<char> {
    if s.len() > 0 && s.last() == '\r' {
        s.drop_last()
    } else {
        s
    }
}

/// The lines of a text. A break at the very end opens no further line.
pub open spec fn lines(s: Seq<char>) -> Seq<Seq<char>> {
    let p = split_on(s, '\n');
    let closed = Seq::new((p.len() - 1) as nat, |i: int| without_cr(p[i]));
    if p.last().len() == 0 {
        closed
    } else {
        closed.push(p.last())
    }
}

/// Splits a text into lines.
pub fn lines_of(s: &[char]) -> (v: Vec<Vec<char>>)
    ensures
        views(v@) == lines(s@),
{
    let mut p = split_at_char(s, '\n');
    let ghost pv = views(p@);
    let n: usize = p.len();
    let mut out: Vec<Vec<char>> = Vec::new();
    let mut i: usize = 0;
    while i + 1 < n
        invariant
            n == p.len(),
            n >= 1,
            i < n,
            pv == views(p@),
            out.len() == i,
            forall|j: int| 0 <= j < i ==> #[trigger] out[j]@ == without_cr(pv[j]),
        decreases n - i,
    {
        let k: usize = p[i].len();
        let line = if k > 0 && p[i][k - 1] == '\r' {
            let w = sub_chars(&p[i], 0, k - 1);
            assert(w@ =~= pv[i as int].drop_last());
            w
        } else {
            copy_chars(&p[i])
        };
        out.push(line);
        i += 1;
    }
    let ghost closed = Seq::new((pv.len() - 1) as nat, |i: int| without_cr(pv[i]));
    assert(views(out@) =~= closed);
    if p[n - 1].len() > 0 {
        let w = copy_chars(&p[n - 1]);
        out.push(w);
        assert(views(out@) =~= closed.push(pv.last()));
    }
    out
}

/// The lines of a text given as a string slice.
pub fn text_lines(s: &str) -> (v: Vec<Vec<char>>)
    ensures
        views(v@) == lines(s@),
{
    let a = chars_of(s);
    lines_of(&a)
}

/// Reading left to right: the words closed so far and the word still open.
pub open spec fn word_scan(s: Seq<char>) -> (Seq<Seq<char>>, Seq<char>)
    decreases s.len(),
{
    if s.len() == 0 {
        (Seq::empty(), Seq::empty())
    } else {
        let (done, cur) = word_scan(s.drop_last());
        if is_space(s.last()) {
            if cur.len() == 0 {
                (done, cur)
            } else {
                (done.push(cur), Seq::empty())
            }
        } else {
            (done, cur.push(s.last()))
        }
    }
}

/// The words of a text: its maximal runs without white space.
pub open spec fn words(s: Seq<char>) -> Seq<Seq<char>> {
    let (done, cur) = word_scan(s);
    if cur.len() == 0 {
        done
    } else {
        done.push(cur)
    }
}

/// Splits at white space.
pub fn words_of(s: &[char]) -> (v: Vec<Vec<char>>)
    ensures
        views(v@) == words(s@),
{
    let mut done: Vec<Vec<char>> = Vec::new();
    let mut cur: Vec<char> = Vec::new();
    let mut i: usize = 0;
    proof {
        assert(s@.take(0) =~= Seq::<char>::empty());
        assert(views(done@) =~= word_scan(s@.take(0)).0);
    }
    while i < s.len()
        invariant
            i <= s.len(),
            (views(done@), cur@) == word_scan(s@.take(i as int)),
        decreases s.len() - i,
    {
        let ghost before = views(done@);
        let ghost piece = cur@;
        assert(s@.take(i + 1).drop_last() =~= s@.take(i as int));
        if space(s[i]) {
            if cur.len() > 0 {
                done.push(cur);
                cur = Vec::new();
                assert(views(done@) =~= before.push(piece));
            }
        } else {
            cur.push(s[i]);
        }
        i += 1;
    }
    assert(s@.take(i as int) =~= s@);
    if cur.len() > 0 {
        let ghost before = views(done@);
        let ghost piece = cur@;
        done.push(cur);
        assert(views(done@) =~= before.push(piece));
    }
    done
}

/// The pieces that are not empty, in order.
pub open spec fn nonempty(p: Seq<Seq<char>>) -> Seq<Seq<char>>
    decreases p.len(),
{
    if p.len() == 0 {
        p
    } else if p.last().len() > 0 {
        nonempty(p.drop_last()).push(p.last())
    } else {
        nonempty(p.drop_last())
    }
}

/// Drops the empty pieces.
pub fn without_empty(p: Vec<Vec<char>>) -> (r: Vec<Vec<char>>)
    ensures
        views(r@) == nonempty(views(p@)),
{
    let mut r: Vec<Vec<char>> = Vec::new();
    let mut i: usize = 0;
    let ghost all = views(p@);
    proof {
        assert(all.take(0) =~= Seq::<Seq<char>>::empty());
        assert(views(r@) =~= nonempty(all.take(0)));
    }
    while i < p.len()
        invariant
            i <= p.len(),
            all == views(p@),
            views(r@) == nonempty(all.take(i as int)),
        decreases p.len() - i,
    {
        assert(all.take(i + 1).drop_last() =~= all.take(i as int));
        let ghost before = views(r@);
        if p[i].len() > 0 {
            r.push(copy_chars(&p[i]));
            assert(views(r@) =~= before.push(all[i as int]));
        }
        i += 1;
    }
    assert(all.take(i as int) =~= all);
    r
}

/// The pieces joined with `sep` between neighbours.
pub open spec fn join(parts: Seq<Seq<char>>, sep: Seq<char>) -> Seq<char>
    decreases parts.len(),
{
    if parts.len() == 0 {
        Seq::empty()
    } else if parts.len() == 1 {
        parts[0]
    } else {
        join(parts.drop_last(), sep) + sep + parts.last()
    }
}

/// Joins texts with a separator.
pub fn joined(parts: &Vec<String>, sep: &str) -> (s: String)
    ensures
        s@ == join(texts(parts@), sep@),
{
    let mut s = String::new();
    let mut i: usize = 0;
    let ghost all = texts(parts@);
    while i < parts.len()
        invariant
            i <= parts.len(),
            all == texts(parts@),
            s@ == join(all.take(i as int), sep@),
        decreases parts.len() - i,
    {
        assert(all.take(i + 1).drop_last() =~= all.take(i as int));
        if i > 0 {
            s.append(sep);
        }
        s.append(parts[i].as_str());
        proof {
            if i == 0 {
                assert(s@ =~= all[0]);
            }
        }
        i += 1;
    }
    assert(all.take(i as int) =~= all);
    s
}

// ── Order ────────────────────────────────────────────────────────────────────

/// Lexicographic order by code points.
pub open spec fn text_le(a: Seq<char>, b: Seq<char>) -> bool
    decreases a.len(),
{
    if a.len() == 0 {
        true
    } else if b.len() == 0 {
        false
    } else if a[0] == b[0] {
        text_le(a.drop_first(), b.drop_first())
    } else {
        (a[0] as int) < (b[0] as int)
    }
}

/// The code point of a character.
pub fn code_point(c: char) -> (n: u32)
    ensures
        n as int == c as int,
{
    c as u32
}

/// Whether `a` is at most `b`.
pub fn at_most(a: &[char], b: &[char]) -> (r: bool)
    ensures
        r == text_le(a@, b@),
{
    let mut i: usize = 0;
    proof {
        assert(a@.skip(0) =~= a@);
        assert(b@.skip(0) =~= b@);
    }
    while i < a.len() && i < b.len()
        invariant
            i <= a.len(),
            i <= b.len(),
            text_le(a@, b@) == text_le(a@.skip(i as int), b@.skip(i as int)),
        decreases a.len() - i,
    {
        if a[i] != b[i] {
            return code_point(a[i]) < code_point(b[i]);
        }
        assert(a@.skip(i as int).drop_first() =~= a@.skip(i + 1));
        assert(b@.skip(i as int).drop_first() =~= b@.skip(i + 1));
        i += 1;
    }
    i == a.len()
}

/// The order is total.
pub proof fn lemma_text_le_total(a: Seq<char>, b: Seq<char>)
    ensures
        text_le(a, b) || text_le(b, a),
    decreases a.len(),
{
    if a.len() > 0 && b.len() > 0 {
        if a[0] == b[0] {
            lemma_text_le_total(a.drop_first(), b.drop_first());
        }
    }
}

/// The order is transitive.
pub proof fn lemma_text_le_transitive(a: Seq<char>, b: Seq<char>, c: Seq<char>)
    requires
        text_le(a, b),
        text_le(b, c),
    ensures
        text_le(a, c),
    decreases a.len(),
{
    if a.len() > 0 && b.len() > 0 && c.len() > 0 {
        if a[0] == b[0] && b[0] == c[0] {
            lemma_text_le_transitive(a.drop_first(), b.drop_first(), c.drop_first());
        }
    }
}

/// Texts that are each at most the other are equal.
pub proof fn lemma_text_le_antisymmetric(a: Seq<char>, b: Seq<char>)
    requires
        text_le(a, b),
        text_le(b, a),
    ensures
        a == b,
    decreases a.len(),
{
    if a.len() > 0 && b.len() > 0 {
        lemma_text_le_antisymmetric(a.drop_first(), b.drop_first());
        assert(a =~= seq![a[0]] + a.drop_first());
        assert(b =~= seq![b[0]] + b.drop_first());
    } else {
        assert(a =~= b);
    }
}

// ── Properties ───────────────────────────────────────────────────────────────

/// A text is found in another just where it stands between two further texts.
pub proof fn law_substring_stands_between(s: Seq<char>, p: Seq<char>)
    ensures
        has_substring(s, p) <==> exists|a: Seq<char>, b: Seq<char>| s == #[trigger] (a + p + b),
{
    if has_substring(s, p) {
        let i = choose|i: int| occurs_at(s, p, i);
        let (a, b) = (s.take(i), s.skip(i + p.len()));
        assert(s =~= a + p + b);
    }
    if exists|a: Seq<char>, b: Seq<char>| s == #[trigger] (a + p + b) {
        let (a, b) = choose|a: Seq<char>, b: Seq<char>| s == #[trigger] (a + p + b);
        lemma_substring_of_concat(a, p, b);
    }
}

/// Leading blanks are dropped.
proof fn lemma_trim_head(a: Seq<char>, t: Seq<char>)
    requires
        forall|i: int| 0 <= i < a.len() ==> is_space(#[trigger] a[i]),
    ensures
        trim_start(a + t) == trim_start(t),
    decreases a.len(),
{
    if a.len() == 0 {
        assert(a + t =~= t);
    } else {
        assert((a + t)[0] == a[0]);
        assert((a + t).drop_first() =~= a.drop_first() + t);
        lemma_trim_head(a.drop_first(), t);
    }
}

/// Trailing blanks are dropped.
proof fn lemma_trim_tail(t: Seq<char>, b: Seq<char>)
    requires
        forall|i: int| 0 <= i < b.len() ==> is_space(#[trigger] b[i]),
    ensures
        trim_end(t + b) == trim_end(t),
    decreases b.len(),
{
    if b.len() == 0 {
        assert(t + b =~= t);
    } else {
        assert((t + b).last() == b.last());
        assert((t + b).drop_last() =~= t + b.drop_last());
        lemma_trim_tail(t, b.drop_last());
    }
}

/// Blanks about a text that neither begins nor ends with one are dropped, and nothing
/// else is.
pub proof fn law_trim_drops_blanks(a: Seq<char>, s: Seq<char>, b: Seq<char>)
    requires
        forall|i: int| 0 <= i < a.len() ==> is_space(#[trigger] a[i]),
        forall|i: int| 0 <= i < b.len() ==> is_space(#[trigger] b[i]),
        s.len() > 0 ==> !is_space(s[0]) && !is_space(s.last()),
    ensures
        trim(a + s + b) == s,
{
    assert(a + s + b =~= a + (s + b));
    lemma_trim_head(a, s + b);
    if s.len() > 0 {
        assert((s + b)[0] == s[0]);
        lemma_trim_tail(s, b);
    } else {
        assert(s + b =~= b + s);
        lemma_trim_head(b, s);
        assert(s =~= Seq::<char>::empty());
    }
}

/// Blank, tabulator and line breaks are white space; visible ASCII characters are not.
pub proof fn law_visible_characters_are_no_blanks(c: char)
    ensures
        c == ' ' || c == '\t' || c == '\n' || c == '\r' ==> is_space(c),
        '!' <= c <= '~' ==> !is_space(c),
{
}

/// A text without the separator is one piece.
proof fn lemma_split_one(a: Seq<char>, sep: char)
    requires
        !a.contains(sep),
    ensures
        split_on(a, sep) == seq![a],
    decreases a.len(),
{
    if a.len() == 0 {
        assert(a =~= Seq::<char>::empty());
    } else {
        let d = a.drop_last();
        assert(a.contains(a.last())) by {
            assert(a[a.len() - 1] == a.last());
        }
        assert(!d.contains(sep)) by {
            if d.contains(sep) {
                let k = choose|k: int| 0 <= k < d.len() && d[k] == sep;
                assert(a[k] == sep);
            }
        }
        lemma_split_one(d, sep);
        assert(seq![d].drop_last().push(d.push(a.last())) =~= seq![a]) by {
            assert(d.push(a.last()) =~= a);
        }
    }
}

/// The first separator ends the first piece; what stands behind it is split on its own.
pub proof fn law_pieces_end_at_separators(a: Seq<char>, b: Seq<char>, sep: char)
    requires
        !a.contains(sep),
    ensures
        split_on(a, sep) == seq![a],
        split_on(a + seq![sep] + b, sep) == seq![a] + split_on(b, sep),
    decreases b.len(),
{
    lemma_split_one(a, sep);
    let s = a + seq![sep] + b;
    if b.len() == 0 {
        assert(s =~= a.push(sep));
        assert(s.drop_last() =~= a);
        assert(seq![a].push(Seq::<char>::empty()) =~= seq![a] + split_on(b, sep)) by {
            assert(b =~= Seq::<char>::empty());
        }
    } else {
        let d = b.drop_last();
        law_pieces_end_at_separators(a, d, sep);
        assert(s.drop_last() =~= a + seq![sep] + d);
        assert(s.last() == b.last());
        lemma_split_nonempty(d, sep);
        let (r, q) = (split_on(s.drop_last(), sep), split_on(d, sep));
        assert(r == seq![a] + q);
        if b.last() == sep {
            assert(r.push(Seq::<char>::empty()) =~= seq![a] + q.push(Seq::<char>::empty()));
        } else {
            assert(r.last() == q.last());
            let last = q.last().push(b.last());
            assert(r.drop_last().push(last) =~= seq![a] + q.drop_last().push(last));
        }
    }
}

/// A line ends at its break, and a carriage return before the break belongs to it.
/// What stands behind the break is taken apart on its own.
pub proof fn law_lines_end_at_breaks(a: Seq<char>, b: Seq<char>)
    requires
        !a.contains('\n'),
    ensures
        lines(a + seq!['\n'] + b) == seq![without_cr(a)] + lines(b),
        lines(a) == if a.len() == 0 {
            Seq::<Seq<char>>::empty()
        } else {
            seq![a]
        },
        a.len() > 0 && a.last() == '\r' ==> without_cr(a) == a.drop_last(),
        a.len() == 0 || a.last() != '\r' ==> without_cr(a) == a,
{
    law_pieces_end_at_separators(a, b, '\n');
    lemma_split_nonempty(b, '\n');
    let s = a + seq!['\n'] + b;
    assert(split_on(s, '\n').last() == split_on(b, '\n').last());
    assert(lines(s) =~= seq![without_cr(a)] + lines(b));
    assert(lines(a) =~= if a.len() == 0 {
        Seq::<Seq<char>>::empty()
    } else {
        seq![a]
    });
}

/// What was read of words up to a blank stays.
proof fn lemma_scan_behind(a: Seq<char>, c: char, b: Seq<char>)
    requires
        is_space(c),
    ensures
        word_scan(a + seq![c] + b).0 == words(a) + word_scan(b).0,
        word_scan(a + seq![c] + b).1 == word_scan(b).1,
    decreases b.len(),
{
    let s = a + seq![c] + b;
    if b.len() == 0 {
        assert(s.drop_last() =~= a);
        assert(s.last() == c);
        assert(words(a) + Seq::<Seq<char>>::empty() =~= words(a));
        assert(word_scan(s).1 =~= Seq::<char>::empty());
    } else {
        let d = b.drop_last();
        lemma_scan_behind(a, c, d);
        assert(s.drop_last() =~= a + seq![c] + d);
        assert(s.last() == b.last());
        let (done, cur) = word_scan(d);
        assert((words(a) + done).push(cur) =~= words(a) + done.push(cur));
    }
}

/// A run without white space is read as it is.
proof fn lemma_scan_run(w: Seq<char>)
    requires
        forall|i: int| 0 <= i < w.len() ==> !is_space(#[trigger] w[i]),
    ensures
        word_scan(w).0 == Seq::<Seq<char>>::empty(),
        word_scan(w).1 == w,
    decreases w.len(),
{
    if w.len() > 0 {
        let d = w.drop_last();
        assert forall|i: int| 0 <= i < d.len() implies !is_space(#[trigger] d[i]) by {
            assert(d[i] == w[i]);
        }
        lemma_scan_run(d);
        assert(!is_space(w[w.len() - 1]));
        assert(d.push(w.last()) =~= w);
    } else {
        assert(w =~= Seq::<char>::empty());
    }
}

/// White space separates words and belongs to none; a run without white space is one
/// word.
pub proof fn law_words_stand_between_blanks(a: Seq<char>, c: char, b: Seq<char>, w: Seq<char>)
    requires
        is_space(c),
        forall|i: int| 0 <= i < w.len() ==> !is_space(#[trigger] w[i]),
    ensures
        words(a + seq![c] + b) == words(a) + words(b),
        words(w) == if w.len() == 0 {
            Seq::<Seq<char>>::empty()
        } else {
            seq![w]
        },
{
    lemma_scan_behind(a, c, b);
    lemma_scan_run(w);
    let (done, cur) = word_scan(b);
    assert((words(a) + done).push(cur) =~= words(a) + done.push(cur));
    assert(words(w) =~= if w.len() == 0 {
        Seq::<Seq<char>>::empty()
    } else {
        seq![w]
    });
}

/// A separator parts a text into two that are split on their own.
pub proof fn law_split_parts_at_any_separator(a: Seq<char>, b: Seq<char>, sep: char)
    ensures
        split_on(a + seq![sep] + b, sep) == split_on(a, sep) + split_on(b, sep),
    decreases b.len(),
{
    let s = a + seq![sep] + b;
    let p = split_on(a, sep);
    if b.len() == 0 {
        assert(s =~= a.push(sep));
        assert(s.drop_last() =~= a);
        assert(b =~= Seq::<char>::empty());
        assert(p.push(Seq::<char>::empty()) =~= p + split_on(b, sep));
    } else {
        let d = b.drop_last();
        law_split_parts_at_any_separator(a, d, sep);
        assert(s.drop_last() =~= a + seq![sep] + d);
        assert(s.last() == b.last());
        lemma_split_nonempty(d, sep);
        let (r, q) = (split_on(s.drop_last(), sep), split_on(d, sep));
        if b.last() == sep {
            assert(r.push(Seq::<char>::empty()) =~= p + q.push(Seq::<char>::empty()));
        } else {
            assert(r.last() == q.last());
            let last = q.last().push(b.last());
            assert(r.drop_last().push(last) =~= p + q.drop_last().push(last));
        }
    }
}

/// A line break parts a text into two that are taken apart on their own.
pub proof fn law_lines_part_at_any_break(a: Seq<char>, b: Seq<char>)
    ensures
        lines(a + seq!['\n'] + b) == lines(a + seq!['\n']) + lines(b),
{
    law_split_parts_at_any_separator(a, b, '\n');
    law_split_parts_at_any_separator(a, Seq::empty(), '\n');
    assert(a + seq!['\n'] + Seq::<char>::empty() =~= a + seq!['\n']);
    lemma_split_nonempty(a, '\n');
    lemma_split_nonempty(b, '\n');
    let (p, q) = (split_on(a, '\n'), split_on(b, '\n'));
    let none = split_on(Seq::<char>::empty(), '\n');
    assert(none =~= seq![Seq::<char>::empty()]);
    assert((p + none).last() =~= Seq::<char>::empty());
    assert((p + q).last() == q.last());
    assert(lines(a + seq!['\n'] + b) =~= lines(a + seq!['\n']) + lines(b));
}

/// A text is cut at the first separator.
pub proof fn law_cut_at_the_first(a: Seq<char>, b: Seq<char>, sep: char)
    requires
        !a.contains(sep),
    ensures
        split_first(a + seq![sep] + b, sep) == Some((a, b)),
        split_first(a, sep) is None,
{
    let s = a + seq![sep] + b;
    s.index_of_first_ensures(sep);
    a.index_of_first_ensures(sep);
    assert(s[a.len() as int] == sep);
    let i = s.index_of_first(sep)->0;
    if i < a.len() {
        assert(a[i] == sep);
    }
    assert(i == a.len());
    assert(s.take(i) =~= a);
    assert(s.skip(i + 1) =~= b);
}

/// A text holds the separator at which it is cut.
pub proof fn law_cut_leaves_both_sides(s: Seq<char>, sep: char)
    ensures
        split_first(s, sep) matches Some((a, b)) ==> s == a + seq![sep] + b && !a.contains(sep),
        split_first(s, sep) is None ==> !s.contains(sep),
{
    s.index_of_first_ensures(sep);
    if split_first(s, sep) is Some {
        let i = s.index_of_first(sep)->0;
        assert(s =~= s.take(i) + seq![sep] + s.skip(i + 1));
        if s.take(i).contains(sep) {
            let j = choose|j: int| 0 <= j < i && s.take(i)[j] == sep;
            assert(s[j] == sep);
        }
    }
}

/// What is left of a trimmed text is a part of it.
pub proof fn law_trimmed_text_is_a_part(s: Seq<char>)
    ensures
        has_substring(s, trim(s)),
{
    let a = lemma_trimmed_head(s);
    let b = lemma_trimmed_tail(trim_start(s));
    assert(s =~= a + trim(s) + b);
    law_substring_stands_between(s, trim(s));
}

/// What stands before the trimmed text.
proof fn lemma_trimmed_head(s: Seq<char>) -> (a: Seq<char>)
    ensures
        s == a + trim_start(s),
    decreases s.len(),
{
    if s.len() > 0 && is_space(s[0]) {
        let a = lemma_trimmed_head(s.drop_first());
        let t = trim_start(s);
        assert(s.drop_first() == a + t);
        assert(s =~= seq![s[0]] + s.drop_first());
        assert(s =~= (seq![s[0]] + a) + t);
        seq![s[0]] + a
    } else {
        assert(s =~= Seq::<char>::empty() + s);
        Seq::empty()
    }
}

/// What stands behind the trimmed text.
proof fn lemma_trimmed_tail(s: Seq<char>) -> (b: Seq<char>)
    ensures
        s == trim_end(s) + b,
    decreases s.len(),
{
    if s.len() > 0 && is_space(s.last()) {
        let b = lemma_trimmed_tail(s.drop_last());
        let t = trim_end(s);
        assert(s.drop_last() == t + b);
        assert(s =~= s.drop_last().push(s.last()));
        assert(s =~= t + b.push(s.last()));
        b.push(s.last())
    } else {
        assert(s =~= s + Seq::<char>::empty());
        Seq::empty()
    }
}

/// A part of a part is a part.
pub proof fn law_parts_of_parts(s: Seq<char>, a: Seq<char>, t: Seq<char>, b: Seq<char>, p: Seq<char>)
    requires
        s == a + t + b,
        has_substring(t, p),
    ensures
        has_substring(s, p),
{
    law_substring_stands_between(t, p);
    let (x, y) = choose|x: Seq<char>, y: Seq<char>| t == #[trigger] (x + p + y);
    assert(s =~= (a + x) + p + (y + b));
    law_substring_stands_between(s, p);
}

/// A text without the separator is one piece.
pub proof fn law_one_piece(a: Seq<char>, sep: char)
    requires
        !a.contains(sep),
    ensures
        split_on(a, sep) == seq![a],
{
    lemma_split_one(a, sep);
}

/// A text begins with another where that and something behind it make up the text.
pub proof fn law_prefix_is_the_beginning(s: Seq<char>, p: Seq<char>)
    ensures
        has_prefix(s, p) <==> exists|b: Seq<char>| s == #[trigger] (p + b),
{
    if has_prefix(s, p) {
        assert(s =~= p + s.skip(p.len() as int));
    }
    if exists|b: Seq<char>| s == #[trigger] (p + b) {
        let b = choose|b: Seq<char>| s == #[trigger] (p + b);
        assert(s.take(p.len() as int) =~= p);
    }
}

/// A text ends with another where something before it and that make up the text.
pub proof fn law_suffix_is_the_end(s: Seq<char>, p: Seq<char>)
    ensures
        has_suffix(s, p) <==> exists|a: Seq<char>| s == #[trigger] (a + p),
{
    if has_suffix(s, p) {
        assert(s =~= s.take(s.len() - p.len()) + p);
    }
    if exists|a: Seq<char>| s == #[trigger] (a + p) {
        let a = choose|a: Seq<char>| s == #[trigger] (a + p);
        assert(s.skip(s.len() - p.len()) =~= p);
    }
}

/// A text is cut at the first place at which another stands in it.
pub proof fn law_cut_at_the_first_text(a: Seq<char>, p: Seq<char>, b: Seq<char>)
    requires
        p.len() > 0,
        !has_substring(a + p.drop_last(), p),
    ensures
        cut_at(a + p + b, p) == Some((a, b)),
{
    let s = a + p + b;
    let n = a.len() as int;
    assert(s.subrange(n, n + p.len()) =~= p);
    assert(occurs_at(s, p, n));
    let t = a + p.drop_last();
    assert forall|j: int| 0 <= j < n implies !occurs_at(s, p, j) by {
        if occurs_at(s, p, j) {
            assert(t.subrange(j, j + p.len()) =~= s.subrange(j, j + p.len()));
            assert(occurs_at(t, p, j));
        }
    }
    let i = first_place(s, p);
    assert(occurs_at(s, p, i) && forall|j: int| 0 <= j < i ==> !occurs_at(s, p, j));
    assert(i == n);
    assert(s.take(n) =~= a);
    assert(s.skip(n + p.len()) =~= b);
}

/// The character at which two texts differ first decides their order; a text comes before
/// any longer one that begins with it.
pub proof fn law_first_difference_decides(
    a: &[char],
    b: &[char],
    r: bool,
    p: Seq<char>,
    x: Seq<char>,
    y: Seq<char>,
)
    requires
        call_ensures(at_most, (a, b), r),
        a@ == p + x,
        b@ == p + y,
    ensures
        x.len() == 0 ==> r,
        x.len() > 0 && y.len() == 0 ==> !r,
        x.len() > 0 && y.len() > 0 && x[0] != y[0] ==> (r <==> (x[0] as int) < (y[0] as int)),
{
    lemma_common_beginning(p, x, y);
}

/// What two texts begin with does not decide their order.
proof fn lemma_common_beginning(p: Seq<char>, x: Seq<char>, y: Seq<char>)
    ensures
        text_le(p + x, p + y) == text_le(x, y),
    decreases p.len(),
{
    if p.len() == 0 {
        assert(p + x =~= x && p + y =~= y);
    } else {
        let (s, t) = (p + x, p + y);
        assert(s.drop_first() =~= p.drop_first() + x);
        assert(t.drop_first() =~= p.drop_first() + y);
        lemma_common_beginning(p.drop_first(), x, y);
    }
}

} // verus!
