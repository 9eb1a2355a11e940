//! The list notation for sets of logical CPUs, such as `0-7,16-23`.

use vstd::prelude::*;
use vstd::string::*;

use crate::idset::{increasing, lemma_increasing_unique, IdSet};
use crate::number::{
    dec, is_digit, law_decimal_round_trip, lemma_dec_digits, parse_nat, push_dec, read_u32,
};
use crate::text::{
    chars_of, is_space, join, joined, split_at_char, split_first, split_on, split_once_at,
    texts, trim, trimmed, views,
};

verus! {

/// A text that is no CPU list.
#[derive(Debug, PartialEq, Eq, Structural, Clone, Copy)]
pub struct BadCpuList;

// ── Writing ──────────────────────────────────────────────────────────────────

/// The maximal runs of consecutive numbers, as (first, last).
pub open spec fn ranges(s: Seq<u32>) -> Seq<(u32, u32)>
    decreases s.len(),
{
    if s.len() == 0 {
        Seq::empty()
    } else {
        let r = ranges(s.drop_last());
        if r.len() > 0 && r.last().1 + 1 == s.last() {
            r.drop_last().push((r.last().0, s.last()))
        } else {
            r.push((s.last(), s.last()))
        }
    }
}

/// One run: `5`, or `8-15`.
pub open spec fn range_text(r: (u32, u32)) -> Seq<char> {
    if r.0 == r.1 {
        dec(r.0 as nat)
    } else {
        dec(r.0 as nat) + seq!['-'] + dec(r.1 as nat)
    }
}

/// The runs as texts.
pub open spec fn range_texts(r: Seq<(u32, u32)>) -> Seq<Seq<char>> {
    Seq::new(r.len(), |i: int| range_text(r[i]))
}

/// The list notation of the numbers `s`, given in ascending order.
pub open spec fn cpulist(s: Seq<u32>) -> Seq<char> {
    join(range_texts(ranges(s)), ","@)
}

/// Appends the list notation of one run.
fn range_string(a: u32, b: u32) -> (s: String)
    ensures
        s@ == range_text((a, b)),
{
    let mut s = String::new();
    push_dec(&mut s, a as u64);
    if a != b {
        s.push('-');
        push_dec(&mut s, b as u64);
    }
    assert(s@ =~= range_text((a, b)));
    s
}

/// The list notation of a set.
pub fn cpuset_to_cpulist(cpus: &IdSet) -> (s: String)
    ensures
        s@ == cpulist(cpus.order()),
{
    let items = cpus.items();
    let mut runs: Vec<(u32, u32)> = Vec::new();
    let mut i: usize = 0;
    proof {
        assert(items@.take(0) =~= Seq::<u32>::empty());
        assert(runs@ =~= ranges(items@.take(0)));
    }
    while i < items.len()
        invariant
            i <= items.len(),
            runs@ == ranges(items@.take(i as int)),
        decreases items.len() - i,
    {
        let x: u32 = items[i];
        assert(items@.take(i + 1).drop_last() =~= items@.take(i as int));
        let n: usize = runs.len();
        if n > 0 && runs[n - 1].1 < x && runs[n - 1].1 + 1 == x {
            let a: u32 = runs[n - 1].0;
            runs.pop();
            runs.push((a, x));
        } else {
            runs.push((x, x));
        }
        i += 1;
    }
    assert(items@.take(i as int) =~= items@);
    let mut parts: Vec<String> = Vec::new();
    let mut k: usize = 0;
    while k < runs.len()
        invariant
            k <= runs.len(),
            parts.len() == k,
            forall|j: int| 0 <= j < k ==> #[trigger] parts[j]@ == range_text(runs[j]),
        decreases runs.len() - k,
    {
        parts.push(range_string(runs[k].0, runs[k].1));
        k += 1;
    }
    assert(texts(parts@) =~= range_texts(runs@));
    joined(&parts, ",")
}

// ── Reading ──────────────────────────────────────────────────────────────────

/// The numbers from `a` to `b`.
pub open spec fn span(a: u32, b: u32) -> Set<u32> {
    Set::new(|c: u32| a <= c <= b)
}

/// A number, without white space round it.
pub open spec fn parse_cpu(p: Seq<char>) -> Option<u32> {
    match parse_nat(trim(p), u32::MAX as nat) {
        Some(n) => Some(n as u32),
        None => None,
    }
}

/// One entry of a list: a number, or a first and a last number with `-` between.
pub open spec fn parse_range(p: Seq<char>) -> Option<(u32, u32)> {
    match split_first(p, '-') {
        Some((a, b)) => match (parse_cpu(a), parse_cpu(b)) {
            (Some(x), Some(y)) => if x <= y {
                Some((x, y))
            } else {
                None
            },
            _ => None,
        },
        None => match parse_cpu(p) {
            Some(x) => Some((x, x)),
            None => None,
        },
    }
}

/// The CPUs of a list's entries; blank entries name none.
pub open spec fn parse_entries(p: Seq<Seq<char>>) -> Option<Set<u32>>
    decreases p.len(),
{
    if p.len() == 0 {
        Some(Set::empty())
    } else {
        match parse_entries(p.drop_last()) {
            None => None,
            Some(s) => if trim(p.last()).len() == 0 {
                Some(s)
            } else {
                match parse_range(p.last()) {
                    Some((a, b)) => Some(s.union(span(a, b))),
                    None => None,
                }
            },
        }
    }
}

/// The CPUs that a list names.
pub open spec fn parse_cpulist(s: Seq<char>) -> Option<Set<u32>> {
    parse_entries(split_on(s, ','))
}

/// Reads one number.
fn read_cpu(p: &[char]) -> (r: Option<u32>)
    ensures
        r == parse_cpu(p@),
{
    let t = trimmed(p);
    read_u32(&t)
}

/// Reads one entry.
fn read_range(p: &[char]) -> (r: Option<(u32, u32)>)
    ensures
        r == parse_range(p@),
{
    match split_once_at(p, '-') {
        Some((a, b)) => match (read_cpu(&a), read_cpu(&b)) {
            (Some(x), Some(y)) => if x <= y {
                Some((x, y))
            } else {
                None
            },
            _ => None,
        },
        None => match read_cpu(p) {
            Some(x) => Some((x, x)),
            None => None,
        },
    }
}

/// The CPUs that a list names; an entry that is neither a number nor an
/// ascending range makes the whole list bad.
pub fn cpulist_to_set(list: &str) -> (r: Result<IdSet, BadCpuList>)
    ensures
        match r {
            Ok(s) => parse_cpulist(list@) == Some(s@),
            Err(_) => parse_cpulist(list@) is None,
        },
{
    let cs = chars_of(list);
    let entries = split_at_char(&cs, ',');
    let ghost all = views(entries@);
    let mut r = IdSet::new();
    let mut i: usize = 0;
    assert(all.take(0) =~= Seq::<Seq<char>>::empty());
    while i < entries.len()
        invariant
            i <= entries.len(),
            all == views(entries@),
            all == split_on(list@, ','),
            parse_entries(all.take(i as int)) == Some(r@),
        decreases entries.len() - i,
    {
        proof {
            assert(all.take(i + 1).drop_last() =~= all.take(i as int));
            assert(all.take(i + 1).last() == entries@[i as int]@);
        }
        let t = trimmed(&entries[i]);
        if t.len() > 0 {
            match read_range(&entries[i]) {
                None => {
                    proof {
                        lemma_entries_bad(all, i + 1);
                    }
                    return Err(BadCpuList);
                },
                Some((a, b)) => {
                    let ghost before = r@;
                    let mut c: u32 = a;
                    let mut more: bool = true;
                    assert(r@ =~= before.union(Set::new(|x: u32| a <= x < c)));
                    while more
                        invariant
                            a <= c <= b,
                            more ==> r@ == before.union(Set::new(|x: u32| a <= x < c)),
                            !more ==> r@ == before.union(span(a, b)),
                        decreases (if more { b - c + 1 } else { 0 }),
                    {
                        r.insert(c);
                        if c == b {
                            more = false;
                            assert(r@ =~= before.union(span(a, b)));
                        } else {
                            c += 1;
                            assert(r@ =~= before.union(Set::new(|x: u32| a <= x < c)));
                        }
                    }
                },
            }
        }
        i += 1;
    }
    assert(all.take(i as int) =~= all);
    Ok(r)
}

/// A list with a bad beginning is bad.
proof fn lemma_entries_bad(p: Seq<Seq<char>>, n: int)
    requires
        0 <= n <= p.len(),
        parse_entries(p.take(n)) is None,
    ensures
        parse_entries(p) is None,
    decreases p.len() - n,
{
    if n == p.len() {
        assert(p.take(n) =~= p);
    } else {
        assert(p.take(n + 1).drop_last() =~= p.take(n));
        lemma_entries_bad(p, n + 1);
    }
}

// ── Writing and reading back ─────────────────────────────────────────────────

/// A text without the separator is one piece.
proof fn lemma_split_one(b: Seq<char>, sep: char)
    requires
        !b.contains(sep),
    ensures
        split_on(b, sep) == seq![b],
    decreases b.len(),
{
    if b.len() == 0 {
        assert(b =~= Seq::<char>::empty());
        assert(split_on(b, sep) =~= seq![b]);
    } else {
        let d = b.drop_last();
        assert forall|i: int| 0 <= i < d.len() implies d[i] != sep by {
            assert(b[i] == d[i]);
        }
        assert(b.last() != sep) by {
            assert(b.contains(b.last()));
        }
        lemma_split_one(d, sep);
        assert(d.push(b.last()) =~= b);
        assert(split_on(b, sep) =~= seq![b]);
    }
}

/// A piece without the separator, set behind a separator, is the last piece.
proof fn lemma_split_append(a: Seq<char>, b: Seq<char>, sep: char)
    requires
        !b.contains(sep),
    ensures
        split_on(a + seq![sep] + b, sep) == split_on(a, sep).push(b),
    decreases b.len(),
{
    let t = a + seq![sep] + b;
    if b.len() == 0 {
        assert(t.drop_last() =~= a);
        assert(b =~= Seq::<char>::empty());
    } else {
        let d = b.drop_last();
        assert forall|i: int| 0 <= i < d.len() implies d[i] != sep by {
            assert(b[i] == d[i]);
        }
        assert(b.last() != sep) by {
            assert(b.contains(b.last()));
        }
        lemma_split_append(a, d, sep);
        assert(t.drop_last() =~= a + seq![sep] + d);
        let r = split_on(a, sep).push(d);
        assert(r.drop_last() =~= split_on(a, sep));
        assert(d.push(b.last()) =~= b);
    }
}

/// Splitting undoes joining where no piece holds the separator.
pub proof fn lemma_split_join(parts: Seq<Seq<char>>, sep: char)
    requires
        parts.len() > 0,
        forall|i: int| 0 <= i < parts.len() ==> !(#[trigger] parts[i]).contains(sep),
    ensures
        split_on(join(parts, seq![sep]), sep) == parts,
    decreases parts.len(),
{
    if parts.len() == 1 {
        lemma_split_one(parts[0], sep);
        assert(parts =~= seq![parts[0]]);
    } else {
        let d = parts.drop_last();
        assert forall|i: int| 0 <= i < d.len() implies !(#[trigger] d[i]).contains(sep) by {
            assert(d[i] == parts[i]);
        }
        lemma_split_join(d, sep);
        lemma_split_append(join(d, seq![sep]), parts.last(), sep);
        assert(d.push(parts.last()) =~= parts);
    }
}

/// Trimming keeps a text that neither begins nor ends with white space.
pub proof fn lemma_trim_id(s: Seq<char>)
    requires
        s.len() > 0 ==> !is_space(s[0]) && !is_space(s.last()),
    ensures
        trim(s) == s,
{
}

/// Digits are trimmed to themselves and hold no separator.
proof fn lemma_dec_plain(n: nat)
    ensures
        trim(dec(n)) == dec(n),
        dec(n).len() >= 1,
        !dec(n).contains('-'),
        !dec(n).contains(','),
{
    lemma_dec_digits(n);
    let s = dec(n);
    assert(is_digit(s[0]) && is_digit(s[s.len() - 1]));
    lemma_trim_id(s);
    assert forall|i: int| 0 <= i < s.len() implies s[i] != '-' && s[i] != ',' by {
        assert(is_digit(s[i]));
    }
}

/// A written run is read back as itself.
proof fn lemma_range_round_trip(a: u32, b: u32)
    requires
        a <= b,
    ensures
        parse_range(range_text((a, b))) == Some((a, b)),
        trim(range_text((a, b))).len() > 0,
        !range_text((a, b)).contains(','),
{
    lemma_dec_plain(a as nat);
    lemma_dec_plain(b as nat);
    law_decimal_round_trip(a as nat, u32::MAX as nat);
    law_decimal_round_trip(b as nat, u32::MAX as nat);
    let (x, y) = (dec(a as nat), dec(b as nat));
    let t = range_text((a, b));
    t.index_of_first_ensures('-');
    if a != b {
        assert(t =~= x + seq!['-'] + y);
        assert(t[x.len() as int] == '-');
        assert(t.contains('-'));
        let i = t.index_of_first('-')->0;
        assert(i == x.len()) by {
            if i < x.len() {
                assert(t[i] == x[i]);
                assert(x.contains('-'));
            } else if i > x.len() {
                assert(t[x.len() as int] != '-');
            }
        }
        assert(t.take(i) =~= x);
        assert(t.skip(i + 1) =~= y);
        lemma_dec_digits(a as nat);
        lemma_dec_digits(b as nat);
        assert(t[0] == x[0] && t.last() == y.last());
        assert(is_digit(x[0]) && is_digit(y[y.len() - 1]));
        lemma_trim_id(t);
        assert forall|k: int| 0 <= k < t.len() implies t[k] != ',' by {
            if k < x.len() {
                assert(t[k] == x[k]);
                assert(is_digit(x[k]));
            } else if k > x.len() {
                assert(t[k] == y[k - x.len() - 1]);
                assert(is_digit(y[k - x.len() - 1]));
            }
        }
    }
}

/// The numbers of the runs.
pub open spec fn covered(r: Seq<(u32, u32)>) -> Set<u32>
    decreases r.len(),
{
    if r.len() == 0 {
        Set::empty()
    } else {
        covered(r.drop_last()).union(span(r.last().0, r.last().1))
    }
}

/// The runs of a sequence hold its numbers, and each run ascends.
proof fn lemma_ranges_cover(s: Seq<u32>)
    ensures
        covered(ranges(s)) == s.to_set(),
        forall|i: int| 0 <= i < ranges(s).len() ==> (#[trigger] ranges(s)[i]).0 <= ranges(s)[i].1,
        s.len() > 0 ==> ranges(s).len() > 0,
    decreases s.len(),
{
    if s.len() == 0 {
        assert(s.to_set() =~= Set::<u32>::empty());
    } else {
        let d = s.drop_last();
        let x = s.last();
        lemma_ranges_cover(d);
        let r = ranges(d);
        assert(s.to_set() =~= d.to_set().insert(x)) by {
            assert forall|c: u32| s.to_set().contains(c) <==> d.to_set().insert(x).contains(c) by {
                if d.contains(c) {
                    let k = choose|k: int| 0 <= k < d.len() && d[k] == c;
                    assert(s[k] == c);
                }
                if s.contains(c) && c != x {
                    let k = choose|k: int| 0 <= k < s.len() && s[k] == c;
                    assert(d[k] == c);
                }
                assert(s[s.len() - 1] == x);
            }
        }
        if r.len() > 0 && r.last().1 + 1 == x {
            let a = r.last().0;
            let t = r.drop_last().push((a, x));
            assert(ranges(s) == t);
            assert(t.drop_last() =~= r.drop_last());
            assert(r[r.len() - 1].0 <= r[r.len() - 1].1);
            assert(span(a, x) =~= span(a, r.last().1).insert(x));
            assert(covered(t) =~= covered(r).insert(x));
        } else {
            let t = r.push((x, x));
            assert(ranges(s) == t);
            assert(t.drop_last() =~= r);
            assert(span(x, x) =~= Set::<u32>::empty().insert(x));
            assert(covered(t) =~= covered(r).insert(x));
        }
    }
}

/// The written runs are read as the numbers they hold.
proof fn lemma_entries_of_ranges(r: Seq<(u32, u32)>)
    requires
        forall|i: int| 0 <= i < r.len() ==> (#[trigger] r[i]).0 <= r[i].1,
    ensures
        parse_entries(range_texts(r)) == Some(covered(r)),
    decreases r.len(),
{
    if r.len() > 0 {
        let d = r.drop_last();
        assert forall|i: int| 0 <= i < d.len() implies (#[trigger] d[i]).0 <= d[i].1 by {
            assert(d[i] == r[i]);
        }
        lemma_entries_of_ranges(d);
        assert(range_texts(r).drop_last() =~= range_texts(d));
        assert(r[r.len() - 1].0 <= r[r.len() - 1].1);
        lemma_range_round_trip(r.last().0, r.last().1);
    }
}

/// Reading a written list gives back the set that was written.
pub proof fn law_cpulist_round_trip(s: Seq<u32>)
    ensures
        parse_cpulist(cpulist(s)) == Some(s.to_set()),
{
    reveal_strlit(",");
    assert(","@ =~= seq![',']);
    lemma_ranges_cover(s);
    let r = ranges(s);
    let p = range_texts(r);
    lemma_entries_of_ranges(r);
    if s.len() == 0 {
        let t = split_on(Seq::<char>::empty(), ',');
        assert(cpulist(s) =~= Seq::<char>::empty());
        assert(t =~= seq![Seq::<char>::empty()]);
        assert(t.drop_last() =~= Seq::<Seq<char>>::empty());
        assert(trim(t.last()).len() == 0);
        assert(parse_entries(t.drop_last()) == Some(Set::<u32>::empty()));
    } else {
        assert forall|i: int| 0 <= i < p.len() implies !(#[trigger] p[i]).contains(',') by {
            assert(r[i].0 <= r[i].1);
            lemma_range_round_trip(r[i].0, r[i].1);
        }
        lemma_split_join(p, ',');
    }
}

/// Different sets are written differently.
pub proof fn law_cpulist_injective(a: Seq<u32>, b: Seq<u32>)
    requires
        increasing(a),
        increasing(b),
        cpulist(a) == cpulist(b),
    ensures
        a == b,
{
    law_cpulist_round_trip(a);
    law_cpulist_round_trip(b);
    lemma_increasing_unique(a, b);
}

/// A number stands for one CPU, two numbers with a hyphen for all from the first to the
/// second; a range that runs backwards is refused.
pub proof fn law_range_holds_its_cpus(
    list: &str,
    r: Result<IdSet, BadCpuList>,
    a: u32,
    b: u32,
    c: u32,
)
    requires
        call_ensures(cpulist_to_set, (list,), r),
    ensures
        list@ == dec(a as nat) ==> r is Ok && (r->Ok_0@.contains(c) <==> c == a),
        list@ == dec(a as nat) + seq!['-'] + dec(b as nat) ==> (r is Ok <==> a <= b),
        list@ == dec(a as nat) + seq!['-'] + dec(b as nat) && a <= b ==> (r->Ok_0@.contains(c)
            <==> a <= c <= b),
        list@.len() == 0 ==> r is Ok && !r->Ok_0@.contains(c),
{
    lemma_dec_plain(a as nat);
    lemma_dec_plain(b as nat);
    let (x, y) = (dec(a as nat), dec(b as nat));
    let t = x + seq!['-'] + y;
    law_decimal_round_trip(a as nat, u32::MAX as nat);
    law_decimal_round_trip(b as nat, u32::MAX as nat);
    if list@ == x {
        lemma_range_round_trip(a, a);
        lemma_one_entry(x);
    }
    if list@ == t {
        assert(!t.contains(',')) by {
            if t.contains(',') {
                let i = choose|i: int| 0 <= i < t.len() && t[i] == ',';
                if i < x.len() {
                    assert(x[i] == ',');
                } else if i > x.len() {
                    assert(y[i - x.len() - 1] == ',');
                }
            }
        }
        lemma_one_entry(t);
        crate::text::law_cut_at_the_first(x, y, '-');
        assert(parse_range(t) == if a <= b {
            Some((a, b))
        } else {
            None
        });
        lemma_dec_digits(a as nat);
        lemma_dec_digits(b as nat);
        assert(crate::number::is_digit(x[0]) && crate::number::is_digit(y[y.len() - 1]));
        assert(t[0] == x[0] && t.last() == y[y.len() - 1]);
        lemma_trim_id(t);
    }
    if list@.len() == 0 {
        assert(list@ =~= Seq::<char>::empty());
        lemma_one_entry(list@);
        assert(trim(list@).len() == 0);
    }
    if r is Ok {
        assert(r->Ok_0@.contains(c) == parse_cpulist(list@)->0.contains(c));
    }
}

/// What a list of one entry stands for.
proof fn lemma_one_entry(s: Seq<char>)
    requires
        !s.contains(','),
    ensures
        trim(s).len() == 0 ==> parse_cpulist(s) == Some(Set::<u32>::empty()),
        trim(s).len() > 0 ==> match parse_range(s) {
            Some((a, b)) => parse_cpulist(s) is Some && forall|c: u32| #[trigger]
                parse_cpulist(s)->0.contains(c) <==> a <= c <= b,
            None => parse_cpulist(s) is None,
        },
{
    crate::text::law_one_piece(s, ',');
    let p = seq![s];
    assert(p.drop_last() =~= Seq::<Seq<char>>::empty());
    assert(parse_entries(p.drop_last()) == Some(Set::<u32>::empty()));
    assert(p.last() == s);
}

/// Entries that follow others add to them.
proof fn lemma_entries_add(p: Seq<Seq<char>>, q: Seq<Seq<char>>)
    ensures
        parse_entries(p + q) is Some <==> parse_entries(p) is Some && parse_entries(q) is Some,
        parse_entries(p + q) is Some ==> forall|c: u32| #[trigger]
            parse_entries(p + q)->0.contains(c) <==> parse_entries(p)->0.contains(c)
                || parse_entries(q)->0.contains(c),
    decreases q.len(),
{
    if q.len() == 0 {
        assert(p + q =~= p);
    } else {
        let s = p + q;
        assert(s.drop_last() =~= p + q.drop_last());
        assert(s.last() == q.last());
        lemma_entries_add(p, q.drop_last());
    }
}

/// Lists with a comma between them stand for the CPUs of both.
pub proof fn law_lists_add_up(
    x: &str,
    y: &str,
    both: &str,
    r: Result<IdSet, BadCpuList>,
    s: Result<IdSet, BadCpuList>,
    t: Result<IdSet, BadCpuList>,
    c: u32,
)
    requires
        call_ensures(cpulist_to_set, (x,), r),
        call_ensures(cpulist_to_set, (y,), s),
        call_ensures(cpulist_to_set, (both,), t),
        both@ == x@ + seq![','] + y@,
    ensures
        t is Ok <==> r is Ok && s is Ok,
        t is Ok ==> (t->Ok_0@.contains(c) <==> r->Ok_0@.contains(c) || s->Ok_0@.contains(c)),
{
    crate::text::law_split_parts_at_any_separator(x@, y@, ',');
    let (p, q) = (split_on(x@, ','), split_on(y@, ','));
    lemma_entries_add(p, q);
    if t is Ok {
        assert(t->Ok_0@.contains(c) == parse_entries(p + q)->0.contains(c));
    }
}

/// What is written of a set of CPUs is read as that set.
pub proof fn law_written_sets_are_read_back(
    cpus: &IdSet,
    text: String,
    list: &str,
    r: Result<IdSet, BadCpuList>,
)
    requires
        call_ensures(cpuset_to_cpulist, (cpus,), text),
        list@ == text@,
        call_ensures(cpulist_to_set, (list,), r),
    ensures
        r is Ok,
        r->Ok_0@ =~= cpus@,
{
    law_cpulist_round_trip(cpus.order());
    crate::idset::law_ascending_holds_the_members(cpus@);
    assert(cpus.order().to_set() =~= cpus@);
}

/// CPUs that follow one another are written as one range.
pub proof fn law_neighbours_are_written_as_a_range(cpus: &IdSet, text: String, a: u32, b: u32)
    requires
        call_ensures(cpuset_to_cpulist, (cpus,), text),
        a < b,
        forall|c: u32| cpus@.contains(c) <==> a <= c <= b,
    ensures
        text@ == dec(a as nat) + seq!['-'] + dec(b as nat),
{
    let s = Seq::new((b - a + 1) as nat, |i: int| (a + i) as u32);
    assert forall|c: u32| #[trigger] s.contains(c) <==> a <= c <= b by {
        if a <= c <= b {
            assert(s[c - a] == c);
        }
    }
    assert(s.to_set() =~= cpus@);
    crate::idset::lemma_ascending(s);
    lemma_one_range(s, a, (b - a + 1) as nat);
    let r = ranges(s);
    assert(r =~= seq![(a, b)]);
    let p = range_texts(r);
    assert(p =~= seq![range_text((a, b))]);
    assert(join(p, ","@) =~= range_text((a, b)));
}

/// Numbers that follow one another make one range.
proof fn lemma_one_range(s: Seq<u32>, a: u32, n: nat)
    requires
        n >= 1,
        s.len() == n,
        forall|i: int| 0 <= i < n ==> #[trigger] s[i] == a + i,
    ensures
        ranges(s) == seq![(a, s.last())],
    decreases n,
{
    let d = s.drop_last();
    if n == 1 {
        assert(d =~= Seq::<u32>::empty());
        assert(ranges(d) =~= Seq::<(u32, u32)>::empty());
        assert(s[0] == a + 0);
        assert(ranges(s) =~= seq![(a, s.last())]);
    } else {
        lemma_one_range(d, a, (n - 1) as nat);
        assert(d.last() == a + n - 2);
        assert(ranges(s) =~= seq![(a, s.last())]);
    }
}

} // verus!
