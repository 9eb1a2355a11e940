//! The process tree: rows put below their parents.

use vstd::prelude::*;

use crate::text::{at_most, text_le};

verus! {

/// A process as the tree sees it.
pub struct TreeNode {
    pub pid: u32,
    pub ppid: u32,
    pub name: Vec<char>,
}

/// A process as the tree sees it, its name as a sequence.
pub struct Node {
    pub pid: u32,
    pub ppid: u32,
    pub name: Seq<char>,
}

impl View for TreeNode {
    type V = Node;

    open spec fn view(&self) -> Node {
        Node { pid: self.pid, ppid: self.ppid, name: self.name@ }
    }
}

/// The views of a list of processes.
pub open spec fn shape(s: Seq<TreeNode>) -> Seq<Node> {
    Seq::new(s.len(), |i: int| s[i]@)
}

/// A row of the tree: the place of the process in the list, and how deep it
/// stands below its topmost ancestor.
#[derive(Debug, Clone, Copy, PartialEq, Eq, Structural)]
pub struct RowItem {
    pub place: usize,
    pub depth: usize,
}

/// The process has no parent in the list.
pub open spec fn is_root(nodes: Seq<Node>, i: int) -> bool {
    nodes[i].ppid == 0 || forall|j: int|
        0 <= j < nodes.len() ==> (#[trigger] nodes[j]).pid != nodes[i].ppid
}

/// `x` set into a list that is in the order of the names, behind all processes
/// whose name is not greater.
pub open spec fn insert_by_name(nodes: Seq<Node>, s: Seq<int>, x: int) -> Seq<int>
    decreases s.len(),
{
    if s.len() == 0 || text_le(nodes[s.last()].name, nodes[x].name) {
        s.push(x)
    } else {
        insert_by_name(nodes, s.drop_last(), x).push(s.last())
    }
}

/// The processes without a parent among the first `n`, by name.
pub open spec fn roots(nodes: Seq<Node>, n: nat) -> Seq<int>
    decreases n,
{
    if n == 0 {
        Seq::empty()
    } else {
        let before = roots(nodes, (n - 1) as nat);
        if is_root(nodes, n - 1) {
            insert_by_name(nodes, before, n - 1)
        } else {
            before
        }
    }
}

/// The children of the process `pid` among the first `n`, by name.
pub open spec fn children(nodes: Seq<Node>, pid: u32, n: nat) -> Seq<int>
    decreases n,
{
    if n == 0 {
        Seq::empty()
    } else {
        let before = children(nodes, pid, (n - 1) as nat);
        if !is_root(nodes, n - 1) && nodes[n - 1].ppid == pid {
            insert_by_name(nodes, before, n - 1)
        } else {
            before
        }
    }
}

/// The children of the process at place `i`, by name.
pub open spec fn kids(nodes: Seq<Node>, i: int) -> Seq<int> {
    children(nodes, nodes[i].pid, nodes.len())
}

/// The processes `tops` with all that is below them, to a depth of `fuel` more
/// levels: each process is followed by its children.
pub open spec fn forest(nodes: Seq<Node>, tops: Seq<int>, depth: nat, fuel: nat) -> Seq<(int, nat)>
    decreases fuel, tops.len(),
{
    if tops.len() == 0 {
        Seq::empty()
    } else {
        let head = forest(nodes, tops.drop_last(), depth, fuel).push((tops.last(), depth));
        if fuel == 0 {
            head
        } else {
            head + forest(nodes, kids(nodes, tops.last()), depth + 1, (fuel - 1) as nat)
        }
    }
}

/// The whole tree. No line of descent is longer than the list.
pub open spec fn tree(nodes: Seq<Node>) -> Seq<(int, nat)> {
    forest(nodes, roots(nodes, nodes.len()), 0, nodes.len())
}

/// The rows as places and depths.
pub open spec fn items(s: Seq<RowItem>) -> Seq<(int, nat)> {
    Seq::new(s.len(), |i: int| (s[i].place as int, s[i].depth as nat))
}

/// Places as mathematical integers.
pub open spec fn places(s: Seq<usize>) -> Seq<int> {
    Seq::new(s.len(), |i: int| s[i] as int)
}

// ── Building ─────────────────────────────────────────────────────────────────

/// Inserting where the search ends.
proof fn lemma_insert_at(nodes: Seq<Node>, s: Seq<int>, x: int, k: int)
    requires
        0 <= k <= s.len(),
        forall|j: int| k <= j < s.len() ==> !text_le(nodes[#[trigger] s[j]].name, nodes[x].name),
        k > 0 ==> text_le(nodes[s[k - 1]].name, nodes[x].name),
    ensures
        insert_by_name(nodes, s, x) == s.insert(k, x),
    decreases s.len() - k,
{
    if k == s.len() {
        assert(s.insert(k, x) =~= s.push(x));
    } else {
        let d = s.drop_last();
        assert(!text_le(nodes[s[s.len() - 1]].name, nodes[x].name));
        assert forall|j: int| k <= j < d.len() implies !text_le(
            nodes[#[trigger] d[j]].name,
            nodes[x].name,
        ) by {
            assert(d[j] == s[j]);
        }
        lemma_insert_at(nodes, d, x, k);
        assert(d.insert(k, x).push(s.last()) =~= s.insert(k, x));
    }
}

/// Sets `x` into a list that is in the order of the names.
fn insert_sorted(nodes: &Vec<TreeNode>, s: &mut Vec<usize>, x: usize)
    requires
        x < nodes.len(),
        forall|j: int| 0 <= j < old(s).len() ==> (#[trigger] old(s)@[j]) < nodes.len(),
    ensures
        places(final(s)@) == insert_by_name(shape(nodes@), places(old(s)@), x as int),
        forall|j: int| 0 <= j < final(s).len() ==> (#[trigger] final(s)@[j]) < nodes.len(),
{
    let ghost before = s@;
    let mut k: usize = s.len();
    while k > 0 && !at_most(&nodes[s[k - 1]].name, &nodes[x].name)
        invariant
            k <= s.len(),
            s@ == before,
            x < nodes.len(),
            forall|j: int| 0 <= j < s.len() ==> (#[trigger] s@[j]) < nodes.len(),
            forall|j: int|
                k <= j < s.len() ==> !text_le(
                    nodes@[#[trigger] s@[j] as int].name@,
                    nodes@[x as int].name@,
                ),
        decreases k,
    {
        k -= 1;
    }
    s.insert(k, x);
    proof {
        let p = places(before);
        assert forall|j: int| k <= j < p.len() implies !text_le(
            shape(nodes@)[#[trigger] p[j]].name,
            shape(nodes@)[x as int].name,
        ) by {
            assert(p[j] == before[j] as int);
        }
        lemma_insert_at(shape(nodes@), p, x as int, k as int);
        assert(places(s@) =~= p.insert(k as int, x as int));
        assert forall|j: int| 0 <= j < s.len() implies (#[trigger] s@[j]) < nodes.len() by {
            if j < k {
                assert(s@[j] == before[j]);
            } else if j > k {
                assert(s@[j] == before[j - 1]);
            }
        }
    }
}

/// Whether each process has no parent in the list.
fn root_flags(nodes: &Vec<TreeNode>) -> (flags: Vec<bool>)
    ensures
        flags.len() == nodes.len(),
        forall|i: int| 0 <= i < flags.len() ==> #[trigger] flags[i] == is_root(shape(nodes@), i),
{
    let mut flags: Vec<bool> = Vec::new();
    let mut i: usize = 0;
    while i < nodes.len()
        invariant
            i <= nodes.len(),
            flags.len() == i,
            forall|k: int| 0 <= k < i ==> #[trigger] flags[k] == is_root(shape(nodes@), k),
        decreases nodes.len() - i,
    {
        let parent: u32 = nodes[i].ppid;
        let mut found = false;
        let mut j: usize = 0;
        while j < nodes.len() && !found
            invariant
                j <= nodes.len(),
                found ==> exists|k: int|
                    0 <= k < j && (#[trigger] shape(nodes@)[k]).pid == parent,
                !found ==> forall|k: int|
                    0 <= k < j ==> (#[trigger] shape(nodes@)[k]).pid != parent,
            decreases nodes.len() - j,
        {
            if nodes[j].pid == parent {
                found = true;
                assert(shape(nodes@)[j as int].pid == parent);
            }
            j += 1;
        }
        flags.push(parent == 0 || !found);
        i += 1;
    }
    flags
}

/// The processes without a parent, by name.
fn find_roots(nodes: &Vec<TreeNode>, flags: &Vec<bool>) -> (s: Vec<usize>)
    requires
        flags.len() == nodes.len(),
        forall|i: int| 0 <= i < flags.len() ==> #[trigger] flags[i] == is_root(shape(nodes@), i),
    ensures
        places(s@) == roots(shape(nodes@), nodes@.len()),
        forall|j: int| 0 <= j < s.len() ==> (#[trigger] s@[j]) < nodes.len(),
{
    let mut s: Vec<usize> = Vec::new();
    let mut i: usize = 0;
    assert(places(s@) =~= Seq::<int>::empty());
    while i < nodes.len()
        invariant
            i <= nodes.len(),
            flags.len() == nodes.len(),
            forall|k: int| 0 <= k < flags.len() ==> #[trigger] flags[k] == is_root(shape(nodes@), k),
            places(s@) == roots(shape(nodes@), i as nat),
            forall|j: int| 0 <= j < s.len() ==> (#[trigger] s@[j]) < nodes.len(),
        decreases nodes.len() - i,
    {
        if flags[i] {
            insert_sorted(nodes, &mut s, i);
        }
        i += 1;
    }
    s
}

/// The children of a process, by name.
fn find_children(nodes: &Vec<TreeNode>, flags: &Vec<bool>, pid: u32) -> (s: Vec<usize>)
    requires
        flags.len() == nodes.len(),
        forall|i: int| 0 <= i < flags.len() ==> #[trigger] flags[i] == is_root(shape(nodes@), i),
    ensures
        places(s@) == children(shape(nodes@), pid, nodes@.len()),
        forall|j: int| 0 <= j < s.len() ==> (#[trigger] s@[j]) < nodes.len(),
{
    let mut s: Vec<usize> = Vec::new();
    let mut i: usize = 0;
    assert(places(s@) =~= Seq::<int>::empty());
    while i < nodes.len()
        invariant
            i <= nodes.len(),
            flags.len() == nodes.len(),
            forall|k: int| 0 <= k < flags.len() ==> #[trigger] flags[k] == is_root(shape(nodes@), k),
            places(s@) == children(shape(nodes@), pid, i as nat),
            forall|j: int| 0 <= j < s.len() ==> (#[trigger] s@[j]) < nodes.len(),
        decreases nodes.len() - i,
    {
        if !flags[i] && nodes[i].ppid == pid {
            insert_sorted(nodes, &mut s, i);
        }
        i += 1;
    }
    s
}

/// Appends the processes `tops` with all that is below them.
fn emit(
    nodes: &Vec<TreeNode>,
    flags: &Vec<bool>,
    tops: &Vec<usize>,
    depth: usize,
    fuel: usize,
    out: &mut Vec<RowItem>,
)
    requires
        flags.len() == nodes.len(),
        forall|i: int| 0 <= i < flags.len() ==> #[trigger] flags[i] == is_root(shape(nodes@), i),
        forall|j: int| 0 <= j < tops.len() ==> (#[trigger] tops@[j]) < nodes.len(),
        depth + fuel <= usize::MAX,
    ensures
        items(final(out)@) == items(old(out)@) + forest(
            shape(nodes@),
            places(tops@),
            depth as nat,
            fuel as nat,
        ),
    decreases fuel,
{
    let ghost start = items(out@);
    let ghost all = places(tops@);
    let mut i: usize = 0;
    proof {
        assert(all.take(0) =~= Seq::<int>::empty());
        assert(start =~= start + forest(shape(nodes@), all.take(0), depth as nat, fuel as nat));
    }
    while i < tops.len()
        invariant
            i <= tops.len(),
            all == places(tops@),
            flags.len() == nodes.len(),
            forall|k: int| 0 <= k < flags.len() ==> #[trigger] flags[k] == is_root(shape(nodes@), k),
            forall|j: int| 0 <= j < tops.len() ==> (#[trigger] tops@[j]) < nodes.len(),
            depth + fuel <= usize::MAX,
            items(out@) == start + forest(shape(nodes@), all.take(i as int), depth as nat, fuel as nat),
        decreases tops.len() - i,
    {
        let ghost before = items(out@);
        let ghost done = forest(shape(nodes@), all.take(i as int), depth as nat, fuel as nat);
        assert(all.take(i + 1).drop_last() =~= all.take(i as int));
        let top: usize = tops[i];
        out.push(RowItem { place: top, depth });
        let ghost head = done.push((top as int, depth as nat));
        assert(items(out@) =~= before.push((top as int, depth as nat)));
        assert(items(out@) =~= start + head);
        if fuel > 0 {
            let below = find_children(nodes, flags, nodes[top].pid);
            emit(nodes, flags, &below, depth + 1, fuel - 1, out);
            proof {
                let sub = forest(
                    shape(nodes@),
                    kids(shape(nodes@), top as int),
                    (depth + 1) as nat,
                    (fuel - 1) as nat,
                );
                assert(start + head + sub =~= start + (head + sub));
            }
        }
        i += 1;
    }
    assert(all.take(i as int) =~= all);
}

/// Puts every process below its parent. Processes with the same parent stand in
/// the order of their names.
pub fn tree_rows(nodes: &Vec<TreeNode>) -> (out: Vec<RowItem>)
    ensures
        items(out@) == tree(shape(nodes@)),
{
    let flags = root_flags(nodes);
    let tops = find_roots(nodes, &flags);
    let mut out: Vec<RowItem> = Vec::new();
    emit(nodes, &flags, &tops, 0, nodes.len(), &mut out);
    assert(items(out@) =~= tree(shape(nodes@)));
    out
}

// ── What the tree shows ──────────────────────────────────────────────────────

/// No process id occurs twice.
pub open spec fn distinct_pids(nodes: Seq<Node>) -> bool {
    forall|i: int, j: int| 0 <= i < j < nodes.len() ==> nodes[i].pid != nodes[j].pid
}

/// The place of the parent of a process that has one.
pub open spec fn parent(nodes: Seq<Node>, i: int) -> int {
    choose|j: int| 0 <= j < nodes.len() && (#[trigger] nodes[j]).pid == nodes[i].ppid
}

/// `i` stands `k` levels below `top`.
pub open spec fn below(nodes: Seq<Node>, i: int, k: nat, top: int) -> bool
    decreases k,
{
    if k == 0 {
        i == top
    } else {
        !is_root(nodes, i) && below(nodes, parent(nodes, i), (k - 1) as nat, top)
    }
}

/// `i` stands `k` levels below a process without a parent.
pub open spec fn at_level(nodes: Seq<Node>, i: int, k: nat) -> bool
    decreases k,
{
    if k == 0 {
        is_root(nodes, i)
    } else {
        !is_root(nodes, i) && at_level(nodes, parent(nodes, i), (k - 1) as nat)
    }
}

/// The process `k` levels above.
spec fn ancestor(nodes: Seq<Node>, i: int, k: nat) -> int
    decreases k,
{
    if k == 0 {
        i
    } else {
        ancestor(nodes, parent(nodes, i), (k - 1) as nat)
    }
}

/// A process that has a parent has it in the list, and no other is its parent.
proof fn lemma_parent(nodes: Seq<Node>, i: int)
    requires
        distinct_pids(nodes),
        !is_root(nodes, i),
    ensures
        0 <= parent(nodes, i) < nodes.len(),
        nodes[parent(nodes, i)].pid == nodes[i].ppid,
        forall|j: int|
            0 <= j < nodes.len() && (#[trigger] nodes[j]).pid == nodes[i].ppid ==> j == parent(
                nodes,
                i,
            ),
{
    let p = parent(nodes, i);
    assert forall|j: int| 0 <= j < nodes.len() && (#[trigger] nodes[j]).pid == nodes[i].ppid implies j
        == p by {
        if j < p {
            assert(nodes[j].pid != nodes[p].pid);
        } else if p < j {
            assert(nodes[p].pid != nodes[j].pid);
        }
    }
}

/// Inserting adds exactly one member.
proof fn lemma_insert_members(nodes: Seq<Node>, s: Seq<int>, x: int)
    ensures
        forall|y: int| #[trigger]
            insert_by_name(nodes, s, x).contains(y) <==> s.contains(y) || y == x,
        !s.contains(x) && s.no_duplicates() ==> insert_by_name(nodes, s, x).no_duplicates(),
    decreases s.len(),
{
    let r = insert_by_name(nodes, s, x);
    if s.len() == 0 || text_le(nodes[s.last()].name, nodes[x].name) {
        assert(r == s.push(x));
        assert forall|y: int| #[trigger] r.contains(y) <==> s.contains(y) || y == x by {
            if s.contains(y) {
                let k = choose|k: int| 0 <= k < s.len() && s[k] == y;
                assert(r[k] == y);
            }
            assert(r[s.len() as int] == x);
        }
    } else {
        let d = s.drop_last();
        let q = insert_by_name(nodes, d, x);
        lemma_insert_members(nodes, d, x);
        assert(r == q.push(s.last()));
        assert forall|y: int| #[trigger] r.contains(y) <==> s.contains(y) || y == x by {
            if s.contains(y) {
                let k = choose|k: int| 0 <= k < s.len() && s[k] == y;
                if k < d.len() {
                    assert(d[k] == y);
                    assert(q.contains(y));
                    let m = choose|m: int| 0 <= m < q.len() && q[m] == y;
                    assert(r[m] == y);
                } else {
                    assert(r[q.len() as int] == y);
                }
            }
            if y == x {
                assert(q.contains(x));
                let m = choose|m: int| 0 <= m < q.len() && q[m] == y;
                assert(r[m] == y);
            }
            if r.contains(y) {
                let m = choose|m: int| 0 <= m < r.len() && r[m] == y;
                if m < q.len() {
                    assert(q[m] == y);
                    assert(q.contains(y));
                    if d.contains(y) {
                        let k = choose|k: int| 0 <= k < d.len() && d[k] == y;
                        assert(s[k] == y);
                    }
                } else {
                    assert(s[s.len() - 1] == y);
                }
            }
        }
        if !s.contains(x) && s.no_duplicates() {
            assert(!d.contains(x)) by {
                if d.contains(x) {
                    let k = choose|k: int| 0 <= k < d.len() && d[k] == x;
                    assert(s[k] == x);
                }
            }
            assert(d.no_duplicates());
            assert(!q.contains(s.last())) by {
                if d.contains(s.last()) {
                    let k = choose|k: int| 0 <= k < d.len() && d[k] == s.last();
                    assert(s[k] == s[s.len() - 1]);
                }
                assert(s.contains(s.last()));
            }
            assert forall|a: int, b: int| 0 <= a < r.len() && 0 <= b < r.len() && a != b implies r[a]
                != r[b] by {
                if a < q.len() && b < q.len() {
                    assert(q[a] != q[b]);
                } else if a < q.len() {
                    assert(q.contains(q[a]));
                } else {
                    assert(q.contains(q[b]));
                }
            }
        }
    }
}

/// The roots are exactly the processes without a parent, each once.
proof fn lemma_roots_members(nodes: Seq<Node>, n: nat)
    requires
        n <= nodes.len(),
    ensures
        forall|x: int| #[trigger] roots(nodes, n).contains(x) <==> 0 <= x < n && is_root(nodes, x),
        roots(nodes, n).no_duplicates(),
    decreases n,
{
    if n > 0 {
        lemma_roots_members(nodes, (n - 1) as nat);
        lemma_insert_members(nodes, roots(nodes, (n - 1) as nat), n - 1);
    }
}

/// The children are exactly the processes with that parent, each once.
proof fn lemma_children_members(nodes: Seq<Node>, pid: u32, n: nat)
    requires
        n <= nodes.len(),
    ensures
        forall|x: int| #[trigger]
            children(nodes, pid, n).contains(x) <==> 0 <= x < n && !is_root(nodes, x)
                && nodes[x].ppid == pid,
        children(nodes, pid, n).no_duplicates(),
    decreases n,
{
    if n > 0 {
        lemma_children_members(nodes, pid, (n - 1) as nat);
        lemma_insert_members(nodes, children(nodes, pid, (n - 1) as nat), n - 1);
    }
}

/// One level more.
proof fn lemma_below_step(nodes: Seq<Node>, i: int, k: nat, mid: int, top: int)
    requires
        below(nodes, i, k, mid),
        !is_root(nodes, mid),
        parent(nodes, mid) == top,
    ensures
        below(nodes, i, k + 1, top),
    decreases k,
{
    if k > 0 {
        lemma_below_step(nodes, parent(nodes, i), (k - 1) as nat, mid, top);
    } else {
        assert(below(nodes, parent(nodes, i), 0, top));
    }
}

/// The last level of a line of descent.
proof fn lemma_below_split(nodes: Seq<Node>, i: int, k: nat, top: int)
    requires
        k > 0,
        below(nodes, i, k, top),
    ensures
        ({
            let mid = ancestor(nodes, i, (k - 1) as nat);
            below(nodes, i, (k - 1) as nat, mid) && !is_root(nodes, mid) && parent(nodes, mid)
                == top
        }),
    decreases k,
{
    if k > 1 {
        lemma_below_split(nodes, parent(nodes, i), (k - 1) as nat, top);
    } else {
        assert(below(nodes, parent(nodes, i), 0, top));
    }
}

/// A line of descent ends at one process only.
proof fn lemma_below_unique(nodes: Seq<Node>, i: int, k: nat, a: int, b: int)
    requires
        below(nodes, i, k, a),
        below(nodes, i, k, b),
    ensures
        a == b,
    decreases k,
{
    if k > 0 {
        lemma_below_unique(nodes, parent(nodes, i), (k - 1) as nat, a, b);
    }
}

/// Levels add up.
proof fn lemma_level_below(nodes: Seq<Node>, i: int, k: nat, top: int, d: nat)
    requires
        below(nodes, i, k, top),
        at_level(nodes, top, d),
    ensures
        at_level(nodes, i, d + k),
    decreases k,
{
    if k > 0 {
        lemma_level_below(nodes, parent(nodes, i), (k - 1) as nat, top, d);
    }
}

/// A process stands at one level only.
proof fn lemma_level_unique(nodes: Seq<Node>, i: int, a: nat, b: nat)
    requires
        at_level(nodes, i, a),
        at_level(nodes, i, b),
    ensures
        a == b,
    decreases a,
{
    if a > 0 && b > 0 {
        lemma_level_unique(nodes, parent(nodes, i), (a - 1) as nat, (b - 1) as nat);
    }
}

/// Children stand one level below.
proof fn lemma_kids(nodes: Seq<Node>, x: int, d: nat)
    requires
        distinct_pids(nodes),
        0 <= x < nodes.len(),
        at_level(nodes, x, d),
    ensures
        kids(nodes, x).no_duplicates(),
        forall|c: int| #[trigger]
            kids(nodes, x).contains(c) <==> 0 <= c < nodes.len() && !is_root(nodes, c) && parent(
                nodes,
                c,
            ) == x,
        forall|c: int| #[trigger] kids(nodes, x).contains(c) ==> at_level(nodes, c, d + 1),
{
    lemma_children_members(nodes, nodes[x].pid, nodes.len());
    assert forall|c: int| #[trigger] kids(nodes, x).contains(c) <==> 0 <= c < nodes.len()
        && !is_root(nodes, c) && parent(nodes, c) == x by {
        if 0 <= c < nodes.len() && !is_root(nodes, c) {
            lemma_parent(nodes, c);
            if nodes[c].ppid == nodes[x].pid {
                assert(nodes[x].pid == nodes[c].ppid);
            }
        }
    }
}

/// All of a list of places stand at one level, and are in the list.
spec fn level_places(nodes: Seq<Node>, tops: Seq<int>, d: nat) -> bool {
    forall|x: int| #[trigger]
        tops.contains(x) ==> 0 <= x < nodes.len() && at_level(nodes, x, d)
}

/// What `forest` lists stands below one of the tops, at the depth that is listed.
proof fn lemma_forest_entries(
    nodes: Seq<Node>,
    tops: Seq<int>,
    d: nat,
    f: nat,
    a: int,
) -> (top: int)
    requires
        distinct_pids(nodes),
        level_places(nodes, tops, d),
        0 <= a < forest(nodes, tops, d, f).len(),
    ensures
        ({
            let (i, e) = forest(nodes, tops, d, f)[a];
            &&& d <= e
            &&& tops.contains(top)
            &&& below(nodes, i, (e - d) as nat, top)
            &&& at_level(nodes, i, e)
            &&& 0 <= i < nodes.len()
        }),
    decreases f, tops.len(),
{
    let dl = tops.drop_last();
    let x = tops.last();
    let first = forest(nodes, dl, d, f);
    let (i, e) = forest(nodes, tops, d, f)[a];
    assert(tops.contains(x));
    assert forall|y: int| #[trigger] dl.contains(y) implies 0 <= y < nodes.len() && at_level(
        nodes,
        y,
        d,
    ) by {
        let k = choose|k: int| 0 <= k < dl.len() && dl[k] == y;
        assert(tops[k] == y);
        assert(tops.contains(y));
    }
    if a < first.len() {
        assert(forest(nodes, tops, d, f)[a] == first[a]);
        let t = lemma_forest_entries(nodes, dl, d, f, a);
        let k = choose|k: int| 0 <= k < dl.len() && dl[k] == t;
        assert(tops[k] == t);
        t
    } else if a == first.len() {
        assert((i, e) == (x, d));
        x
    } else {
        let sub = forest(nodes, kids(nodes, x), d + 1, (f - 1) as nat);
        assert(forest(nodes, tops, d, f)[a] == sub[a - first.len() - 1]);
        lemma_kids(nodes, x, d);
        assert(level_places(nodes, kids(nodes, x), d + 1));
        let t = lemma_forest_entries(
            nodes,
            kids(nodes, x),
            d + 1,
            (f - 1) as nat,
            a - first.len() - 1,
        );
        lemma_below_step(nodes, i, (e - d - 1) as nat, t, x);
        x
    }
}

/// `forest` lists no process twice.
proof fn lemma_forest_distinct(
    nodes: Seq<Node>,
    tops: Seq<int>,
    d: nat,
    f: nat,
    a: int,
    b: int,
)
    requires
        distinct_pids(nodes),
        level_places(nodes, tops, d),
        tops.no_duplicates(),
        0 <= a < b < forest(nodes, tops, d, f).len(),
    ensures
        forest(nodes, tops, d, f)[a].0 != forest(nodes, tops, d, f)[b].0,
    decreases f, tops.len(),
{
    let dl = tops.drop_last();
    let x = tops.last();
    let all = forest(nodes, tops, d, f);
    let first = forest(nodes, dl, d, f);
    let n = first.len() as int;
    assert(tops.contains(x));
    assert forall|y: int| #[trigger] dl.contains(y) implies 0 <= y < nodes.len() && at_level(
        nodes,
        y,
        d,
    ) && y != x by {
        let k = choose|k: int| 0 <= k < dl.len() && dl[k] == y;
        assert(tops[k] == y);
        assert(tops.contains(y));
        assert(tops[k] != tops[tops.len() - 1]);
    }
    let (i, e) = all[a];
    let (j, g) = all[b];
    if b < n {
        assert(all[a] == first[a] && all[b] == first[b]);
        lemma_forest_distinct(nodes, dl, d, f, a, b);
    } else if a < n {
        assert(all[a] == first[a]);
        let t = lemma_forest_entries(nodes, dl, d, f, a);
        let u = lemma_forest_entries(nodes, tops, d, f, b);
        if i == j {
            lemma_level_unique(nodes, i, e, g);
            if b == n {
                assert(all[b] == (x, d));
                lemma_below_unique(nodes, i, (e - d) as nat, t, x);
            } else {
                let sub = forest(nodes, kids(nodes, x), d + 1, (f - 1) as nat);
                assert(all[b] == sub[b - n - 1]);
                lemma_kids(nodes, x, d);
                assert(level_places(nodes, kids(nodes, x), d + 1));
                let v = lemma_forest_entries(
                    nodes,
                    kids(nodes, x),
                    d + 1,
                    (f - 1) as nat,
                    b - n - 1,
                );
                lemma_below_step(nodes, j, (g - d - 1) as nat, v, x);
                lemma_below_unique(nodes, i, (e - d) as nat, t, x);
            }
        }
    } else {
        let sub = forest(nodes, kids(nodes, x), d + 1, (f - 1) as nat);
        lemma_kids(nodes, x, d);
        assert(level_places(nodes, kids(nodes, x), d + 1));
        assert(all[b] == sub[b - n - 1]);
        if a == n {
            assert(all[a] == (x, d));
            let v = lemma_forest_entries(nodes, kids(nodes, x), d + 1, (f - 1) as nat, b - n - 1);
            if i == j {
                lemma_level_unique(nodes, i, d, g);
            }
        } else {
            assert(all[a] == sub[a - n - 1]);
            lemma_forest_distinct(
                nodes,
                kids(nodes, x),
                d + 1,
                (f - 1) as nat,
                a - n - 1,
                b - n - 1,
            );
        }
    }
}

/// `forest` lists everything below its tops, as deep as it goes.
proof fn lemma_forest_complete(
    nodes: Seq<Node>,
    tops: Seq<int>,
    d: nat,
    f: nat,
    i: int,
    k: nat,
    top: int,
)
    requires
        distinct_pids(nodes),
        level_places(nodes, tops, d),
        tops.contains(top),
        0 <= i < nodes.len(),
        below(nodes, i, k, top),
        k <= f,
    ensures
        forest(nodes, tops, d, f).contains((i, d + k)),
    decreases f, tops.len(),
{
    let dl = tops.drop_last();
    let x = tops.last();
    let all = forest(nodes, tops, d, f);
    let first = forest(nodes, dl, d, f);
    let n = first.len() as int;
    if top == x {
        if k == 0 {
            assert(all[n] == (x, d));
        } else {
            let sub = forest(nodes, kids(nodes, x), d + 1, (f - 1) as nat);
            lemma_kids(nodes, x, d);
            assert(level_places(nodes, kids(nodes, x), d + 1));
            lemma_below_split(nodes, i, k, top);
            let mid = ancestor(nodes, i, (k - 1) as nat);
            lemma_ancestor_in_range(nodes, i, (k - 1) as nat, mid);
            assert(kids(nodes, x).contains(mid));
            lemma_forest_complete(
                nodes,
                kids(nodes, x),
                d + 1,
                (f - 1) as nat,
                i,
                (k - 1) as nat,
                mid,
            );
            let m = choose|m: int| 0 <= m < sub.len() && sub[m] == (i, d + k);
            assert(all[n + 1 + m] == (i, d + k));
        }
    } else {
        let q = choose|q: int| 0 <= q < tops.len() && tops[q] == top;
        assert(dl[q] == top);
        assert forall|y: int| #[trigger] dl.contains(y) implies 0 <= y < nodes.len() && at_level(
            nodes,
            y,
            d,
        ) by {
            let r = choose|r: int| 0 <= r < dl.len() && dl[r] == y;
            assert(tops[r] == y);
            assert(tops.contains(y));
        }
        lemma_forest_complete(nodes, dl, d, f, i, k, top);
        let m = choose|m: int| 0 <= m < first.len() && first[m] == (i, d + k);
        assert(all[m] == (i, d + k));
    }
}

/// A line of descent stays in the list.
proof fn lemma_ancestor_in_range(nodes: Seq<Node>, i: int, k: nat, top: int)
    requires
        distinct_pids(nodes),
        0 <= i < nodes.len(),
        below(nodes, i, k, top),
    ensures
        0 <= top < nodes.len(),
        ancestor(nodes, i, k) == top,
    decreases k,
{
    if k > 0 {
        lemma_parent(nodes, i);
        lemma_ancestor_in_range(nodes, parent(nodes, i), (k - 1) as nat, top);
    }
}

/// The ancestors of a process at level `e`, and where they stand.
proof fn lemma_ancestor_level(nodes: Seq<Node>, i: int, e: nat, k: nat)
    requires
        distinct_pids(nodes),
        0 <= i < nodes.len(),
        at_level(nodes, i, e),
        k <= e,
    ensures
        0 <= ancestor(nodes, i, k) < nodes.len(),
        at_level(nodes, ancestor(nodes, i, k), (e - k) as nat),
        below(nodes, i, k, ancestor(nodes, i, k)),
    decreases k,
{
    if k > 0 {
        lemma_parent(nodes, i);
        lemma_ancestor_level(nodes, parent(nodes, i), (e - 1) as nat, (k - 1) as nat);
    }
}

/// No level is as deep as the list is long.
proof fn lemma_level_bounded(nodes: Seq<Node>, i: int, e: nat)
    requires
        distinct_pids(nodes),
        0 <= i < nodes.len(),
        at_level(nodes, i, e),
    ensures
        e < nodes.len(),
{
    let line = Seq::new(e + 1, |k: int| ancestor(nodes, i, k as nat));
    assert forall|a: int, b: int| 0 <= a < line.len() && 0 <= b < line.len() && a != b implies line[a]
        != line[b] by {
        lemma_ancestor_level(nodes, i, e, a as nat);
        lemma_ancestor_level(nodes, i, e, b as nat);
        if line[a] == line[b] {
            lemma_level_unique(nodes, line[a], (e - a) as nat, (e - b) as nat);
        }
    }
    line.unique_seq_to_set();
    let range = vstd::set_lib::set_int_range(0, nodes.len() as int);
    vstd::set_lib::lemma_int_range(0, nodes.len() as int);
    assert(line.to_set().subset_of(range)) by {
        assert forall|x: int| line.to_set().contains(x) implies range.contains(x) by {
            let k = choose|k: int| 0 <= k < line.len() && line[k] == x;
            lemma_ancestor_level(nodes, i, e, k as nat);
        }
    }
    vstd::set_lib::lemma_len_subset(line.to_set(), range);
}

/// The tree shows no process twice.
pub proof fn law_tree_shows_no_process_twice(nodes: Seq<Node>)
    requires
        distinct_pids(nodes),
    ensures
        forall|a: int, b: int|
            0 <= a < b < tree(nodes).len() ==> tree(nodes)[a].0 != tree(nodes)[b].0,
{
    lemma_roots_members(nodes, nodes.len());
    let tops = roots(nodes, nodes.len());
    assert(level_places(nodes, tops, 0));
    assert forall|a: int, b: int| 0 <= a < b < tree(nodes).len() implies tree(nodes)[a].0 != tree(
        nodes,
    )[b].0 by {
        lemma_forest_distinct(nodes, tops, 0, nodes.len(), a, b);
    }
}

/// The tree shows every process that descends from one without a parent, at its
/// level.
pub proof fn law_tree_shows_every_descendant(nodes: Seq<Node>, i: int, e: nat)
    requires
        distinct_pids(nodes),
        0 <= i < nodes.len(),
        at_level(nodes, i, e),
    ensures
        tree(nodes).contains((i, e)),
{
    lemma_roots_members(nodes, nodes.len());
    let tops = roots(nodes, nodes.len());
    assert(level_places(nodes, tops, 0));
    lemma_level_bounded(nodes, i, e);
    lemma_ancestor_level(nodes, i, e, e);
    let top = ancestor(nodes, i, e);
    assert(tops.contains(top));
    lemma_forest_complete(nodes, tops, 0, nodes.len(), i, e, top);
}

/// Every row of the tree is a process of the list, indented by its level.
pub proof fn law_tree_rows_stand_at_their_level(nodes: Seq<Node>, a: int)
    requires
        distinct_pids(nodes),
        0 <= a < tree(nodes).len(),
    ensures
        0 <= tree(nodes)[a].0 < nodes.len(),
        at_level(nodes, tree(nodes)[a].0, tree(nodes)[a].1),
{
    lemma_roots_members(nodes, nodes.len());
    let tops = roots(nodes, nodes.len());
    assert(level_places(nodes, tops, 0));
    let _t = lemma_forest_entries(nodes, tops, 0, nodes.len(), a);
}

/// In the tree every process stands once, at the top where it has no parent among those
/// shown, and otherwise one level below its parent, which is shown too.
pub proof fn law_tree_puts_children_below_their_parents(
    nodes: &Vec<TreeNode>,
    r: Vec<RowItem>,
    a: int,
    b: int,
)
    requires
        call_ensures(tree_rows, (nodes,), r),
        forall|i: int, j: int| 0 <= i < j < nodes@.len() ==> nodes@[i].pid != nodes@[j].pid,
        0 <= a < r@.len(),
        0 <= b < r@.len(),
        a != b,
    ensures
        r@[a].place < nodes@.len(),
        r@[a].place != r@[b].place,
        ({
            let p = nodes@[r@[a].place as int];
            let orphan = p.ppid == 0 || forall|j: int|
                0 <= j < nodes@.len() ==> (#[trigger] nodes@[j]).pid != p.ppid;
            &&& r@[a].depth == 0 <==> orphan
            &&& !orphan ==> exists|k: int|
                0 <= k < r@.len() && nodes@[(#[trigger] r@[k]).place as int].pid == p.ppid
                    && r@[k].depth + 1 == r@[a].depth
        }),
{
    let s = shape(nodes@);
    let t = tree(s);
    assert forall|i: int, j: int| 0 <= i < j < s.len() implies s[i].pid != s[j].pid by {
        assert(nodes@[i].pid != nodes@[j].pid);
    }
    assert(items(r@).len() == r@.len());
    assert forall|k: int| 0 <= k < r@.len()
        implies t[k] == ((#[trigger] r@[k]).place as int, r@[k].depth as nat) by {}
    law_tree_shows_no_process_twice(s);
    law_tree_rows_stand_at_their_level(s, a);
    let x = r@[a].place as int;
    let d = r@[a].depth as nat;
    assert(at_level(s, x, d));
    let p = nodes@[x];
    assert(s[x] == p@);
    assert((forall|j: int| 0 <= j < nodes@.len() ==> (#[trigger] nodes@[j]).pid != p.ppid) == (
    forall|j: int| 0 <= j < s.len() ==> (#[trigger] s[j]).pid != s[x].ppid)) by {
        if forall|j: int| 0 <= j < nodes@.len() ==> (#[trigger] nodes@[j]).pid != p.ppid {
            assert forall|j: int| 0 <= j < s.len() implies (#[trigger] s[j]).pid != s[x].ppid by {
                assert(nodes@[j].pid != p.ppid);
            }
        }
        if forall|j: int| 0 <= j < s.len() ==> (#[trigger] s[j]).pid != s[x].ppid {
            assert forall|j: int| 0 <= j < nodes@.len() implies (#[trigger] nodes@[j]).pid
                != p.ppid by {
                assert(s[j].pid != s[x].ppid);
            }
        }
    }
    if !is_root(s, x) {
        let y = parent(s, x);
        assert(0 <= y < s.len() && s[y].pid == s[x].ppid) by {
            let j = choose|j: int| 0 <= j < s.len() && (#[trigger] s[j]).pid == s[x].ppid;
            assert(s[j].pid == s[x].ppid);
        }
        law_tree_shows_every_descendant(s, y, (d - 1) as nat);
        let k = choose|k: int| 0 <= k < t.len() && t[k] == (y, (d - 1) as nat);
        assert(r@[k].place == y);
        assert(nodes@[y]@ == s[y]);
    }
}

} // verus!
