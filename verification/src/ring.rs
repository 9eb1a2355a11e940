//! Lists that keep only their newest elements.

use std::collections::VecDeque;
use vstd::prelude::*;

verus! {

/// The last `cap` elements.
pub open spec fn newest<T>(s: Seq<T>, cap: nat) -> Seq<T> {
    if s.len() > cap {
        s.skip(s.len() - cap)
    } else {
        s
    }
}

/// Appends an element and drops the oldest beyond `cap`.
pub fn push_capped<T>(ring: &mut VecDeque<T>, x: T, cap: usize)
    ensures
        final(ring)@ == newest(old(ring)@.push(x), cap as nat),
{
    ring.push_back(x);
    let ghost all = ring@;
    let mut dropped: Ghost<int> = Ghost(0);
    assert(all.skip(0) =~= all);
    while ring.len() > cap
        invariant
            0 <= dropped@ <= all.len(),
            ring@ == all.skip(dropped@),
            dropped@ > 0 ==> ring@.len() >= cap,
        decreases ring@.len(),
    {
        let _ = ring.pop_front();
        assert(ring@ =~= all.skip(dropped@ + 1));
        proof {
            dropped@ = dropped@ + 1;
        }
    }
    assert(ring@ =~= newest(all, cap as nat));
}

/// A ring never holds more than its cap, and its last element is the one pushed
/// last.
pub proof fn law_ring_is_bounded_and_keeps_the_newest<T>(s: Seq<T>, x: T, cap: nat)
    ensures
        newest(s.push(x), cap).len() <= cap,
        cap > 0 ==> newest(s.push(x), cap).last() == x,
{
}

/// Keeping the newest twice is keeping them once: the order in which elements
/// came in is never disturbed.
pub proof fn law_ring_holds_the_last_pushed<T>(s: Seq<T>, x: T, cap: nat)
    requires
        cap > 0,
    ensures
        newest(newest(s, cap).push(x), cap) == newest(s.push(x), cap),
{
    assert(newest(newest(s, cap).push(x), cap) =~= newest(s.push(x), cap));
}

} // verus!
