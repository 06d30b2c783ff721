//! The focus ring as mathematics: which slot has the focus, which slot gets it
//! next, and what a round of steps through the ring does.
//!
//! A ring is a sequence of slots in tab order. A slot whose view was dropped is
//! not live: every search passes over it.

use vstd::prelude::*;

verus! {

/// What the focus ring knows of one registered view.
pub struct Slot {
    /// The view still exists.
    pub live: bool,
    /// The view is marked as the one in focus.
    pub focused: bool,
    /// The view says that it takes the focus.
    pub focusable: bool,
}

impl Slot {
    /// The slot of a view that was dropped.
    pub open spec fn dead() -> Slot {
        Slot { live: false, focused: false, focusable: false }
    }

    /// The view exists and is in focus.
    pub open spec fn has_focus(self) -> bool {
        self.live && self.focused
    }

    /// The view exists and takes the focus.
    pub open spec fn takes_focus(self) -> bool {
        self.live && self.focusable
    }

    /// The same slot with the focus mark set to `focused`.
    pub open spec fn with_focus(self, focused: bool) -> Slot {
        Slot { live: self.live, focused, focusable: self.focusable }
    }
}

/// The first slot from `from` on that has the focus.
pub open spec fn first_focused(ring: Seq<Slot>, from: int) -> Option<int>
    decreases ring.len() - from,
{
    if from < 0 || from >= ring.len() {
        None
    } else if ring[from].has_focus() {
        Some(from)
    } else {
        first_focused(ring, from + 1)
    }
}

/// The slot that has the focus: the first one, should there be several.
pub open spec fn focused_index(ring: Seq<Slot>) -> Option<int> {
    first_focused(ring, 0)
}

/// The first slot in `[from, to)` that takes the focus.
pub open spec fn first_taker(ring: Seq<Slot>, from: int, to: int) -> Option<int>
    decreases to - from,
{
    if from >= to {
        None
    } else if ring[from].takes_focus() {
        Some(from)
    } else {
        first_taker(ring, from + 1, to)
    }
}

/// The last slot in `[from, to)` that takes the focus.
pub open spec fn last_taker(ring: Seq<Slot>, from: int, to: int) -> Option<int>
    decreases to - from,
{
    if from >= to {
        None
    } else if ring[to - 1].takes_focus() {
        Some(to - 1)
    } else {
        last_taker(ring, from, to - 1)
    }
}

/// The position from which a search for the next slot sets out: the slot in
/// focus, or the place before the first slot.
pub open spec fn forward_origin(ring: Seq<Slot>) -> int {
    match focused_index(ring) {
        Some(c) => c,
        None => -1,
    }
}

/// The position from which a search for the previous slot sets out: the slot
/// in focus, or the place behind the last slot.
pub open spec fn backward_origin(ring: Seq<Slot>) -> int {
    match focused_index(ring) {
        Some(c) => c,
        None => ring.len() as int,
    }
}

/// The first slot behind `origin` that takes the focus, going round the ring
/// once: through the slots behind `origin` to the end, then from the
/// beginning up to `origin` itself.
pub open spec fn next_taker(ring: Seq<Slot>, origin: int) -> Option<int> {
    match first_taker(ring, origin + 1, ring.len() as int) {
        Some(t) => Some(t),
        None => first_taker(ring, 0, origin + 1),
    }
}

/// The first slot before `origin` that takes the focus, going round the ring
/// once backwards: through the slots before `origin` to the beginning, then
/// from the end down to `origin` itself.
pub open spec fn prev_taker(ring: Seq<Slot>, origin: int) -> Option<int> {
    match last_taker(ring, 0, origin) {
        Some(t) => Some(t),
        None => last_taker(ring, origin, ring.len() as int),
    }
}

/// The ring with the focus taken from the slot that has it.
pub open spec fn unfocused(ring: Seq<Slot>) -> Seq<Slot> {
    match focused_index(ring) {
        Some(c) => ring.update(c, ring[c].with_focus(false)),
        None => ring,
    }
}

/// The ring with the focus given to `target`, if there is one.
pub open spec fn focused_on(ring: Seq<Slot>, target: Option<int>) -> Seq<Slot> {
    match target {
        Some(t) => ring.update(t, ring[t].with_focus(true)),
        None => ring,
    }
}

/// One step forward: the slot in focus loses it, and the next slot that takes
/// the focus gets it.
pub open spec fn focus_next(ring: Seq<Slot>) -> Seq<Slot> {
    focused_on(unfocused(ring), next_taker(ring, forward_origin(ring)))
}

/// One step back: the slot in focus loses it, and the previous slot that takes
/// the focus gets it.
pub open spec fn focus_prev(ring: Seq<Slot>) -> Seq<Slot> {
    focused_on(unfocused(ring), prev_taker(ring, backward_origin(ring)))
}

/// The ring after `k` steps forward.
pub open spec fn focus_steps(ring: Seq<Slot>, k: nat) -> Seq<Slot>
    decreases k,
{
    if k == 0 {
        ring
    } else {
        focus_next(focus_steps(ring, (k - 1) as nat))
    }
}

/// No two slots have the focus.
pub open spec fn at_most_one_focused(ring: Seq<Slot>) -> bool {
    forall|i: int, j: int|
        0 <= i < ring.len() && 0 <= j < ring.len() && #[trigger] ring[i].has_focus()
            && #[trigger] ring[j].has_focus() ==> i == j
}

/// Slot `f` alone has the focus, and takes it.
pub open spec fn focus_rests_on(ring: Seq<Slot>, f: int) -> bool {
    &&& 0 <= f < ring.len()
    &&& ring[f].has_focus()
    &&& ring[f].takes_focus()
    &&& at_most_one_focused(ring)
}

/// The number of slots before `i` that take the focus.
pub open spec fn takers_before(ring: Seq<Slot>, i: int) -> int
    decreases i,
{
    if i <= 0 {
        0
    } else {
        takers_before(ring, i - 1) + if ring[i - 1].takes_focus() {
            1int
        } else {
            0int
        }
    }
}

/// The number of slots that take the focus.
pub open spec fn taker_count(ring: Seq<Slot>) -> int {
    takers_before(ring, ring.len() as int)
}

/// What `first_focused` finds is the first slot with the focus from `from`
/// on, and it finds none only if there is none.
pub proof fn lemma_first_focused(ring: Seq<Slot>, from: int)
    requires
        0 <= from,
    ensures
        match first_focused(ring, from) {
            Some(c) => from <= c < ring.len() && ring[c].has_focus() && forall|j: int|
                from <= j < c ==> !(#[trigger] ring[j]).has_focus(),
            None => forall|j: int| from <= j < ring.len() ==> !(#[trigger] ring[j]).has_focus(),
        },
    decreases ring.len() - from,
{
    if from < ring.len() && !ring[from].has_focus() {
        lemma_first_focused(ring, from + 1);
    }
}

/// What `first_taker` finds is the first slot in `[from, to)` that takes the
/// focus, and it finds none only if there is none.
pub proof fn lemma_first_taker(ring: Seq<Slot>, from: int, to: int)
    requires
        0 <= from,
        to <= ring.len(),
    ensures
        match first_taker(ring, from, to) {
            Some(t) => from <= t < to && ring[t].takes_focus() && forall|j: int|
                from <= j < t ==> !(#[trigger] ring[j]).takes_focus(),
            None => forall|j: int| from <= j < to ==> !(#[trigger] ring[j]).takes_focus(),
        },
    decreases to - from,
{
    if from < to && !ring[from].takes_focus() {
        lemma_first_taker(ring, from + 1, to);
    }
}

/// What `last_taker` finds is the last slot in `[from, to)` that takes the
/// focus, and it finds none only if there is none.
pub proof fn lemma_last_taker(ring: Seq<Slot>, from: int, to: int)
    requires
        0 <= from,
        to <= ring.len(),
    ensures
        match last_taker(ring, from, to) {
            Some(t) => from <= t < to && ring[t].takes_focus() && forall|j: int|
                t < j < to ==> !(#[trigger] ring[j]).takes_focus(),
            None => forall|j: int| from <= j < to ==> !(#[trigger] ring[j]).takes_focus(),
        },
    decreases to - from,
{
    if from < to && !ring[to - 1].takes_focus() {
        lemma_last_taker(ring, from, to - 1);
    }
}

/// A search over a ring in which slot `d` was dropped finds what the same
/// search finds in the ring as it was, with `d` alone passed over: no slot but
/// `d` is skipped, and the search comes to its end.
pub proof fn lemma_dropped_slot_is_skipped(ring: Seq<Slot>, d: int, from: int, to: int)
    requires
        0 <= d < ring.len(),
        0 <= from,
        to <= ring.len(),
    ensures
        match first_taker(ring.update(d, Slot::dead()), from, to) {
            Some(t) => t != d && from <= t < to && ring[t].takes_focus() && forall|j: int|
                from <= j < t && j != d ==> !(#[trigger] ring[j]).takes_focus(),
            None => forall|j: int|
                from <= j < to && j != d ==> !(#[trigger] ring[j]).takes_focus(),
        },
        match last_taker(ring.update(d, Slot::dead()), from, to) {
            Some(t) => t != d && from <= t < to && ring[t].takes_focus() && forall|j: int|
                t < j < to && j != d ==> !(#[trigger] ring[j]).takes_focus(),
            None => forall|j: int|
                from <= j < to && j != d ==> !(#[trigger] ring[j]).takes_focus(),
        },
        match focused_index(ring.update(d, Slot::dead())) {
            Some(c) => c != d && 0 <= c < ring.len() && ring[c].has_focus() && forall|j: int|
                0 <= j < c && j != d ==> !(#[trigger] ring[j]).has_focus(),
            None => forall|j: int|
                0 <= j < ring.len() && j != d ==> !(#[trigger] ring[j]).has_focus(),
        },
{
    let dropped = ring.update(d, Slot::dead());
    lemma_first_taker(dropped, from, to);
    lemma_last_taker(dropped, from, to);
    lemma_first_focused(dropped, 0);
    assert forall|j: int| 0 <= j < ring.len() && j != d implies #[trigger] ring[j]
        == dropped[j] by {}
}

/// With no slot in focus and none that takes it, a step changes nothing, in
/// either direction.
pub proof fn lemma_step_without_takers(ring: Seq<Slot>)
    requires
        focused_index(ring) is None,
        forall|j: int| 0 <= j < ring.len() ==> !(#[trigger] ring[j]).takes_focus(),
    ensures
        focus_next(ring) == ring,
        focus_prev(ring) == ring,
{
    let n = ring.len() as int;
    lemma_first_taker(ring, 0, n);
    lemma_first_taker(ring, 0, 0);
    lemma_last_taker(ring, 0, n);
    lemma_last_taker(ring, n, n);
}

/// Counting the takers further on never loses any.
pub proof fn lemma_takers_before_grows(ring: Seq<Slot>, i: int, j: int)
    requires
        0 <= i <= j <= ring.len(),
    ensures
        takers_before(ring, i) <= takers_before(ring, j),
        0 <= takers_before(ring, i) <= i,
        (forall|k: int| i <= k < j ==> !(#[trigger] ring[k]).takes_focus()) ==> takers_before(
            ring,
            i,
        ) == takers_before(ring, j),
        i < j && ring[i].takes_focus() ==> takers_before(ring, i) < takers_before(ring, j),
    decreases j + i,
{
    if i < j {
        lemma_takers_before_grows(ring, i, j - 1);
    }
    if 0 < i {
        lemma_takers_before_grows(ring, i - 1, i - 1);
    }
}

/// The count of takers looks only at which slots take the focus.
pub proof fn lemma_takers_before_same(a: Seq<Slot>, b: Seq<Slot>, i: int)
    requires
        a.len() == b.len(),
        0 <= i <= a.len(),
        forall|k: int| 0 <= k < a.len() ==> (#[trigger] a[k]).takes_focus() == b[k].takes_focus(),
    ensures
        takers_before(a, i) == takers_before(b, i),
    decreases i,
{
    if 0 < i {
        lemma_takers_before_same(a, b, i - 1);
    }
}

/// Two slots that take the focus and have as many takers before them are the
/// same slot.
pub proof fn lemma_rank_tells_taker(ring: Seq<Slot>, i: int, j: int)
    requires
        0 <= i < ring.len(),
        0 <= j < ring.len(),
        ring[i].takes_focus(),
        ring[j].takes_focus(),
        takers_before(ring, i) == takers_before(ring, j),
    ensures
        i == j,
{
    if i < j {
        lemma_takers_before_grows(ring, i, j);
    } else if j < i {
        lemma_takers_before_grows(ring, j, i);
    }
}

/// The rank that the slot in focus has after `k` steps from a slot of rank
/// `rank`, in a ring of `count` takers: one further with each step, and from
/// the last rank back to the first.
pub open spec fn rank_after(rank: int, k: int, count: int) -> int {
    if rank + k < count {
        rank + k
    } else {
        rank + k - count
    }
}

/// The ring in which the focus has gone from slot `f` to slot `t`.
pub open spec fn focus_moved(ring: Seq<Slot>, f: int, t: int) -> Seq<Slot> {
    ring.update(f, ring[f].with_focus(false)).update(t, ring[t].with_focus(true))
}

/// A step forward from a ring whose focus rests on `f` moves the focus to the
/// taker of the next rank, and to the first taker from the last one. The
/// result is the slot that then has the focus.
pub proof fn lemma_step_moves_rank(ring: Seq<Slot>, f: int) -> (t: int)
    requires
        focus_rests_on(ring, f),
    ensures
        0 <= t < ring.len(),
        focus_next(ring) == focus_moved(ring, f, t),
        focus_rests_on(focus_next(ring), t),
        focused_index(focus_next(ring)) == Some(t),
        ring[t].takes_focus(),
        0 <= takers_before(ring, f) < taker_count(ring),
        takers_before(ring, t) == rank_after(takers_before(ring, f), 1, taker_count(ring)),
{
    let n = ring.len() as int;
    lemma_first_focused(ring, 0);
    assert(focused_index(ring) == Some(f));
    lemma_first_taker(ring, f + 1, n);
    lemma_first_taker(ring, 0, f + 1);
    lemma_takers_before_grows(ring, f, n);
    lemma_takers_before_grows(ring, 0, f);
    let t = next_taker(ring, f)->0;
    let cleared = unfocused(ring);
    let after = focus_next(ring);
    assert(after =~= focus_moved(ring, f, t));
    if first_taker(ring, f + 1, n) is Some {
        lemma_takers_before_grows(ring, f + 1, t);
        lemma_takers_before_grows(ring, f, f + 1);
        lemma_takers_before_grows(ring, t, n);
    } else {
        lemma_takers_before_grows(ring, f + 1, n);
        lemma_takers_before_grows(ring, f, f + 1);
        lemma_takers_before_grows(ring, 0, t);
    }
    assert(at_most_one_focused(after)) by {
        assert forall|i: int, j: int|
            0 <= i < n && 0 <= j < n && #[trigger] after[i].has_focus()
                && #[trigger] after[j].has_focus() implies i == j by {
            if i != t {
                assert(ring[i].has_focus());
            }
            if j != t {
                assert(ring[j].has_focus());
            }
        }
    }
    lemma_first_focused(after, 0);
    assert(after[t].has_focus());
    t
}

/// The slot in focus after `k` steps forward from a ring whose focus rests on
/// `f`; `k` is at most the number of takers.
pub proof fn lemma_focus_after_steps(ring: Seq<Slot>, f: int, k: nat) -> (t: int)
    requires
        focus_rests_on(ring, f),
        k <= taker_count(ring),
    ensures
        0 <= t < ring.len(),
        focus_steps(ring, k) == focus_moved(ring, f, t),
        focus_rests_on(focus_steps(ring, k), t),
        focused_index(focus_steps(ring, k)) == Some(t),
        ring[t].takes_focus(),
        takers_before(ring, t) == rank_after(takers_before(ring, f), k as int, taker_count(ring)),
    decreases k,
{
    let n = ring.len() as int;
    lemma_first_focused(ring, 0);
    lemma_takers_before_grows(ring, f, n);
    if k == 0 {
        assert(ring =~= focus_moved(ring, f, f));
        f
    } else {
        let s = lemma_focus_after_steps(ring, f, (k - 1) as nat);
        let before = focus_steps(ring, (k - 1) as nat);
        let t = lemma_step_moves_rank(before, s);
        assert(focus_moved(before, s, t) =~= focus_moved(ring, f, t));
        lemma_takers_before_same(ring, before, s);
        lemma_takers_before_same(ring, before, t);
        lemma_takers_before_same(ring, before, n);
        t
    }
}

/// A round through the ring: from a ring whose focus rests on a slot, as many
/// steps forward as there are slots that take the focus lead back to where
/// the round began, each of these slots has the focus after one of the steps,
/// and no slot has it after two of them.
pub proof fn lemma_focus_round(ring: Seq<Slot>, f: int)
    requires
        focus_rests_on(ring, f),
    ensures
        taker_count(ring) >= 1,
        focus_steps(ring, taker_count(ring) as nat) == ring,
        forall|t: int|
            0 <= t < ring.len() && (#[trigger] ring[t]).takes_focus() ==> exists|k: nat|
                1 <= k <= taker_count(ring) && focused_index(#[trigger] focus_steps(ring, k))
                    == Some(t),
        forall|j: nat, k: nat|
            1 <= j < k <= taker_count(ring) ==> focused_index(#[trigger] focus_steps(ring, j))
                != focused_index(#[trigger] focus_steps(ring, k)),
{
    let n = ring.len() as int;
    let count = taker_count(ring);
    let rank = takers_before(ring, f);
    lemma_takers_before_grows(ring, f, n);
    let back = lemma_focus_after_steps(ring, f, count as nat);
    lemma_rank_tells_taker(ring, f, back);
    assert(focus_moved(ring, f, f) =~= ring);
    assert forall|t: int| 0 <= t < ring.len() && (#[trigger] ring[t]).takes_focus() implies exists|
        k: nat,
    |
        1 <= k <= count && focused_index(#[trigger] focus_steps(ring, k)) == Some(t) by {
        lemma_takers_before_grows(ring, t, n);
        let q = takers_before(ring, t);
        let k: nat = if q > rank {
            (q - rank) as nat
        } else {
            (q - rank + count) as nat
        };
        let s = lemma_focus_after_steps(ring, f, k);
        lemma_rank_tells_taker(ring, s, t);
        assert(focused_index(focus_steps(ring, k)) == Some(t));
    }
    assert forall|j: nat, k: nat| 1 <= j < k <= count implies focused_index(
        #[trigger] focus_steps(ring, j),
    ) != focused_index(#[trigger] focus_steps(ring, k)) by {
        let a = lemma_focus_after_steps(ring, f, j);
        let b = lemma_focus_after_steps(ring, f, k);
    }
}

} // verus!
