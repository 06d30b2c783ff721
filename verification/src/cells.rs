//! Sequences of cells: what a step of the focus and a key event do to them,
//! and what this comes to on the focus ring.

use crate::event::{dispatch_of, Dispatch, Event, KeyEvent};
use crate::focus::{at_most_one_focused, first_taker, focused_index, last_taker, Slot};
use crate::focus::{focus_next, focus_prev, focus_rests_on, focus_steps, taker_count};
use crate::focus::{lemma_first_focused, lemma_first_taker, lemma_focus_round, lemma_last_taker};
use crate::views::{MutView, ViewCellInner};
use vstd::prelude::*;

verus! {

/// What the focus ring knows of a cell.
pub open spec fn slot_of<W: MutView>(cell: Option<ViewCellInner<W>>) -> Slot {
    match cell {
        Some(inner) => Slot {
            live: true,
            focused: inner.is_focused,
            focusable: inner.view.focusable(),
        },
        None => Slot::dead(),
    }
}

/// The focus ring of a sequence of cells.
pub open spec fn ring_of<W: MutView>(cells: Seq<Option<ViewCellInner<W>>>) -> Seq<Slot> {
    Seq::new(cells.len(), |i: int| slot_of(cells[i]))
}

/// The cell lost the focus: its mark is cleared and its view went through
/// `on_unfocus`.
pub open spec fn lost_focus<W: MutView>(
    before: Option<ViewCellInner<W>>,
    after: Option<ViewCellInner<W>>,
) -> bool {
    &&& before is Some
    &&& after is Some
    &&& !after->0.is_focused
    &&& before->0.view.unfocus_step(&after->0.view)
}

/// The cell got the focus: its mark is set and its view went through
/// `on_focus`.
pub open spec fn gained_focus<W: MutView>(
    before: Option<ViewCellInner<W>>,
    after: Option<ViewCellInner<W>>,
) -> bool {
    &&& before is Some
    &&& after is Some
    &&& after->0.is_focused
    &&& before->0.view.focus_step(&after->0.view)
}

/// The cell lost the focus and got it back: its view went through
/// `on_unfocus`, took the focus in the state that this left it in, and went
/// through `on_focus`.
pub open spec fn regained_focus<W: MutView>(
    before: Option<ViewCellInner<W>>,
    after: Option<ViewCellInner<W>>,
) -> bool {
    &&& before is Some
    &&& after is Some
    &&& after->0.is_focused
    &&& exists|between: W| #[trigger]
        before->0.view.unfocus_step(&between) && between.focusable() && between.focus_step(
            &after->0.view,
        )
}

/// The cell in focus got `key_event`: its view went through `on_key_event`
/// and its mark stayed.
pub open spec fn got_key<W: MutView>(
    before: Option<ViewCellInner<W>>,
    after: Option<ViewCellInner<W>>,
    key_event: KeyEvent,
) -> bool {
    &&& before is Some
    &&& after is Some
    &&& after->0.is_focused == before->0.is_focused
    &&& before->0.view.key_step(key_event, &after->0.view)
}

/// The two sequences hold the same cells but at `a` and at `b`.
pub open spec fn same_but<W>(
    before: Seq<Option<ViewCellInner<W>>>,
    after: Seq<Option<ViewCellInner<W>>>,
    a: int,
    b: int,
) -> bool {
    &&& after.len() == before.len()
    &&& forall|i: int| 0 <= i < before.len() && i != a && i != b ==> after[i] == before[i]
}

/// The cell other than `c` to which a step from `c` moves the focus: going
/// forward, the first taker behind `c` or else the first one before it; going
/// back, the last taker before `c` or else the last one behind it.
pub open spec fn other_taker(ring: Seq<Slot>, c: int, forward: bool) -> Option<int> {
    if forward {
        match first_taker(ring, c + 1, ring.len() as int) {
            Some(t) => Some(t),
            None => first_taker(ring, 0, c),
        }
    } else {
        match last_taker(ring, 0, c) {
            Some(t) => Some(t),
            None => last_taker(ring, c + 1, ring.len() as int),
        }
    }
}

/// What a step of the focus does to the cells.
///
/// The cell in focus loses it. The focus goes to the nearest other cell that
/// takes it, in the direction of the step and round the end of the ring.
/// Where no other cell takes it, the cell that lost it gets it back, if it
/// still takes the focus after its `on_unfocus`. With no cell in focus, the
/// search sets out from the beginning of the ring, or from its end when the
/// step goes back. Cells that were dropped are passed over, and every cell
/// that neither loses nor gets the focus stays as it is.
pub open spec fn moved_focus<W: MutView>(
    before: Seq<Option<ViewCellInner<W>>>,
    after: Seq<Option<ViewCellInner<W>>>,
    forward: bool,
) -> bool {
    let ring = ring_of(before);
    match focused_index(ring) {
        None => {
            let origin = if forward {
                -1
            } else {
                ring.len() as int
            };
            match other_taker(ring, origin, forward) {
                Some(t) => same_but(before, after, t, t) && gained_focus(before[t], after[t]),
                None => after == before,
            }
        },
        Some(c) => match other_taker(ring, c, forward) {
            Some(t) => {
                &&& same_but(before, after, c, t)
                &&& lost_focus(before[c], after[c])
                &&& gained_focus(before[t], after[t])
            },
            None => {
                &&& same_but(before, after, c, c)
                &&& {
                    ||| lost_focus(before[c], after[c]) && !after[c]->0.view.focusable()
                    ||| regained_focus(before[c], after[c])
                }
            },
        },
    }
}

/// What a key event that is handed on does to the cells: the cell in focus
/// gets it, and without a cell in focus nothing happens.
pub open spec fn forwarded_key<W: MutView>(
    before: Seq<Option<ViewCellInner<W>>>,
    after: Seq<Option<ViewCellInner<W>>>,
    key_event: KeyEvent,
) -> bool {
    match focused_index(ring_of(before)) {
        Some(c) => same_but(before, after, c, c) && got_key(before[c], after[c], key_event),
        None => after == before,
    }
}

/// What an event does to the cells of a screen.
pub open spec fn handled_event<W: MutView>(
    before: Seq<Option<ViewCellInner<W>>>,
    after: Seq<Option<ViewCellInner<W>>>,
    event: Event,
) -> bool {
    match dispatch_of(event) {
        Dispatch::FocusNext => moved_focus(before, after, true),
        Dispatch::FocusPrev => moved_focus(before, after, false),
        Dispatch::Forward(key_event) => forwarded_key(before, after, key_event),
        Dispatch::Ignore => after == before,
    }
}

/// A search for takers sees only which slots of its range take the focus.
proof fn lemma_takers_same(a: Seq<Slot>, b: Seq<Slot>, from: int, to: int)
    requires
        a.len() == b.len(),
        0 <= from,
        to <= a.len(),
        forall|j: int| from <= j < to ==> (#[trigger] a[j]).takes_focus() == b[j].takes_focus(),
    ensures
        first_taker(a, from, to) == first_taker(b, from, to),
        last_taker(a, from, to) == last_taker(b, from, to),
    decreases to - from,
{
    if from < to {
        lemma_takers_same(a, b, from + 1, to);
        lemma_takers_same(a, b, from, to - 1);
    }
}

/// A search over a range with one more slot at its far end finds what it
/// found without that slot, and else what that slot has to offer.
proof fn lemma_taker_at_end(ring: Seq<Slot>, from: int, c: int, to: int)
    requires
        0 <= from <= c < to <= ring.len(),
    ensures
        first_taker(ring, from, c + 1) == match first_taker(ring, from, c) {
            Some(t) => Some(t),
            None => if ring[c].takes_focus() {
                Some(c)
            } else {
                None
            },
        },
        last_taker(ring, c, to) == match last_taker(ring, c + 1, to) {
            Some(t) => Some(t),
            None => if ring[c].takes_focus() {
                Some(c)
            } else {
                None
            },
        },
{
    lemma_first_taker(ring, from, c);
    lemma_first_taker(ring, from, c + 1);
    lemma_last_taker(ring, c + 1, to);
    lemma_last_taker(ring, c, to);
}

/// The index of the first cell that exists and is marked as in focus.
pub(crate) fn find_focused<W: MutView>(cells: &Vec<Option<ViewCellInner<W>>>) -> (found: Option<usize>)
    ensures
        match found {
            Some(c) => c < cells.len() && cells[c as int] is Some && focused_index(ring_of(cells@))
                == Some(c as int),
            None => focused_index(ring_of(cells@)) is None,
        },
{
    let ghost ring = ring_of(cells@);
    proof {
        lemma_first_focused(ring, 0);
    }
    let mut i: usize = 0;
    while i < cells.len()
        invariant
            i <= cells.len(),
            ring == ring_of(cells@),
            forall|j: int| 0 <= j < i ==> !(#[trigger] ring[j]).has_focus(),
        decreases cells.len() - i,
    {
        if let Some(inner) = &cells[i] {
            if inner.is_focused {
                proof {
                    assert(ring[i as int].has_focus());
                    lemma_first_focused(ring, 0);
                }
                return Some(i);
            }
        }
        i += 1;
    }
    None
}

/// The index of the first cell in `[from, to)` that exists and takes the
/// focus.
pub(crate) fn find_first_taker<W: MutView>(
    cells: &Vec<Option<ViewCellInner<W>>>,
    from: usize,
    to: usize,
) -> (found: Option<usize>)
    requires
        to <= cells.len(),
    ensures
        match found {
            Some(t) => from <= t < to && cells[t as int] is Some && first_taker(
                ring_of(cells@),
                from as int,
                to as int,
            ) == Some(t as int),
            None => first_taker(ring_of(cells@), from as int, to as int) is None,
        },
{
    let ghost ring = ring_of(cells@);
    proof {
        lemma_first_taker(ring, from as int, to as int);
    }
    let mut i: usize = from;
    while i < to
        invariant
            from <= i,
            to <= cells.len(),
            ring == ring_of(cells@),
            forall|j: int| from <= j < i ==> !(#[trigger] ring[j]).takes_focus(),
        decreases to - i,
    {
        if let Some(inner) = &cells[i] {
            if inner.view.is_focusable() {
                proof {
                    assert(ring[i as int].takes_focus());
                    lemma_first_taker(ring, from as int, to as int);
                }
                return Some(i);
            }
        }
        i += 1;
    }
    None
}

/// The index of the last cell in `[from, to)` that exists and takes the
/// focus.
pub(crate) fn find_last_taker<W: MutView>(
    cells: &Vec<Option<ViewCellInner<W>>>,
    from: usize,
    to: usize,
) -> (found: Option<usize>)
    requires
        to <= cells.len(),
    ensures
        match found {
            Some(t) => from <= t < to && cells[t as int] is Some && last_taker(
                ring_of(cells@),
                from as int,
                to as int,
            ) == Some(t as int),
            None => last_taker(ring_of(cells@), from as int, to as int) is None,
        },
{
    let ghost ring = ring_of(cells@);
    proof {
        lemma_last_taker(ring, from as int, to as int);
    }
    let mut i: usize = to;
    while i > from
        invariant
            i <= to,
            to <= cells.len(),
            ring == ring_of(cells@),
            forall|j: int| i <= j < to ==> !(#[trigger] ring[j]).takes_focus(),
        decreases i,
    {
        i -= 1;
        if let Some(inner) = &cells[i] {
            if inner.view.is_focusable() {
                proof {
                    assert(ring[i as int].takes_focus());
                    lemma_last_taker(ring, from as int, to as int);
                }
                return Some(i);
            }
        }
    }
    None
}

/// Marks the cell at `c` as out of focus and lets its view know.
pub(crate) fn unfocus_at<W: MutView>(cells: &mut Vec<Option<ViewCellInner<W>>>, c: usize)
    requires
        c < old(cells).len(),
        old(cells)[c as int] is Some,
    ensures
        final(cells)@ == old(cells)@.update(c as int, final(cells)@[c as int]),
        lost_focus(old(cells)@[c as int], final(cells)@[c as int]),
{
    match &mut cells[c] {
        Some(inner) => {
            inner.is_focused = false;
            inner.view.on_unfocus();
        },
        None => {},
    }
}

/// Marks the cell at `t` as in focus and lets its view know.
pub(crate) fn focus_at<W: MutView>(cells: &mut Vec<Option<ViewCellInner<W>>>, t: usize)
    requires
        t < old(cells).len(),
        old(cells)[t as int] is Some,
    ensures
        final(cells)@ == old(cells)@.update(t as int, final(cells)@[t as int]),
        gained_focus(old(cells)@[t as int], final(cells)@[t as int]),
{
    match &mut cells[t] {
        Some(inner) => {
            inner.is_focused = true;
            inner.view.on_focus();
        },
        None => {},
    }
}

/// Hands `key_event` to the view of the cell at `c`.
pub(crate) fn key_at<W: MutView>(cells: &mut Vec<Option<ViewCellInner<W>>>, c: usize, key_event: KeyEvent)
    requires
        c < old(cells).len(),
        old(cells)[c as int] is Some,
    ensures
        final(cells)@ == old(cells)@.update(c as int, final(cells)@[c as int]),
        got_key(old(cells)@[c as int], final(cells)@[c as int], key_event),
{
    match &mut cells[c] {
        Some(inner) => {
            inner.view.on_key_event(key_event);
        },
        None => {},
    }
}

/// The view in the cell at `index`, to be changed in place.
pub(crate) fn view_mut_at<W: MutView>(cells: &mut Vec<Option<ViewCellInner<W>>>, index: usize) -> (view:
    Option<&mut W>)
    ensures
        match view {
            Some(v) => {
                &&& index < old(cells).len()
                &&& old(cells)@[index as int] is Some
                &&& *v == old(cells)@[index as int]->0.view
                &&& final(cells)@ == old(cells)@.update(
                    index as int,
                    Some(
                        ViewCellInner {
                            is_focused: old(cells)@[index as int]->0.is_focused,
                            view: *final(v),
                        },
                    ),
                )
            },
            None => {
                &&& !(index < old(cells).len() && old(cells)@[index as int] is Some)
                &&& final(cells)@ == old(cells)@
            },
        },
        at_most_one_focused(ring_of(old(cells)@)) ==> at_most_one_focused(ring_of(final(cells)@)),
    no_unwind
{
    let ghost before = cells@;
    if index < cells.len() {
        match &mut cells[index] {
            Some(inner) => {
                let view = &mut inner.view;
                proof {
                    let after = before.update(
                        index as int,
                        Some(
                            ViewCellInner {
                                is_focused: before[index as int]->0.is_focused,
                                view: *final(view),
                            },
                        ),
                    );
                    if at_most_one_focused(ring_of(before)) {
                        lemma_none_new_in_focus(before, after);
                    }
                }
                Some(view)
            },
            None => None,
        }
    } else {
        None
    }
}

/// Moves the focus one step, forward or back.
pub(crate) fn move_focus<W: MutView>(cells: &mut Vec<Option<ViewCellInner<W>>>, forward: bool)
    ensures
        moved_focus(old(cells)@, final(cells)@, forward),
{
    let n = cells.len();
    let ghost before = cells@;
    let ghost ring = ring_of(before);
    proof {
        lemma_first_focused(ring, 0);
    }
    match find_focused(cells) {
        None => {
            let target = if forward {
                find_first_taker(cells, 0, n)
            } else {
                find_last_taker(cells, 0, n)
            };
            proof {
                lemma_first_taker(ring, 0, n as int);
                lemma_last_taker(ring, 0, n as int);
            }
            if let Some(t) = target {
                focus_at(cells, t);
            }
        },
        Some(c) => {
            unfocus_at(cells, c);
            let ghost between = cells@;
            let ghost ring_between = ring_of(between);
            proof {
                lemma_takers_same(ring, ring_between, c as int + 1, n as int);
                lemma_takers_same(ring, ring_between, 0, c as int);
                lemma_taker_at_end(ring_between, 0, c as int, n as int);
                lemma_first_taker(ring, c as int + 1, n as int);
                lemma_first_taker(ring, 0, c as int);
                lemma_last_taker(ring, c as int + 1, n as int);
                lemma_last_taker(ring, 0, c as int);
            }
            let target = if forward {
                match find_first_taker(cells, c + 1, n) {
                    Some(t) => Some(t),
                    None => find_first_taker(cells, 0, c + 1),
                }
            } else {
                match find_last_taker(cells, 0, c) {
                    Some(t) => Some(t),
                    None => find_last_taker(cells, c, n),
                }
            };
            if let Some(t) = target {
                focus_at(cells, t);
                proof {
                    if t == c {
                        let mid = between[c as int]->0.view;
                        assert(ring_between[c as int].takes_focus());
                        assert(mid.focusable());
                        assert(cells@[c as int]->0.is_focused);
                        assert(mid.focus_step(&cells@[c as int]->0.view));
                        assert(before[c as int]->0.view.unfocus_step(&mid));
                        assert(regained_focus(before[c as int], cells@[c as int]));
                    } else {
                        assert(between[t as int] == before[t as int]);
                        assert(cells@[c as int] == between[c as int]);
                        assert(other_taker(ring, c as int, forward) == Some(t as int));
                    }
                }
            } else {
                proof {
                    assert(other_taker(ring, c as int, forward) is None);
                    assert(!ring_between[c as int].takes_focus());
                }
            }
        },
    }
}

/// Where at most one cell was in focus, and every cell that is in focus now was
/// so before, at most one is in focus now.
pub proof fn lemma_none_new_in_focus<W: MutView>(
    before: Seq<Option<ViewCellInner<W>>>,
    after: Seq<Option<ViewCellInner<W>>>,
)
    requires
        at_most_one_focused(ring_of(before)),
        forall|i: int|
            0 <= i < after.len() && slot_of(#[trigger] after[i]).has_focus() ==> i < before.len()
                && slot_of(before[i]).has_focus(),
    ensures
        at_most_one_focused(ring_of(after)),
{
    assert forall|i: int, j: int|
        0 <= i < after.len() && 0 <= j < after.len() && (#[trigger] ring_of(after)[i]).has_focus()
            && (#[trigger] ring_of(after)[j]).has_focus() implies i == j by {
        assert(slot_of(after[i]).has_focus());
        assert(slot_of(after[j]).has_focus());
        assert(ring_of(before)[i].has_focus());
        assert(ring_of(before)[j].has_focus());
    }
}

/// A step of the focus leaves at most one cell in focus.
pub proof fn lemma_moved_focus_keeps_one<W: MutView>(
    before: Seq<Option<ViewCellInner<W>>>,
    after: Seq<Option<ViewCellInner<W>>>,
    forward: bool,
)
    requires
        moved_focus(before, after, forward),
        at_most_one_focused(ring_of(before)),
    ensures
        at_most_one_focused(ring_of(after)),
{
    let ring = ring_of(before);
    let n = ring.len() as int;
    lemma_first_focused(ring, 0);
    let c = match focused_index(ring) {
        Some(c) => c,
        None => if forward {
            -1
        } else {
            n
        },
    };
    lemma_first_taker(ring, c + 1, n);
    lemma_last_taker(ring, c + 1, n);
    if c >= 0 {
        lemma_first_taker(ring, 0, c);
        lemma_last_taker(ring, 0, c);
    }
    let target = match other_taker(ring, c, forward) {
        Some(t) => t,
        None => c,
    };
    assert forall|i: int, j: int|
        0 <= i < n && 0 <= j < n && (#[trigger] ring_of(after)[i]).has_focus() && (
        #[trigger] ring_of(after)[j]).has_focus() implies i == j by {
        if i != target {
            assert(ring[i].has_focus());
            assert(focused_index(ring) is Some ==> ring[c].has_focus());
        }
        if j != target {
            assert(ring[j].has_focus());
            assert(focused_index(ring) is Some ==> ring[c].has_focus());
        }
    }
}

/// A key that is handed on leaves at most one cell in focus.
pub proof fn lemma_forwarded_key_keeps_one<W: MutView>(
    before: Seq<Option<ViewCellInner<W>>>,
    after: Seq<Option<ViewCellInner<W>>>,
    key_event: KeyEvent,
)
    requires
        forwarded_key(before, after, key_event),
        at_most_one_focused(ring_of(before)),
    ensures
        at_most_one_focused(ring_of(after)),
{
    lemma_first_focused(ring_of(before), 0);
    lemma_none_new_in_focus(before, after);
}

/// The hooks by which the focus comes and goes leave a view as ready to take
/// the focus as it was.
pub open spec fn hooks_keep_focusable<W: MutView>() -> bool {
    &&& forall|a: W, b: W| #[trigger] a.focus_step(&b) ==> a.focusable() == b.focusable()
    &&& forall|a: W, b: W| #[trigger] a.unfocus_step(&b) ==> a.focusable() == b.focusable()
}

/// Where the hooks leave the views as ready to take the focus as they were, a
/// step of the focus does to the ring of the cells what `focus_next` and
/// `focus_prev` say.
pub proof fn lemma_moved_focus_ring<W: MutView>(
    before: Seq<Option<ViewCellInner<W>>>,
    after: Seq<Option<ViewCellInner<W>>>,
    forward: bool,
)
    requires
        moved_focus(before, after, forward),
        hooks_keep_focusable::<W>(),
    ensures
        ring_of(after) == if forward {
            focus_next(ring_of(before))
        } else {
            focus_prev(ring_of(before))
        },
{
    let ring = ring_of(before);
    let n = ring.len() as int;
    let step = if forward {
        focus_next(ring)
    } else {
        focus_prev(ring)
    };
    lemma_first_focused(ring, 0);
    lemma_first_taker(ring, 0, n);
    lemma_last_taker(ring, 0, n);
    match focused_index(ring) {
        None => {
            assert(ring_of(after) =~= step);
        },
        Some(c) => {
            lemma_taker_at_end(ring, 0, c, n);
            lemma_first_taker(ring, c + 1, n);
            lemma_first_taker(ring, 0, c);
            lemma_last_taker(ring, c + 1, n);
            lemma_last_taker(ring, 0, c);
            if other_taker(ring, c, forward) is None && regained_focus(before[c], after[c]) {
                let between = choose|between: W| #[trigger]
                    before[c]->0.view.unfocus_step(&between) && between.focusable()
                        && between.focus_step(&after[c]->0.view);
                assert(ring[c].takes_focus());
            }
            assert(ring_of(after) =~= step);
        },
    }
}

/// A round through the views of a screen. `states` holds the cells of the
/// screen before and after each of as many steps forward as there are views
/// that take the focus; at first the focus rests on one of these views, and the
/// hooks leave the views as ready to take the focus as they were. Then the last
/// step brings the focus back to where it was at first, each view that takes
/// the focus has it after one of the steps, and none has it after two.
pub proof fn lemma_round_of_steps<W: MutView>(states: Seq<Seq<Option<ViewCellInner<W>>>>, f: int)
    requires
        hooks_keep_focusable::<W>(),
        states.len() >= 1,
        states.len() == taker_count(ring_of(states[0])) + 1,
        focus_rests_on(ring_of(states[0]), f),
        forall|k: int|
            0 <= k < states.len() - 1 ==> moved_focus(#[trigger] states[k], states[k + 1], true),
    ensures
        forall|k: int|
            0 <= k < states.len() ==> ring_of(#[trigger] states[k]) == focus_steps(
                ring_of(states[0]),
                k as nat,
            ),
        ring_of(states.last()) == ring_of(states[0]),
        forall|t: int|
            0 <= t < states[0].len() && (#[trigger] ring_of(states[0])[t]).takes_focus()
                ==> exists|k: int|
                1 <= k < states.len() && focused_index(ring_of(#[trigger] states[k])) == Some(t),
        forall|j: int, k: int|
            1 <= j < k < states.len() ==> focused_index(ring_of(#[trigger] states[j]))
                != focused_index(ring_of(#[trigger] states[k])),
{
    let ring = ring_of(states[0]);
    lemma_steps_follow_ring(states, states.len() - 1);
    lemma_focus_round(ring, f);
    assert forall|t: int| 0 <= t < states[0].len() && (#[trigger] ring[t]).takes_focus() implies exists|
        k: int,
    |
        1 <= k < states.len() && focused_index(ring_of(#[trigger] states[k])) == Some(t) by {
        let k = choose|k: nat|
            1 <= k <= taker_count(ring) && focused_index(#[trigger] focus_steps(ring, k)) == Some(
                t,
            );
        assert(focused_index(ring_of(states[k as int])) == Some(t));
    }
    assert forall|j: int, k: int| 1 <= j < k < states.len() implies focused_index(
        ring_of(#[trigger] states[j]),
    ) != focused_index(ring_of(#[trigger] states[k])) by {
        assert(focused_index(focus_steps(ring, j as nat)) != focused_index(
            focus_steps(ring, k as nat),
        ));
    }
}

/// The rings of the cells before and after each of a run of steps forward are
/// the rings that `focus_steps` gives.
proof fn lemma_steps_follow_ring<W: MutView>(states: Seq<Seq<Option<ViewCellInner<W>>>>, upto: int)
    requires
        hooks_keep_focusable::<W>(),
        0 <= upto < states.len(),
        forall|k: int|
            0 <= k < states.len() - 1 ==> moved_focus(#[trigger] states[k], states[k + 1], true),
    ensures
        forall|k: int|
            0 <= k <= upto ==> ring_of(#[trigger] states[k]) == focus_steps(
                ring_of(states[0]),
                k as nat,
            ),
    decreases upto,
{
    if upto > 0 {
        lemma_steps_follow_ring(states, upto - 1);
        assert(moved_focus(states[upto - 1], states[upto - 1 + 1], true));
        lemma_moved_focus_ring(states[upto - 1], states[upto], true);
    }
}

/// With no view in focus and none that takes it, a step of the focus changes
/// nothing, in either direction.
pub proof fn lemma_moved_focus_without_takers<W: MutView>(
    before: Seq<Option<ViewCellInner<W>>>,
    after: Seq<Option<ViewCellInner<W>>>,
    forward: bool,
)
    requires
        moved_focus(before, after, forward),
        focused_index(ring_of(before)) is None,
        forall|i: int| 0 <= i < before.len() ==> !slot_of(#[trigger] before[i]).takes_focus(),
    ensures
        after == before,
{
    let ring = ring_of(before);
    let n = ring.len() as int;
    lemma_first_taker(ring, 0, n);
    lemma_first_taker(ring, 0, -1);
    lemma_last_taker(ring, 0, n);
    lemma_last_taker(ring, n + 1, n);
}

} // verus!
