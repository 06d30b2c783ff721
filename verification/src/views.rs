//! Views that change, the cells that hold them, and the screen that keeps
//! them in tab order and moves the focus among them.

use crate::cells::{find_focused, handled_event, key_at, move_focus, moved_focus, ring_of};
use crate::cells::{lemma_forwarded_key_keeps_one, lemma_moved_focus_keeps_one, slot_of};
use crate::cells::lemma_none_new_in_focus;
use crate::cells::view_mut_at;
use crate::event::{classify, Dispatch, Event, KeyEvent};
use crate::focus::{at_most_one_focused, focused_index, Slot};
use crate::focus::{lemma_first_focused, lemma_first_taker, lemma_last_taker};
use vstd::hash_map::StringHashMap;
use vstd::prelude::*;

verus! {

/// The size that a view would like to have, in character cells.
#[derive(Debug, Clone, Copy, PartialEq, Eq, Structural, Hash)]
pub struct Size {
    pub width: u16,
    pub height: u16,
}

impl Size {
    pub fn new(width: u16, height: u16) -> (size: Self)
        ensures
            size == (Size { width, height }),
    {
        Size { width, height }
    }
}

impl Default for Size {
    fn default() -> (size: Self)
        ensures
            size == (Size { width: 0, height: 0 }),
    {
        Size { width: 0, height: 0 }
    }
}

/// A view with a state of its own, which key events change and which may hold
/// the focus.
///
/// Each hook comes with a relation that says which states it may lead to from
/// which; the screen's contracts speak of the hooks through these relations.
/// A view that says nothing of a hook lets it lead anywhere.
pub trait MutView: Sized {
    /// The view takes the focus.
    spec fn focusable(&self) -> bool;

    /// `on_focus` may lead from this state to `after`.
    open spec fn focus_step(&self, after: &Self) -> bool {
        true
    }

    /// `on_unfocus` may lead from this state to `after`.
    open spec fn unfocus_step(&self, after: &Self) -> bool {
        true
    }

    /// `on_key_event` with `key_event` may lead from this state to `after`.
    open spec fn key_step(&self, key_event: KeyEvent, after: &Self) -> bool {
        true
    }

    /// The size that the view would like to be laid out with, if it has a
    /// wish.
    fn preferred_size(&self) -> Option<Size>;

    /// Whether the view takes the focus.
    fn is_focusable(&self) -> (focusable: bool)
        ensures
            focusable == self.focusable(),
    ;

    /// Called when the view gets the focus.
    fn on_focus(&mut self)
        ensures
            old(self).focus_step(final(self)),
    ;

    /// Called when the view loses the focus.
    fn on_unfocus(&mut self)
        ensures
            old(self).unfocus_step(final(self)),
    ;

    /// Called with each key event that reaches the view while it has the
    /// focus.
    fn on_key_event(&mut self, key_event: KeyEvent)
        ensures
            old(self).key_step(key_event, final(self)),
    ;
}

/// What a cell holds: a view and the mark that says whether it has the focus.
pub struct ViewCellInner<W> {
    pub is_focused: bool,
    pub view: W,
}

/// A handle to a view that was registered with a screen. It stays valid as a
/// value when the screen drops the view, but then resolves to nothing.
#[derive(Debug, Clone, Copy, PartialEq, Eq, Structural, Hash)]
pub struct ViewCell {
    pub index: usize,
}

/// What a screen holds, as mathematics: the cells in tab order, a dropped
/// cell being `None`, and the index of the cell that each tag names.
pub struct ScreenModel<W> {
    pub cells: Seq<Option<ViewCellInner<W>>>,
    pub tags: Map<Seq<char>, usize>,
}

impl<W: MutView> ScreenModel<W> {
    /// Nothing registered.
    pub open spec fn empty() -> Self {
        ScreenModel { cells: Seq::empty(), tags: Map::empty() }
    }

    /// The focus ring of the cells.
    pub open spec fn ring(self) -> Seq<Slot> {
        ring_of(self.cells)
    }

    /// At most one cell is in focus.
    pub open spec fn wf(self) -> bool {
        at_most_one_focused(self.ring())
    }

    /// No cell is in focus.
    pub open spec fn none_focused(self) -> bool {
        forall|i: int| 0 <= i < self.cells.len() ==> !slot_of(#[trigger] self.cells[i]).has_focus()
    }

    /// The handle names a cell that exists.
    pub open spec fn resolves(self, cell: ViewCell) -> bool {
        cell.index < self.cells.len() && self.cells[cell.index as int] is Some
    }

    /// The cell in focus.
    pub open spec fn focused(self) -> Option<ViewCell> {
        match focused_index(self.ring()) {
            Some(c) => Some(ViewCell { index: c as usize }),
            None => None,
        }
    }

    /// The cell that `tag` names, if it exists.
    pub open spec fn tagged(self, tag: Seq<char>) -> Option<ViewCell> {
        if self.tags.contains_key(tag) && self.resolves(ViewCell { index: self.tags[tag] }) {
            Some(ViewCell { index: self.tags[tag] })
        } else {
            None
        }
    }

    /// One more cell at the end of the ring, out of focus, with `view` in it.
    pub open spec fn with_cell(self, view: W) -> Self {
        ScreenModel {
            cells: self.cells.push(Some(ViewCellInner { is_focused: false, view })),
            tags: self.tags,
        }
    }

    /// As `with_cell`, and `tag` names the new cell from now on, whatever it
    /// named before.
    pub open spec fn with_tagged_cell(self, tag: Seq<char>, view: W) -> Self {
        ScreenModel {
            cells: self.cells.push(Some(ViewCellInner { is_focused: false, view })),
            tags: self.tags.insert(tag, self.cells.len() as usize),
        }
    }

    /// The cell that the handle names is dropped; the others keep their
    /// places.
    pub open spec fn without(self, cell: ViewCell) -> Self {
        if self.resolves(cell) {
            ScreenModel { cells: self.cells.update(cell.index as int, None), tags: self.tags }
        } else {
            self
        }
    }

    /// The first cell of the ring is in focus, if there is one. No hook is
    /// called for it.
    pub open spec fn started(self) -> Self {
        if self.cells.len() > 0 && self.cells[0] is Some {
            ScreenModel {
                cells: self.cells.update(
                    0,
                    Some(ViewCellInner { is_focused: true, view: self.cells[0]->0.view }),
                ),
                tags: self.tags,
            }
        } else {
            self
        }
    }
}

/// Dropping a view makes its slot in the ring a dead one and leaves the other
/// slots as they were.
pub proof fn lemma_ring_without<W: MutView>(model: ScreenModel<W>, cell: ViewCell)
    requires
        model.resolves(cell),
    ensures
        model.without(cell).ring() == model.ring().update(cell.index as int, Slot::dead()),
        !model.without(cell).resolves(cell),
        forall|other: ViewCell|
            other != cell ==> model.without(cell).resolves(other) == model.resolves(other),
{
    assert(model.without(cell).ring() =~= model.ring().update(cell.index as int, Slot::dead()));
}

/// The views of a screen in the making. Each view that is registered gets a
/// cell at the end of the tab order; none of them is in focus yet.
pub struct ScreenBuilder<W: MutView> {
    cells: Vec<Option<ViewCellInner<W>>>,
    tags: StringHashMap<usize>,
}

impl<W: MutView> View for ScreenBuilder<W> {
    type V = ScreenModel<W>;

    closed spec fn view(&self) -> ScreenModel<W> {
        ScreenModel { cells: self.cells@, tags: self.tags@ }
    }
}

impl<W: MutView> Default for ScreenBuilder<W> {
    fn default() -> (builder: Self)
        ensures
            builder@ == ScreenModel::<W>::empty(),
    {
        ScreenBuilder::new()
    }
}

impl<W: MutView> ScreenBuilder<W> {
    #[verifier::type_invariant]
    spec fn nothing_in_focus(&self) -> bool {
        self@.none_focused()
    }

    /// A builder with nothing registered.
    pub fn new() -> (builder: Self)
        ensures
            builder@ == ScreenModel::<W>::empty(),
    {
        ScreenBuilder { cells: Vec::new(), tags: StringHashMap::new() }
    }

    /// Moves the cells out and leaves none.
    fn take_cells(&mut self) -> (cells: Vec<Option<ViewCellInner<W>>>)
        ensures
            cells@ == old(self)@.cells,
            old(self)@.none_focused(),
            final(self)@.cells.len() == 0,
            final(self)@.tags == old(self)@.tags,
    {
        proof {
            use_type_invariant(&*self);
        }
        let mut cells = Vec::new();
        std::mem::swap(&mut self.cells, &mut cells);
        cells
    }

    /// Puts `view` in a new cell at the end of the tab order and returns the
    /// handle of the cell.
    pub fn view_cell(&mut self, view: W) -> (cell: ViewCell)
        ensures
            final(self)@ == old(self)@.with_cell(view),
            cell.index == old(self)@.cells.len(),
            final(self)@.resolves(cell),
            final(self)@.none_focused(),
    {
        let mut cells = self.take_cells();
        let index = cells.len();
        cells.push(Some(ViewCellInner { is_focused: false, view }));
        self.cells = cells;
        ViewCell { index }
    }

    /// As `view_cell`, and the cell can be found under `tag` afterwards. A tag
    /// names one cell: the one that was registered with it last.
    pub fn tagged_view_cell(&mut self, tag: &str, view: W) -> (cell: ViewCell)
        ensures
            final(self)@ == old(self)@.with_tagged_cell(tag@, view),
            cell.index == old(self)@.cells.len(),
            final(self)@.tagged(tag@) == Some(cell),
            final(self)@.none_focused(),
    {
        let cell = self.view_cell(view);
        let mut tags = StringHashMap::new();
        std::mem::swap(&mut self.tags, &mut tags);
        tags.insert(tag.to_owned(), cell.index);
        self.tags = tags;
        cell
    }

    /// The screen with the registered views. The first of them is in focus;
    /// no hook is called for that.
    pub fn finish(self) -> (screen: Screen<W>)
        ensures
            screen@ == self@.started(),
            screen@.wf(),
    {
        proof {
            use_type_invariant(&self);
        }
        let mut cells = self.cells;
        let ghost before = cells@;
        if cells.len() > 0 {
            match &mut cells[0] {
                Some(inner) => {
                    inner.is_focused = true;
                },
                None => {},
            }
        }
        proof {
            assert(cells@ =~= self@.started().cells);
            assert forall|i: int, j: int|
                0 <= i < cells.len() && 0 <= j < cells.len() && (#[trigger] ring_of(
                    cells@,
                )[i]).has_focus() && (#[trigger] ring_of(cells@)[j]).has_focus() implies i
                == j by {
                if i != 0 {
                    assert(ring_of(before)[i].has_focus());
                }
                if j != 0 {
                    assert(ring_of(before)[j].has_focus());
                }
            }
        }
        Screen { cells, tags: self.tags }
    }
}

/// The views of a running interface in tab order, one of which may be in
/// focus. A screen owns its views; a `ViewCell` names one of them.
pub struct Screen<W: MutView> {
    cells: Vec<Option<ViewCellInner<W>>>,
    tags: StringHashMap<usize>,
}

impl<W: MutView> View for Screen<W> {
    type V = ScreenModel<W>;

    closed spec fn view(&self) -> ScreenModel<W> {
        ScreenModel { cells: self.cells@, tags: self.tags@ }
    }
}

impl<W: MutView> Screen<W> {
    #[verifier::type_invariant]
    spec fn one_focus(&self) -> bool {
        self@.wf()
    }

    /// A screen without views.
    pub fn new() -> (screen: Self)
        ensures
            screen@ == ScreenModel::<W>::empty(),
            screen@.wf(),
    {
        Screen { cells: Vec::new(), tags: StringHashMap::new() }
    }

    /// Moves the cells out and leaves none.
    fn take_cells(&mut self) -> (cells: Vec<Option<ViewCellInner<W>>>)
        ensures
            cells@ == old(self)@.cells,
            old(self)@.wf(),
            final(self)@.cells.len() == 0,
            final(self)@.tags == old(self)@.tags,
    {
        proof {
            use_type_invariant(&*self);
        }
        let mut cells = Vec::new();
        std::mem::swap(&mut self.cells, &mut cells);
        cells
    }

    /// Puts `view` in a new cell at the end of the tab order, out of focus,
    /// and returns the handle of the cell.
    pub fn view_cell(&mut self, view: W) -> (cell: ViewCell)
        ensures
            final(self)@ == old(self)@.with_cell(view),
            cell.index == old(self)@.cells.len(),
            final(self)@.resolves(cell),
            final(self)@.wf(),
    {
        let mut cells = self.take_cells();
        let ghost before = cells@;
        let index = cells.len();
        cells.push(Some(ViewCellInner { is_focused: false, view }));
        proof {
            lemma_none_new_in_focus(before, cells@);
        }
        self.cells = cells;
        ViewCell { index }
    }

    /// As `view_cell`, and the cell can be found under `tag` afterwards. A tag
    /// names one cell: the one that was registered with it last.
    pub fn tagged_view_cell(&mut self, tag: &str, view: W) -> (cell: ViewCell)
        ensures
            final(self)@ == old(self)@.with_tagged_cell(tag@, view),
            cell.index == old(self)@.cells.len(),
            final(self)@.tagged(tag@) == Some(cell),
            final(self)@.wf(),
    {
        let cell = self.view_cell(view);
        let mut tags = StringHashMap::new();
        std::mem::swap(&mut self.tags, &mut tags);
        tags.insert(tag.to_owned(), cell.index);
        self.tags = tags;
        cell
    }

    /// Drops the view that `cell` names and returns it. The handle, and every
    /// tag of the cell, resolve to nothing from then on; the other cells keep
    /// their handles and their places in the tab order.
    pub fn remove(&mut self, cell: ViewCell) -> (view: Option<W>)
        ensures
            final(self)@ == old(self)@.without(cell),
            !final(self)@.resolves(cell),
            view == match old(self)@.cells[cell.index as int] {
                Some(inner) if old(self)@.resolves(cell) => Some(inner.view),
                _ => None,
            },
            final(self)@.wf(),
    {
        let mut cells = self.take_cells();
        let ghost before = cells@;
        let mut slot: Option<ViewCellInner<W>> = None;
        if cell.index < cells.len() {
            std::mem::swap(&mut cells[cell.index], &mut slot);
        }
        proof {
            assert(cells@ =~= old(self)@.without(cell).cells);
            lemma_none_new_in_focus(before, cells@);
        }
        self.cells = cells;
        match slot {
            Some(inner) => Some(inner.view),
            None => None,
        }
    }

    /// The handle under `tag`, if the cell that it names exists.
    pub fn cell_with_tag(&self, tag: &str) -> (cell: Option<ViewCell>)
        ensures
            cell == self@.tagged(tag@),
    {
        match self.tags.get(tag) {
            Some(index) => {
                let index = *index;
                if index < self.cells.len() && self.cells[index].is_some() {
                    Some(ViewCell { index })
                } else {
                    None
                }
            },
            None => None,
        }
    }

    /// The view that `cell` names, if it exists.
    pub fn inspect(&self, cell: ViewCell) -> (view: Option<&W>)
        ensures
            match view {
                Some(v) => self@.resolves(cell) && *v == self@.cells[cell.index as int]->0.view,
                None => !self@.resolves(cell),
            },
    {
        if cell.index < self.cells.len() {
            match &self.cells[cell.index] {
                Some(inner) => Some(&inner.view),
                None => None,
            }
        } else {
            None
        }
    }

    /// The view that `cell` names, to be changed in place, if it exists.
    pub fn inspect_mut(&mut self, cell: ViewCell) -> (view: Option<&mut W>)
        ensures
            match view {
                Some(v) => {
                    &&& old(self)@.resolves(cell)
                    &&& *v == old(self)@.cells[cell.index as int]->0.view
                    &&& final(self)@.cells == old(self)@.cells.update(
                        cell.index as int,
                        Some(
                            ViewCellInner {
                                is_focused: old(self)@.cells[cell.index as int]->0.is_focused,
                                view: *final(v),
                            },
                        ),
                    )
                    &&& final(self)@.tags == old(self)@.tags
                },
                None => !old(self)@.resolves(cell) && final(self)@ == old(self)@,
            },
            final(self)@.wf(),
    {
        proof {
            use_type_invariant(&*self);
        }
        view_mut_at(&mut self.cells, cell.index)
    }

    /// The view under `tag`, if it exists.
    pub fn inspect_view_with_tag(&self, tag: &str) -> (view: Option<&W>)
        ensures
            match view {
                Some(v) => self@.tagged(tag@) is Some && *v == self@.cells[self@.tagged(
                    tag@,
                )->0.index as int]->0.view,
                None => self@.tagged(tag@) is None,
            },
    {
        match self.cell_with_tag(tag) {
            Some(cell) => self.inspect(cell),
            None => None,
        }
    }

    /// Whether the view that `cell` names is in focus; `None` if it does not
    /// exist.
    pub fn is_focused(&self, cell: ViewCell) -> (focused: Option<bool>)
        ensures
            focused == if self@.resolves(cell) {
                Some(self@.cells[cell.index as int]->0.is_focused)
            } else {
                None
            },
            self@.wf(),
    {
        proof {
            use_type_invariant(self);
        }
        if cell.index < self.cells.len() {
            match &self.cells[cell.index] {
                Some(inner) => Some(inner.is_focused),
                None => None,
            }
        } else {
            None
        }
    }

    /// The cell in focus, if there is one and its view still exists.
    pub fn focused(&self) -> (cell: Option<ViewCell>)
        ensures
            cell == self@.focused(),
            cell matches Some(c) ==> self@.resolves(c) && self@.cells[c.index as int]->0.is_focused,
            self@.wf(),
    {
        proof {
            use_type_invariant(self);
            lemma_first_focused(self@.ring(), 0);
        }
        match find_focused(&self.cells) {
            Some(index) => Some(ViewCell { index }),
            None => None,
        }
    }

    /// Moves the focus to the next view that takes it.
    pub fn focus_next(&mut self)
        ensures
            moved_focus(old(self)@.cells, final(self)@.cells, true),
            final(self)@.tags == old(self)@.tags,
            final(self)@.wf(),
    {
        let mut cells = self.take_cells();
        let ghost before = cells@;
        if cells.len() > 0 {
            move_focus(&mut cells, true);
        } else {
            proof {
                lemma_first_focused(ring_of(before), 0);
                lemma_first_taker(ring_of(before), 0, 0);
            }
        }
        proof {
            lemma_moved_focus_keeps_one(before, cells@, true);
        }
        self.cells = cells;
    }

    /// Moves the focus to the previous view that takes it.
    pub fn focus_prev(&mut self)
        ensures
            moved_focus(old(self)@.cells, final(self)@.cells, false),
            final(self)@.tags == old(self)@.tags,
            final(self)@.wf(),
    {
        let mut cells = self.take_cells();
        let ghost before = cells@;
        if cells.len() > 0 {
            move_focus(&mut cells, false);
        } else {
            proof {
                lemma_first_focused(ring_of(before), 0);
                lemma_last_taker(ring_of(before), 0, 0);
            }
        }
        proof {
            lemma_moved_focus_keeps_one(before, cells@, false);
        }
        self.cells = cells;
    }

    /// Takes an event: Tab moves the focus on, Shift with Tab moves it back,
    /// every other key goes to the view in focus, and what is no key event
    /// is passed over.
    pub fn handle_event(&mut self, event: Event)
        ensures
            handled_event(old(self)@.cells, final(self)@.cells, event),
            final(self)@.tags == old(self)@.tags,
            final(self)@.wf(),
    {
        proof {
            use_type_invariant(&*self);
        }
        match classify(event) {
            Dispatch::FocusNext => {
                self.focus_next();
            },
            Dispatch::FocusPrev => {
                self.focus_prev();
            },
            Dispatch::Forward(key_event) => {
                let mut cells = self.take_cells();
                let ghost before = cells@;
                if let Some(c) = find_focused(&cells) {
                    key_at(&mut cells, c, key_event);
                }
                proof {
                    lemma_forwarded_key_keeps_one(before, cells@, key_event);
                }
                self.cells = cells;
            },
            Dispatch::Ignore => {},
        }
    }
}

} // verus!
