//! The state of a single-line text field: its text, its caret and its
//! selection.
//!
//! Positions are byte offsets into the UTF-8 text and always lie on scalar
//! boundaries. A selection is held as a second position, the anchor; the
//! selected span lies between the anchor and the caret, whichever comes first.

use crate::buffer::{byte_len, lemma_encode_scalar, lemma_splice, splice};
use crate::buffer::{string_drain, string_insert, string_insert_str};
use crate::utf8::{lemma_boundary_in_range, lemma_ends_are_boundaries, lemma_next_boundary};
use crate::utf8::{lemma_prev_boundary, lemma_prev_of_next, next_boundary, prev_boundary};
use crate::utf8::{next_index_in_str, prev_index_in_str};
use vstd::prelude::*;
use vstd::string::*;
use vstd::utf8::*;

verus! {

broadcast use vstd::utf8::encode_utf8_valid_utf8;

/// What a text field holds, as mathematics: the text as a sequence of scalars,
/// and the caret and the anchor as byte offsets into its UTF-8 encoding.
pub struct ContentModel {
    pub text: Seq<char>,
    pub caret: int,
    pub caret2: Option<int>,
}

impl ContentModel {
    /// The UTF-8 encoding of the text, which the offsets index.
    pub open spec fn bytes(self) -> Seq<u8> {
        encode_utf8(self.text)
    }

    /// The length of the text in bytes.
    pub open spec fn len(self) -> int {
        self.bytes().len() as int
    }

    /// The caret, and the anchor if there is one, lie on scalar boundaries.
    pub open spec fn wf(self) -> bool {
        &&& is_char_boundary(self.bytes(), self.caret)
        &&& self.caret2 matches Some(c) ==> is_char_boundary(self.bytes(), c)
    }

    /// An anchor is set.
    pub open spec fn selecting(self) -> bool {
        self.caret2 is Some
    }

    /// Where the selected span begins; the caret when nothing is selected.
    pub open spec fn lower(self) -> int {
        match self.caret2 {
            Some(c) => if c < self.caret {
                c
            } else {
                self.caret
            },
            None => self.caret,
        }
    }

    /// Where the selected span ends; the caret when nothing is selected.
    pub open spec fn upper(self) -> int {
        match self.caret2 {
            Some(c) => if c < self.caret {
                self.caret
            } else {
                c
            },
            None => self.caret,
        }
    }

    /// The position from which a selection is, or would be, drawn.
    pub open spec fn anchor(self) -> int {
        match self.caret2 {
            Some(c) => c,
            None => self.caret,
        }
    }

    /// No text, the caret at offset 0, nothing selected.
    pub open spec fn empty() -> Self {
        ContentModel { text: Seq::empty(), caret: 0, caret2: None }
    }

    /// The field with `text` in it, the caret at offset 0, nothing selected.
    pub open spec fn with_text(text: Seq<char>) -> Self {
        ContentModel { text, caret: 0, caret2: None }
    }

    /// The same text with the caret at `caret` and the anchor at `caret2`.
    pub open spec fn with_cursor(self, caret: int, caret2: Option<int>) -> Self {
        ContentModel { text: self.text, caret, caret2 }
    }

    /// The bytes in `[lo, hi)` give way to `ins`; the caret comes to stand
    /// behind `ins` and nothing is selected.
    pub open spec fn replaced(self, lo: int, hi: int, ins: Seq<u8>) -> Self {
        ContentModel {
            text: decode_utf8(splice(self.bytes(), lo, hi, ins)),
            caret: lo + ins.len(),
            caret2: None,
        }
    }

    /// The selected span is removed, if there is one, and `ch` is put at the
    /// caret, which moves behind it.
    pub open spec fn insert(self, ch: char) -> Self {
        self.replaced(self.lower(), self.upper(), encode_scalar(ch as u32))
    }

    /// The scalars of `chars` are put in one after the other, as `insert`
    /// puts each.
    pub open spec fn insert_all(self, chars: Seq<char>) -> Self
        decreases chars.len(),
    {
        if chars.len() == 0 {
            self
        } else {
            self.insert_all(chars.drop_last()).insert(chars.last())
        }
    }

    /// As `insert`, for a whole string.
    pub open spec fn batch_insert(self, input: Seq<char>) -> Self {
        self.replaced(self.lower(), self.upper(), encode_utf8(input))
    }

    /// The selected span is removed; with nothing selected, the scalar before
    /// the caret is.
    pub open spec fn delete_backward(self) -> Self {
        if self.selecting() {
            self.replaced(self.lower(), self.upper(), Seq::empty())
        } else {
            self.replaced(prev_boundary(self.bytes(), self.caret), self.caret, Seq::empty())
        }
    }

    /// The selected span is removed; with nothing selected, the scalar at the
    /// caret is.
    pub open spec fn delete_forward(self) -> Self {
        if self.selecting() {
            self.replaced(self.lower(), self.upper(), Seq::empty())
        } else {
            self.replaced(self.caret, next_boundary(self.bytes(), self.caret), Seq::empty())
        }
    }

    /// The selection collapses to its beginning and the caret moves one scalar
    /// back from there.
    pub open spec fn caret_left(self) -> Self {
        self.with_cursor(prev_boundary(self.bytes(), self.lower()), None)
    }

    /// The selection collapses to its end and the caret moves one scalar on
    /// from there.
    pub open spec fn caret_right(self) -> Self {
        self.with_cursor(next_boundary(self.bytes(), self.upper()), None)
    }

    /// The caret moves one scalar back and the anchor stays, or is set where
    /// the caret was. A selection that was there before ends when the caret
    /// reaches its anchor.
    pub open spec fn select_left(self) -> Self {
        let caret = prev_boundary(self.bytes(), self.caret);
        if self.selecting() && caret == self.anchor() {
            self.with_cursor(caret, None)
        } else {
            self.with_cursor(caret, Some(self.anchor()))
        }
    }

    /// As `select_left`, one scalar on.
    pub open spec fn select_right(self) -> Self {
        let caret = next_boundary(self.bytes(), self.caret);
        if self.selecting() && caret == self.anchor() {
            self.with_cursor(caret, None)
        } else {
            self.with_cursor(caret, Some(self.anchor()))
        }
    }

    /// The anchor is set at `edge`, unless the caret stands there: then
    /// nothing is selected.
    pub open spec fn select_to(self, edge: int) -> Self {
        if self.caret == edge {
            self.with_cursor(self.caret, None)
        } else {
            self.with_cursor(self.caret, Some(edge))
        }
    }

    /// The selected text; `None` when no anchor is set.
    pub open spec fn selected(self) -> Option<Seq<char>> {
        if self.selecting() {
            Some(decode_utf8(self.bytes().subrange(self.lower(), self.upper())))
        } else {
            None
        }
    }

    /// The caret stands at `a` with nothing selected, or elsewhere with the
    /// anchor at `a`.
    pub open spec fn anchored_at(self, a: int) -> bool {
        match self.caret2 {
            None => self.caret == a,
            Some(c) => c == a && self.caret != a,
        }
    }
}

/// A replacement between two boundaries leaves a well-formed field whose bytes
/// are the spliced bytes.
pub proof fn lemma_replaced(m: ContentModel, lo: int, hi: int, ins: Seq<u8>)
    requires
        is_char_boundary(m.bytes(), lo),
        is_char_boundary(m.bytes(), hi),
        lo <= hi,
        valid_utf8(ins),
    ensures
        m.replaced(lo, hi, ins).wf(),
        m.replaced(lo, hi, ins).bytes() == splice(m.bytes(), lo, hi, ins),
{
    lemma_splice(m.bytes(), lo, hi, ins);
    decode_utf8_encode_utf8(splice(m.bytes(), lo, hi, ins));
}

/// The bounds of the selected span are boundaries, in order.
pub proof fn lemma_span(m: ContentModel)
    requires
        m.wf(),
    ensures
        is_char_boundary(m.bytes(), m.lower()),
        is_char_boundary(m.bytes(), m.upper()),
        0 <= m.lower() <= m.upper() <= m.len(),
{
    lemma_boundary_in_range(m.bytes(), m.lower());
    lemma_boundary_in_range(m.bytes(), m.upper());
}

/// Moving the caret and selecting leave a well-formed field well-formed.
pub proof fn lemma_moves_keep_wf(m: ContentModel)
    requires
        m.wf(),
    ensures
        m.caret_left().wf(),
        m.caret_right().wf(),
        m.select_left().wf(),
        m.select_right().wf(),
        m.select_to(0).wf(),
        m.select_to(m.len()).wf(),
        m.with_cursor(0, None).wf(),
        m.with_cursor(m.len(), None).wf(),
{
    let b = m.bytes();
    lemma_span(m);
    lemma_boundary_in_range(b, m.caret);
    lemma_ends_are_boundaries(b);
    if m.caret > 0 {
        lemma_prev_boundary(b, m.caret);
    }
    if m.caret < m.len() {
        lemma_next_boundary(b, m.caret);
    }
    if m.lower() > 0 {
        lemma_prev_boundary(b, m.lower());
    }
    if m.upper() < m.len() {
        lemma_next_boundary(b, m.upper());
    }
}

/// Inserting and deleting leave a well-formed field well-formed, and so does
/// a new text.
pub proof fn lemma_edits_keep_wf(m: ContentModel, ch: char, input: Seq<char>)
    requires
        m.wf(),
    ensures
        m.insert(ch).wf(),
        m.batch_insert(input).wf(),
        m.delete_backward().wf(),
        m.delete_forward().wf(),
        ContentModel::with_text(input).wf(),
{
    let b = m.bytes();
    lemma_span(m);
    lemma_boundary_in_range(b, m.caret);
    lemma_ends_are_boundaries(encode_utf8(input));
    lemma_encode_scalar(ch);
    lemma_replaced(m, m.lower(), m.upper(), encode_scalar(ch as u32));
    lemma_replaced(m, m.lower(), m.upper(), encode_utf8(input));
    lemma_replaced(m, m.lower(), m.upper(), Seq::empty());
    if m.caret > 0 {
        lemma_prev_boundary(b, m.caret);
    }
    if m.caret < m.len() {
        lemma_next_boundary(b, m.caret);
    }
    lemma_replaced(m, prev_boundary(b, m.caret), m.caret, Seq::empty());
    lemma_replaced(m, m.caret, next_boundary(b, m.caret), Seq::empty());
}

/// With nothing selected, deleting backward after an insertion gives back the
/// text and the caret of before.
pub proof fn lemma_insert_then_delete_backward(m: ContentModel, ch: char)
    requires
        m.wf(),
        !m.selecting(),
    ensures
        m.insert(ch).delete_backward().text == m.text,
        m.insert(ch).delete_backward().caret == m.caret,
        m.insert(ch).delete_backward().caret2 is None,
{
    let b = m.bytes();
    let e = encode_scalar(ch as u32);
    let c = m.caret;
    lemma_boundary_in_range(b, c);
    lemma_encode_scalar(ch);
    lemma_replaced(m, c, c, e);
    let m1 = m.insert(ch);
    let b1 = m1.bytes();
    assert(b1[c] == e[0]);
    assert(next_boundary(b1, c) == c + e.len());
    lemma_splice(b, c, c, e);
    lemma_prev_of_next(b1, c);
    lemma_replaced(m1, c, c + e.len(), Seq::empty());
    assert(splice(b1, c, c + e.len(), Seq::empty()) =~= b);
    encode_utf8_decode_utf8(m.text);
}

/// Deleting with a selection, in either direction, removes the selected span
/// and nothing else, ends the selection and leaves the caret where the span
/// began.
pub proof fn lemma_delete_selection(m: ContentModel)
    requires
        m.wf(),
        m.selecting(),
    ensures
        m.delete_backward() == m.delete_forward(),
        m.delete_backward().caret2 is None,
        m.delete_backward().caret == m.lower(),
        m.delete_backward().bytes() == m.bytes().subrange(0, m.lower()) + m.bytes().subrange(
            m.upper(),
            m.len(),
        ),
{
    lemma_span(m);
    lemma_replaced(m, m.lower(), m.upper(), Seq::empty());
    assert(splice(m.bytes(), m.lower(), m.upper(), Seq::empty()) =~= m.bytes().subrange(
        0,
        m.lower(),
    ) + m.bytes().subrange(m.upper(), m.len()));
}

/// A step of selection keeps the field anchored where it was: afterwards
/// nothing is selected exactly if the caret stands at the anchor. The one
/// step left out is the first of a selection, taken at the edge of the text
/// towards which it goes: there the caret cannot move off the new anchor.
pub proof fn lemma_select_keeps_anchor(m: ContentModel, a: int)
    requires
        m.wf(),
        m.anchored_at(a),
    ensures
        m.selecting() || m.caret != 0 ==> m.select_left().anchored_at(a),
        m.selecting() || m.caret != m.len() ==> m.select_right().anchored_at(a),
{
    let b = m.bytes();
    lemma_boundary_in_range(b, m.caret);
    if m.caret > 0 {
        lemma_prev_boundary(b, m.caret);
    }
    if m.caret < m.len() {
        lemma_next_boundary(b, m.caret);
    }
}

/// One step of selection, to the left or to the right.
pub open spec fn select_step(m: ContentModel, left: bool) -> ContentModel {
    if left {
        m.select_left()
    } else {
        m.select_right()
    }
}

/// The field after a run of selection steps; `true` stands for a step to the
/// left.
pub open spec fn select_steps(m: ContentModel, steps: Seq<bool>) -> ContentModel
    decreases steps.len(),
{
    if steps.len() == 0 {
        m
    } else {
        select_step(select_steps(m, steps.drop_last()), steps.last())
    }
}

/// The step `left` starts a selection at the edge of the text towards which
/// it goes.
pub open spec fn starts_at_edge(m: ContentModel, left: bool) -> bool {
    !m.selecting() && m.caret == if left {
        0
    } else {
        m.len()
    }
}

/// After any run of selection steps from a field with nothing selected, nothing
/// is selected exactly if the caret stands where the run began, as long as no
/// step of the run started a selection at the edge towards which it went.
pub proof fn lemma_select_steps_keep_anchor(m: ContentModel, steps: Seq<bool>)
    requires
        m.wf(),
        !m.selecting(),
        forall|k: int|
            0 <= k < steps.len() ==> !starts_at_edge(
                #[trigger] select_steps(m, steps.take(k)),
                steps[k],
            ),
    ensures
        select_steps(m, steps).wf(),
        select_steps(m, steps).text == m.text,
        select_steps(m, steps).anchored_at(m.caret),
        select_steps(m, steps).caret2 is None <==> select_steps(m, steps).caret == m.caret,
    decreases steps.len(),
{
    if steps.len() > 0 {
        let head = steps.drop_last();
        assert forall|k: int| 0 <= k < head.len() implies !starts_at_edge(
            #[trigger] select_steps(m, head.take(k)),
            head[k],
        ) by {
            assert(head.take(k) =~= steps.take(k));
        }
        lemma_select_steps_keep_anchor(m, head);
        let before = select_steps(m, head);
        assert(steps.take(steps.len() - 1) =~= head);
        assert(!starts_at_edge(before, steps.last()));
        lemma_select_keeps_anchor(before, m.caret);
        lemma_moves_keep_wf(before);
    }
}

/// A span of bytes, from `start` up to but not including `end`.
#[derive(Debug, Clone, Copy, PartialEq, Eq, Structural, Hash)]
pub struct ByteRange {
    pub start: usize,
    pub end: usize,
}

/// Where the caret of a text field stands, or what it has selected.
#[derive(Debug, Clone, Copy, PartialEq, Eq, Structural, Hash)]
pub enum Cursor {
    /// Nothing is selected; the caret stands at this byte offset.
    Caret(usize),
    /// The selected span of bytes.
    Selection(ByteRange),
}

/// The text of an input field with its caret and selection.
#[derive(Debug, Hash)]
pub struct InputFieldContent {
    text: String,
    caret: usize,
    /// The anchor of the selection, when there is one.
    caret2: Option<usize>,
}

impl View for InputFieldContent {
    type V = ContentModel;

    closed spec fn view(&self) -> ContentModel {
        ContentModel {
            text: self.text@,
            caret: self.caret as int,
            caret2: match self.caret2 {
                Some(c) => Some(c as int),
                None => None,
            },
        }
    }
}

/// Moves `index` to the boundary that follows it in `s`.
fn index_next(s: &str, index: &mut usize)
    requires
        is_char_boundary(s.spec_bytes(), *old(index) as int),
    ensures
        *final(index) == next_boundary(s.spec_bytes(), *old(index) as int),
        is_char_boundary(s.spec_bytes(), *final(index) as int),
{
    let next_index = next_index_in_str(s, *index);
    *index = next_index;
}

/// Moves `index` to the boundary that precedes it in `s`.
fn index_prev(s: &str, index: &mut usize)
    requires
        is_char_boundary(s.spec_bytes(), *old(index) as int),
    ensures
        *final(index) == prev_boundary(s.spec_bytes(), *old(index) as int),
        is_char_boundary(s.spec_bytes(), *final(index) as int),
{
    let prev_index = prev_index_in_str(s, *index);
    *index = prev_index;
}

/// The span between `x` and `y`, whichever comes first.
pub fn range(x: usize, y: usize) -> (r: ByteRange)
    ensures
        r.start == if x < y {
            x
        } else {
            y
        },
        r.end == if x < y {
            y
        } else {
            x
        },
{
    if x < y {
        ByteRange { start: x, end: y }
    } else {
        ByteRange { start: y, end: x }
    }
}

impl Clone for InputFieldContent {
    fn clone(&self) -> (copy: Self)
        ensures
            copy@ == self@,
            copy@.wf(),
    {
        proof {
            use_type_invariant(self);
        }
        InputFieldContent { text: self.text.clone(), caret: self.caret, caret2: self.caret2 }
    }
}

impl Default for InputFieldContent {
    fn default() -> (content: Self)
        ensures
            content@ == ContentModel::empty(),
            content@.wf(),
    {
        InputFieldContent { text: String::new(), caret: 0, caret2: None }
    }
}

impl InputFieldContent {
    #[verifier::type_invariant]
    spec fn well_formed(&self) -> bool {
        self@.wf()
    }

    /// Moves the text out and leaves the field empty.
    fn take_buffer(&mut self) -> (text: String)
        ensures
            text@ == old(self)@.text,
            final(self)@ == ContentModel::empty(),
            final(self)@.wf(),
    {
        proof {
            use_type_invariant(&*self);
        }
        self.caret2 = None;
        self.caret = 0;
        let mut text = String::new();
        std::mem::swap(&mut self.text, &mut text);
        text
    }

    pub fn text(&self) -> (text: &str)
        ensures
            text@ == self@.text,
            self@.wf(),
    {
        proof {
            use_type_invariant(self);
        }
        self.text.as_str()
    }

    pub fn cursor(&self) -> (cursor: Cursor)
        ensures
            cursor == match self@.caret2 {
                None => Cursor::Caret(self@.caret as usize),
                Some(_) => Cursor::Selection(
                    ByteRange { start: self@.lower() as usize, end: self@.upper() as usize },
                ),
            },
    {
        match self.caret2 {
            None => Cursor::Caret(self.caret),
            Some(caret2) => Cursor::Selection(range(self.caret, caret2)),
        }
    }

    pub fn cursor_to_beginning(&mut self)
        ensures
            final(self)@ == old(self)@.with_cursor(0, None),
            final(self)@.wf(),
    {
        proof {
            use_type_invariant(&*self);
        }
        self.caret = 0;
        self.caret2 = None;
    }

    pub fn cursor_to_end(&mut self)
        ensures
            final(self)@ == old(self)@.with_cursor(old(self)@.len(), None),
            final(self)@.wf(),
    {
        proof {
            use_type_invariant(&*self);
            lemma_ends_are_boundaries(self@.bytes());
        }
        self.caret2 = None;
        self.caret = byte_len(self.text.as_str());
    }

    pub fn clear(&mut self)
        ensures
            final(self)@ == ContentModel::empty(),
            final(self)@.wf(),
    {
        let _ = self.take_buffer();
    }

    /// Puts `text` in the field and returns the text that it held. The caret
    /// goes to the beginning and nothing stays selected.
    pub fn set_text(&mut self, text: String) -> (previous: String)
        ensures
            final(self)@ == ContentModel::with_text(text@),
            previous@ == old(self)@.text,
            final(self)@.wf(),
    {
        let mut text = text;
        self.cursor_to_beginning();
        std::mem::swap(&mut self.text, &mut text);
        text
    }

    /// Returns the text and leaves the field empty.
    pub fn take_text(&mut self) -> (text: String)
        ensures
            final(self)@ == ContentModel::empty(),
            text@ == old(self)@.text,
            final(self)@.wf(),
    {
        self.take_buffer()
    }

    pub fn is_in_selection_mode(&self) -> (selecting: bool)
        ensures
            selecting == self@.selecting(),
    {
        self.caret2.is_some()
    }

    pub fn caret_is_at_end(&self) -> (at_end: bool)
        ensures
            at_end == (self@.caret == self@.len()),
    {
        self.caret == byte_len(self.text.as_str())
    }

    /// Removes the span `[start, end)` from the text, puts `input` in its
    /// place, if any, and sets the caret behind it.
    fn replace_span(&mut self, start: usize, end: usize, input: Option<&str>)
        requires
            start <= end,
            is_char_boundary(old(self)@.bytes(), start as int),
            is_char_boundary(old(self)@.bytes(), end as int),
        ensures
            final(self)@ == old(self)@.replaced(
                start as int,
                end as int,
                match input {
                    Some(s) => s.spec_bytes(),
                    None => Seq::empty(),
                },
            ),
            final(self)@.wf(),
    {
        let ghost before = self@;
        let ghost ins = match input {
            Some(s) => s.spec_bytes(),
            None => Seq::empty(),
        };
        let mut text = self.take_buffer();
        string_drain(&mut text, start, end);
        let mut caret = start;
        proof {
            lemma_splice(before.bytes(), start as int, end as int, Seq::empty());
        }
        if let Some(s) = input {
            let behind = byte_len(text.as_str()) - start;
            string_insert_str(&mut text, start, s);
            proof {
                lemma_splice(
                    splice(before.bytes(), start as int, end as int, Seq::empty()),
                    start as int,
                    start as int,
                    ins,
                );
            }
            caret = byte_len(text.as_str()) - behind;
        }
        proof {
            assert(encode_utf8(text@) =~= splice(before.bytes(), start as int, end as int, ins));
            lemma_replaced(before, start as int, end as int, ins);
            encode_utf8_decode_utf8(text@);
        }
        *self = InputFieldContent { text, caret, caret2: None };
    }

    /// Puts `ch` at the caret, in place of the selection if there is one, and
    /// moves the caret behind it.
    pub fn insert(&mut self, ch: char)
        ensures
            final(self)@ == old(self)@.insert(ch),
            final(self)@.wf(),
            !final(self)@.selecting(),
    {
        let ghost before = self@;
        proof {
            use_type_invariant(&*self);
            lemma_span(before);
            lemma_encode_scalar(ch);
        }
        if self.is_in_selection_mode() {
            self.delete_backward();
        }
        let start = self.caret;
        let ghost removed = self@.bytes();
        proof {
            lemma_replaced(before, before.lower(), before.upper(), Seq::empty());
            assert(removed =~= splice(
                before.bytes(),
                before.lower(),
                before.upper(),
                Seq::empty(),
            ));
        }
        let mut text = self.take_buffer();
        string_insert(&mut text, start, ch);
        proof {
            lemma_splice(removed, start as int, start as int, encode_scalar(ch as u32));
            assert(encode_utf8(text@) =~= splice(
                before.bytes(),
                before.lower(),
                before.upper(),
                encode_scalar(ch as u32),
            ));
            assert(encode_utf8(text@)[start as int] == encode_scalar(ch as u32)[0]);
            lemma_replaced(before, before.lower(), before.upper(), encode_scalar(ch as u32));
            encode_utf8_decode_utf8(text@);
        }
        let mut caret = start;
        index_next(text.as_str(), &mut caret);
        *self = InputFieldContent { text, caret, caret2: None };
    }

    /// Puts the scalars of `chars` at the caret, one after the other.
    pub fn insert_chars(&mut self, chars: &Vec<char>)
        ensures
            final(self)@ == old(self)@.insert_all(chars@),
            final(self)@.wf(),
    {
        proof {
            use_type_invariant(&*self);
        }
        let mut i: usize = 0;
        while i < chars.len()
            invariant
                i <= chars.len(),
                self@ == old(self)@.insert_all(chars@.take(i as int)),
                self@.wf(),
            decreases chars.len() - i,
        {
            proof {
                assert(chars@.take(i + 1).drop_last() =~= chars@.take(i as int));
            }
            self.insert(chars[i]);
            i += 1;
        }
        proof {
            assert(chars@.take(i as int) =~= chars@);
        }
    }

    /// Puts `input` at the caret, in place of the selection if there is one,
    /// and moves the caret behind it.
    pub fn batch_insert(&mut self, input: &str)
        ensures
            final(self)@ == old(self)@.batch_insert(input@),
            final(self)@.wf(),
            !final(self)@.selecting(),
    {
        proof {
            use_type_invariant(&*self);
            lemma_span(self@);
        }
        let span = match self.caret2 {
            Some(caret2) => range(self.caret, caret2),
            None => range(self.caret, self.caret),
        };
        self.replace_span(span.start, span.end, Some(input));
    }

    /// Removes the selected span; with nothing selected, the scalar before the
    /// caret. The caret ends where the removed bytes began.
    pub fn delete_backward(&mut self)
        ensures
            final(self)@ == old(self)@.delete_backward(),
            final(self)@.wf(),
            !final(self)@.selecting(),
            old(self)@.selecting() ==> final(self)@.caret == old(self)@.lower(),
    {
        proof {
            use_type_invariant(&*self);
            lemma_span(self@);
        }
        match self.caret2 {
            Some(caret2) => {
                let span = range(self.caret, caret2);
                self.replace_span(span.start, span.end, None);
            },
            None => {
                let end = self.caret;
                let mut start = end;
                index_prev(self.text.as_str(), &mut start);
                proof {
                    lemma_boundary_in_range(self@.bytes(), end as int);
                    if end > 0 {
                        lemma_prev_boundary(self@.bytes(), end as int);
                    }
                }
                self.replace_span(start, end, None);
            },
        }
    }

    /// Removes the selected span; with nothing selected, the scalar at the
    /// caret, which stays where it is.
    pub fn delete_forward(&mut self)
        ensures
            final(self)@ == old(self)@.delete_forward(),
            final(self)@.wf(),
            !final(self)@.selecting(),
            old(self)@.selecting() ==> final(self)@.caret == old(self)@.lower(),
            !old(self)@.selecting() ==> final(self)@.caret == old(self)@.caret,
    {
        proof {
            use_type_invariant(&*self);
            lemma_span(self@);
        }
        match self.caret2 {
            Some(caret2) => {
                let span = range(self.caret, caret2);
                self.replace_span(span.start, span.end, None);
            },
            None => {
                let start = self.caret;
                let mut end = start;
                index_next(self.text.as_str(), &mut end);
                proof {
                    lemma_boundary_in_range(self@.bytes(), start as int);
                    if start < self@.len() {
                        lemma_next_boundary(self@.bytes(), start as int);
                    }
                }
                self.replace_span(start, end, None);
            },
        }
    }

    /// Ends the selection at its beginning and moves the caret one scalar
    /// back from there.
    pub fn caret_left(&mut self)
        ensures
            final(self)@ == old(self)@.caret_left(),
            final(self)@.wf(),
    {
        proof {
            use_type_invariant(&*self);
            lemma_span(self@);
        }
        let mut caret = match self.caret2 {
            Some(caret2) => range(self.caret, caret2).start,
            None => self.caret,
        };
        index_prev(self.text.as_str(), &mut caret);
        self.caret2 = None;
        self.caret = caret;
    }

    /// Ends the selection at its end and moves the caret one scalar on from
    /// there.
    pub fn caret_right(&mut self)
        ensures
            final(self)@ == old(self)@.caret_right(),
            final(self)@.wf(),
    {
        proof {
            use_type_invariant(&*self);
            lemma_span(self@);
        }
        let mut caret = match self.caret2 {
            Some(caret2) => range(self.caret, caret2).end,
            None => self.caret,
        };
        index_next(self.text.as_str(), &mut caret);
        self.caret2 = None;
        self.caret = caret;
    }

    /// Ends the selection and moves the caret to the beginning of the text.
    pub fn caret_left_end(&mut self)
        ensures
            final(self)@ == old(self)@.with_cursor(0, None),
            final(self)@.wf(),
    {
        self.cursor_to_beginning();
    }

    /// Ends the selection and moves the caret to the end of the text.
    pub fn caret_right_end(&mut self)
        ensures
            final(self)@ == old(self)@.with_cursor(old(self)@.len(), None),
            final(self)@.wf(),
    {
        self.cursor_to_end();
    }

    /// Moves the caret one scalar back and keeps it selecting from the anchor,
    /// which is set where the caret was if there was none. A selection that
    /// was there before ends when the caret comes back to its anchor.
    pub fn select_left(&mut self)
        ensures
            final(self)@ == old(self)@.select_left(),
            final(self)@.wf(),
    {
        proof {
            use_type_invariant(&*self);
        }
        let mut caret = self.caret;
        index_prev(self.text.as_str(), &mut caret);
        match self.caret2 {
            Some(caret2) => {
                self.caret = caret;
                if caret == caret2 {
                    self.caret2 = None;
                }
            },
            None => {
                self.caret2 = Some(self.caret);
                self.caret = caret;
            },
        }
    }

    /// Moves the caret one scalar on and keeps it selecting from the anchor,
    /// which is set where the caret was if there was none. A selection that
    /// was there before ends when the caret comes back to its anchor.
    pub fn select_right(&mut self)
        ensures
            final(self)@ == old(self)@.select_right(),
            final(self)@.wf(),
    {
        proof {
            use_type_invariant(&*self);
        }
        let mut caret = self.caret;
        index_next(self.text.as_str(), &mut caret);
        match self.caret2 {
            Some(caret2) => {
                self.caret = caret;
                if caret == caret2 {
                    self.caret2 = None;
                }
            },
            None => {
                self.caret2 = Some(self.caret);
                self.caret = caret;
            },
        }
    }

    /// Selects from the beginning of the text to the caret; nothing, if the
    /// caret stands at the beginning.
    pub fn select_left_end(&mut self)
        ensures
            final(self)@ == old(self)@.select_to(0),
            final(self)@.wf(),
    {
        proof {
            use_type_invariant(&*self);
        }
        if self.caret == 0 {
            self.caret2 = None;
        } else {
            self.caret2 = Some(0);
        }
    }

    /// Selects from the caret to the end of the text; nothing, if the caret
    /// stands at the end.
    pub fn select_right_end(&mut self)
        ensures
            final(self)@ == old(self)@.select_to(old(self)@.len()),
            final(self)@.wf(),
    {
        proof {
            use_type_invariant(&*self);
            lemma_ends_are_boundaries(self@.bytes());
        }
        let len = byte_len(self.text.as_str());
        if self.caret == len {
            self.caret2 = None;
        } else {
            self.caret2 = Some(len);
        }
    }

    /// The selected text, for the clipboard; `None` when nothing is selected.
    /// The field stays as it is.
    pub fn copy(&self) -> (selected: Option<String>)
        ensures
            selected is Some == self@.selecting(),
            selected matches Some(s) ==> Some(s@) == self@.selected(),
    {
        proof {
            use_type_invariant(self);
            lemma_span(self@);
        }
        match self.cursor() {
            Cursor::Caret(_) => None,
            Cursor::Selection(span) => {
                let (head, _) = self.text.as_str().split_at(span.end);
                proof {
                    let bytes = self@.bytes();
                    crate::buffer::lemma_boundary_by_byte(bytes, span.start as int);
                    crate::buffer::lemma_boundary_by_byte(head.spec_bytes(), span.start as int);
                }
                let (_, selected) = head.split_at(span.start);
                proof {
                    assert(selected.spec_bytes() =~= self@.bytes().subrange(
                        span.start as int,
                        span.end as int,
                    ));
                    encode_utf8_decode_utf8(selected@);
                }
                Some(selected.to_owned())
            },
        }
    }

    /// Puts what was read from the clipboard at the caret, as `batch_insert`
    /// does. `None` stands for a clipboard that could not be read or that
    /// holds no text: then the field stays as it is.
    pub fn paste(&mut self, clipboard_content: Option<&str>)
        ensures
            final(self)@ == match clipboard_content {
                Some(s) => old(self)@.batch_insert(s@),
                None => old(self)@,
            },
            final(self)@.wf(),
    {
        proof {
            use_type_invariant(&*self);
        }
        if let Some(content) = clipboard_content {
            self.batch_insert(content);
        }
    }
}

} // verus!
