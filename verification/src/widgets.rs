//! The views that come with the library.

use crate::buffer::{byte_len, to_uppercase, uppercase_of};
use crate::event::{KeyCode, KeyEvent, CONTROL, CONTROL_SHIFT, SHIFT};
use crate::input_field::{lemma_span, ByteRange, ContentModel, Cursor, InputFieldContent};
use crate::utf8::{lemma_boundary_in_range, lemma_ends_are_boundaries, lemma_next_boundary};
use crate::utf8::{next_boundary, next_index_in_str};
use crate::views::{MutView, Size};
use vstd::prelude::*;
use vstd::string::*;
use vstd::utf8::*;

verus! {

/// What a key event does to the content of an input field.
///
/// | key | effect |
/// |---|---|
/// | Left, Control+b | `caret_left` |
/// | Right, Control+f | `caret_right` |
/// | Control+Left, Control+a | caret to the beginning |
/// | Control+Right, Control+e | caret to the end |
/// | Shift+Left, Shift+Right | `select_left`, `select_right` |
/// | Control+Shift+Left, Control+Shift+Right | select to the beginning, to the end |
/// | Backspace | `delete_backward` |
/// | Delete, Control+d | `delete_forward` |
/// | a character | `insert` |
/// | Shift+a character | `insert` of each scalar of its upper-case form |
///
/// Every other key event leaves the content as it is. Whether the key went
/// down or came up makes no difference.
pub open spec fn key_effect(content: ContentModel, key_event: KeyEvent) -> ContentModel {
    let modifiers = key_event.modifiers;
    match key_event.code {
        KeyCode::Left => if modifiers.is_none() {
            content.caret_left()
        } else if modifiers.is_control() {
            content.with_cursor(0, None)
        } else if modifiers.is_shift() {
            content.select_left()
        } else if modifiers.is_control_shift() {
            content.select_to(0)
        } else {
            content
        },
        KeyCode::Right => if modifiers.is_none() {
            content.caret_right()
        } else if modifiers.is_control() {
            content.with_cursor(content.len(), None)
        } else if modifiers.is_shift() {
            content.select_right()
        } else if modifiers.is_control_shift() {
            content.select_to(content.len())
        } else {
            content
        },
        KeyCode::Backspace => if modifiers.is_none() {
            content.delete_backward()
        } else {
            content
        },
        KeyCode::Delete => if modifiers.is_none() {
            content.delete_forward()
        } else {
            content
        },
        KeyCode::Char(c) => if modifiers.is_none() {
            content.insert(c)
        } else if modifiers.is_shift() {
            content.insert_all(uppercase_of(c))
        } else if modifiers.is_control() {
            if c == 'b' {
                content.caret_left()
            } else if c == 'f' {
                content.caret_right()
            } else if c == 'a' {
                content.with_cursor(0, None)
            } else if c == 'e' {
                content.with_cursor(content.len(), None)
            } else if c == 'd' {
                content.delete_forward()
            } else {
                content
            }
        } else {
            content
        },
        _ => content,
    }
}

/// Where the text of a span comes from.
#[derive(Debug, Clone, Copy, PartialEq, Eq, Structural, Hash)]
pub enum SpanSource {
    /// The text of the field.
    Text,
    /// The placeholder of the field.
    Placeholder,
    /// A single space, on which the caret stands behind the text.
    Pad,
}

/// The part that a span plays, by which it is styled.
#[derive(Debug, Clone, Copy, PartialEq, Eq, Structural, Hash)]
pub enum SpanStyle {
    /// Text of a field in focus.
    Focused,
    /// Text of a field out of focus.
    Unfocused,
    /// The scalar under the caret.
    Caret,
    /// The selected text.
    Selection,
    /// The placeholder.
    Placeholder,
    /// The part of the placeholder under the caret.
    PlaceholderCaret,
}

/// A run of bytes of one source, drawn in one style.
#[derive(Debug, Clone, Copy, PartialEq, Eq, Structural, Hash)]
pub struct Span {
    pub source: SpanSource,
    pub range: ByteRange,
    pub style: SpanStyle,
}

/// The span of the bytes `[start, end)` of `source` in `style`.
pub open spec fn span(source: SpanSource, start: int, end: int, style: SpanStyle) -> Span {
    Span { source, range: ByteRange { start: start as usize, end: end as usize }, style }
}

/// The spans in which an input field is drawn, from left to right.
///
/// An empty field shows its placeholder; in focus, the first byte of the
/// placeholder stands under the caret where it is a scalar of its own, and
/// where it is not the placeholder is left out. A field out of focus shows its
/// text in one span. A field in focus shows its text in three spans, with the
/// scalar at the caret or the selected text as the one in the middle; a caret
/// behind the text stands on a space of its own.
pub open spec fn spans_of(field: InputFieldModel, is_focused: bool) -> Seq<Span> {
    let content = field.content;
    let len = content.len();
    let hint = encode_utf8(field.placeholder);
    if len == 0 {
        if !is_focused {
            seq![span(SpanSource::Placeholder, 0, hint.len() as int, SpanStyle::Placeholder)]
        } else if is_char_boundary(hint, 1) {
            seq![
                span(SpanSource::Placeholder, 0, 1, SpanStyle::PlaceholderCaret),
                span(SpanSource::Placeholder, 1, hint.len() as int, SpanStyle::Placeholder),
            ]
        } else {
            seq![
                span(SpanSource::Placeholder, 0, 0, SpanStyle::PlaceholderCaret),
                span(SpanSource::Placeholder, 0, 0, SpanStyle::Placeholder),
            ]
        }
    } else if !is_focused {
        seq![span(SpanSource::Text, 0, len, SpanStyle::Unfocused)]
    } else if content.selecting() {
        seq![
            span(SpanSource::Text, 0, content.lower(), SpanStyle::Focused),
            span(SpanSource::Text, content.lower(), content.upper(), SpanStyle::Selection),
            span(SpanSource::Text, content.upper(), len, SpanStyle::Focused),
        ]
    } else if content.caret == len {
        seq![
            span(SpanSource::Text, 0, len, SpanStyle::Focused),
            span(SpanSource::Pad, 0, 1, SpanStyle::Caret),
        ]
    } else {
        seq![
            span(SpanSource::Text, 0, content.caret, SpanStyle::Focused),
            span(
                SpanSource::Text,
                content.caret,
                next_boundary(content.bytes(), content.caret),
                SpanStyle::Caret,
            ),
            span(
                SpanSource::Text,
                next_boundary(content.bytes(), content.caret),
                len,
                SpanStyle::Focused,
            ),
        ]
    }
}

/// The bytes of the source of a span: of the text, of the placeholder, or the
/// one space of the pad.
pub open spec fn source_bytes(field: InputFieldModel, source: SpanSource) -> Seq<u8> {
    match source {
        SpanSource::Text => field.content.bytes(),
        SpanSource::Placeholder => encode_utf8(field.placeholder),
        SpanSource::Pad => seq![0x20u8],
    }
}

/// The span cuts its source at scalar boundaries, the first no later than the
/// second.
pub open spec fn span_fits(field: InputFieldModel, span: Span) -> bool {
    &&& span.range.start <= span.range.end <= source_bytes(field, span.source).len()
    &&& span.source != SpanSource::Pad ==> is_char_boundary(
        source_bytes(field, span.source),
        span.range.start as int,
    ) && is_char_boundary(source_bytes(field, span.source), span.range.end as int)
}

/// What an input field holds, as mathematics.
pub struct InputFieldModel {
    /// The text shown while the field is empty.
    pub placeholder: Seq<char>,
    pub content: ContentModel,
}

/// A single-line text field.
#[derive(Debug, Clone, Hash)]
pub struct InputField {
    placeholder: String,
    content: InputFieldContent,
}

impl View for InputField {
    type V = InputFieldModel;

    closed spec fn view(&self) -> InputFieldModel {
        InputFieldModel { placeholder: self.placeholder@, content: self.content@ }
    }
}

impl Default for InputField {
    fn default() -> (field: Self)
        ensures
            field@.placeholder == Seq::<char>::empty(),
            field@.content == ContentModel::empty(),
    {
        InputField { placeholder: String::new(), content: InputFieldContent::default() }
    }
}

impl InputField {
    /// The field with `placeholder` as the text shown while it is empty.
    pub fn placeholder(self, placeholder: String) -> (field: Self)
        ensures
            field@.placeholder == placeholder@,
            field@.content == self@.content,
    {
        let mut field = self;
        field.placeholder = placeholder;
        field
    }

    /// The field with `text` in it and the caret at the beginning.
    pub fn text(self, text: String) -> (field: Self)
        ensures
            field@.placeholder == self@.placeholder,
            field@.content == ContentModel::with_text(text@),
    {
        let mut field = self;
        let _ = field.content.set_text(text);
        field
    }

    /// The field with the caret at the end of its text and nothing selected.
    pub fn cursor_at_end(self) -> (field: Self)
        ensures
            field@.placeholder == self@.placeholder,
            field@.content == self@.content.with_cursor(self@.content.len(), None),
    {
        let mut field = self;
        field.content.cursor_to_end();
        field
    }

    /// The field with the caret at the beginning of its text and nothing
    /// selected.
    pub fn cursor_at_beginning(self) -> (field: Self)
        ensures
            field@.placeholder == self@.placeholder,
            field@.content == self@.content.with_cursor(0, None),
    {
        let mut field = self;
        field.content.cursor_to_beginning();
        field
    }

    /// The text shown while the field is empty.
    pub fn placeholder_text(&self) -> (placeholder: &str)
        ensures
            placeholder@ == self@.placeholder,
    {
        self.placeholder.as_str()
    }

    /// The spans in which the field is drawn, from left to right.
    pub fn spans(&self, is_focused: bool) -> (spans: Vec<Span>)
        ensures
            spans@ == spans_of(self@, is_focused),
            forall|i: int| 0 <= i < spans.len() ==> span_fits(self@, #[trigger] spans[i]),
    {
        let text = self.content.text();
        let len = byte_len(text);
        let ghost bytes = self@.content.bytes();
        let ghost hint = encode_utf8(self@.placeholder);
        proof {
            encode_utf8_valid_utf8(self@.content.text);
            encode_utf8_valid_utf8(self@.placeholder);
            lemma_ends_are_boundaries(bytes);
            lemma_ends_are_boundaries(hint);
            lemma_span(self@.content);
            lemma_boundary_in_range(bytes, self@.content.caret);
        }
        if len == 0 {
            let hint_len = byte_len(self.placeholder.as_str());
            if !is_focused {
                let spans = vec![
                    Span {
                        source: SpanSource::Placeholder,
                        range: ByteRange { start: 0, end: hint_len },
                        style: SpanStyle::Placeholder,
                    },
                ];
                proof {
                    assert(spans@ =~= spans_of(self@, is_focused));
                }
                spans
            } else {
                let split = self.placeholder.as_str().is_char_boundary(1);
                proof {
                    if split {
                        lemma_boundary_in_range(hint, 1);
                    }
                }
                let (head, tail) = if split {
                    (1, hint_len)
                } else {
                    (0, 0)
                };
                let spans = vec![
                    Span {
                        source: SpanSource::Placeholder,
                        range: ByteRange { start: 0, end: head },
                        style: SpanStyle::PlaceholderCaret,
                    },
                    Span {
                        source: SpanSource::Placeholder,
                        range: ByteRange { start: head, end: tail },
                        style: SpanStyle::Placeholder,
                    },
                ];
                proof {
                    assert(spans@ =~= spans_of(self@, is_focused));
                }
                spans
            }
        } else if !is_focused {
            let spans = vec![
                Span {
                    source: SpanSource::Text,
                    range: ByteRange { start: 0, end: len },
                    style: SpanStyle::Unfocused,
                },
            ];
            proof {
                assert(spans@ =~= spans_of(self@, is_focused));
            }
            spans
        } else {
            match self.content.cursor() {
                Cursor::Selection(range) => {
                    let spans = vec![
                        Span {
                            source: SpanSource::Text,
                            range: ByteRange { start: 0, end: range.start },
                            style: SpanStyle::Focused,
                        },
                        Span { source: SpanSource::Text, range, style: SpanStyle::Selection },
                        Span {
                            source: SpanSource::Text,
                            range: ByteRange { start: range.end, end: len },
                            style: SpanStyle::Focused,
                        },
                    ];
                    proof {
                        assert(spans@ =~= spans_of(self@, is_focused));
                    }
                    spans
                },
                Cursor::Caret(caret) => {
                    if self.content.caret_is_at_end() {
                        let spans = vec![
                            Span {
                                source: SpanSource::Text,
                                range: ByteRange { start: 0, end: len },
                                style: SpanStyle::Focused,
                            },
                            Span {
                                source: SpanSource::Pad,
                                range: ByteRange { start: 0, end: 1 },
                                style: SpanStyle::Caret,
                            },
                        ];
                        proof {
                            assert(spans@ =~= spans_of(self@, is_focused));
                        }
                        spans
                    } else {
                        proof {
                            lemma_next_boundary(bytes, caret as int);
                        }
                        let caret_next = next_index_in_str(text, caret);
                        let spans = vec![
                            Span {
                                source: SpanSource::Text,
                                range: ByteRange { start: 0, end: caret },
                                style: SpanStyle::Focused,
                            },
                            Span {
                                source: SpanSource::Text,
                                range: ByteRange { start: caret, end: caret_next },
                                style: SpanStyle::Caret,
                            },
                            Span {
                                source: SpanSource::Text,
                                range: ByteRange { start: caret_next, end: len },
                                style: SpanStyle::Focused,
                            },
                        ];
                        proof {
                            assert(spans@ =~= spans_of(self@, is_focused));
                        }
                        spans
                    }
                },
            }
        }
    }

    pub fn content(&self) -> (content: &InputFieldContent)
        ensures
            content@ == self@.content,
    {
        &self.content
    }

    pub fn content_mut(&mut self) -> (content: &mut InputFieldContent)
        ensures
            content@ == old(self)@.content,
            final(self)@.content == final(content)@,
            final(self)@.placeholder == old(self)@.placeholder,
    {
        &mut self.content
    }
}

impl MutView for InputField {
    open spec fn focusable(&self) -> bool {
        true
    }

    open spec fn focus_step(&self, after: &Self) -> bool {
        after@ == self@
    }

    open spec fn unfocus_step(&self, after: &Self) -> bool {
        after@ == self@
    }

    open spec fn key_step(&self, key_event: KeyEvent, after: &Self) -> bool {
        &&& after@.placeholder == self@.placeholder
        &&& after@.content == key_effect(self@.content, key_event)
    }

    fn preferred_size(&self) -> (size: Option<Size>)
        ensures
            size is None,
    {
        None
    }

    fn is_focusable(&self) -> (focusable: bool) {
        true
    }

    fn on_focus(&mut self) {
    }

    fn on_unfocus(&mut self) {
    }

    fn on_key_event(&mut self, key_event: KeyEvent) {
        let bits = key_event.modifiers.bits;
        match key_event.code {
            KeyCode::Left => {
                if bits == 0 {
                    self.content.caret_left();
                } else if bits == CONTROL {
                    self.content.caret_left_end();
                } else if bits == SHIFT {
                    self.content.select_left();
                } else if bits == CONTROL_SHIFT {
                    self.content.select_left_end();
                }
            },
            KeyCode::Right => {
                if bits == 0 {
                    self.content.caret_right();
                } else if bits == CONTROL {
                    self.content.caret_right_end();
                } else if bits == SHIFT {
                    self.content.select_right();
                } else if bits == CONTROL_SHIFT {
                    self.content.select_right_end();
                }
            },
            KeyCode::Backspace => {
                if bits == 0 {
                    self.content.delete_backward();
                }
            },
            KeyCode::Delete => {
                if bits == 0 {
                    self.content.delete_forward();
                }
            },
            KeyCode::Char(c) => {
                if bits == 0 {
                    self.content.insert(c);
                } else if bits == SHIFT {
                    let upper = to_uppercase(c);
                    self.content.insert_chars(&upper);
                } else if bits == CONTROL {
                    if c == 'b' {
                        self.content.caret_left();
                    } else if c == 'f' {
                        self.content.caret_right();
                    } else if c == 'a' {
                        self.content.caret_left_end();
                    } else if c == 'e' {
                        self.content.caret_right_end();
                    } else if c == 'd' {
                        self.content.delete_forward();
                    }
                }
            },
            _ => {},
        }
    }
}

} // verus!
