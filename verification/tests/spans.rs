use domtui::input_field::{ByteRange, Cursor};
use domtui::widgets::{InputField, Span, SpanSource, SpanStyle};

fn span(source: SpanSource, start: usize, end: usize, style: SpanStyle) -> Span {
    Span { source, range: ByteRange { start, end }, style }
}

fn field(text: &str, caret: usize) -> InputField {
    let mut field = InputField::default().placeholder("hint".to_string()).text(text.to_string());
    while field.content().cursor() != Cursor::Caret(caret) {
        field.content_mut().caret_right();
    }
    field
}

#[test]
fn empty_field_out_of_focus_shows_the_placeholder() {
    assert_eq!(field("", 0).spans(false), vec![span(SpanSource::Placeholder, 0, 4, SpanStyle::Placeholder)]);
}

#[test]
fn empty_field_in_focus_puts_the_caret_on_the_first_byte_of_the_placeholder() {
    assert_eq!(
        field("", 0).spans(true),
        vec![
            span(SpanSource::Placeholder, 0, 1, SpanStyle::PlaceholderCaret),
            span(SpanSource::Placeholder, 1, 4, SpanStyle::Placeholder),
        ]
    );
}

#[test]
fn empty_field_in_focus_with_a_placeholder_that_cannot_be_cut() {
    for hint in ["", "文本"] {
        let f = InputField::default().placeholder(hint.to_string());
        assert_eq!(
            f.spans(true),
            vec![
                span(SpanSource::Placeholder, 0, 0, SpanStyle::PlaceholderCaret),
                span(SpanSource::Placeholder, 0, 0, SpanStyle::Placeholder),
            ]
        );
    }
}

#[test]
fn single_byte_placeholder_in_focus() {
    let f = InputField::default().placeholder("x".to_string());
    assert_eq!(
        f.spans(true),
        vec![
            span(SpanSource::Placeholder, 0, 1, SpanStyle::PlaceholderCaret),
            span(SpanSource::Placeholder, 1, 1, SpanStyle::Placeholder),
        ]
    );
}

#[test]
fn field_out_of_focus_shows_its_text_in_one_span() {
    let mut f = field("a文b", 1);
    f.content_mut().select_right();
    assert_eq!(f.spans(false), vec![span(SpanSource::Text, 0, 5, SpanStyle::Unfocused)]);
}

#[test]
fn caret_in_the_text_stands_on_a_whole_scalar() {
    assert_eq!(
        field("a文b", 1).spans(true),
        vec![
            span(SpanSource::Text, 0, 1, SpanStyle::Focused),
            span(SpanSource::Text, 1, 4, SpanStyle::Caret),
            span(SpanSource::Text, 4, 5, SpanStyle::Focused),
        ]
    );
    assert_eq!(
        field("a文b", 0).spans(true),
        vec![
            span(SpanSource::Text, 0, 0, SpanStyle::Focused),
            span(SpanSource::Text, 0, 1, SpanStyle::Caret),
            span(SpanSource::Text, 1, 5, SpanStyle::Focused),
        ]
    );
}

#[test]
fn caret_behind_the_text_stands_on_a_pad() {
    assert_eq!(
        field("a文b", 5).spans(true),
        vec![span(SpanSource::Text, 0, 5, SpanStyle::Focused), span(SpanSource::Pad, 0, 1, SpanStyle::Caret)]
    );
}

#[test]
fn selection_is_the_middle_span() {
    let mut f = field("a文b🦀", 9);
    f.content_mut().select_left();
    f.content_mut().select_left();
    assert_eq!(
        f.spans(true),
        vec![
            span(SpanSource::Text, 0, 4, SpanStyle::Focused),
            span(SpanSource::Text, 4, 9, SpanStyle::Selection),
            span(SpanSource::Text, 9, 9, SpanStyle::Focused),
        ]
    );
}

#[test]
fn spans_cut_the_text_at_boundaries() {
    let text = "UTF-8 文本编辑!";
    let mut f = field(text, 0);
    loop {
        for focused in [false, true] {
            let mut drawn = String::new();
            for s in f.spans(focused) {
                if s.source == SpanSource::Text {
                    drawn.push_str(&text[s.range.start..s.range.end]);
                }
            }
            assert_eq!(drawn, text);
        }
        if f.content().caret_is_at_end() {
            break;
        }
        f.content_mut().caret_right();
    }
}
