use domtui::input_field::{range, ByteRange, Cursor, InputFieldContent};

fn content(text: &str, caret: usize) -> InputFieldContent {
    let mut content = InputFieldContent::default();
    content.set_text(text.to_string());
    while content.cursor() != Cursor::Caret(caret) {
        content.caret_right();
    }
    content
}

fn selection(start: usize, end: usize) -> Cursor {
    Cursor::Selection(ByteRange { start, end })
}

#[test]
fn default_is_empty_with_caret_at_start() {
    let content = InputFieldContent::default();
    assert_eq!(content.text(), "");
    assert_eq!(content.cursor(), Cursor::Caret(0));
    assert!(!content.is_in_selection_mode());
    assert!(content.caret_is_at_end());
}

#[test]
fn range_orders_its_ends() {
    assert_eq!(range(2, 5), ByteRange { start: 2, end: 5 });
    assert_eq!(range(5, 2), ByteRange { start: 2, end: 5 });
    assert_eq!(range(3, 3), ByteRange { start: 3, end: 3 });
}

#[test]
fn cafe_from_the_end_caret_left_and_delete_backward() {
    let mut at_end = InputFieldContent::default();
    at_end.set_text("café".to_string());
    at_end.cursor_to_end();
    assert_eq!(at_end.text().chars().count(), 4);
    assert_eq!(at_end.text().len(), 5);
    assert_eq!(at_end.cursor(), Cursor::Caret(5));

    let mut moved = at_end.clone();
    moved.caret_left();
    assert_eq!(moved.text(), "café");
    assert_eq!(moved.cursor(), Cursor::Caret(3));

    let mut deleted = at_end.clone();
    deleted.delete_backward();
    assert_eq!(deleted.text(), "caf");
    assert_eq!(deleted.cursor(), Cursor::Caret(3));
}

#[test]
fn cafe_caret_left_then_delete_backward() {
    let mut content = InputFieldContent::default();
    content.set_text("café".to_string());
    content.cursor_to_end();
    assert_eq!(content.cursor(), Cursor::Caret(5));
    content.caret_left();
    assert_eq!(content.cursor(), Cursor::Caret(3));
    content.delete_backward();
    assert_eq!(content.text(), "caé");
    assert_eq!(content.cursor(), Cursor::Caret(2));
}

#[test]
fn cafe_caret_left_then_delete_forward() {
    let mut content = InputFieldContent::default();
    content.set_text("café".to_string());
    content.cursor_to_end();
    content.caret_left();
    assert_eq!(content.cursor(), Cursor::Caret(3));
    content.delete_forward();
    assert_eq!(content.text(), "caf");
    assert_eq!(content.cursor(), Cursor::Caret(3));
}

#[test]
fn insert_puts_the_scalar_at_the_caret_and_moves_behind_it() {
    let mut content = content("cafe", 3);
    content.insert('é');
    assert_eq!(content.text(), "cafée");
    assert_eq!(content.cursor(), Cursor::Caret(5));
    content.insert('🦀');
    assert_eq!(content.text(), "café🦀e");
    assert_eq!(content.cursor(), Cursor::Caret(9));
}

#[test]
fn insert_replaces_the_selection() {
    let mut content = content("hello world", 0);
    for _ in 0..5 {
        content.select_right();
    }
    assert_eq!(content.cursor(), selection(0, 5));
    content.insert('X');
    assert_eq!(content.text(), "X world");
    assert_eq!(content.cursor(), Cursor::Caret(1));
    assert!(!content.is_in_selection_mode());
}

#[test]
fn insert_chars_puts_each_scalar_in_order() {
    let mut content = content("ab", 1);
    content.insert_chars(&vec!['x', 'é', 'z']);
    assert_eq!(content.text(), "axézb");
    assert_eq!(content.cursor(), Cursor::Caret(5));
    content.insert_chars(&vec![]);
    assert_eq!(content.text(), "axézb");
    assert_eq!(content.cursor(), Cursor::Caret(5));
}

#[test]
fn batch_insert_advances_by_the_byte_length() {
    let mut content = content("ab", 1);
    content.batch_insert("文本");
    assert_eq!(content.text(), "a文本b");
    assert_eq!(content.cursor(), Cursor::Caret(7));
    content.batch_insert("");
    assert_eq!(content.text(), "a文本b");
    assert_eq!(content.cursor(), Cursor::Caret(7));
}

#[test]
fn batch_insert_replaces_the_selection() {
    let mut content = content("hello world", 11);
    for _ in 0..5 {
        content.select_left();
    }
    assert_eq!(content.cursor(), selection(6, 11));
    content.batch_insert("there");
    assert_eq!(content.text(), "hello there");
    assert_eq!(content.cursor(), Cursor::Caret(11));
    assert!(!content.is_in_selection_mode());
}

#[test]
fn insert_then_delete_backward_restores_the_text() {
    for text in ["", "a", "café", "UTF-8 文本编辑!"] {
        let mut at = 0;
        loop {
            for ch in ['x', 'é', '文', '🦀'] {
                let mut content = content(text, at);
                content.insert(ch);
                content.delete_backward();
                assert_eq!(content.text(), text);
                assert_eq!(content.cursor(), Cursor::Caret(at));
            }
            if at == text.len() {
                break;
            }
            at = domtui::utf8::next_index_in_str(text, at);
        }
    }
}

#[test]
fn delete_backward_at_the_start_changes_nothing() {
    let mut content = content("café", 0);
    content.delete_backward();
    assert_eq!(content.text(), "café");
    assert_eq!(content.cursor(), Cursor::Caret(0));
    let mut empty = InputFieldContent::default();
    empty.delete_backward();
    assert_eq!(empty.text(), "");
    assert_eq!(empty.cursor(), Cursor::Caret(0));
}

#[test]
fn delete_forward_removes_the_scalar_at_the_caret() {
    let mut content = content("café!", 3);
    content.delete_forward();
    assert_eq!(content.text(), "caf!");
    assert_eq!(content.cursor(), Cursor::Caret(3));
}

#[test]
fn delete_forward_at_the_end_changes_nothing() {
    let mut content = content("café", 5);
    content.delete_forward();
    assert_eq!(content.text(), "café");
    assert_eq!(content.cursor(), Cursor::Caret(5));
}

#[test]
fn delete_with_selection_removes_the_span_and_lands_on_its_start() {
    // Anchor before the caret.
    let mut forward = content("a文本b", 1);
    forward.select_right();
    forward.select_right();
    assert_eq!(forward.cursor(), selection(1, 7));
    forward.delete_backward();
    assert_eq!(forward.text(), "ab");
    assert_eq!(forward.cursor(), Cursor::Caret(1));
    assert!(!forward.is_in_selection_mode());

    // Anchor behind the caret.
    let mut backward = content("a文本b", 7);
    backward.select_left();
    backward.select_left();
    assert_eq!(backward.cursor(), selection(1, 7));
    backward.delete_forward();
    assert_eq!(backward.text(), "ab");
    assert_eq!(backward.cursor(), Cursor::Caret(1));
    assert!(!backward.is_in_selection_mode());
}

#[test]
fn caret_left_and_right_step_over_scalars() {
    let mut content = content("a文b", 0);
    content.caret_right();
    assert_eq!(content.cursor(), Cursor::Caret(1));
    content.caret_right();
    assert_eq!(content.cursor(), Cursor::Caret(4));
    content.caret_right();
    assert_eq!(content.cursor(), Cursor::Caret(5));
    content.caret_right();
    assert_eq!(content.cursor(), Cursor::Caret(5));
    content.caret_left();
    assert_eq!(content.cursor(), Cursor::Caret(4));
    content.caret_left();
    assert_eq!(content.cursor(), Cursor::Caret(1));
    content.caret_left();
    assert_eq!(content.cursor(), Cursor::Caret(0));
    content.caret_left();
    assert_eq!(content.cursor(), Cursor::Caret(0));
}

#[test]
fn caret_left_collapses_to_the_start_of_the_selection_and_steps_on() {
    let mut content = content("abcdef", 2);
    content.select_right();
    content.select_right();
    assert_eq!(content.cursor(), selection(2, 4));
    content.caret_left();
    assert_eq!(content.cursor(), Cursor::Caret(1));
}

#[test]
fn caret_right_collapses_to_the_end_of_the_selection_and_steps_on() {
    let mut content = content("abcdef", 2);
    content.select_right();
    content.select_right();
    assert_eq!(content.cursor(), selection(2, 4));
    content.caret_right();
    assert_eq!(content.cursor(), Cursor::Caret(5));
}

#[test]
fn caret_ends_clear_the_selection() {
    let mut content = content("abcdef", 3);
    content.select_right();
    content.caret_left_end();
    assert_eq!(content.cursor(), Cursor::Caret(0));
    content.select_right();
    content.caret_right_end();
    assert_eq!(content.cursor(), Cursor::Caret(6));
}

#[test]
fn selection_collapses_exactly_when_the_caret_returns_to_the_anchor() {
    let mut content = content("a文b🦀c", 4);
    content.select_right();
    assert_eq!(content.cursor(), selection(4, 5));
    content.select_right();
    assert_eq!(content.cursor(), selection(4, 9));
    content.select_left();
    assert_eq!(content.cursor(), selection(4, 5));
    content.select_left();
    assert_eq!(content.cursor(), Cursor::Caret(4));
    assert!(!content.is_in_selection_mode());
    content.select_left();
    assert_eq!(content.cursor(), selection(1, 4));
    content.select_left();
    assert_eq!(content.cursor(), selection(0, 4));
    content.select_left();
    assert_eq!(content.cursor(), selection(0, 4));
    content.select_right();
    content.select_right();
    assert_eq!(content.cursor(), Cursor::Caret(4));
}

#[test]
fn selecting_at_the_edge_anchors_without_moving() {
    let mut left = content("ab", 0);
    left.select_left();
    assert!(left.is_in_selection_mode());
    assert_eq!(left.cursor(), selection(0, 0));
    left.select_left();
    assert!(!left.is_in_selection_mode());
    assert_eq!(left.cursor(), Cursor::Caret(0));

    let mut right = content("ab", 2);
    right.select_right();
    assert!(right.is_in_selection_mode());
    assert_eq!(right.cursor(), selection(2, 2));
}

#[test]
fn select_to_the_ends() {
    let mut content = content("abcdef", 3);
    content.select_left_end();
    assert_eq!(content.cursor(), selection(0, 3));
    content.select_right_end();
    assert_eq!(content.cursor(), selection(3, 6));
}

#[test]
fn select_to_the_end_where_the_caret_stands_selects_nothing() {
    let mut content = content("abc", 0);
    content.select_left_end();
    assert_eq!(content.cursor(), Cursor::Caret(0));
    content.cursor_to_end();
    content.select_right_end();
    assert_eq!(content.cursor(), Cursor::Caret(3));
}

#[test]
fn set_text_returns_the_old_text_and_resets_the_cursor() {
    let mut content = content("old text", 3);
    content.select_right();
    let previous = content.set_text("new".to_string());
    assert_eq!(previous, "old text");
    assert_eq!(content.text(), "new");
    assert_eq!(content.cursor(), Cursor::Caret(0));
}

#[test]
fn take_text_empties_the_field() {
    let mut content = content("taken", 5);
    let text = content.take_text();
    assert_eq!(text, "taken");
    assert_eq!(content.text(), "");
    assert_eq!(content.cursor(), Cursor::Caret(0));
}

#[test]
fn clear_empties_the_field() {
    let mut content = content("gone", 2);
    content.select_right();
    content.clear();
    assert_eq!(content.text(), "");
    assert_eq!(content.cursor(), Cursor::Caret(0));
}

#[test]
fn cursor_to_the_ends() {
    let mut content = content("café", 2);
    content.cursor_to_end();
    assert_eq!(content.cursor(), Cursor::Caret(5));
    assert!(content.caret_is_at_end());
    content.cursor_to_beginning();
    assert_eq!(content.cursor(), Cursor::Caret(0));
    assert!(!content.caret_is_at_end());
}

#[test]
fn copy_without_selection_gives_nothing() {
    let content = content("abc", 1);
    assert_eq!(content.copy(), None);
}

#[test]
fn copy_gives_the_selected_text_and_changes_nothing() {
    let mut content = content("a文本b", 7);
    content.select_left();
    content.select_left();
    assert_eq!(content.copy(), Some("文本".to_string()));
    assert_eq!(content.text(), "a文本b");
    assert_eq!(content.cursor(), selection(1, 7));
}

#[test]
fn copy_of_an_empty_selection_gives_the_empty_string() {
    let mut content = content("ab", 0);
    content.select_left();
    assert_eq!(content.copy(), Some(String::new()));
}

#[test]
fn paste_inserts_what_the_clipboard_held() {
    let mut content = content("ab", 1);
    content.paste(Some("文本"));
    assert_eq!(content.text(), "a文本b");
    assert_eq!(content.cursor(), Cursor::Caret(7));
}

#[test]
fn paste_without_content_changes_nothing() {
    let mut content = content("abc", 1);
    content.select_right();
    content.paste(None);
    assert_eq!(content.text(), "abc");
    assert_eq!(content.cursor(), selection(1, 2));
}

#[test]
fn clone_is_independent() {
    let mut first = content("abc", 1);
    let copy = first.clone();
    first.insert('x');
    assert_eq!(copy.text(), "abc");
    assert_eq!(copy.cursor(), Cursor::Caret(1));
    assert_eq!(first.text(), "axbc");
}
