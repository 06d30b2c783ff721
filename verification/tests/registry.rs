use domtui::event::{Event, KeyCode, KeyEvent, KeyEventKind, KeyModifiers};
use domtui::views::{MutView, Screen, ScreenBuilder, Size, ViewCell};

#[derive(Debug, Clone, PartialEq, Eq)]
struct Probe {
    name: &'static str,
    focusable: bool,
    focused: u32,
    unfocused: u32,
    keys: Vec<KeyEvent>,
}

fn probe(name: &'static str, focusable: bool) -> Probe {
    Probe { name, focusable, focused: 0, unfocused: 0, keys: Vec::new() }
}

impl MutView for Probe {
    fn focusable(&self) -> bool {
        self.focusable
    }

    fn preferred_size(&self) -> Option<Size> {
        None
    }

    fn is_focusable(&self) -> bool {
        self.focusable
    }

    fn on_focus(&mut self) {
        self.focused += 1;
    }

    fn on_unfocus(&mut self) {
        self.unfocused += 1;
    }

    fn on_key_event(&mut self, key_event: KeyEvent) {
        self.keys.push(key_event);
    }
}

fn screen_of(views: Vec<Probe>) -> (Screen<Probe>, Vec<ViewCell>) {
    let mut builder = ScreenBuilder::new();
    let mut cells = Vec::new();
    for view in views {
        cells.push(builder.view_cell(view));
    }
    (builder.finish(), cells)
}

fn hooks(screen: &Screen<Probe>, cell: ViewCell) -> (u32, u32) {
    let view = screen.inspect(cell).unwrap();
    (view.focused, view.unfocused)
}

fn key(code: KeyCode, bits: u8) -> Event {
    Event::Key(KeyEvent::new(code, KeyModifiers::new(bits)))
}

#[test]
fn empty_screen_has_no_focus_and_steps_do_nothing() {
    let mut screen: Screen<Probe> = Screen::new();
    assert_eq!(screen.focused(), None);
    screen.focus_next();
    assert_eq!(screen.focused(), None);
    screen.focus_prev();
    assert_eq!(screen.focused(), None);
    screen.handle_event(key(KeyCode::Tab, 0));
    screen.handle_event(key(KeyCode::Char('a'), 0));
    assert_eq!(screen.focused(), None);

    let built: Screen<Probe> = ScreenBuilder::new().finish();
    assert_eq!(built.focused(), None);
}

#[test]
fn two_cells_focus_goes_round() {
    let (mut screen, cells) = screen_of(vec![probe("a", true), probe("b", true)]);
    let (a, b) = (cells[0], cells[1]);
    assert_eq!(screen.focused(), Some(a));
    assert_eq!(hooks(&screen, a), (0, 0));
    assert_eq!(hooks(&screen, b), (0, 0));

    screen.focus_next();
    assert_eq!(screen.focused(), Some(b));
    assert_eq!(hooks(&screen, a), (0, 1));
    assert_eq!(hooks(&screen, b), (1, 0));
    assert_eq!(screen.is_focused(a), Some(false));
    assert_eq!(screen.is_focused(b), Some(true));

    screen.focus_next();
    assert_eq!(screen.focused(), Some(a));
    assert_eq!(hooks(&screen, a), (1, 1));
    assert_eq!(hooks(&screen, b), (1, 1));
}

#[test]
fn handles_are_given_in_order_of_registration() {
    let (screen, cells) = screen_of(vec![probe("a", true), probe("b", false), probe("c", true)]);
    assert_eq!(cells.iter().map(|c| c.index).collect::<Vec<_>>(), vec![0, 1, 2]);
    assert_eq!(screen.inspect(cells[0]).unwrap().name, "a");
    assert_eq!(screen.inspect(cells[1]).unwrap().name, "b");
    assert_eq!(screen.inspect(cells[2]).unwrap().name, "c");
    assert!(screen.inspect(ViewCell { index: 3 }).is_none());
}

#[test]
fn finish_focuses_the_first_cell_without_a_hook() {
    let (screen, cells) = screen_of(vec![probe("a", false), probe("b", true)]);
    assert_eq!(screen.focused(), Some(cells[0]));
    assert_eq!(hooks(&screen, cells[0]), (0, 0));
    assert_eq!(screen.is_focused(cells[1]), Some(false));
}

#[test]
fn a_round_visits_every_focusable_cell_once() {
    let (mut screen, cells) = screen_of(vec![
        probe("a", true),
        probe("b", false),
        probe("c", true),
        probe("d", true),
        probe("e", false),
    ]);
    let start = screen.focused();
    assert_eq!(start, Some(cells[0]));
    let mut visited = Vec::new();
    for _ in 0..3 {
        screen.focus_next();
        visited.push(screen.focused().unwrap());
    }
    assert_eq!(visited, vec![cells[2], cells[3], cells[0]]);
    assert_eq!(screen.focused(), start);
    for cell in [cells[0], cells[2], cells[3]] {
        assert_eq!(hooks(&screen, cell), (1, 1));
    }
    for cell in [cells[1], cells[4]] {
        assert_eq!(hooks(&screen, cell), (0, 0));
    }
}

#[test]
fn a_round_backwards_visits_every_focusable_cell_once() {
    let (mut screen, cells) = screen_of(vec![
        probe("a", true),
        probe("b", false),
        probe("c", true),
        probe("d", true),
        probe("e", false),
    ]);
    let mut visited = Vec::new();
    for _ in 0..3 {
        screen.focus_prev();
        visited.push(screen.focused().unwrap());
    }
    assert_eq!(visited, vec![cells[3], cells[2], cells[0]]);
}

#[test]
fn a_single_focusable_cell_gets_the_focus_back() {
    let (mut screen, cells) = screen_of(vec![probe("a", false), probe("b", true), probe("c", false)]);
    screen.focus_next();
    assert_eq!(screen.focused(), Some(cells[1]));
    assert_eq!(hooks(&screen, cells[0]), (0, 1));
    assert_eq!(hooks(&screen, cells[1]), (1, 0));
    screen.focus_next();
    assert_eq!(screen.focused(), Some(cells[1]));
    assert_eq!(hooks(&screen, cells[1]), (2, 1));
    screen.focus_prev();
    assert_eq!(screen.focused(), Some(cells[1]));
    assert_eq!(hooks(&screen, cells[1]), (3, 2));
}

#[test]
fn steps_without_focusable_cells_do_nothing_once_nothing_is_in_focus() {
    let mut screen: Screen<Probe> = Screen::new();
    let a = screen.view_cell(probe("a", false));
    let b = screen.view_cell(probe("b", false));
    assert_eq!(screen.focused(), None);
    screen.focus_next();
    screen.focus_prev();
    assert_eq!(screen.focused(), None);
    assert_eq!(hooks(&screen, a), (0, 0));
    assert_eq!(hooks(&screen, b), (0, 0));
}

#[test]
fn a_cell_that_takes_no_focus_loses_it_for_good() {
    let (mut screen, cells) = screen_of(vec![probe("a", false), probe("b", false)]);
    assert_eq!(screen.focused(), Some(cells[0]));
    screen.focus_next();
    assert_eq!(screen.focused(), None);
    assert_eq!(hooks(&screen, cells[0]), (0, 1));
    screen.focus_next();
    assert_eq!(screen.focused(), None);
    assert_eq!(hooks(&screen, cells[0]), (0, 1));
    assert_eq!(hooks(&screen, cells[1]), (0, 0));
}

#[test]
fn without_focus_the_search_starts_at_the_edge() {
    let mut forward: Screen<Probe> = Screen::new();
    let cells: Vec<ViewCell> =
        vec![probe("a", false), probe("b", true), probe("c", true)].into_iter().map(|v| forward.view_cell(v)).collect();
    forward.focus_next();
    assert_eq!(forward.focused(), Some(cells[1]));

    let mut backward: Screen<Probe> = Screen::new();
    let cells: Vec<ViewCell> =
        vec![probe("a", true), probe("b", true), probe("c", false)].into_iter().map(|v| backward.view_cell(v)).collect();
    backward.focus_prev();
    assert_eq!(backward.focused(), Some(cells[1]));
    assert_eq!(hooks(&backward, cells[1]), (1, 0));
}

#[test]
fn dropped_cell_resolves_to_nothing() {
    let (mut screen, cells) = screen_of(vec![probe("a", true), probe("b", true), probe("c", true)]);
    let dropped = screen.remove(cells[1]);
    assert_eq!(dropped.map(|v| v.name), Some("b"));
    assert!(screen.inspect(cells[1]).is_none());
    assert!(screen.inspect_mut(cells[1]).is_none());
    assert_eq!(screen.is_focused(cells[1]), None);
    assert_eq!(screen.remove(cells[1]).map(|v| v.name), None);
    assert_eq!(screen.inspect(cells[0]).unwrap().name, "a");
    assert_eq!(screen.inspect(cells[2]).unwrap().name, "c");
}

#[test]
fn traversal_skips_a_dropped_cell_and_nothing_else() {
    let (mut screen, cells) = screen_of(vec![
        probe("a", true),
        probe("b", true),
        probe("c", true),
        probe("d", true),
    ]);
    screen.remove(cells[1]);
    screen.focus_next();
    assert_eq!(screen.focused(), Some(cells[2]));
    screen.focus_next();
    assert_eq!(screen.focused(), Some(cells[3]));
    screen.focus_next();
    assert_eq!(screen.focused(), Some(cells[0]));
    screen.focus_prev();
    assert_eq!(screen.focused(), Some(cells[3]));
    screen.focus_prev();
    screen.focus_prev();
    assert_eq!(screen.focused(), Some(cells[0]));
}

#[test]
fn dropping_the_focused_cell_leaves_nothing_in_focus() {
    let (mut screen, cells) = screen_of(vec![probe("a", true), probe("b", true), probe("c", true)]);
    screen.focus_next();
    assert_eq!(screen.focused(), Some(cells[1]));
    screen.remove(cells[1]);
    assert_eq!(screen.focused(), None);
    screen.handle_event(key(KeyCode::Char('x'), 0));
    assert!(screen.inspect(cells[0]).unwrap().keys.is_empty());
    assert!(screen.inspect(cells[2]).unwrap().keys.is_empty());
    screen.focus_next();
    assert_eq!(screen.focused(), Some(cells[0]));
    assert_eq!(hooks(&screen, cells[0]), (1, 1));
}

#[test]
fn dropping_the_first_cell_does_not_stop_the_search_for_the_focus() {
    let (mut screen, cells) = screen_of(vec![probe("a", true), probe("b", true)]);
    screen.focus_next();
    screen.remove(cells[0]);
    assert_eq!(screen.focused(), Some(cells[1]));
    screen.focus_next();
    assert_eq!(screen.focused(), Some(cells[1]));
}

#[test]
fn cells_registered_after_finish_join_the_ring_at_its_end() {
    let (mut screen, cells) = screen_of(vec![probe("a", true)]);
    let late = screen.view_cell(probe("late", true));
    assert_eq!(late.index, 1);
    assert_eq!(screen.is_focused(late), Some(false));
    assert_eq!(screen.focused(), Some(cells[0]));
    screen.focus_next();
    assert_eq!(screen.focused(), Some(late));
}

#[test]
fn tags_find_their_cells() {
    let mut builder = ScreenBuilder::new();
    let a = builder.tagged_view_cell("first", probe("a", true));
    let b = builder.view_cell(probe("b", true));
    let c = builder.tagged_view_cell("third", probe("c", true));
    let mut screen = builder.finish();
    assert_eq!(screen.cell_with_tag("first"), Some(a));
    assert_eq!(screen.cell_with_tag("third"), Some(c));
    assert_eq!(screen.cell_with_tag("second"), None);
    assert_eq!(screen.inspect_view_with_tag("third").map(|v| v.name), Some("c"));
    assert!(screen.inspect_view_with_tag("second").is_none());
    let d = screen.tagged_view_cell("fourth", probe("d", true));
    assert_eq!(screen.cell_with_tag("fourth"), Some(d));
    assert_eq!((a.index, b.index, c.index, d.index), (0, 1, 2, 3));
}

#[test]
fn a_tag_used_twice_names_the_later_cell() {
    let mut builder = ScreenBuilder::new();
    let first = builder.tagged_view_cell("same", probe("a", true));
    let second = builder.tagged_view_cell("same", probe("b", true));
    let mut screen = builder.finish();
    assert_eq!(screen.cell_with_tag("same"), Some(second));
    assert_eq!(screen.inspect(first).unwrap().name, "a");
    let third = screen.tagged_view_cell("same", probe("c", true));
    assert_eq!(screen.cell_with_tag("same"), Some(third));
    assert_eq!(screen.inspect_view_with_tag("same").map(|v| v.name), Some("c"));
}

#[test]
fn a_tag_of_a_dropped_cell_finds_nothing() {
    let mut builder = ScreenBuilder::new();
    let a = builder.tagged_view_cell("gone", probe("a", true));
    builder.tagged_view_cell("kept", probe("b", true));
    let mut screen = builder.finish();
    screen.remove(a);
    assert_eq!(screen.cell_with_tag("gone"), None);
    assert!(screen.inspect_view_with_tag("gone").is_none());
    assert_eq!(screen.inspect_view_with_tag("kept").map(|v| v.name), Some("b"));
}

#[test]
fn inspect_mut_changes_the_view_in_place() {
    let (mut screen, cells) = screen_of(vec![probe("a", true), probe("b", true)]);
    screen.inspect_mut(cells[1]).unwrap().name = "renamed";
    assert_eq!(screen.inspect(cells[1]).unwrap().name, "renamed");
    assert_eq!(screen.inspect(cells[0]).unwrap().name, "a");
    assert_eq!(screen.focused(), Some(cells[0]));
}

#[test]
fn focusability_is_asked_anew_at_every_step() {
    let (mut screen, cells) = screen_of(vec![probe("a", true), probe("b", true), probe("c", true)]);
    screen.inspect_mut(cells[1]).unwrap().focusable = false;
    screen.focus_next();
    assert_eq!(screen.focused(), Some(cells[2]));
    screen.inspect_mut(cells[1]).unwrap().focusable = true;
    screen.focus_prev();
    assert_eq!(screen.focused(), Some(cells[1]));
}

#[test]
fn tab_moves_the_focus_on() {
    let (mut screen, cells) = screen_of(vec![probe("a", true), probe("b", true)]);
    screen.handle_event(key(KeyCode::Tab, 0));
    assert_eq!(screen.focused(), Some(cells[1]));
    assert!(screen.inspect(cells[0]).unwrap().keys.is_empty());
    assert!(screen.inspect(cells[1]).unwrap().keys.is_empty());
}

#[test]
fn shift_tab_moves_the_focus_back() {
    for event in [key(KeyCode::BackTab, 0), key(KeyCode::BackTab, 1), key(KeyCode::Tab, 1)] {
        let (mut screen, cells) = screen_of(vec![probe("a", true), probe("b", true), probe("c", true)]);
        screen.handle_event(event);
        assert_eq!(screen.focused(), Some(cells[2]));
        assert!(screen.inspect(cells[0]).unwrap().keys.is_empty());
    }
}

#[test]
fn other_keys_go_to_the_cell_in_focus() {
    let (mut screen, cells) = screen_of(vec![probe("a", true), probe("b", true)]);
    let events = [
        KeyEvent::new(KeyCode::Char('x'), KeyModifiers::new(0)),
        KeyEvent::new(KeyCode::Tab, KeyModifiers::new(2)),
        KeyEvent::new(KeyCode::BackTab, KeyModifiers::new(2)),
        KeyEvent { code: KeyCode::Tab, modifiers: KeyModifiers::new(0), kind: KeyEventKind::Release },
        KeyEvent { code: KeyCode::BackTab, modifiers: KeyModifiers::new(1), kind: KeyEventKind::Repeat },
        KeyEvent::new(KeyCode::Enter, KeyModifiers::new(0)),
    ];
    for event in events {
        screen.handle_event(Event::Key(event));
    }
    assert_eq!(screen.focused(), Some(cells[0]));
    assert_eq!(screen.inspect(cells[0]).unwrap().keys, events.to_vec());
    assert!(screen.inspect(cells[1]).unwrap().keys.is_empty());
    assert_eq!(hooks(&screen, cells[0]), (0, 0));
}

#[test]
fn events_that_are_no_keys_are_passed_over() {
    let (mut screen, cells) = screen_of(vec![probe("a", true), probe("b", true)]);
    screen.handle_event(Event::Other);
    assert_eq!(screen.focused(), Some(cells[0]));
    assert!(screen.inspect(cells[0]).unwrap().keys.is_empty());
    assert_eq!(hooks(&screen, cells[0]), (0, 0));
}

#[test]
fn at_most_one_cell_is_in_focus_throughout() {
    let (mut screen, cells) = screen_of(vec![
        probe("a", true),
        probe("b", false),
        probe("c", true),
        probe("d", true),
    ]);
    let count = |screen: &Screen<Probe>| cells.iter().filter(|c| screen.is_focused(**c) == Some(true)).count();
    assert_eq!(count(&screen), 1);
    for step in 0..12 {
        if step % 3 == 0 {
            screen.focus_prev();
        } else {
            screen.focus_next();
        }
        assert_eq!(count(&screen), 1);
        if step == 5 {
            screen.remove(cells[2]);
            assert!(count(&screen) <= 1);
        }
    }
}
