//! Input events as the focus ring and the widgets read them.

use vstd::prelude::*;

verus! {

/// The bit of the Shift key in `KeyModifiers`.
pub const SHIFT: u8 = 0b0000_0001;

/// The bit of the Control key in `KeyModifiers`.
pub const CONTROL: u8 = 0b0000_0010;

/// The bits of Control and Shift together.
pub const CONTROL_SHIFT: u8 = 0b0000_0011;

/// The bit of the Alt key in `KeyModifiers`.
pub const ALT: u8 = 0b0000_0100;

/// The keys that a key event can name. A key that has no variant of its own
/// is `Other`.
#[derive(Debug, Clone, Copy, PartialEq, Eq, Structural)]
pub enum KeyCode {
    Backspace,
    Enter,
    Left,
    Right,
    Up,
    Down,
    Home,
    End,
    PageUp,
    PageDown,
    Tab,
    BackTab,
    Delete,
    Insert,
    Esc,
    F(u8),
    Char(char),
    Other,
}

/// The modifier keys held down with a key, one bit each.
#[derive(Debug, Clone, Copy, PartialEq, Eq, Structural)]
pub struct KeyModifiers {
    pub bits: u8,
}

impl KeyModifiers {
    /// No modifier is held.
    pub open spec fn is_none(self) -> bool {
        self.bits == 0
    }

    /// Shift is held and nothing else.
    pub open spec fn is_shift(self) -> bool {
        self.bits == SHIFT
    }

    /// Control is held and nothing else.
    pub open spec fn is_control(self) -> bool {
        self.bits == CONTROL
    }

    /// Control and Shift are held and nothing else.
    pub open spec fn is_control_shift(self) -> bool {
        self.bits == CONTROL_SHIFT
    }

    pub fn new(bits: u8) -> (modifiers: Self)
        ensures
            modifiers.bits == bits,
    {
        KeyModifiers { bits }
    }

    /// No modifier.
    pub fn none() -> (modifiers: Self)
        ensures
            modifiers.is_none(),
    {
        KeyModifiers { bits: 0 }
    }

    /// Shift alone.
    pub fn shift() -> (modifiers: Self)
        ensures
            modifiers.is_shift(),
    {
        KeyModifiers { bits: SHIFT }
    }

    /// Control alone.
    pub fn control() -> (modifiers: Self)
        ensures
            modifiers.is_control(),
    {
        KeyModifiers { bits: CONTROL }
    }

    /// Control and Shift.
    pub fn control_shift() -> (modifiers: Self)
        ensures
            modifiers.is_control_shift(),
    {
        KeyModifiers { bits: CONTROL_SHIFT }
    }
}

/// Whether a key went down, is held, or came up.
#[derive(Debug, Clone, Copy, PartialEq, Eq, Structural)]
pub enum KeyEventKind {
    Press,
    Repeat,
    Release,
}

/// One key with the modifiers held down with it.
#[derive(Debug, Clone, Copy, PartialEq, Eq, Structural)]
pub struct KeyEvent {
    pub code: KeyCode,
    pub modifiers: KeyModifiers,
    pub kind: KeyEventKind,
}

impl KeyEvent {
    /// The press of `code` with `modifiers` held.
    pub fn new(code: KeyCode, modifiers: KeyModifiers) -> (key_event: Self)
        ensures
            key_event == (KeyEvent { code, modifiers, kind: KeyEventKind::Press }),
    {
        KeyEvent { code, modifiers, kind: KeyEventKind::Press }
    }

    /// The Tab key pressed alone: the focus goes on.
    pub open spec fn is_tab(self) -> bool {
        self.code == KeyCode::Tab && self.modifiers.is_none() && self.kind == KeyEventKind::Press
    }

    /// Shift and Tab pressed together: the focus goes back. Terminals report
    /// the chord as a back-tab, with or without the Shift bit; a Tab with the
    /// Shift bit stands for it too.
    pub open spec fn is_shift_tab(self) -> bool {
        &&& self.kind == KeyEventKind::Press
        &&& {
            ||| self.code == KeyCode::BackTab && (self.modifiers.is_none()
                || self.modifiers.is_shift())
            ||| self.code == KeyCode::Tab && self.modifiers.is_shift()
        }
    }

    /// Control with `c` or `q`, pressed: the chord that ends an event loop.
    pub open spec fn is_quit(self) -> bool {
        &&& self.kind == KeyEventKind::Press
        &&& self.modifiers.is_control()
        &&& (self.code == KeyCode::Char('c') || self.code == KeyCode::Char('q'))
    }
}

/// What the terminal reports. Everything that is no key event is `Other`.
#[derive(Debug, Clone, Copy, PartialEq, Eq, Structural)]
pub enum Event {
    Key(KeyEvent),
    Other,
}

/// What an event loop does with an event.
#[derive(Debug, Clone, Copy, PartialEq, Eq, Structural)]
pub enum LoopAction {
    /// Leave the loop.
    Exit,
    /// Hand the event to the screen and go on.
    Dispatch,
}

/// What a screen does with an event.
#[derive(Debug, Clone, Copy, PartialEq, Eq, Structural)]
pub enum Dispatch {
    /// Move the focus to the next view that takes it.
    FocusNext,
    /// Move the focus to the previous view that takes it.
    FocusPrev,
    /// Hand the key to the view in focus.
    Forward(KeyEvent),
    /// Nothing.
    Ignore,
}

/// The action that `event` asks of a screen.
pub open spec fn dispatch_of(event: Event) -> Dispatch {
    match event {
        Event::Key(key_event) => if key_event.is_shift_tab() {
            Dispatch::FocusPrev
        } else if key_event.is_tab() {
            Dispatch::FocusNext
        } else {
            Dispatch::Forward(key_event)
        },
        Event::Other => Dispatch::Ignore,
    }
}

/// Sorts `event` into what a screen does with it.
pub fn classify(event: Event) -> (dispatch: Dispatch)
    ensures
        dispatch == dispatch_of(event),
{
    match event {
        Event::Key(key_event) => {
            let pressed = matches!(key_event.kind, KeyEventKind::Press);
            let bits = key_event.modifiers.bits;
            match key_event.code {
                KeyCode::BackTab if pressed && (bits == 0 || bits == SHIFT) => Dispatch::FocusPrev,
                KeyCode::Tab if pressed && bits == SHIFT => Dispatch::FocusPrev,
                KeyCode::Tab if pressed && bits == 0 => Dispatch::FocusNext,
                _ => Dispatch::Forward(key_event),
            }
        },
        Event::Other => Dispatch::Ignore,
    }
}

/// What an event loop does with `event`: it ends on Control with `c` or `q`
/// and hands everything else on.
pub fn loop_action(event: Event) -> (action: LoopAction)
    ensures
        action == match event {
            Event::Key(key_event) => if key_event.is_quit() {
                LoopAction::Exit
            } else {
                LoopAction::Dispatch
            },
            Event::Other => LoopAction::Dispatch,
        },
{
    match event {
        Event::Key(key_event) => {
            let pressed = matches!(key_event.kind, KeyEventKind::Press);
            match key_event.code {
                KeyCode::Char(c) if pressed && key_event.modifiers.bits == CONTROL && (c == 'c'
                    || c == 'q') => LoopAction::Exit,
                _ => LoopAction::Dispatch,
            }
        },
        Event::Other => LoopAction::Dispatch,
    }
}

} // verus!
