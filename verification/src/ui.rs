//! Pure terminal-interaction state: the mapping from key strokes to
//! actions, a selection-list cursor, and a text-input buffer. Reading keys
//! from the terminal is the shell's business; it hands over a plain
//! `KeyPress` and a control-modifier flag.

use vstd::prelude::*;
use crate::text::{chars_to_string, str_chars};

verus! {

/// A key stroke, reduced to what the state machine reads.
#[derive(Debug, Clone, Copy, PartialEq, Eq, Structural)]
pub enum KeyPress {
    Char(char),
    Up,
    Down,
    Left,
    Right,
    Enter,
    Esc,
    Backspace,
    Other,
}

/// Common key actions.
#[derive(Debug, Clone, Copy, PartialEq, Eq, Structural)]
pub enum KeyAction {
    Quit,
    Up,
    Down,
    Left,
    Right,
    Select,
    Cancel,
    Yes,
    No,
    Restart,
    Setup,
    Retry,
    Backspace,
    Char(char),
    Ignore,
}

/// What `from_navigation` assigns to a key stroke.
pub open spec fn navigation_action(key: KeyPress, ctrl: bool) -> KeyAction {
    if ctrl && key == KeyPress::Char('c') {
        KeyAction::Quit
    } else {
        match key {
            KeyPress::Char(c) => if c == 'q' {
                KeyAction::Quit
            } else if c == 'y' {
                KeyAction::Yes
            } else if c == 'n' {
                KeyAction::No
            } else if c == 'r' {
                KeyAction::Restart
            } else if c == 's' {
                KeyAction::Setup
            } else {
                KeyAction::Char(c)
            },
            KeyPress::Up => KeyAction::Up,
            KeyPress::Down => KeyAction::Down,
            KeyPress::Left => KeyAction::Left,
            KeyPress::Right => KeyAction::Right,
            KeyPress::Enter => KeyAction::Select,
            KeyPress::Esc => KeyAction::Cancel,
            KeyPress::Backspace => KeyAction::Backspace,
            KeyPress::Other => KeyAction::Ignore,
        }
    }
}

/// What `from_text_input` assigns to a key stroke: every character passes
/// through, so names may hold letters that double as shortcuts elsewhere.
pub open spec fn text_input_action(key: KeyPress, ctrl: bool) -> KeyAction {
    if ctrl && key == KeyPress::Char('c') {
        KeyAction::Quit
    } else {
        match key {
            KeyPress::Enter => KeyAction::Select,
            KeyPress::Esc => KeyAction::Cancel,
            KeyPress::Backspace => KeyAction::Backspace,
            KeyPress::Char(c) => KeyAction::Char(c),
            _ => KeyAction::Ignore,
        }
    }
}

impl KeyAction {
    /// Map a key stroke for navigation and menu screens; control-C always
    /// quits.
    pub fn from_navigation(key: KeyPress, ctrl: bool) -> (r: KeyAction)
        ensures
            r == navigation_action(key, ctrl),
    {
        if ctrl {
            if let KeyPress::Char(c) = key {
                if c == 'c' {
                    return KeyAction::Quit;
                }
            }
        }
        match key {
            KeyPress::Char(c) => if c == 'q' {
                KeyAction::Quit
            } else if c == 'y' {
                KeyAction::Yes
            } else if c == 'n' {
                KeyAction::No
            } else if c == 'r' {
                KeyAction::Restart
            } else if c == 's' {
                KeyAction::Setup
            } else {
                KeyAction::Char(c)
            },
            KeyPress::Up => KeyAction::Up,
            KeyPress::Down => KeyAction::Down,
            KeyPress::Left => KeyAction::Left,
            KeyPress::Right => KeyAction::Right,
            KeyPress::Enter => KeyAction::Select,
            KeyPress::Esc => KeyAction::Cancel,
            KeyPress::Backspace => KeyAction::Backspace,
            KeyPress::Other => KeyAction::Ignore,
        }
    }

    /// Map a key stroke for text entry; all characters pass through and
    /// control-C always quits.
    pub fn from_text_input(key: KeyPress, ctrl: bool) -> (r: KeyAction)
        ensures
            r == text_input_action(key, ctrl),
    {
        if ctrl {
            if let KeyPress::Char(c) = key {
                if c == 'c' {
                    return KeyAction::Quit;
                }
            }
        }
        match key {
            KeyPress::Enter => KeyAction::Select,
            KeyPress::Esc => KeyAction::Cancel,
            KeyPress::Backspace => KeyAction::Backspace,
            KeyPress::Char(c) => KeyAction::Char(c),
            _ => KeyAction::Ignore,
        }
    }
}

/// Selection list state: a cursor that wraps around the item list.
#[derive(Debug, Clone)]
pub struct ListState {
    pub selected: usize,
    pub items: Vec<String>,
}

impl ListState {
    pub fn new(items: Vec<String>) -> (r: Self)
        ensures
            r.selected == 0,
            r.items == items,
    {
        ListState { selected: 0, items }
    }

    /// Move the cursor down, wrapping to the top.
    pub fn select_next(&mut self)
        requires
            old(self).selected < old(self).items@.len() || old(self).items@.len() == 0,
        ensures
            final(self).items == old(self).items,
            final(self).selected == if old(self).items@.len() == 0 {
                old(self).selected as int
            } else {
                (old(self).selected + 1) as int % old(self).items@.len() as int
            },
    {
        if self.items.len() > 0 {
            self.selected = (self.selected + 1) % self.items.len();
        }
    }

    /// Move the cursor up, wrapping to the bottom.
    pub fn select_prev(&mut self)
        ensures
            final(self).items == old(self).items,
            final(self).selected == if old(self).items@.len() == 0 {
                old(self).selected as int
            } else if old(self).selected > 0 {
                old(self).selected - 1
            } else {
                old(self).items@.len() - 1
            },
    {
        if self.items.len() > 0 {
            if self.selected > 0 {
                self.selected = self.selected - 1;
            } else {
                self.selected = self.items.len() - 1;
            }
        }
    }

    pub fn selected_item(&self) -> (r: Option<&String>)
        ensures
            match r {
                Some(s) => self.selected < self.items@.len() && s@ == self.items@[
                    self.selected as int
                ]@,
                None => self.selected >= self.items@.len(),
            },
    {
        if self.selected < self.items.len() {
            Some(&self.items[self.selected])
        } else {
            None
        }
    }
}

/// Text input state: a value and a cursor counted in characters.
#[derive(Debug, Clone)]
pub struct InputState {
    pub value: String,
    pub cursor: usize,
}

impl InputState {
    pub open spec fn wf(self) -> bool {
        self.cursor <= self.value@.len()
    }

    pub fn new() -> (r: Self)
        ensures
            r.wf(),
            r.value@ == Seq::<char>::empty(),
            r.cursor == 0,
    {
        InputState { value: String::new(), cursor: 0 }
    }

    /// Start from an existing value with the cursor at its end.
    pub fn with_value(value: String) -> (r: Self)
        ensures
            r.wf(),
            r.value == value,
            r.cursor == value@.len(),
    {
        let cursor = value.as_str().unicode_len();
        InputState { value, cursor }
    }

    /// Insert a character at the cursor.
    pub fn insert(&mut self, c: char)
        requires
            old(self).wf(),
        ensures
            final(self).wf(),
            final(self).value@ == old(self).value@.subrange(0, old(self).cursor as int).push(c)
                + old(self).value@.skip(old(self).cursor as int),
            final(self).cursor == old(self).cursor + 1,
    {
        let mut v = str_chars(self.value.as_str());
        v.insert(self.cursor, c);
        let grown = v.len();
        assert(self.cursor < grown);
        self.value = chars_to_string(&v);
        self.cursor = self.cursor + 1;
        proof {
            let pre = old(self).value@;
            let cur = old(self).cursor as int;
            assert(pre.insert(cur, c) =~= pre.subrange(0, cur).push(c) + pre.skip(cur));
        }
    }

    /// Delete the character before the cursor, if any.
    pub fn delete(&mut self)
        requires
            old(self).wf(),
        ensures
            final(self).wf(),
            old(self).cursor == 0 ==> *final(self) == *old(self),
            old(self).cursor > 0 ==> final(self).cursor == old(self).cursor - 1
                && final(self).value@ == old(self).value@.remove(old(self).cursor - 1),
    {
        if self.cursor > 0 {
            self.cursor = self.cursor - 1;
            let mut v = str_chars(self.value.as_str());
            v.remove(self.cursor);
            self.value = chars_to_string(&v);
        }
    }

    /// Clear the value and reset the cursor.
    pub fn clear(&mut self)
        ensures
            final(self).wf(),
            final(self).value@ == Seq::<char>::empty(),
            final(self).cursor == 0,
    {
        self.value = String::new();
        self.cursor = 0;
    }
}

} // verus!
