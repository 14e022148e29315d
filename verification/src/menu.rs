use vstd::prelude::*;
use crate::input::KeyCode;

verus! {

/// What one round of showing a menu produced.
#[derive(Debug, PartialEq, Eq, Structural)]
pub enum MenuResult<T: Copy> {
    Selected(T),
    NoResponse,
    Cancel,
}

/// One line of a menu: its label and the value selecting it yields.
pub struct MenuOption<T: Copy> {
    pub text: String,
    pub item: T,
}

/// A prompt with numbered options. Drawing it and polling the keyboard
/// are the caller's business; `selection` decides what a key means.
pub struct Menu<T: Copy> {
    pub prompt: String,
    pub options: Vec<MenuOption<T>>,
}

pub struct MenuBuilder<T: Copy> {
    pub prompt: String,
    pub options: Vec<MenuOption<T>>,
}

impl<T: Copy> MenuBuilder<T> {
    pub fn new() -> (r: Self)
        ensures
            r.prompt@ == "Select an Option"@,
            r.options@.len() == 0,
    {
        MenuBuilder { prompt: "Select an Option".to_owned(), options: Vec::new() }
    }

    pub fn with_prompt(self, prompt: String) -> (r: Self)
        ensures
            r.prompt == prompt,
            r.options == self.options,
    {
        MenuBuilder { prompt, options: self.options }
    }

    pub fn with_option(self, text: String, item: T) -> (r: Self)
        ensures
            r.prompt == self.prompt,
            r.options@.len() == self.options@.len() + 1,
            forall|i: int| 0 <= i < self.options@.len()
                ==> r.options@[i] == self.options@[i],
            r.options@[self.options@.len() as int].item == item,
            r.options@[self.options@.len() as int].text == text,
    {
        let mut options = self.options;
        options.push(MenuOption { text, item });
        MenuBuilder { prompt: self.prompt, options }
    }

    pub fn build(self) -> (r: Menu<T>)
        ensures
            r.prompt == self.prompt,
            r.options == self.options,
    {
        Menu { prompt: self.prompt, options: self.options }
    }
}

/// The option slot a digit key names: the keys 1 to 9 then 0 stand for
/// the first ten options. Other keys name none.
pub open spec fn spec_digit_slot(code: KeyCode) -> Option<int> {
    match code {
        KeyCode::A1 => Some(0int),
        KeyCode::A2 => Some(1int),
        KeyCode::A3 => Some(2int),
        KeyCode::A4 => Some(3int),
        KeyCode::A5 => Some(4int),
        KeyCode::A6 => Some(5int),
        KeyCode::A7 => Some(6int),
        KeyCode::A8 => Some(7int),
        KeyCode::A9 => Some(8int),
        KeyCode::A0 => Some(9int),
        _ => None,
    }
}

impl<T: Copy> Menu<T> {
    /// What the key pressed this round means for this menu: Escape
    /// cancels, a digit naming an option selects it, anything else is no
    /// response.
    pub fn selection(&self, code: Option<KeyCode>) -> (r: MenuResult<T>)
        ensures
            r == match code {
                Some(c) => if c == KeyCode::Escape {
                    MenuResult::Cancel::<T>
                } else {
                    match spec_digit_slot(c) {
                        Some(slot) => if slot < self.options@.len() {
                            MenuResult::Selected(self.options@[slot].item)
                        } else {
                            MenuResult::NoResponse::<T>
                        },
                        None => MenuResult::NoResponse::<T>,
                    }
                },
                None => MenuResult::NoResponse::<T>,
            },
    {
        let c = match code {
            Some(c) => c,
            None => {
                return MenuResult::NoResponse;
            },
        };
        let index: usize = match c {
            KeyCode::A1 => 0,
            KeyCode::A2 => 1,
            KeyCode::A3 => 2,
            KeyCode::A4 => 3,
            KeyCode::A5 => 4,
            KeyCode::A6 => 5,
            KeyCode::A7 => 6,
            KeyCode::A8 => 7,
            KeyCode::A9 => 8,
            KeyCode::A0 => 9,
            KeyCode::Escape => {
                return MenuResult::Cancel;
            },
            _ => {
                return MenuResult::NoResponse;
            },
        };
        if index < self.options.len() {
            MenuResult::Selected(self.options[index].item)
        } else {
            MenuResult::NoResponse
        }
    }
}

} // verus!
