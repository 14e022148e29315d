use vstd::prelude::*;
use crate::position::Position;
use crate::board::Dimension;

verus! {

/// The keys the game reacts to. `Unknown` stands for everything else.
#[derive(Debug, PartialEq, Eq, Structural, Copy, Clone)]
pub enum KeyCode {
    A1, A2, A3, A4, A5, A6, A7, A8, A9, A0,
    A, B, C, D, E, F, G, H, I, J, K, L, M,
    N, O, P, Q, R, S, T, U, V, W, X, Y, Z,
    Right, Up, Left, Down, Space, Escape, Delete,
    Unknown,
}

/// One flag per key in the pressed-key tables.
pub const KEY_CODE_COUNT: usize = 44;

/// The table slot of each key.
pub open spec fn spec_key_index(code: KeyCode) -> int {
    match code {
        KeyCode::A1 => 0, KeyCode::A2 => 1, KeyCode::A3 => 2, KeyCode::A4 => 3,
        KeyCode::A5 => 4, KeyCode::A6 => 5, KeyCode::A7 => 6, KeyCode::A8 => 7,
        KeyCode::A9 => 8, KeyCode::A0 => 9,
        KeyCode::A => 10, KeyCode::B => 11, KeyCode::C => 12, KeyCode::D => 13,
        KeyCode::E => 14, KeyCode::F => 15, KeyCode::G => 16, KeyCode::H => 17,
        KeyCode::I => 18, KeyCode::J => 19, KeyCode::K => 20, KeyCode::L => 21,
        KeyCode::M => 22, KeyCode::N => 23, KeyCode::O => 24, KeyCode::P => 25,
        KeyCode::Q => 26, KeyCode::R => 27, KeyCode::S => 28, KeyCode::T => 29,
        KeyCode::U => 30, KeyCode::V => 31, KeyCode::W => 32, KeyCode::X => 33,
        KeyCode::Y => 34, KeyCode::Z => 35,
        KeyCode::Right => 36, KeyCode::Up => 37, KeyCode::Left => 38,
        KeyCode::Down => 39, KeyCode::Space => 40, KeyCode::Escape => 41,
        KeyCode::Delete => 42,
        KeyCode::Unknown => 43,
    }
}

impl KeyCode {
    pub fn index(&self) -> (r: usize)
        ensures
            r == spec_key_index(*self),
            r < 44,
    {
        match self {
            KeyCode::A1 => 0, KeyCode::A2 => 1, KeyCode::A3 => 2, KeyCode::A4 => 3,
            KeyCode::A5 => 4, KeyCode::A6 => 5, KeyCode::A7 => 6, KeyCode::A8 => 7,
            KeyCode::A9 => 8, KeyCode::A0 => 9,
            KeyCode::A => 10, KeyCode::B => 11, KeyCode::C => 12, KeyCode::D => 13,
            KeyCode::E => 14, KeyCode::F => 15, KeyCode::G => 16, KeyCode::H => 17,
            KeyCode::I => 18, KeyCode::J => 19, KeyCode::K => 20, KeyCode::L => 21,
            KeyCode::M => 22, KeyCode::N => 23, KeyCode::O => 24, KeyCode::P => 25,
            KeyCode::Q => 26, KeyCode::R => 27, KeyCode::S => 28, KeyCode::T => 29,
            KeyCode::U => 30, KeyCode::V => 31, KeyCode::W => 32, KeyCode::X => 33,
            KeyCode::Y => 34, KeyCode::Z => 35,
            KeyCode::Right => 36, KeyCode::Up => 37, KeyCode::Left => 38,
            KeyCode::Down => 39, KeyCode::Space => 40, KeyCode::Escape => 41,
            KeyCode::Delete => 42,
            KeyCode::Unknown => 43,
        }
    }
}

impl Default for KeyCode {
    fn default() -> (r: Self)
        ensures
            r == KeyCode::Unknown,
    {
        KeyCode::Unknown
    }
}

#[derive(Debug, PartialEq, Eq, Structural, Copy, Clone)]
pub enum MouseButton {
    Left,
    Middle,
    Right,
    Unknown,
}

/// One flag per button in the pressed-button tables.
pub const MOUSE_BUTTON_COUNT: usize = 4;

pub open spec fn spec_button_index(button: MouseButton) -> int {
    match button {
        MouseButton::Left => 0,
        MouseButton::Middle => 1,
        MouseButton::Right => 2,
        MouseButton::Unknown => 3,
    }
}

impl MouseButton {
    pub fn index(&self) -> (r: usize)
        ensures
            r == spec_button_index(*self),
            r < 4,
    {
        match self {
            MouseButton::Left => 0,
            MouseButton::Middle => 1,
            MouseButton::Right => 2,
            MouseButton::Unknown => 3,
        }
    }
}

impl Default for MouseButton {
    fn default() -> (r: Self)
        ensures
            r == MouseButton::Unknown,
    {
        MouseButton::Unknown
    }
}

/// The pointer, in screen pixels, console cells, and board cells.
#[derive(Debug, PartialEq, Eq, Structural, Copy, Clone)]
pub struct Mouse {
    pub pixel_pos: Position,
    pub cell_pos: Position,
    pub world_pos: Position,
}

impl Default for Mouse {
    fn default() -> (r: Self)
        ensures
            r.pixel_pos == (Position { x: 0, y: 0 }),
            r.cell_pos == (Position { x: 0, y: 0 }),
            r.world_pos == (Position { x: 0, y: 0 }),
    {
        Mouse {
            pixel_pos: Position { x: 0, y: 0 },
            cell_pos: Position { x: 0, y: 0 },
            world_pos: Position { x: 0, y: 0 },
        }
    }
}

/// Edge and level state of one key or button for the current frame.
#[derive(Debug, PartialEq, Eq, Structural, Copy, Clone)]
pub struct ButtonState {
    /// Whether the button was first pressed this frame.
    pub down: bool,
    /// Whether the button was first released this frame.
    pub up: bool,
    /// Whether the button is held.
    pub held: bool,
}

impl Default for ButtonState {
    fn default() -> (r: Self)
        ensures
            r == (ButtonState { down: false, up: false, held: false }),
    {
        ButtonState { down: false, up: false, held: false }
    }
}

/// Per-frame input state: pressed-key tables for this frame and the last,
/// from which edges (down and up) are derived. The caller that polls the
/// windowing layer feeds decoded events in through the `apply_*` methods,
/// one frame bracketed by `begin_frame` and `end_frame`.
pub struct Input {
    pub keys_last_frame: Vec<bool>,
    pub keys_this_frame: Vec<bool>,
    pub any_key_down: Option<KeyCode>,
    pub mouse_last_frame: Vec<bool>,
    pub mouse_this_frame: Vec<bool>,
    pub mouse: Mouse,
}

impl Input {
    pub open spec fn wf(self) -> bool {
        &&& self.keys_last_frame@.len() == 44
        &&& self.keys_this_frame@.len() == 44
        &&& self.mouse_last_frame@.len() == 4
        &&& self.mouse_this_frame@.len() == 4
    }

    /// Whether the key went down this frame.
    pub open spec fn spec_key_down(self, code: KeyCode) -> bool {
        !self.keys_last_frame@[spec_key_index(code)]
            && self.keys_this_frame@[spec_key_index(code)]
    }

    /// Whether the button went down this frame.
    pub open spec fn spec_button_down(self, button: MouseButton) -> bool {
        !self.mouse_last_frame@[spec_button_index(button)]
            && self.mouse_this_frame@[spec_button_index(button)]
    }

    pub fn new() -> (r: Self)
        ensures
            r.wf(),
            forall|i: int| 0 <= i < 44 ==> !r.keys_last_frame@[i] && !r.keys_this_frame@[i],
            forall|i: int| 0 <= i < 4 ==> !r.mouse_last_frame@[i] && !r.mouse_this_frame@[i],
            r.any_key_down is None,
            r.mouse.pixel_pos == (Position { x: 0, y: 0 }),
            r.mouse.cell_pos == (Position { x: 0, y: 0 }),
            r.mouse.world_pos == (Position { x: 0, y: 0 }),
    {
        Input {
            keys_last_frame: make_flags(44),
            keys_this_frame: make_flags(44),
            any_key_down: None,
            mouse_last_frame: make_flags(4),
            mouse_this_frame: make_flags(4),
            mouse: Mouse::default(),
        }
    }

    /// Starts a frame: what was pressed last frame becomes the reference
    /// for edge detection, and the one-shot any-key record is cleared.
    pub fn begin_frame(&mut self)
        requires
            old(self).wf(),
        ensures
            final(self).wf(),
            final(self).keys_last_frame@ == old(self).keys_this_frame@,
            final(self).keys_this_frame@ == old(self).keys_this_frame@,
            final(self).mouse_last_frame@ == old(self).mouse_this_frame@,
            final(self).mouse_this_frame@ == old(self).mouse_this_frame@,
            final(self).any_key_down is None,
            final(self).mouse == old(self).mouse,
    {
        let keys = copy_flags(&self.keys_this_frame);
        self.keys_last_frame = keys;
        let buttons = copy_flags(&self.mouse_this_frame);
        self.mouse_last_frame = buttons;
        self.any_key_down = None;
    }

    /// Records a key-press event.
    pub fn apply_key_press(&mut self, code: KeyCode)
        requires
            old(self).wf(),
        ensures
            final(self).wf(),
            final(self).keys_this_frame@
                == old(self).keys_this_frame@.update(spec_key_index(code), true),
            final(self).any_key_down == Some(code),
            final(self).keys_last_frame == old(self).keys_last_frame,
            final(self).mouse_last_frame == old(self).mouse_last_frame,
            final(self).mouse_this_frame == old(self).mouse_this_frame,
            final(self).mouse == old(self).mouse,
    {
        let i = code.index();
        self.keys_this_frame[i] = true;
        self.any_key_down = Some(code);
    }

    /// Records a key-release event.
    pub fn apply_key_release(&mut self, code: KeyCode)
        requires
            old(self).wf(),
        ensures
            final(self).wf(),
            final(self).keys_this_frame@
                == old(self).keys_this_frame@.update(spec_key_index(code), false),
            final(self).any_key_down == old(self).any_key_down,
            final(self).keys_last_frame == old(self).keys_last_frame,
            final(self).mouse_last_frame == old(self).mouse_last_frame,
            final(self).mouse_this_frame == old(self).mouse_this_frame,
            final(self).mouse == old(self).mouse,
    {
        let i = code.index();
        self.keys_this_frame[i] = false;
    }

    /// Records a mouse-button-press event.
    pub fn apply_mouse_press(&mut self, button: MouseButton)
        requires
            old(self).wf(),
        ensures
            final(self).wf(),
            final(self).mouse_this_frame@
                == old(self).mouse_this_frame@.update(spec_button_index(button), true),
            final(self).keys_last_frame == old(self).keys_last_frame,
            final(self).keys_this_frame == old(self).keys_this_frame,
            final(self).any_key_down == old(self).any_key_down,
            final(self).mouse_last_frame == old(self).mouse_last_frame,
            final(self).mouse == old(self).mouse,
    {
        let i = button.index();
        self.mouse_this_frame[i] = true;
    }

    /// Records a mouse-button-release event.
    pub fn apply_mouse_release(&mut self, button: MouseButton)
        requires
            old(self).wf(),
        ensures
            final(self).wf(),
            final(self).mouse_this_frame@
                == old(self).mouse_this_frame@.update(spec_button_index(button), false),
            final(self).keys_last_frame == old(self).keys_last_frame,
            final(self).keys_this_frame == old(self).keys_this_frame,
            final(self).any_key_down == old(self).any_key_down,
            final(self).mouse_last_frame == old(self).mouse_last_frame,
            final(self).mouse == old(self).mouse,
    {
        let i = button.index();
        self.mouse_this_frame[i] = false;
    }

    /// Records a pointer-move event, translating the console cell into a
    /// board cell clamped inside the board.
    pub fn apply_mouse_move(&mut self, pixel_pos: Position, cell_pos: Position,
        world_size: Dimension, world_offset: Position)
        requires
            old(self).wf(),
            i32::MIN <= cell_pos.x - world_offset.x <= i32::MAX,
            i32::MIN <= cell_pos.y - world_offset.y <= i32::MAX,
            1 <= world_size.width <= 0x4000_0000,
            1 <= world_size.height <= 0x4000_0000,
        ensures
            final(self).wf(),
            final(self).mouse.pixel_pos == pixel_pos,
            final(self).mouse.cell_pos == cell_pos,
            final(self).mouse.world_pos
                == cell_pos.spec_into_world_pos(world_size, world_offset),
            final(self).keys_last_frame == old(self).keys_last_frame,
            final(self).keys_this_frame == old(self).keys_this_frame,
            final(self).any_key_down == old(self).any_key_down,
            final(self).mouse_last_frame == old(self).mouse_last_frame,
            final(self).mouse_this_frame == old(self).mouse_this_frame,
    {
        let world_pos = cell_pos.into_world_pos(world_size, world_offset);
        self.mouse = Mouse { pixel_pos, cell_pos, world_pos };
    }

    /// Ends a frame: a key that was already pressed last frame does not
    /// count as "any key down" again.
    pub fn end_frame(&mut self)
        requires
            old(self).wf(),
        ensures
            final(self).wf(),
            final(self).any_key_down == match old(self).any_key_down {
                Some(code) => if old(self).keys_last_frame@[spec_key_index(code)] {
                    None::<KeyCode>
                } else {
                    Some(code)
                },
                None => None::<KeyCode>,
            },
            final(self).keys_last_frame == old(self).keys_last_frame,
            final(self).keys_this_frame == old(self).keys_this_frame,
            final(self).mouse_last_frame == old(self).mouse_last_frame,
            final(self).mouse_this_frame == old(self).mouse_this_frame,
            final(self).mouse == old(self).mouse,
    {
        match self.any_key_down {
            Some(code) => {
                let i = code.index();
                if self.keys_last_frame[i] {
                    self.any_key_down = None;
                }
            },
            None => {},
        }
    }

    /// Edge and level state of a key this frame.
    pub fn key(&self, code: KeyCode) -> (r: ButtonState)
        requires
            self.wf(),
        ensures
            r.down == (!self.keys_last_frame@[spec_key_index(code)]
                && self.keys_this_frame@[spec_key_index(code)]),
            r.up == (self.keys_last_frame@[spec_key_index(code)]
                && !self.keys_this_frame@[spec_key_index(code)]),
            r.held == (self.keys_last_frame@[spec_key_index(code)]
                && self.keys_this_frame@[spec_key_index(code)]),
    {
        let i = code.index();
        let last_frame = self.keys_last_frame[i];
        let this_frame = self.keys_this_frame[i];
        ButtonState {
            down: !last_frame && this_frame,
            up: last_frame && !this_frame,
            held: last_frame && this_frame,
        }
    }

    /// The key first pressed this frame, if any.
    pub fn any_key_down(&self) -> (r: Option<KeyCode>)
        ensures
            r == self.any_key_down,
    {
        self.any_key_down
    }

    /// Edge and level state of a mouse button this frame.
    pub fn button(&self, button: MouseButton) -> (r: ButtonState)
        requires
            self.wf(),
        ensures
            r.down == (!self.mouse_last_frame@[spec_button_index(button)]
                && self.mouse_this_frame@[spec_button_index(button)]),
            r.up == (self.mouse_last_frame@[spec_button_index(button)]
                && !self.mouse_this_frame@[spec_button_index(button)]),
            r.held == (self.mouse_last_frame@[spec_button_index(button)]
                && self.mouse_this_frame@[spec_button_index(button)]),
    {
        let i = button.index();
        let last_frame = self.mouse_last_frame[i];
        let this_frame = self.mouse_this_frame[i];
        ButtonState {
            down: !last_frame && this_frame,
            up: last_frame && !this_frame,
            held: last_frame && this_frame,
        }
    }

    pub fn mouse(&self) -> (r: Mouse)
        ensures
            r == self.mouse,
    {
        self.mouse
    }
}

/// A fresh all-false flag table of the given length.
fn make_flags(n: usize) -> (r: Vec<bool>)
    ensures
        r@.len() == n,
        forall|i: int| 0 <= i < n ==> !r@[i],
{
    let mut v: Vec<bool> = Vec::new();
    let mut i: usize = 0;
    while i < n
        invariant
            i <= n,
            v@.len() == i,
            forall|j: int| 0 <= j < i ==> !v@[j],
        decreases n - i,
    {
        v.push(false);
        i = i + 1;
    }
    v
}

/// An element-wise copy of a flag table.
fn copy_flags(v: &Vec<bool>) -> (r: Vec<bool>)
    ensures
        r@ == v@,
{
    let mut out: Vec<bool> = Vec::new();
    let mut i: usize = 0;
    let n = v.len();
    while i < n
        invariant
            n == v@.len(),
            i <= n,
            out@.len() == i,
            forall|j: int| 0 <= j < i ==> out@[j] == v@[j],
        decreases n - i,
    {
        out.push(v[i]);
        i = i + 1;
    }
    proof {
        assert(out@ =~= v@);
    }
    out
}

} // verus!
