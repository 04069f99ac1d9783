//! Per-tick input state: named actions, pre-decoded by the excluded input
//! layer into boolean "currently asserted" flags.

use vstd::prelude::*;

verus! {

/// The named in-game actions.
#[derive(Clone, Copy, PartialEq, Eq, Structural, Debug)]
pub enum GameInput {
    HardDrop,
    InstantDrop,
    SoftDrop,
    Left,
    ShiftLeft,
    Right,
    ShiftRight,
    RotateCW,
    Rotate180,
    RotateCCW,
    Hold,
    Reset,
}

/// The named menu actions.
#[derive(Clone, Copy, PartialEq, Eq, Structural, Debug)]
pub enum MenuInput {
    Up,
    Down,
    Left,
    Right,
    Accept,
    Cancel,
}

/// Per-tick mapping from game actions to their asserted state.  The core
/// clears one-shot flags (hard drop, rotations, hold) itself after
/// consuming them; held-direction flags stay for the caller to manage.
#[derive(Clone, Copy, PartialEq, Eq, Structural, Debug)]
pub struct InputState {
    pub hard_drop: bool,
    pub instant_drop: bool,
    pub soft_drop: bool,
    pub left: bool,
    pub shift_left: bool,
    pub right: bool,
    pub shift_right: bool,
    pub rotate_cw: bool,
    pub rotate_180: bool,
    pub rotate_ccw: bool,
    pub hold: bool,
    pub reset: bool,
}

impl InputState {
    pub fn new() -> (r: InputState)
        ensures
            r == InputState::none(),
    {
        InputState {
            hard_drop: false,
            instant_drop: false,
            soft_drop: false,
            left: false,
            shift_left: false,
            right: false,
            shift_right: false,
            rotate_cw: false,
            rotate_180: false,
            rotate_ccw: false,
            hold: false,
            reset: false,
        }
    }

    /// The state with no action asserted.
    pub open spec fn none() -> InputState {
        InputState {
            hard_drop: false,
            instant_drop: false,
            soft_drop: false,
            left: false,
            shift_left: false,
            right: false,
            shift_right: false,
            rotate_cw: false,
            rotate_180: false,
            rotate_ccw: false,
            hold: false,
            reset: false,
        }
    }

    /// The flag that stands for one action.
    pub open spec fn get_spec(self, input: GameInput) -> bool {
        match input {
            GameInput::HardDrop => self.hard_drop,
            GameInput::InstantDrop => self.instant_drop,
            GameInput::SoftDrop => self.soft_drop,
            GameInput::Left => self.left,
            GameInput::ShiftLeft => self.shift_left,
            GameInput::Right => self.right,
            GameInput::ShiftRight => self.shift_right,
            GameInput::RotateCW => self.rotate_cw,
            GameInput::Rotate180 => self.rotate_180,
            GameInput::RotateCCW => self.rotate_ccw,
            GameInput::Hold => self.hold,
            GameInput::Reset => self.reset,
        }
    }

    pub fn get(&self, input: GameInput) -> (r: bool)
        ensures
            r == self.get_spec(input),
    {
        match input {
            GameInput::HardDrop => self.hard_drop,
            GameInput::InstantDrop => self.instant_drop,
            GameInput::SoftDrop => self.soft_drop,
            GameInput::Left => self.left,
            GameInput::ShiftLeft => self.shift_left,
            GameInput::Right => self.right,
            GameInput::ShiftRight => self.shift_right,
            GameInput::RotateCW => self.rotate_cw,
            GameInput::Rotate180 => self.rotate_180,
            GameInput::RotateCCW => self.rotate_ccw,
            GameInput::Hold => self.hold,
            GameInput::Reset => self.reset,
        }
    }

    pub fn set(&mut self, input: GameInput, state: bool)
        ensures
            final(self).get_spec(input) == state,
            forall|other: GameInput|
                other != input ==> final(self).get_spec(other) == old(self).get_spec(other),
    {
        match input {
            GameInput::HardDrop => {
                self.hard_drop = state;
            },
            GameInput::InstantDrop => {
                self.instant_drop = state;
            },
            GameInput::SoftDrop => {
                self.soft_drop = state;
            },
            GameInput::Left => {
                self.left = state;
            },
            GameInput::ShiftLeft => {
                self.shift_left = state;
            },
            GameInput::Right => {
                self.right = state;
            },
            GameInput::ShiftRight => {
                self.shift_right = state;
            },
            GameInput::RotateCW => {
                self.rotate_cw = state;
            },
            GameInput::Rotate180 => {
                self.rotate_180 = state;
            },
            GameInput::RotateCCW => {
                self.rotate_ccw = state;
            },
            GameInput::Hold => {
                self.hold = state;
            },
            GameInput::Reset => {
                self.reset = state;
            },
        }
    }
}

/// Per-tick mapping from menu actions to their asserted state.
#[derive(Clone, Copy, PartialEq, Eq, Structural, Debug)]
pub struct MenuInputState {
    pub up: bool,
    pub down: bool,
    pub left: bool,
    pub right: bool,
    pub accept: bool,
    pub cancel: bool,
}

impl MenuInputState {
    pub fn new() -> (r: MenuInputState)
        ensures
            !r.up,
            !r.down,
            !r.left,
            !r.right,
            !r.accept,
            !r.cancel,
    {
        MenuInputState {
            up: false,
            down: false,
            left: false,
            right: false,
            accept: false,
            cancel: false,
        }
    }

    /// The flag that stands for one menu action.
    pub open spec fn get_spec(self, input: MenuInput) -> bool {
        match input {
            MenuInput::Up => self.up,
            MenuInput::Down => self.down,
            MenuInput::Left => self.left,
            MenuInput::Right => self.right,
            MenuInput::Accept => self.accept,
            MenuInput::Cancel => self.cancel,
        }
    }

    pub fn get(&self, input: MenuInput) -> (r: bool)
        ensures
            r == self.get_spec(input),
    {
        match input {
            MenuInput::Up => self.up,
            MenuInput::Down => self.down,
            MenuInput::Left => self.left,
            MenuInput::Right => self.right,
            MenuInput::Accept => self.accept,
            MenuInput::Cancel => self.cancel,
        }
    }

    pub fn set(&mut self, input: MenuInput, state: bool)
        ensures
            final(self).get_spec(input) == state,
            forall|other: MenuInput|
                other != input ==> final(self).get_spec(other) == old(self).get_spec(other),
    {
        match input {
            MenuInput::Up => {
                self.up = state;
            },
            MenuInput::Down => {
                self.down = state;
            },
            MenuInput::Left => {
                self.left = state;
            },
            MenuInput::Right => {
                self.right = state;
            },
            MenuInput::Accept => {
                self.accept = state;
            },
            MenuInput::Cancel => {
                self.cancel = state;
            },
        }
    }
}

} // verus!
