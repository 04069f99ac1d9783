//! The title menu: a list of game-mode tiles plus a settings tile, with
//! delayed auto-shift navigation.  Loading the tile names from disk happens
//! outside the core.

use vstd::prelude::*;

verus! {

use crate::input::{MenuInput, MenuInputState};

/// Time in microseconds a direction must be held before auto-repeat.
pub const DAS_THRESHOLD: u128 = 250_000;

/// Interval in microseconds between auto-repeated menu movements.
pub const ARR_THRESHOLD: u128 = 150_000;

/// One selectable tile.
pub enum MenuTile {
    /// A game mode, by its display name.
    Gamemode(String),
    Settings,
}

/// What one menu tick decided.
pub enum MenuStatus {
    Exit,
    Continue,
    /// Start the named game mode.
    Game(String),
    Settings,
}

/// The title menu state.
pub struct Menu {
    pub selected_index: usize,
    pub tiles: Vec<MenuTile>,
    pub prev_movement_input: MenuInput,
    pub arr_timer: u128,
    pub das_timer: u128,
}

impl Menu {
    /// The menu always has at least the settings tile, a bounded tile
    /// count, and an in-range selection.
    pub open spec fn wf(self) -> bool {
        &&& self.tiles@.len() > 0
        &&& self.tiles@.len() < 0x7fff_0000
        &&& self.selected_index < self.tiles@.len()
    }

    /// Builds the menu: one tile per game-mode name, then the settings
    /// tile.
    pub fn new(gamemode_names: Vec<String>) -> (r: Menu)
        requires
            gamemode_names@.len() < 0x7fff_0000 - 1,
        ensures
            r.wf(),
            r.selected_index == 0,
            r.tiles@.len() == gamemode_names@.len() + 1,
            r.das_timer == 0,
            r.arr_timer == 0,
    {
        let mut tiles: Vec<MenuTile> = Vec::new();
        let mut i: usize = 0;
        while i < gamemode_names.len()
            invariant
                i <= gamemode_names@.len(),
                tiles@.len() == i,
                gamemode_names@.len() < 0x7fff_0000 - 1,
            decreases gamemode_names@.len() - i,
        {
            tiles.push(MenuTile::Gamemode(gamemode_names[i].clone()));
            i += 1;
        }
        tiles.push(MenuTile::Settings);
        Menu {
            selected_index: 0,
            tiles,
            prev_movement_input: MenuInput::Cancel,
            arr_timer: 0,
            das_timer: 0,
        }
    }

    /// One menu tick: resolves movement (up and down step one tile, left
    /// and right jump faster and catch on the ends), applies auto-shift,
    /// and answers the accept or cancel press.
    pub fn update(&mut self, input: &mut MenuInputState, elapsed: u128) -> (r: MenuStatus)
        requires
            old(self).wf(),
        ensures
            final(self).wf(),
            final(self).tiles == old(self).tiles,
            old(input).accept && !old(input).cancel ==> !final(input).accept,
            !old(input).accept && old(input).cancel ==> !final(input).cancel,
            (r is Exit) == (!old(input).accept && old(input).cancel),
            !old(input).accept ==> !(r is Game) && !(r is Settings),
            old(input).accept == old(input).cancel ==> r is Continue,
    {
        let (button, mut movement) = self.get_movement(input);
        movement = self.handle_autoshift(button, movement, elapsed);
        self.apply_movement(movement);
        if input.accept && !input.cancel {
            input.accept = false;
            match &self.tiles[self.selected_index] {
                MenuTile::Gamemode(name) => MenuStatus::Game(name.clone()),
                MenuTile::Settings => MenuStatus::Settings,
            }
        } else if !input.accept && input.cancel {
            input.cancel = false;
            MenuStatus::Exit
        } else {
            MenuStatus::Continue
        }
    }

    /// Moves the selection by the given signed amount, wrapping around the
    /// tile list.
    fn apply_movement(&mut self, movement: i64)
        requires
            old(self).wf(),
        ensures
            final(self).wf(),
            *final(self) == (Menu { selected_index: final(self).selected_index, ..*old(self) }),
    {
        let len = self.tiles.len() as i64;
        let shift_raw = movement % len;
        let shift = if shift_raw < 0 {
            shift_raw + len
        } else {
            shift_raw
        };
        let idx = (self.selected_index as i64 + shift) % len;
        self.selected_index = idx as usize;
    }

    /// Resolves this tick's movement step from the held direction keys.
    /// Up and down step one tile; left and right move three at a time but
    /// catch on the first and last tile, and wrap only from the very ends.
    fn get_movement(&mut self, input: &MenuInputState) -> (r: (MenuInput, i64))
        requires
            old(self).wf(),
        ensures
            final(self).wf(),
            *final(self) == *old(self),
            -3 <= r.1 <= 3,
    {
        if input.left || input.right {
            let at_top = self.selected_index == 0;
            let at_bottom = self.selected_index == self.tiles.len() - 1;
            match (input.left, input.right, at_top, at_bottom) {
                (true, false, true, _) => (MenuInput::Left, -1),
                (true, false, false, _) => {
                    let step = if self.selected_index < 3 {
                        self.selected_index as i64
                    } else {
                        3
                    };
                    (MenuInput::Left, -step)
                },
                (false, true, _, true) => (MenuInput::Right, 1),
                (false, true, _, false) => {
                    let room = self.tiles.len() - 1 - self.selected_index;
                    let step = if room < 3 {
                        room as i64
                    } else {
                        3
                    };
                    (MenuInput::Right, step)
                },
                _ => (MenuInput::Cancel, 0),
            }
        } else {
            match (input.up, input.down) {
                (true, false) => (MenuInput::Up, -1),
                (false, true) => (MenuInput::Down, 1),
                _ => (MenuInput::Cancel, 0),
            }
        }
    }

    /// Delayed auto-shift for menu movement: a newly pressed direction
    /// moves immediately and resets the timers; a held one waits for the
    /// delay, then repeats at the auto-repeat interval.
    pub fn handle_autoshift(&mut self, button: MenuInput, movement: i64, elapsed: u128) -> (r: i64)
        requires
            -3 <= movement <= 3,
        ensures
            final(self).tiles == old(self).tiles,
            final(self).selected_index == old(self).selected_index,
            button != old(self).prev_movement_input ==> r == movement && final(self).das_timer == 0
                && final(self).arr_timer == 0,
            -0x4_0000_0000_0000 <= r <= 0x4_0000_0000_0000,
    {
        if !menu_inputs_equal(self.prev_movement_input, button) {
            self.arr_timer = 0;
            self.das_timer = 0;
            self.prev_movement_input = button;
            movement
        } else if !menu_inputs_equal(button, MenuInput::Cancel) {
            if self.das_timer < DAS_THRESHOLD {
                self.das_timer = crate::game::sat_add_u128(self.das_timer, elapsed);
                0
            } else {
                self.arr_timer = crate::game::sat_add_u128(self.arr_timer, elapsed);
                let repeats_raw = self.arr_timer / ARR_THRESHOLD;
                self.arr_timer = self.arr_timer % ARR_THRESHOLD;
                let repeats: i64 = if repeats_raw > 0xffff_ffff_ffff {
                    0xffff_ffff_ffff
                } else {
                    repeats_raw as i64
                };
                proof {
                    assert(-0x4_0000_0000_0000 <= movement * repeats <= 0x4_0000_0000_0000)
                        by (nonlinear_arith)
                        requires
                            -3 <= movement <= 3,
                            0 <= repeats <= 0xffff_ffff_ffff,
                    ;
                }
                movement * repeats
            }
        } else {
            movement
        }
    }
}

/// Whether two menu inputs are the same action.
fn menu_inputs_equal(a: MenuInput, b: MenuInput) -> (r: bool)
    ensures
        r == (a == b),
{
    a == b
}

} // verus!
