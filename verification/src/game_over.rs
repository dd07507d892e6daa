//! The screens of the application and the way out of the game-over screen.

use vstd::prelude::*;

verus! {

/// The screen the application shows.
#[derive(Clone, Copy, Debug, PartialEq, Eq, Hash, Structural)]
pub enum GameState {
    Game,
    GameOver,
}

/// The screen that follows one frame of the game-over screen.
///
/// The game starts again once the screen's delay has run out and the mouse
/// button is held or a key went down in this frame; until then the game-over
/// screen stays.
pub fn game_over(timer_finished: bool, mouse_pressed: bool, key_just_pressed: bool) -> (next:
    GameState)
    ensures
        next == if timer_finished && (mouse_pressed || key_just_pressed) {
            GameState::Game
        } else {
            GameState::GameOver
        },
{
    if !timer_finished {
        return GameState::GameOver;
    }
    if mouse_pressed || key_just_pressed {
        GameState::Game
    } else {
        GameState::GameOver
    }
}

} // verus!
