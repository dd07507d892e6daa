//! A grid snake game's deterministic core: the input-direction queue that
//! turns key presses into one direction per tick, and the simulation that
//! moves, grows and ends the snake.

pub mod game;
pub mod game_over;
pub mod input;
