use snake::game_over::{game_over, GameState};

#[test]
fn game_over_screen_waits_for_its_delay() {
    assert_eq!(game_over(false, false, false), GameState::GameOver);
    assert_eq!(game_over(false, true, false), GameState::GameOver);
    assert_eq!(game_over(false, false, true), GameState::GameOver);
    assert_eq!(game_over(false, true, true), GameState::GameOver);
}

#[test]
fn game_over_screen_stays_without_input() {
    assert_eq!(game_over(true, false, false), GameState::GameOver);
}

#[test]
fn game_over_screen_restarts_on_click_or_key() {
    assert_eq!(game_over(true, true, false), GameState::Game);
    assert_eq!(game_over(true, false, true), GameState::Game);
    assert_eq!(game_over(true, true, true), GameState::Game);
}
