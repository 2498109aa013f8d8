use raycasting::game::{intent_from_keys, step, GameState};

#[test]
fn enter_starts_the_game() {
    let o = step(GameState::Welcome, false, true, true, false);
    assert_eq!(o.state, GameState::Playing);
    assert!(!o.start_music && !o.celebrate && !o.reset_player && !o.music_started);
    let idle = step(GameState::Welcome, false, true, false, true);
    assert_eq!(idle.state, GameState::Welcome);
}

#[test]
fn music_starts_once_while_playing() {
    let first = step(GameState::Playing, false, true, false, false);
    assert!(first.start_music && first.music_started);
    assert_eq!(first.state, GameState::Playing);
    let second = step(GameState::Playing, true, true, false, false);
    assert!(!second.start_music && second.music_started);
    let silent = step(GameState::Playing, false, false, false, false);
    assert!(!silent.start_music && !silent.music_started);
}

#[test]
fn goal_ends_the_level() {
    let o = step(GameState::Playing, true, true, false, true);
    assert_eq!(o.state, GameState::Success);
    assert!(o.celebrate && !o.music_started && !o.start_music);
    let same_frame = step(GameState::Playing, false, true, false, true);
    assert!(same_frame.start_music && same_frame.celebrate && !same_frame.music_started);
}

#[test]
fn enter_returns_to_the_title() {
    let o = step(GameState::Success, false, true, true, false);
    assert_eq!(o.state, GameState::Welcome);
    assert!(o.reset_player);
    let wait = step(GameState::Success, false, true, false, false);
    assert_eq!(wait.state, GameState::Success);
    assert!(!wait.reset_player);
}

#[test]
fn a_full_round_keeps_music_to_the_maze() {
    let mut state = GameState::Welcome;
    let mut music = false;
    let script = [(true, false), (false, false), (false, false), (false, true), (true, false)];
    for (enter, goal) in script {
        let o = step(state, music, true, enter, goal);
        state = o.state;
        music = o.music_started;
        assert!(!music || state == GameState::Playing);
    }
    assert_eq!(state, GameState::Welcome);
}

#[test]
fn keys_to_intent() {
    let i = intent_from_keys(true, false, false, true, true, false, false, false);
    assert!(i.turn_left && i.turn_right);
    assert_eq!(i.step, 1);
    let back = intent_from_keys(false, false, false, false, false, false, false, true);
    assert_eq!(back.step, -1);
    let both = intent_from_keys(false, false, false, false, false, true, true, false);
    assert_eq!(both.step, 0);
}
