use vstd::prelude::*;

verus! {

/// The screen the game is on.
#[derive(PartialEq, Eq, Structural, Clone, Copy, Debug)]
pub enum GameState {
    /// The title screen, waiting for Enter.
    Welcome,
    /// Walking the maze.
    Playing,
    /// The goal was reached; waiting for Enter to go back to the title.
    Success,
}

/// What the game does at the end of a frame, and where it stands then.
#[derive(PartialEq, Eq, Structural, Clone, Copy, Debug)]
pub struct FrameOutcome {
    /// The screen for the next frame.
    pub state: GameState,
    /// Whether the background music is playing after this frame.
    pub music_started: bool,
    /// Start looping the background music.
    pub start_music: bool,
    /// Play the success sound, then stop the background music.
    pub celebrate: bool,
    /// Put the player back where the maze file places it.
    pub reset_player: bool,
}

/// The outcome of a frame spent on `state`, given whether the music was
/// playing, whether sound is available, whether Enter was just pressed and
/// whether the player (after moving) stands on a goal cell.
pub open spec fn spec_step(
    state: GameState,
    music_started: bool,
    audio_available: bool,
    enter_pressed: bool,
    on_goal: bool,
) -> FrameOutcome {
    match state {
        GameState::Welcome => FrameOutcome {
            state: if enter_pressed {
                GameState::Playing
            } else {
                GameState::Welcome
            },
            music_started,
            start_music: false,
            celebrate: false,
            reset_player: false,
        },
        GameState::Playing => {
            let start = audio_available && !music_started;
            FrameOutcome {
                state: if on_goal {
                    GameState::Success
                } else {
                    GameState::Playing
                },
                music_started: if on_goal {
                    false
                } else {
                    music_started || start
                },
                start_music: start,
                celebrate: on_goal,
                reset_player: false,
            }
        },
        GameState::Success => FrameOutcome {
            state: if enter_pressed {
                GameState::Welcome
            } else {
                GameState::Success
            },
            music_started,
            start_music: false,
            celebrate: false,
            reset_player: enter_pressed,
        },
    }
}

/// Decides one frame of the game: the next screen and the sound and
/// player actions to carry out, in the order of the fields (music first,
/// then the success sound and the stop).
pub fn step(
    state: GameState,
    music_started: bool,
    audio_available: bool,
    enter_pressed: bool,
    on_goal: bool,
) -> (out: FrameOutcome)
    ensures
        out == spec_step(state, music_started, audio_available, enter_pressed, on_goal),
{
    match state {
        GameState::Welcome => FrameOutcome {
            state: if enter_pressed {
                GameState::Playing
            } else {
                GameState::Welcome
            },
            music_started,
            start_music: false,
            celebrate: false,
            reset_player: false,
        },
        GameState::Playing => {
            let start = audio_available && !music_started;
            FrameOutcome {
                state: if on_goal {
                    GameState::Success
                } else {
                    GameState::Playing
                },
                music_started: if on_goal {
                    false
                } else {
                    music_started || start
                },
                start_music: start,
                celebrate: on_goal,
                reset_player: false,
            }
        },
        GameState::Success => FrameOutcome {
            state: if enter_pressed {
                GameState::Welcome
            } else {
                GameState::Success
            },
            music_started,
            start_music: false,
            celebrate: false,
            reset_player: enter_pressed,
        },
    }
}

/// What the keys held this frame ask the player to do.
#[derive(PartialEq, Eq, Structural, Clone, Copy, Debug)]
pub struct Intent {
    /// Turn counter-clockwise by one step.
    pub turn_left: bool,
    /// Turn clockwise by one step (after any left turn).
    pub turn_right: bool,
    /// Steps to walk: 1 forward, -1 backward, 0 to stay.
    pub step: i32,
}

/// Reads the movement keys: A or Left turns left, D or Right turns right,
/// W or Up walks forward, S or Down walks back; opposite walking keys
/// cancel out.
pub fn intent_from_keys(
    a: bool,
    left: bool,
    d: bool,
    right: bool,
    w: bool,
    up: bool,
    s: bool,
    down: bool,
) -> (intent: Intent)
    ensures
        intent.turn_left == (a || left),
        intent.turn_right == (d || right),
        intent.step == (if w || up {
            1int
        } else {
            0int
        }) - (if s || down {
            1int
        } else {
            0int
        }),
{
    let mut step: i32 = 0;
    if w || up {
        step = step + 1;
    }
    if s || down {
        step = step - 1;
    }
    Intent { turn_left: a || left, turn_right: d || right, step }
}

/// The background music plays only on the maze screen.
pub open spec fn music_consistent(state: GameState, music_started: bool) -> bool {
    music_started ==> state == GameState::Playing
}

/// Every frame keeps the music to the maze screen: it is off on the title
/// and success screens whenever it was off there before. The game starts
/// on the title screen with no music, where this holds.
pub proof fn lemma_music_only_while_playing(
    state: GameState,
    music_started: bool,
    audio_available: bool,
    enter_pressed: bool,
    on_goal: bool,
)
    requires
        music_consistent(state, music_started),
    ensures
        ({
            let out = spec_step(state, music_started, audio_available, enter_pressed, on_goal);
            music_consistent(out.state, out.music_started)
        }),
        music_consistent(GameState::Welcome, false),
{
}

/// The music is started at most once per stay on the maze screen: a frame
/// never asks to start it while it plays.
pub proof fn lemma_music_started_once(
    state: GameState,
    music_started: bool,
    audio_available: bool,
    enter_pressed: bool,
    on_goal: bool,
)
    ensures
        spec_step(state, music_started, audio_available, enter_pressed, on_goal).start_music
            ==> !music_started && audio_available && state == GameState::Playing,
{
}

/// Enter moves on from the menus: the title screen starts the game, the
/// success screen goes back to the title with the player reset; without
/// Enter a menu stays as it is.
pub proof fn lemma_enter_leaves_menus(music_started: bool, audio_available: bool, on_goal: bool)
    ensures
        spec_step(GameState::Welcome, music_started, audio_available, true, on_goal).state
            == GameState::Playing,
        spec_step(GameState::Success, music_started, audio_available, true, on_goal).state
            == GameState::Welcome,
        spec_step(GameState::Success, music_started, audio_available, true, on_goal).reset_player,
        spec_step(GameState::Welcome, music_started, audio_available, false, on_goal).state
            == GameState::Welcome,
        spec_step(GameState::Success, music_started, audio_available, false, on_goal).state
            == GameState::Success,
{
}

/// Standing on the goal ends the level: the success screen follows, the
/// success sound plays and the music is off; off the goal, play goes on.
pub proof fn lemma_goal_ends_level(
    music_started: bool,
    audio_available: bool,
    enter_pressed: bool,
)
    ensures
        ({
            let out = spec_step(GameState::Playing, music_started, audio_available, enter_pressed, true);
            out.state == GameState::Success && out.celebrate && !out.music_started
        }),
        spec_step(GameState::Playing, music_started, audio_available, enter_pressed, false).state
            == GameState::Playing,
{
}

/// The player is put back at the spawn only when Enter is pressed on the
/// success screen; a frame of play never resets it.
pub proof fn lemma_reset_only_from_success(
    state: GameState,
    music_started: bool,
    audio_available: bool,
    enter_pressed: bool,
    on_goal: bool,
)
    ensures
        spec_step(state, music_started, audio_available, enter_pressed, on_goal).reset_player
            <==> (state == GameState::Success && enter_pressed),
{
}

/// The success sound plays exactly when play reaches the goal, and the
/// music is started exactly on a frame of play with sound available and
/// no music yet.
pub proof fn lemma_sound_actions(
    state: GameState,
    music_started: bool,
    audio_available: bool,
    enter_pressed: bool,
    on_goal: bool,
)
    ensures
        spec_step(state, music_started, audio_available, enter_pressed, on_goal).celebrate <==> (
        state == GameState::Playing && on_goal),
        spec_step(state, music_started, audio_available, enter_pressed, on_goal).start_music <==> (
        state == GameState::Playing && audio_available && !music_started),
{
}

/// Where each screen goes: the title waits for Enter to play, play goes on
/// until the goal, and the success screen waits for Enter to return to the
/// title; music keeps its state outside play, and during play it is on
/// after the frame unless the goal was reached, once sound is available.
pub proof fn lemma_transitions(
    state: GameState,
    music_started: bool,
    audio_available: bool,
    enter_pressed: bool,
    on_goal: bool,
)
    ensures
        ({
            let out = spec_step(state, music_started, audio_available, enter_pressed, on_goal);
            &&& state == GameState::Welcome ==> out.state == (if enter_pressed {
                GameState::Playing
            } else {
                GameState::Welcome
            }) && out.music_started == music_started
            &&& state == GameState::Playing ==> out.state == (if on_goal {
                GameState::Success
            } else {
                GameState::Playing
            }) && out.music_started == (!on_goal && (music_started || audio_available))
            &&& state == GameState::Success ==> out.state == (if enter_pressed {
                GameState::Welcome
            } else {
                GameState::Success
            }) && out.music_started == music_started
        }),
{
}

} // verus!
