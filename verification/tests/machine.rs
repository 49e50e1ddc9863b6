use bullet_hell::state::{transition, trigger_for, Effect, GameState, Trigger};

#[test]
fn listed_rows_of_the_table() {
    assert_eq!(
        transition(GameState::MainMenu, Trigger::Exit),
        (GameState::MainMenu, Effect::Terminate)
    );
    assert_eq!(
        transition(GameState::MainMenu, Trigger::Start),
        (GameState::Playing, Effect::ResetSession)
    );
    assert_eq!(
        transition(GameState::Playing, Trigger::Pause),
        (GameState::Paused, Effect::NoEffect)
    );
    assert_eq!(
        transition(GameState::Playing, Trigger::PlayerHit),
        (GameState::GameOver, Effect::PersistHighScore)
    );
    assert_eq!(
        transition(GameState::Paused, Trigger::Resume),
        (GameState::Playing, Effect::NoEffect)
    );
    assert_eq!(
        transition(GameState::GameOver, Trigger::Restart),
        (GameState::Playing, Effect::ResetSession)
    );
}

#[test]
fn unlisted_pairs_leave_state_unchanged() {
    let states = [
        GameState::MainMenu,
        GameState::Playing,
        GameState::Paused,
        GameState::GameOver,
    ];
    let triggers = [
        Trigger::Exit,
        Trigger::Start,
        Trigger::Pause,
        Trigger::PlayerHit,
        Trigger::Resume,
        Trigger::Restart,
        Trigger::NoInput,
    ];
    for s in states {
        for t in triggers {
            let listed = matches!(
                (s, t),
                (GameState::MainMenu, Trigger::Exit)
                    | (GameState::MainMenu, Trigger::Start)
                    | (GameState::Playing, Trigger::Pause)
                    | (GameState::Playing, Trigger::PlayerHit)
                    | (GameState::Paused, Trigger::Resume)
                    | (GameState::GameOver, Trigger::Restart)
            );
            if !listed {
                assert_eq!(transition(s, t), (s, Effect::NoEffect));
            }
        }
    }
}

#[test]
fn menu_reads_exit_before_start() {
    assert_eq!(trigger_for(GameState::MainMenu, true, true, false), Trigger::Exit);
    assert_eq!(trigger_for(GameState::MainMenu, false, true, false), Trigger::Start);
    assert_eq!(trigger_for(GameState::MainMenu, false, false, false), Trigger::NoInput);
}

#[test]
fn playing_reads_a_hit_before_pause() {
    assert_eq!(trigger_for(GameState::Playing, true, false, true), Trigger::PlayerHit);
    assert_eq!(trigger_for(GameState::Playing, true, false, false), Trigger::Pause);
    assert_eq!(trigger_for(GameState::Playing, false, true, false), Trigger::NoInput);
}

#[test]
fn paused_and_game_over_read_the_action_key() {
    assert_eq!(trigger_for(GameState::Paused, false, true, false), Trigger::Resume);
    assert_eq!(trigger_for(GameState::Paused, true, false, false), Trigger::NoInput);
    assert_eq!(trigger_for(GameState::GameOver, false, true, false), Trigger::Restart);
    assert_eq!(trigger_for(GameState::GameOver, true, false, false), Trigger::NoInput);
}
