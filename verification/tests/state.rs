use make_ten::state::{GameProgress, GameState};

#[test]
fn test_default_state_is_playing() {
    let state = GameState::default();
    assert_eq!(state, GameState::Playing);
}

#[test]
fn test_default_progress_starts_at_stage_one() {
    let progress = GameProgress::default();
    assert_eq!(progress.current_stage, 1);
    assert_eq!(progress.score, 0);
    assert_eq!(progress.stages_cleared, 0);
}
