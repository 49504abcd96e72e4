use task_masker::ui::screens::{
    cycle_screens, decimal_string, decrement_health_timer, end_ingame_on_no_health,
    screen_label_for, HealthProgress, ScreenLabel,
};
use task_masker::GameState;

#[test]
fn enter_cycles_through_screens() {
    let start = GameState::initial();
    assert_eq!(GameState::Start, start);
    assert_eq!(GameState::InGame, start.cycled());
    assert_eq!(GameState::End, start.cycled().cycled());
    assert_eq!(start, start.cycled().cycled().cycled());
}

#[test]
fn screen_labels_match_states() {
    assert_eq!(ScreenLabel::Start, screen_label_for(GameState::Start));
    assert_eq!(ScreenLabel::InGame, screen_label_for(GameState::InGame));
    assert_eq!(ScreenLabel::End, screen_label_for(GameState::End));
}

#[test]
fn numbers_written_in_decimal() {
    assert_eq!("0", decimal_string(0));
    assert_eq!("7", decimal_string(7));
    assert_eq!("10", decimal_string(10));
    assert_eq!("7200", decimal_string(7200));
    assert_eq!("4294967295", decimal_string(u32::MAX));
}

#[test]
fn stream_lasts_two_hours() {
    let progress = HealthProgress::for_stream();
    assert_eq!(0, progress.current);
    assert_eq!(7200, progress.total);
    assert_eq!("7200 / 7200", progress.health_text());
    assert!(!progress.is_depleted());
}

#[test]
fn health_counts_down_and_stops() {
    let mut progress = HealthProgress { current: 0, total: 3 };
    progress.advance();
    assert_eq!("2 / 3", progress.health_text());
    progress.advance();
    progress.advance();
    assert!(progress.is_depleted());
    assert_eq!("0 / 3", progress.health_text());
    progress.advance();
    assert_eq!(3, progress.current);
}

#[test]
fn health_drops_when_timer_runs_out() {
    let mut progress = HealthProgress { current: 0, total: 2 };
    decrement_health_timer(&mut progress, false);
    assert_eq!(0, progress.current);
    decrement_health_timer(&mut progress, true);
    assert_eq!(1, progress.current);
    assert_eq!(None, end_ingame_on_no_health(&progress));
    decrement_health_timer(&mut progress, true);
    decrement_health_timer(&mut progress, true);
    assert_eq!(2, progress.current);
    assert_eq!(Some(GameState::End), end_ingame_on_no_health(&progress));
}

#[test]
fn enter_key_moves_to_next_screen() {
    assert_eq!(None, cycle_screens(false, GameState::Start));
    assert_eq!(Some(GameState::InGame), cycle_screens(true, GameState::Start));
    assert_eq!(Some(GameState::End), cycle_screens(true, GameState::InGame));
    assert_eq!(Some(GameState::Start), cycle_screens(true, GameState::End));
}
