use z_sight::main_loop::{key_input, keep_latest, next_step, step_fits, KeyInput, LoopAction, LoopState};

#[test]
fn keys() {
    assert_eq!(key_input('q'), KeyInput::Quit);
    assert_eq!(key_input('Q'), KeyInput::Quit);
    assert_eq!(key_input('p'), KeyInput::TogglePause);
    assert_eq!(key_input('P'), KeyInput::TogglePause);
    assert_eq!(key_input('x'), KeyInput::Other);
}

#[test]
fn quit_exits_unchanged() {
    let s = LoopState { paused: true, tick_count: 9 };
    assert_eq!(next_step(s, Some(KeyInput::Quit)), (s, LoopAction::Exit));
}

#[test]
fn running_ticks_refresh() {
    let s = LoopState::new();
    let (s, a) = next_step(s, None);
    assert_eq!((s.paused, s.tick_count, a), (false, 1, LoopAction::Refresh));
    let (s, a) = next_step(s, Some(KeyInput::Other));
    assert_eq!((s.paused, s.tick_count, a), (false, 2, LoopAction::Refresh));
}

#[test]
fn pause_freezes_and_resume_refreshes() {
    let s = LoopState { paused: false, tick_count: 4 };
    let (s, a) = next_step(s, Some(KeyInput::TogglePause));
    assert_eq!((s.paused, s.tick_count, a), (true, 4, LoopAction::Wait));
    let (s, a) = next_step(s, None);
    assert_eq!((s.paused, s.tick_count, a), (true, 4, LoopAction::Wait));
    let (s, a) = next_step(s, Some(KeyInput::TogglePause));
    assert_eq!((s.paused, s.tick_count, a), (false, 5, LoopAction::Refresh));
}

#[test]
fn count_limit() {
    let s = LoopState { paused: false, tick_count: u64::MAX };
    assert!(!step_fits(s, None));
    assert!(step_fits(s, Some(KeyInput::Quit)));
    assert!(step_fits(s, Some(KeyInput::TogglePause)));
}

#[test]
fn failed_reading_keeps_last_good_one() {
    assert_eq!(keep_latest(3, Ok::<i32, ()>(5)), 5);
    assert_eq!(keep_latest(3, Err::<i32, &str>("no sysfs")), 3);
}
