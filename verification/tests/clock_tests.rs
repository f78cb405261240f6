use wave_guy::clock::{Timer, TimerMode};

#[test]
fn new_timer_has_not_run() {
    let t = Timer::new(50, TimerMode::Once);
    assert_eq!(t.duration_ms, 50);
    assert_eq!(t.elapsed_ms, 0);
    assert!(!t.finished());
    assert_eq!(t.mode, TimerMode::Once);
}

#[test]
fn one_shot_timer_stops_at_its_duration() {
    let mut t = Timer::new(50, TimerMode::Once);
    t.tick(30);
    assert_eq!((t.elapsed_ms, t.finished()), (30, false));
    t.tick(19);
    assert_eq!((t.elapsed_ms, t.finished()), (49, false));
    t.tick(1);
    assert_eq!((t.elapsed_ms, t.finished()), (50, true));
    t.tick(1000);
    assert_eq!((t.elapsed_ms, t.finished()), (50, true));
}

#[test]
fn one_shot_timer_overshoots_to_its_duration() {
    let mut t = Timer::new(50, TimerMode::Once);
    t.tick(u32::MAX);
    assert_eq!((t.elapsed_ms, t.finished()), (50, true));
}

#[test]
fn one_shot_timer_of_no_duration_finishes_at_once() {
    let mut t = Timer::new(0, TimerMode::Once);
    t.tick(0);
    assert_eq!((t.elapsed_ms, t.finished()), (0, true));
}

#[test]
fn one_shot_timer_does_not_care_how_time_is_cut() {
    let mut whole = Timer::new(2000, TimerMode::Once);
    whole.tick(1700);
    let mut parts = Timer::new(2000, TimerMode::Once);
    parts.tick(1000);
    parts.tick(700);
    assert_eq!(whole, parts);
    whole.tick(300);
    parts.tick(100);
    parts.tick(200);
    assert_eq!(whole, parts);
    assert!(whole.finished());
}

#[test]
fn repeating_timer_starts_over() {
    let mut t = Timer::new(100, TimerMode::Repeating);
    t.tick(60);
    assert_eq!((t.elapsed_ms, t.finished()), (60, false));
    t.tick(60);
    assert_eq!((t.elapsed_ms, t.finished()), (20, true));
    t.tick(10);
    assert_eq!((t.elapsed_ms, t.finished()), (30, false));
    t.tick(270);
    assert_eq!((t.elapsed_ms, t.finished()), (0, true));
    t.tick(250);
    assert_eq!((t.elapsed_ms, t.finished()), (50, true));
}

#[test]
fn repeating_timer_of_no_duration_always_finishes() {
    let mut t = Timer::new(0, TimerMode::Repeating);
    t.tick(5);
    assert_eq!((t.elapsed_ms, t.finished()), (0, true));
    t.tick(0);
    assert_eq!((t.elapsed_ms, t.finished()), (0, true));
}

#[test]
fn repeating_timer_takes_the_longest_advance() {
    let mut t = Timer::new(u32::MAX, TimerMode::Repeating);
    t.tick(u32::MAX - 1);
    assert_eq!((t.elapsed_ms, t.finished()), (u32::MAX - 1, false));
    t.tick(u32::MAX);
    assert_eq!((t.elapsed_ms, t.finished()), (u32::MAX - 1, true));
}

#[test]
fn reset_starts_the_timer_over() {
    let mut t = Timer::new(50, TimerMode::Once);
    t.tick(80);
    assert!(t.finished());
    t.reset();
    assert_eq!(t, Timer::new(50, TimerMode::Once));
    t.tick(49);
    assert!(!t.finished());
}
