use std::time::{Duration, Instant};
use xmahjong::timer::GameTimer;

/// Waits until `ms` milliseconds have passed, watching the clock.
fn wait_ms(ms: u64) {
    let start = Instant::now();
    while start.elapsed() < Duration::from_millis(ms) {
        std::hint::spin_loop();
    }
}

#[test]
fn new_timer_is_stopped_with_zero_elapsed() {
    let timer = GameTimer::new();
    assert_eq!(timer.elapsed_ms, 0);
    assert!(!timer.running);
    assert!(timer.last_tick.is_none());
}

#[test]
fn start_sets_running_and_last_tick() {
    let mut timer = GameTimer::new();
    timer.start();
    assert!(timer.running);
    assert!(timer.last_tick.is_some());
}

#[test]
fn pause_stops_timer_and_accumulates_time() {
    let mut timer = GameTimer::new();
    timer.start();
    wait_ms(50);
    timer.pause();

    assert!(!timer.running);
    assert!(timer.last_tick.is_none());
    assert!(timer.elapsed_ms > 0);
}

#[test]
fn pause_when_already_paused_is_idempotent() {
    let mut timer = GameTimer::new();
    timer.start();
    wait_ms(20);
    timer.pause();
    let elapsed_after_first_pause = timer.elapsed_ms;

    timer.pause();
    assert_eq!(timer.elapsed_ms, elapsed_after_first_pause);
    assert!(!timer.running);
    assert!(timer.last_tick.is_none());
}

#[test]
fn resume_when_already_running_is_idempotent() {
    let mut timer = GameTimer::new();
    timer.start();
    let last_tick_before = timer.last_tick;

    timer.resume();
    assert!(timer.running);
    assert_eq!(timer.last_tick, last_tick_before);
}

#[test]
fn resume_restarts_timing_from_pause() {
    let mut timer = GameTimer::new();
    timer.start();
    wait_ms(20);
    timer.pause();
    let elapsed_at_pause = timer.elapsed_ms;

    timer.resume();
    assert!(timer.running);
    assert!(timer.last_tick.is_some());
    assert_eq!(timer.elapsed_ms, elapsed_at_pause);

    wait_ms(20);
    timer.update();
    assert!(timer.elapsed_ms > elapsed_at_pause);
}

#[test]
fn update_accumulates_time_while_running() {
    let mut timer = GameTimer::new();
    timer.start();
    wait_ms(30);
    timer.update();

    assert!(timer.elapsed_ms > 0);
    assert!(timer.running);
}

#[test]
fn update_does_nothing_while_stopped() {
    let mut timer = GameTimer::new();
    timer.update();
    assert_eq!(timer.elapsed_ms, 0);
}

#[test]
fn reset_clears_all_state() {
    let mut timer = GameTimer::new();
    timer.start();
    wait_ms(20);
    timer.update();
    assert!(timer.elapsed_ms > 0);

    timer.reset();
    assert_eq!(timer.elapsed_ms, 0);
    assert!(!timer.running);
    assert!(timer.last_tick.is_none());
}

#[test]
fn elapsed_seconds_returns_whole_seconds() {
    let mut timer = GameTimer::new();
    timer.elapsed_ms = 2500;
    assert_eq!(timer.elapsed_seconds(), 2);
}

#[test]
fn elapsed_seconds_includes_current_running_segment() {
    let mut timer = GameTimer::new();
    timer.elapsed_ms = 1000;
    timer.start();
    wait_ms(50);
    let secs = timer.elapsed_seconds();
    assert!(secs >= 1);
}

#[test]
fn elapsed_seconds_zero_when_new() {
    let timer = GameTimer::new();
    assert_eq!(timer.elapsed_seconds(), 0);
}

#[test]
fn format_display_zero() {
    let timer = GameTimer::new();
    assert_eq!(timer.format_display(), "00:00");
}

#[test]
fn format_display_seconds_only() {
    let mut timer = GameTimer::new();
    timer.elapsed_ms = 5000;
    assert_eq!(timer.format_display(), "00:05");
}

#[test]
fn format_display_minutes_and_seconds() {
    let mut timer = GameTimer::new();
    timer.elapsed_ms = 65000;
    assert_eq!(timer.format_display(), "01:05");
}

#[test]
fn format_display_large_time() {
    let mut timer = GameTimer::new();
    timer.elapsed_ms = 3599_000;
    assert_eq!(timer.format_display(), "59:59");
}

#[test]
fn format_display_over_one_hour() {
    let mut timer = GameTimer::new();
    timer.elapsed_ms = 3661_000;
    assert_eq!(timer.format_display(), "61:01");
}

#[test]
fn timer_does_not_advance_while_paused() {
    let mut timer = GameTimer::new();
    timer.start();
    wait_ms(20);
    timer.pause();
    let elapsed_at_pause = timer.elapsed_ms;

    wait_ms(50);
    timer.update();

    assert_eq!(timer.elapsed_ms, elapsed_at_pause);
}

#[test]
fn pause_resume_accumulates_correctly() {
    let mut timer = GameTimer::new();

    timer.start();
    wait_ms(30);
    timer.pause();
    let after_first = timer.elapsed_ms;
    assert!(after_first > 0);

    wait_ms(50);

    timer.resume();
    wait_ms(30);
    timer.pause();
    let after_second = timer.elapsed_ms;

    assert!(after_second > after_first);
    assert!(after_second < after_first + 80);
}

#[test]
fn default_is_same_as_new() {
    let timer = GameTimer::default();
    assert_eq!(timer.elapsed_ms, 0);
    assert!(!timer.running);
    assert!(timer.last_tick.is_none());
}

// Hours are not split off: minutes keep counting past 99.
#[test]
fn format_display_past_hundred_minutes() {
    let mut timer = GameTimer::new();
    timer.elapsed_ms = 6_000_000 + 7_000;
    assert_eq!(timer.format_display(), "100:07");
    assert_eq!(GameTimer::format_seconds(59), "00:59");
}

#[test]
fn elapsed_seconds_after_counts_segment_only_while_running() {
    let stopped = GameTimer { elapsed_ms: 2500, running: false, last_tick: None };
    assert_eq!(stopped.elapsed_seconds_after(9999), 2);

    let running = GameTimer { elapsed_ms: 2500, running: true, last_tick: Some(Instant::now()) };
    assert_eq!(running.elapsed_seconds_after(1600), 4);

    let no_start = GameTimer { elapsed_ms: 2500, running: true, last_tick: None };
    assert_eq!(no_start.elapsed_seconds_after(1600), 2);
    assert_eq!(no_start.elapsed_seconds(), 2);

    let near_max = GameTimer { elapsed_ms: u64::MAX - 1, running: true, last_tick: Some(Instant::now()) };
    assert_eq!(near_max.elapsed_seconds_after(10), (u64::MAX / 1000) as u32);
}

#[test]
fn update_at_folds_segment_and_restarts_at_tick() {
    let start = Instant::now();
    let tick = start + Duration::from_millis(50);
    let mut timer = GameTimer { elapsed_ms: 100, running: true, last_tick: Some(start) };
    timer.update_at(50, tick);
    assert_eq!(timer.elapsed_ms, 150);
    assert!(timer.running);
    assert_eq!(timer.last_tick, Some(tick));

    let mut saturating = GameTimer { elapsed_ms: u64::MAX - 1, running: true, last_tick: Some(start) };
    saturating.update_at(10, tick);
    assert_eq!(saturating.elapsed_ms, u64::MAX);

    let mut stopped = GameTimer { elapsed_ms: 100, running: false, last_tick: None };
    stopped.update_at(50, tick);
    assert_eq!(stopped.elapsed_ms, 100);
    assert!(!stopped.running);
    assert!(stopped.last_tick.is_none());
}

#[test]
fn start_at_and_resume_at_record_the_given_instant() {
    let tick = Instant::now();
    let mut timer = GameTimer { elapsed_ms: 1200, running: false, last_tick: None };
    timer.start_at(tick);
    assert!(timer.running);
    assert_eq!(timer.elapsed_ms, 1200);
    assert_eq!(timer.last_tick, Some(tick));

    let later = tick + Duration::from_millis(40);
    let mut stopped = GameTimer { elapsed_ms: 300, running: false, last_tick: None };
    stopped.resume_at(later);
    assert!(stopped.running);
    assert_eq!(stopped.elapsed_ms, 300);
    assert_eq!(stopped.last_tick, Some(later));

    stopped.resume_at(later + Duration::from_millis(10));
    assert_eq!(stopped.last_tick, Some(later));
}
