use wallie::schedule::{shown_after, Schedule, Span, State};

fn secs(s: u64) -> Span {
    Span::from_secs(s)
}

#[test]
fn span_saturating_sub() {
    let a = Span { secs: 5, nanos: 100 };
    let b = Span { secs: 2, nanos: 200 };
    assert_eq!(a.saturating_sub(&b), Span { secs: 2, nanos: 999_999_900 });
    assert_eq!(b.saturating_sub(&a), Span::zero());
    assert!(a.saturating_sub(&a).is_zero());
    assert_eq!(a.as_nanos(), 5_000_000_100);
    assert_eq!(a.as_secs(), 5);
    assert!(b.le(&a));
    assert!(!a.le(&b));
}

#[test]
fn pause_and_resume_switch_the_state() {
    let mut s = Schedule::new(secs(300));
    assert!(s.state().is_playing());
    s.pause();
    assert!(!s.state().is_playing());
    let paused = match s.state() {
        State::Paused(d) => d,
        State::Playing(_) => panic!("still playing"),
    };
    s.pause();
    match s.state() {
        State::Paused(d) => assert_eq!(d, paused),
        State::Playing(_) => panic!("pausing twice resumed"),
    }
    s.resume();
    assert!(s.state().is_playing());
    s.toggle();
    assert!(!s.state().is_playing());
    s.toggle();
    assert!(s.state().is_playing());
}

#[test]
fn info_after_reports_the_time_left() {
    let s = Schedule::new(secs(300));
    let info = s.info_after(secs(100));
    assert_eq!(info.duration, secs(300));
    assert_eq!(info.time_left, secs(200));
    assert!(info.playing);
    assert!(info.current_wallpaper.is_none());
    let late = s.info_after(secs(400));
    assert!(late.time_left.is_zero());
}

#[test]
fn get_info_of_a_fresh_schedule() {
    let mut s = Schedule::new(secs(300));
    let info = s.get_info();
    assert!(info.time_left.le(&secs(300)));
    s.pause();
    let info = s.get_info();
    assert!(!info.playing);
}

#[test]
fn changes_are_due_after_the_sleep_time() {
    let mut s = Schedule::new(secs(10));
    assert!(s.due_after(false, secs(11)));
    assert!(!s.due_after(false, secs(10)));
    assert!(s.due_after(true, secs(0)));
    assert!(s.due(true));
    assert!(!s.due(false));
    s.pause();
    assert!(!s.due_after(false, secs(100)));
    assert!(!s.due(false));
}

#[test]
fn record_change_keeps_the_shown_wallpaper() {
    let mut s = Schedule::new(secs(10));
    s.record_change(Some("/pics/a.png".to_string()));
    assert_eq!(s.current_wallpaper(), &Some("/pics/a.png".to_string()));
    s.record_change(None);
    assert_eq!(s.current_wallpaper(), &Some("/pics/a.png".to_string()));
    assert!(s.state().is_playing());
    assert_eq!(s.sleep(), secs(10));
}

#[test]
fn resuming_a_span_longer_than_the_clock_does_not_panic() {
    let paused = State::Paused(Span { secs: u64::MAX, nanos: 999_999_999 });
    assert!(paused.resume().is_playing());
}

#[test]
fn shown_after_needs_a_run_that_succeeded() {
    let p = "/pics/a.png".to_string();
    assert_eq!(shown_after(true, true, p.clone()), Some(p.clone()));
    assert_eq!(shown_after(true, false, p.clone()), None);
    assert_eq!(shown_after(false, true, p.clone()), None);
    assert_eq!(shown_after(false, false, p), None);
}

#[test]
fn paused_after_holds_the_elapsed_span() {
    let start = std::time::Instant::now();
    let e = Span { secs: 42, nanos: 7 };
    match State::Playing(start).paused_after(e) {
        State::Paused(d) => assert_eq!(d, e),
        State::Playing(_) => panic!("still playing"),
    }
    let d = Span { secs: 3, nanos: 0 };
    match State::Paused(d).paused_after(e) {
        State::Paused(k) => assert_eq!(k, d),
        State::Playing(_) => panic!("resumed"),
    }
}

#[test]
fn resumed_from_plays_from_the_start_before_now() {
    let now = std::time::Instant::now();
    let back = now.checked_sub(std::time::Duration::from_secs(5));
    let d = Span { secs: 5, nanos: 0 };
    match State::Paused(d).resumed_from(now, back) {
        State::Playing(i) => assert_eq!(Some(i), back),
        State::Paused(_) => panic!("still paused"),
    }
    match State::Paused(d).resumed_from(now, None) {
        State::Playing(i) => assert_eq!(i, now),
        State::Paused(_) => panic!("still paused"),
    }
    let start = now;
    match State::Playing(start).resumed_from(now, None) {
        State::Playing(i) => assert_eq!(i, start),
        State::Paused(_) => panic!("paused"),
    }
}

#[test]
fn pausing_then_resuming_at_one_instant_keeps_the_state() {
    let now = std::time::Instant::now();
    if let Some(start) = now.checked_sub(std::time::Duration::from_secs(9)) {
        let e = Span { secs: 9, nanos: 0 };
        match State::Playing(start).paused_after(e).resumed_from(now, Some(start)) {
            State::Playing(i) => assert_eq!(i, start),
            State::Paused(_) => panic!("still paused"),
        }
        match State::Paused(e).resumed_from(now, Some(start)).paused_after(e) {
            State::Paused(d) => assert_eq!(d, e),
            State::Playing(_) => panic!("still playing"),
        }
    }
}

#[test]
fn record_change_at_restarts_a_playing_countdown() {
    let mut s = Schedule::new(secs(10));
    let later = std::time::Instant::now() + std::time::Duration::from_secs(1);
    s.record_change_at(Some("/pics/b.png".to_string()), later);
    match s.state() {
        State::Playing(i) => assert_eq!(i, later),
        State::Paused(_) => panic!("paused"),
    }
    assert_eq!(s.current_wallpaper(), &Some("/pics/b.png".to_string()));
    s.pause();
    let paused = s.state();
    s.record_change_at(None, later);
    match (paused, s.state()) {
        (State::Paused(a), State::Paused(b)) => assert_eq!(a, b),
        _ => panic!("a paused countdown restarted"),
    }
}

#[test]
fn a_paused_countdown_is_frozen() {
    let mut s = Schedule::new(secs(300));
    s.pause();
    let a = s.get_info();
    let t = std::time::Instant::now();
    while t.elapsed() < std::time::Duration::from_millis(20) {}
    let b = s.get_info();
    assert_eq!(a.time_left, b.time_left);
    assert!(!a.playing && !b.playing);
}
