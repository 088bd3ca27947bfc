use wallie::dataset::Tag;
use wallie::rules::{
    CalendarDay, ClockTime, Condition, ConditionScript, Date, Month, Rule, ScriptAnswer, Time,
    TimeRange, Weekday, calendar_now, clock_now,
};

fn at(h: u32, m: u32) -> ClockTime {
    ClockTime { secs: h * 3600 + m * 60, frac: 0 }
}

fn day(weekday: Weekday, month: u32, d: u32) -> CalendarDay {
    CalendarDay { weekday, month, day: d }
}

fn evening() -> TimeRange {
    TimeRange { start: at(18, 0), end: at(23, 0) }
}

#[test]
fn time_range_includes_both_ends() {
    let r = evening();
    assert!(r.contains(at(18, 0)));
    assert!(r.contains(at(23, 0)));
    assert!(r.contains(at(20, 30)));
    assert!(!r.contains(at(17, 59)));
    assert!(!r.contains(ClockTime { secs: 23 * 3600, frac: 1 }));
}

#[test]
fn daily_condition_checks_only_the_time() {
    let t = Time::Daily { timerange: evening() };
    assert!(t.holds_at(&day(Weekday::Mon, 1, 1), at(19, 0)));
    assert!(!t.holds_at(&day(Weekday::Mon, 1, 1), at(9, 0)));
}

#[test]
fn weekday_condition_checks_the_day() {
    let t = Time::Weekday { days: vec![Weekday::Sat, Weekday::Sun], timerange: evening() };
    assert!(t.holds_at(&day(Weekday::Sun, 5, 3), at(19, 0)));
    assert!(!t.holds_at(&day(Weekday::Fri, 5, 3), at(19, 0)));
    assert!(t.day_matches(&day(Weekday::Sat, 5, 3)));
}

#[test]
fn month_condition_checks_the_month() {
    let t = Time::Month { months: vec![Month::December], timerange: evening() };
    assert!(t.holds_at(&day(Weekday::Mon, 12, 24), at(20, 0)));
    assert!(!t.holds_at(&day(Weekday::Mon, 11, 24), at(20, 0)));
    assert_eq!(Month::December.number(), 12);
    assert_eq!(Month::January.number(), 1);
}

#[test]
fn date_condition_checks_month_and_day_but_not_year() {
    let t = Time::Date { date: Date { year: 2001, month: 12, day: 24 }, timerange: evening() };
    assert!(t.holds_at(&day(Weekday::Wed, 12, 24), at(20, 0)));
    assert!(!t.holds_at(&day(Weekday::Wed, 12, 25), at(20, 0)));
}

#[test]
fn daytime_and_scripts_never_hold() {
    assert!(!Time::Daytime.holds_at(&day(Weekday::Mon, 1, 1), at(12, 0)));
    assert!(!Time::Daytime.is_true());
    let s = Condition::Script(ConditionScript {
        script: "true".to_string(),
        script_answer: ScriptAnswer::ExitCode(0),
    });
    assert!(!s.holds_at(&day(Weekday::Mon, 1, 1), at(12, 0)));
    assert!(!s.is_true());
}

#[test]
fn always_and_never() {
    assert!(Condition::Always.is_true());
    assert!(!Condition::Never.is_true());
    let r = Rule::with_condition("n".to_string(), 1, 0, false, Vec::new(), Condition::Never);
    assert!(!r.is_true());
    assert!(!r.holds_at(&day(Weekday::Mon, 1, 1), at(0, 0)));
}

#[test]
fn weekday_numbering_starts_on_monday() {
    assert_eq!(Weekday::from_monday(0), Weekday::Mon);
    assert_eq!(Weekday::from_monday(6), Weekday::Sun);
}

#[test]
fn the_local_clock_reads_valid_values() {
    let d = calendar_now();
    assert!((1..=12).contains(&d.month));
    assert!((1..=31).contains(&d.day));
    let t = clock_now();
    assert!(t.secs < 86400);
    let whole_day = TimeRange { start: at(0, 0), end: ClockTime { secs: 86399, frac: 1_999_999_999 } };
    assert!(whole_day.is_true());
    assert!(Time::Daily { timerange: whole_day }.is_true());
}

#[test]
fn rules_compare_every_field() {
    let a = Rule::new("r".to_string(), 1, 0, false, vec![Tag::new("x".to_string())]);
    let b = Rule::new("r".to_string(), 1, 0, false, vec![Tag::new("x".to_string())]);
    let c = Rule::with_condition(
        "r".to_string(),
        1,
        0,
        false,
        vec![Tag::new("x".to_string())],
        Condition::Time(Time::Daily { timerange: evening() }),
    );
    assert!(a.same_as(&b));
    assert!(!a.same_as(&c));
    assert!(c.same_as(&c.duplicate()));
}
