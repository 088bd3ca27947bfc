//! Rules: a condition on the current moment, a weight, a level and the tags
//! that the rule activates.
use vstd::prelude::*;
use chrono::{Datelike, Timelike};
use crate::dataset::{Tag, tags_view, clone_tags, same_tags};

verus! {

/// A day of the week, Monday first.
#[derive(Debug, Clone, Copy, PartialEq, Eq, Structural)]
pub enum Weekday {
    Mon,
    Tue,
    Wed,
    Thu,
    Fri,
    Sat,
    Sun,
}

impl Weekday {
    /// The day that lies `days` days after Monday.
    pub open spec fn spec_from_monday(days: u32) -> Weekday {
        if days == 0 {
            Weekday::Mon
        } else if days == 1 {
            Weekday::Tue
        } else if days == 2 {
            Weekday::Wed
        } else if days == 3 {
            Weekday::Thu
        } else if days == 4 {
            Weekday::Fri
        } else if days == 5 {
            Weekday::Sat
        } else {
            Weekday::Sun
        }
    }

    /// The day that lies `days` days after Monday, for `days` below 7.
    pub fn from_monday(days: u32) -> (day: Weekday)
        requires
            days < 7,
        ensures
            day == Weekday::spec_from_monday(days),
    {
        if days == 0 {
            Weekday::Mon
        } else if days == 1 {
            Weekday::Tue
        } else if days == 2 {
            Weekday::Wed
        } else if days == 3 {
            Weekday::Thu
        } else if days == 4 {
            Weekday::Fri
        } else if days == 5 {
            Weekday::Sat
        } else {
            Weekday::Sun
        }
    }
}

/// A month of the year.
#[derive(Debug, Clone, Copy, PartialEq, Eq, Structural)]
pub enum Month {
    January,
    February,
    March,
    April,
    May,
    June,
    July,
    August,
    September,
    October,
    November,
    December,
}

impl Month {
    /// The number of the month, January being 1.
    pub open spec fn spec_number(self) -> u32 {
        match self {
            Month::January => 1,
            Month::February => 2,
            Month::March => 3,
            Month::April => 4,
            Month::May => 5,
            Month::June => 6,
            Month::July => 7,
            Month::August => 8,
            Month::September => 9,
            Month::October => 10,
            Month::November => 11,
            Month::December => 12,
        }
    }

    /// The number of the month, January being 1.
    pub fn number(&self) -> (n: u32)
        ensures
            n == self.spec_number(),
            1 <= n <= 12,
    {
        match self {
            Month::January => 1,
            Month::February => 2,
            Month::March => 3,
            Month::April => 4,
            Month::May => 5,
            Month::June => 6,
            Month::July => 7,
            Month::August => 8,
            Month::September => 9,
            Month::October => 10,
            Month::November => 11,
            Month::December => 12,
        }
    }
}

/// A time of day: whole seconds since midnight and the fraction of the
/// current second in nanoseconds (above one second only in a leap second).
#[derive(Debug, Clone, Copy, PartialEq, Eq, Structural)]
pub struct ClockTime {
    pub secs: u32,
    pub frac: u32,
}

impl ClockTime {
    /// The values that a time of day can take.
    pub open spec fn wf(self) -> bool {
        self.secs < 86400 && self.frac < 2_000_000_000
    }

    /// Times of day are ordered by their seconds, then by the fraction.
    pub open spec fn spec_le(self, other: ClockTime) -> bool {
        self.secs < other.secs || (self.secs == other.secs && self.frac <= other.frac)
    }

    /// Whether `self` comes no later than `other`.
    pub fn le(&self, other: &ClockTime) -> (r: bool)
        ensures
            r == self.spec_le(*other),
    {
        self.secs < other.secs || (self.secs == other.secs && self.frac <= other.frac)
    }
}

/// A calendar date.
#[derive(Debug, Clone, Copy, PartialEq, Eq, Structural)]
pub struct Date {
    pub year: i32,
    pub month: u32,
    pub day: u32,
}

/// The calendar facts of the current moment that conditions read.
#[derive(Debug, Clone, Copy, PartialEq, Eq, Structural)]
pub struct CalendarDay {
    pub weekday: Weekday,
    pub month: u32,
    pub day: u32,
}

impl CalendarDay {
    /// The values that the current day can take.
    pub open spec fn wf(self) -> bool {
        1 <= self.month <= 12 && 1 <= self.day <= 31
    }
}

/// Reads the local clock for the weekday (counted from Monday), the month and
/// the day of the month, through `chrono::Local::now`, `Datelike::weekday`,
/// `Weekday::num_days_from_monday`, `Datelike::month` and `Datelike::day`.
/// chrono documents the three ranges stated here; the values themselves depend
/// on the time of the call.
#[verifier::external_body]
fn local_date_now() -> (r: (u32, u32, u32))
    ensures
        r.0 < 7,
        1 <= r.1 <= 12,
        1 <= r.2 <= 31,
{
    let now = chrono::Local::now();
    (now.weekday().num_days_from_monday(), now.month(), now.day())
}

/// Reads the local time of day through `chrono::Local::now`,
/// `DateTime::naive_local`, `NaiveDateTime::time`,
/// `Timelike::num_seconds_from_midnight` and `Timelike::nanosecond`. chrono
/// documents the two ranges stated here; the values depend on the time of the
/// call.
#[verifier::external_body]
fn local_clock_now() -> (r: ClockTime)
    ensures
        r.wf(),
{
    let now = chrono::Local::now().naive_local().time();
    ClockTime { secs: now.num_seconds_from_midnight(), frac: now.nanosecond() }
}

/// The current calendar day on the local clock.
pub fn calendar_now() -> (day: CalendarDay)
    ensures
        day.wf(),
{
    let (days, month, day) = local_date_now();
    CalendarDay { weekday: Weekday::from_monday(days), month, day }
}

/// The current time of day on the local clock.
pub fn clock_now() -> (t: ClockTime)
    ensures
        t.wf(),
{
    local_clock_now()
}

/// An inclusive range of times of day.
#[derive(Debug, Clone, Copy, PartialEq, Eq, Structural)]
pub struct TimeRange {
    pub start: ClockTime,
    pub end: ClockTime,
}

impl TimeRange {
    /// The range holds at `now` when `now` lies between its ends, both included.
    pub open spec fn spec_contains(self, now: ClockTime) -> bool {
        self.start.spec_le(now) && now.spec_le(self.end)
    }

    /// Whether the range holds at the time of day `now`.
    pub fn contains(&self, now: ClockTime) -> (r: bool)
        ensures
            r == self.spec_contains(now),
    {
        self.start.le(&now) && now.le(&self.end)
    }

    /// Whether the range holds now, on the local clock.
    pub fn is_true(&self) -> (r: bool)
        ensures
            exists|now: ClockTime| now.wf() && r == self.spec_contains(now),
            r ==> self.start.spec_le(self.end),
    {
        let now = local_clock_now();
        self.contains(now)
    }
}

/// The abstract value of a time condition.
pub enum TimeView {
    Daytime,
    Daily { range: TimeRange },
    Weekday { days: Seq<Weekday>, range: TimeRange },
    Month { months: Seq<Month>, range: TimeRange },
    Date { date: Date, range: TimeRange },
}

impl TimeView {
    /// Whether the calendar part of the condition admits `day`.
    pub open spec fn day_matches(self, day: CalendarDay) -> bool {
        match self {
            TimeView::Daytime => false,
            TimeView::Daily { .. } => true,
            TimeView::Weekday { days, .. } => days.contains(day.weekday),
            TimeView::Month { months, .. } => exists|i: int|
                0 <= i < months.len() && #[trigger] months[i].spec_number() == day.month,
            TimeView::Date { date, .. } => date.month == day.month && date.day == day.day,
        }
    }

    /// Whether the condition holds on `day` at the time of day `now`.
    pub open spec fn holds_at(self, day: CalendarDay, now: ClockTime) -> bool {
        self.day_matches(day) && match self {
            TimeView::Daytime => false,
            TimeView::Daily { range } => range.spec_contains(now),
            TimeView::Weekday { range, .. } => range.spec_contains(now),
            TimeView::Month { range, .. } => range.spec_contains(now),
            TimeView::Date { range, .. } => range.spec_contains(now),
        }
    }
}

/// A condition on the calendar and the time of day.
#[derive(Debug, Clone)]
pub enum Time {
    Daytime,
    Daily { timerange: TimeRange },
    Weekday { days: Vec<Weekday>, timerange: TimeRange },
    Month { months: Vec<Month>, timerange: TimeRange },
    Date { date: Date, timerange: TimeRange },
}

impl View for Time {
    type V = TimeView;

    open spec fn view(&self) -> TimeView {
        match self {
            Time::Daytime => TimeView::Daytime,
            Time::Daily { timerange } => TimeView::Daily { range: *timerange },
            Time::Weekday { days, timerange } => TimeView::Weekday { days: days@, range: *timerange },
            Time::Month { months, timerange } => TimeView::Month { months: months@, range: *timerange },
            Time::Date { date, timerange } => TimeView::Date { date: *date, range: *timerange },
        }
    }
}

impl Time {
    /// Whether the calendar part of the condition admits `day`.
    #[verifier::loop_isolation(false)]
    pub fn day_matches(&self, day: &CalendarDay) -> (r: bool)
        ensures
            r == self@.day_matches(*day),
    {
        match self {
            Time::Daytime => false,
            Time::Daily { .. } => true,
            Time::Weekday { days, .. } => {
                let mut i: usize = 0;
                while i < days.len()
                    invariant
                        i <= days.len(),
                        forall|j: int| 0 <= j < i ==> days@[j] != day.weekday,
                    decreases days.len() - i,
                {
                    if days[i] == day.weekday {
                        assert(days@[i as int] == day.weekday);
                        assert(days@.contains(day.weekday));
                        return true;
                    }
                    i = i + 1;
                }
                false
            },
            Time::Month { months, .. } => {
                assert(self@ matches TimeView::Month { months: ms, .. } && ms == months@);
                let mut i: usize = 0;
                while i < months.len()
                    invariant
                        i <= months.len(),
                        forall|j: int| 0 <= j < i ==> #[trigger] months@[j].spec_number() != day.month,
                    decreases months.len() - i,
                {
                    if months[i].number() == day.month {
                        assert(months@[i as int].spec_number() == day.month);
                        return true;
                    }
                    i = i + 1;
                }
                false
            },
            Time::Date { date, .. } => date.month == day.month && date.day == day.day,
        }
    }

    /// The time of day range of the condition, where it has one.
    pub fn range(&self) -> (r: Option<TimeRange>)
        ensures
            r == match self@ {
                TimeView::Daytime => None,
                TimeView::Daily { range } => Some(range),
                TimeView::Weekday { range, .. } => Some(range),
                TimeView::Month { range, .. } => Some(range),
                TimeView::Date { range, .. } => Some(range),
            },
    {
        match self {
            Time::Daytime => None,
            Time::Daily { timerange } => Some(*timerange),
            Time::Weekday { timerange, .. } => Some(*timerange),
            Time::Month { timerange, .. } => Some(*timerange),
            Time::Date { timerange, .. } => Some(*timerange),
        }
    }

    /// Whether the condition holds on `day` at the time of day `now`.
    pub fn holds_at(&self, day: &CalendarDay, now: ClockTime) -> (r: bool)
        ensures
            r == self@.holds_at(*day, now),
    {
        if self.day_matches(day) {
            match self.range() {
                Some(range) => range.contains(now),
                None => false,
            }
        } else {
            false
        }
    }

    /// Whether the condition holds now, on the local clock: the calendar is
    /// read first, and the time of day only where the calendar matches.
    pub fn is_true(&self) -> (r: bool)
        ensures
            exists|day: CalendarDay, now: ClockTime|
                day.wf() && now.wf() && r == self@.holds_at(day, now),
    {
        let day = calendar_now();
        if self.day_matches(&day) {
            match self.range() {
                Some(range) => {
                    let r = range.is_true();
                    let ghost now = choose|now: ClockTime| now.wf() && r == range.spec_contains(now);
                    assert(day.wf() && now.wf() && r == self@.holds_at(day, now));
                    r
                },
                None => false,
            }
        } else {
            let ghost now = ClockTime { secs: 0, frac: 0 };
            assert(day.wf() && now.wf() && !self@.holds_at(day, now));
            false
        }
    }
}

/// What a condition script is expected to answer.
#[derive(Debug, Clone)]
pub enum ScriptAnswer {
    ExitCode(u8),
    StdOut(String),
}

/// The abstract value of a script answer.
pub enum AnswerView {
    ExitCode(u8),
    StdOut(Seq<char>),
}

impl View for ScriptAnswer {
    type V = AnswerView;

    open spec fn view(&self) -> AnswerView {
        match self {
            ScriptAnswer::ExitCode(c) => AnswerView::ExitCode(*c),
            ScriptAnswer::StdOut(s) => AnswerView::StdOut(s@),
        }
    }
}

/// A condition given by an external script and its expected answer.
#[derive(Debug, Clone)]
pub struct ConditionScript {
    pub script: String,
    pub script_answer: ScriptAnswer,
}

/// The abstract value of a condition.
pub enum ConditionView {
    Never,
    Always,
    Time(TimeView),
    Script { script: Seq<char>, answer: AnswerView },
}

impl ConditionView {
    /// Whether the condition holds on `day` at the time of day `now`. Script
    /// conditions are not evaluated and never hold.
    pub open spec fn holds_at(self, day: CalendarDay, now: ClockTime) -> bool {
        match self {
            ConditionView::Never => false,
            ConditionView::Always => true,
            ConditionView::Time(t) => t.holds_at(day, now),
            ConditionView::Script { .. } => false,
        }
    }
}

/// The condition under which a rule is active.
#[derive(Debug, Clone)]
pub enum Condition {
    Never,
    Always,
    Time(Time),
    Script(ConditionScript),
}

impl View for Condition {
    type V = ConditionView;

    open spec fn view(&self) -> ConditionView {
        match self {
            Condition::Never => ConditionView::Never,
            Condition::Always => ConditionView::Always,
            Condition::Time(t) => ConditionView::Time(t@),
            Condition::Script(s) => ConditionView::Script {
                script: s.script@,
                answer: s.script_answer@,
            },
        }
    }
}

impl Condition {
    /// Whether the condition holds on `day` at the time of day `now`.
    pub fn holds_at(&self, day: &CalendarDay, now: ClockTime) -> (r: bool)
        ensures
            r == self@.holds_at(*day, now),
    {
        match self {
            Condition::Never => false,
            Condition::Always => true,
            Condition::Time(time) => time.holds_at(day, now),
            Condition::Script(_) => false,
        }
    }

    /// Whether the condition holds now, on the local clock.
    pub fn is_true(&self) -> (r: bool)
        ensures
            exists|day: CalendarDay, now: ClockTime|
                day.wf() && now.wf() && r == self@.holds_at(day, now),
    {
        let ghost day0 = CalendarDay { weekday: Weekday::Mon, month: 1, day: 1 };
        let ghost now0 = ClockTime { secs: 0, frac: 0 };
        let r = match self {
            Condition::Never => false,
            Condition::Always => true,
            Condition::Time(time) => {
                let r = time.is_true();
                proof {
                    let (d, n) = choose|d: CalendarDay, n: ClockTime|
                        d.wf() && n.wf() && r == time@.holds_at(d, n);
                    assert(d.wf() && n.wf() && r == self@.holds_at(d, n));
                }
                r
            },
            Condition::Script(_) => false,
        };
        proof {
            if !(self is Time) {
                assert(day0.wf() && now0.wf() && r == self@.holds_at(day0, now0));
            }
        }
        r
    }
}

/// The abstract value of a rule.
pub struct RuleView {
    pub name: Seq<char>,
    pub weight: u32,
    pub level: u8,
    pub transparent: bool,
    pub tags: Seq<Seq<char>>,
    pub condition: ConditionView,
}

/// A rule: while its condition holds, its tags are active with its weight at
/// its level.
#[derive(Debug, Clone)]
pub struct Rule {
    name: String,
    weight: u32,
    pub level: u8,
    pub transparent: bool,
    tags: Vec<Tag>,
    condition: Condition,
}

impl View for Rule {
    type V = RuleView;

    closed spec fn view(&self) -> RuleView {
        RuleView {
            name: self.name@,
            weight: self.weight,
            level: self.level,
            transparent: self.transparent,
            tags: tags_view(self.tags@),
            condition: self.condition@,
        }
    }
}

impl Rule {
    /// A rule that always holds.
    pub fn new(name: String, weight: u32, level: u8, transparent: bool, tags: Vec<Tag>) -> (r:
        Rule)
        ensures
            r@ == (RuleView {
                name: name@,
                weight,
                level,
                transparent,
                tags: tags_view(tags@),
                condition: ConditionView::Always,
            }),
    {
        Rule { name, weight, level, transparent, tags, condition: Condition::Always }
    }

    /// A rule with the given condition.
    pub fn with_condition(
        name: String,
        weight: u32,
        level: u8,
        transparent: bool,
        tags: Vec<Tag>,
        condition: Condition,
    ) -> (r: Rule)
        ensures
            r@ == (RuleView {
                name: name@,
                weight,
                level,
                transparent,
                tags: tags_view(tags@),
                condition: condition@,
            }),
    {
        Rule { name, weight, level, transparent, tags, condition }
    }

    pub fn name(&self) -> (r: &String)
        ensures
            r@ == self@.name,
    {
        &self.name
    }

    pub fn weight(&self) -> (r: u32)
        ensures
            r == self@.weight,
    {
        self.weight
    }

    pub fn level(&self) -> (r: u8)
        ensures
            r == self@.level,
    {
        self.level
    }

    pub fn is_transparent(&self) -> (r: bool)
        ensures
            r == self@.transparent,
    {
        self.transparent
    }

    pub fn tags(&self) -> (r: &Vec<Tag>)
        ensures
            tags_view(r@) == self@.tags,
    {
        &self.tags
    }

    pub fn condition(&self) -> (r: &Condition)
        ensures
            r@ == self@.condition,
    {
        &self.condition
    }

    /// The tags, the weight and the level of the rule.
    pub fn load(&self) -> (r: (Vec<Tag>, u32, u8))
        ensures
            tags_view(r.0@) == self@.tags,
            r.1 == self@.weight,
            r.2 == self@.level,
    {
        (clone_tags(&self.tags), self.weight, self.level)
    }

    /// Whether the rule's condition holds on `day` at the time of day `now`.
    pub fn holds_at(&self, day: &CalendarDay, now: ClockTime) -> (r: bool)
        ensures
            r == self@.condition.holds_at(*day, now),
    {
        self.condition.holds_at(day, now)
    }

    /// Whether the rule's condition holds now, on the local clock.
    pub fn is_true(&self) -> (r: bool)
        ensures
            exists|day: CalendarDay, now: ClockTime|
                day.wf() && now.wf() && r == self@.condition.holds_at(day, now),
    {
        self.condition.is_true()
    }

    /// A copy of the rule.
    pub fn duplicate(&self) -> (r: Rule)
        ensures
            r@ == self@,
    {
        Rule {
            name: self.name.clone(),
            weight: self.weight,
            level: self.level,
            transparent: self.transparent,
            tags: clone_tags(&self.tags),
            condition: self.condition.duplicate(),
        }
    }

    /// Whether the two rules are equal in every field.
    pub fn same_as(&self, other: &Rule) -> (r: bool)
        ensures
            r == (self@ == other@),
    {
        self.name == other.name && self.weight == other.weight && self.level == other.level
            && self.transparent == other.transparent && same_tags(&self.tags, &other.tags)
            && self.condition.same_as(&other.condition)
    }
}

fn clone_weekdays(v: &Vec<Weekday>) -> (r: Vec<Weekday>)
    ensures
        r@ == v@,
{
    let mut r: Vec<Weekday> = Vec::new();
    let mut i: usize = 0;
    while i < v.len()
        invariant
            i <= v.len(),
            r@ == v@.take(i as int),
        decreases v.len() - i,
    {
        r.push(v[i]);
        i = i + 1;
        assert(r@ =~= v@.take(i as int));
    }
    assert(v@.take(v.len() as int) =~= v@);
    r
}

fn clone_months(v: &Vec<Month>) -> (r: Vec<Month>)
    ensures
        r@ == v@,
{
    let mut r: Vec<Month> = Vec::new();
    let mut i: usize = 0;
    while i < v.len()
        invariant
            i <= v.len(),
            r@ == v@.take(i as int),
        decreases v.len() - i,
    {
        r.push(v[i]);
        i = i + 1;
        assert(r@ =~= v@.take(i as int));
    }
    assert(v@.take(v.len() as int) =~= v@);
    r
}

fn same_weekdays(a: &Vec<Weekday>, b: &Vec<Weekday>) -> (r: bool)
    ensures
        r == (a@ == b@),
{
    if a.len() != b.len() {
        return false;
    }
    let mut i: usize = 0;
    while i < a.len()
        invariant
            i <= a.len(),
            a.len() == b.len(),
            forall|j: int| 0 <= j < i ==> a@[j] == b@[j],
        decreases a.len() - i,
    {
        if a[i] != b[i] {
            return false;
        }
        i = i + 1;
    }
    assert(a@ =~= b@);
    true
}

fn same_months(a: &Vec<Month>, b: &Vec<Month>) -> (r: bool)
    ensures
        r == (a@ == b@),
{
    if a.len() != b.len() {
        return false;
    }
    let mut i: usize = 0;
    while i < a.len()
        invariant
            i <= a.len(),
            a.len() == b.len(),
            forall|j: int| 0 <= j < i ==> a@[j] == b@[j],
        decreases a.len() - i,
    {
        if a[i] != b[i] {
            return false;
        }
        i = i + 1;
    }
    assert(a@ =~= b@);
    true
}

impl Time {
    fn duplicate(&self) -> (r: Time)
        ensures
            r@ == self@,
    {
        match self {
            Time::Daytime => Time::Daytime,
            Time::Daily { timerange } => Time::Daily { timerange: *timerange },
            Time::Weekday { days, timerange } => Time::Weekday {
                days: clone_weekdays(days),
                timerange: *timerange,
            },
            Time::Month { months, timerange } => Time::Month {
                months: clone_months(months),
                timerange: *timerange,
            },
            Time::Date { date, timerange } => Time::Date { date: *date, timerange: *timerange },
        }
    }

    fn same_as(&self, other: &Time) -> (r: bool)
        ensures
            r == (self@ == other@),
    {
        match (self, other) {
            (Time::Daytime, Time::Daytime) => true,
            (Time::Daily { timerange: a }, Time::Daily { timerange: b }) => *a == *b,
            (Time::Weekday { days: a, timerange: ra }, Time::Weekday { days: b, timerange: rb }) =>
                same_weekdays(a, b) && *ra == *rb,
            (Time::Month { months: a, timerange: ra }, Time::Month { months: b, timerange: rb }) =>
                same_months(a, b) && *ra == *rb,
            (Time::Date { date: a, timerange: ra }, Time::Date { date: b, timerange: rb }) => *a
                == *b && *ra == *rb,
            _ => false,
        }
    }
}

impl ScriptAnswer {
    fn duplicate(&self) -> (r: ScriptAnswer)
        ensures
            r@ == self@,
    {
        match self {
            ScriptAnswer::ExitCode(c) => ScriptAnswer::ExitCode(*c),
            ScriptAnswer::StdOut(s) => ScriptAnswer::StdOut(s.clone()),
        }
    }

    fn same_as(&self, other: &ScriptAnswer) -> (r: bool)
        ensures
            r == (self@ == other@),
    {
        match (self, other) {
            (ScriptAnswer::ExitCode(a), ScriptAnswer::ExitCode(b)) => *a == *b,
            (ScriptAnswer::StdOut(a), ScriptAnswer::StdOut(b)) => *a == *b,
            _ => false,
        }
    }
}

impl Condition {
    fn duplicate(&self) -> (r: Condition)
        ensures
            r@ == self@,
    {
        match self {
            Condition::Never => Condition::Never,
            Condition::Always => Condition::Always,
            Condition::Time(t) => Condition::Time(t.duplicate()),
            Condition::Script(s) => Condition::Script(
                ConditionScript {
                    script: s.script.clone(),
                    script_answer: s.script_answer.duplicate(),
                },
            ),
        }
    }

    fn same_as(&self, other: &Condition) -> (r: bool)
        ensures
            r == (self@ == other@),
    {
        match (self, other) {
            (Condition::Never, Condition::Never) => true,
            (Condition::Always, Condition::Always) => true,
            (Condition::Time(a), Condition::Time(b)) => a.same_as(b),
            (Condition::Script(a), Condition::Script(b)) => a.script == b.script
                && a.script_answer.same_as(&b.script_answer),
            _ => false,
        }
    }
}

} // verus!
