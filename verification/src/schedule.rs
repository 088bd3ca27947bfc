//! When the next wallpaper is due: spans of time, the playing or paused
//! state, and the information the daemon reports.
use vstd::prelude::*;
use std::time::{Duration, Instant};

verus! {

#[verifier::external_type_specification]
#[verifier::external_body]
pub struct ExInstant(Instant);

/// A span of time: whole seconds and the nanoseconds of the last second.
#[derive(Debug, Clone, Copy, PartialEq, Eq, Structural)]
pub struct Span {
    pub secs: u64,
    pub nanos: u32,
}

impl Span {
    /// The nanoseconds stay below one second.
    pub open spec fn wf(self) -> bool {
        self.nanos < 1_000_000_000
    }

    /// The length of the span in nanoseconds.
    pub open spec fn total(self) -> int {
        self.secs * 1_000_000_000 + self.nanos
    }

    /// A span of whole seconds.
    pub fn from_secs(secs: u64) -> (s: Span)
        ensures
            s.wf(),
            s.total() == secs * 1_000_000_000,
            s.secs == secs,
    {
        Span { secs, nanos: 0 }
    }

    /// The empty span.
    pub fn zero() -> (s: Span)
        ensures
            s.wf(),
            s.total() == 0,
    {
        Span { secs: 0, nanos: 0 }
    }

    /// Whether the span is empty.
    pub fn is_zero(&self) -> (r: bool)
        requires
            self.wf(),
        ensures
            r == (self.total() == 0),
    {
        self.secs == 0 && self.nanos == 0
    }

    /// Whether `self` is no longer than `other`.
    pub fn le(&self, other: &Span) -> (r: bool)
        requires
            self.wf(),
            other.wf(),
        ensures
            r == (self.total() <= other.total()),
    {
        self.secs < other.secs || (self.secs == other.secs && self.nanos <= other.nanos)
    }

    /// `self` minus `other`, or the empty span where `other` is longer.
    pub fn saturating_sub(&self, other: &Span) -> (r: Span)
        requires
            self.wf(),
            other.wf(),
        ensures
            r.wf(),
            r.total() == if self.total() >= other.total() {
                self.total() - other.total()
            } else {
                0
            },
    {
        if !other.le(self) {
            return Span { secs: 0, nanos: 0 };
        }
        if self.nanos >= other.nanos {
            Span { secs: self.secs - other.secs, nanos: self.nanos - other.nanos }
        } else {
            Span { secs: self.secs - other.secs - 1, nanos: self.nanos + 1_000_000_000 - other.nanos }
        }
    }

    /// The whole seconds of the span.
    pub fn as_secs(&self) -> (r: u64)
        ensures
            r == self.secs,
    {
        self.secs
    }

    /// The length of the span in nanoseconds.
    pub fn as_nanos(&self) -> (r: u128)
        ensures
            r == self.total(),
    {
        assert(self.secs * 1_000_000_000 <= u64::MAX * 1_000_000_000) by (nonlinear_arith)
            requires
                self.secs <= u64::MAX,
        ;
        self.secs as u128 * 1_000_000_000 + self.nanos as u128
    }
}

/// Calls `Instant::now`.
#[verifier::external_body]
fn instant_now() -> Instant {
    Instant::now()
}

/// Calls `Instant::elapsed` and keeps the seconds and the subsecond
/// nanoseconds of the `Duration`, which std documents to stay below one
/// second. The length itself depends on the time of the call.
#[verifier::external_body]
fn elapsed_since(start: &Instant) -> (s: Span)
    ensures
        s.wf(),
{
    let d = start.elapsed();
    Span { secs: d.as_secs(), nanos: d.subsec_nanos() }
}

/// Goes back from `start` by the span with `Instant::checked_sub`, which std
/// documents to return `None` where the earlier instant cannot be
/// represented; whether it can depends on the machine's clock, so nothing is
/// stated of the result. The span becomes a `Duration` with `Duration::new`,
/// which panics only where the nanoseconds carry over a full `u64` of
/// seconds, and the well-formed span has no carry.
#[verifier::external_body]
fn instant_checked_sub(start: &Instant, span: Span) -> Option<Instant>
    requires
        span.wf(),
{
    start.checked_sub(Duration::new(span.secs, span.nanos))
}

/// Whether the wallpapers change on their own, and since when.
#[derive(Clone, Copy)]
pub enum State {
    /// Playing since the instant.
    Playing(Instant),
    /// Paused after the span of the current period had passed.
    Paused(Span),
}

impl State {
    pub open spec fn wf(self) -> bool {
        self matches State::Paused(d) ==> d.wf()
    }

    /// The state once paused after `elapsed` of the current period: a playing
    /// state becomes paused holding `elapsed`; a paused one stays as it is.
    pub open spec fn spec_paused_after(self, elapsed: Span) -> State {
        match self {
            State::Playing(_) => State::Paused(elapsed),
            State::Paused(_) => self,
        }
    }

    /// The state once resumed at `now`, where `back` is the instant the
    /// paused span before `now`, if the clock can represent it: a paused
    /// state becomes playing from `back`, or from `now` without it; a playing
    /// one stays as it is.
    pub open spec fn spec_resumed_from(self, now: Instant, back: Option<Instant>) -> State {
        match self {
            State::Paused(_) => State::Playing(
                match back {
                    Some(start) => start,
                    None => now,
                },
            ),
            State::Playing(_) => self,
        }
    }

    /// The state once a change happened at `now`: a playing state starts a
    /// new period at `now`; a paused one stays as it is.
    pub open spec fn spec_restarted_at(self, now: Instant) -> State {
        match self {
            State::Playing(_) => State::Playing(now),
            State::Paused(_) => self,
        }
    }

    /// Pauses once `elapsed` of the current period has passed.
    pub fn paused_after(self, elapsed: Span) -> (r: State)
        requires
            self.wf(),
            elapsed.wf(),
        ensures
            r.wf(),
            r == self.spec_paused_after(elapsed),
    {
        match self {
            State::Playing(_) => State::Paused(elapsed),
            State::Paused(_) => self,
        }
    }

    /// Resumes at `now`, from `back`, the instant the paused span before
    /// `now` where the clock can represent it.
    pub fn resumed_from(self, now: Instant, back: Option<Instant>) -> (r: State)
        requires
            self.wf(),
        ensures
            r.wf(),
            r == self.spec_resumed_from(now, back),
    {
        match self {
            State::Paused(_) => match back {
                Some(start) => State::Playing(start),
                None => State::Playing(now),
            },
            State::Playing(_) => self,
        }
    }

    /// Starts a new period at `now` where playing.
    pub fn restarted_at(self, now: Instant) -> (r: State)
        requires
            self.wf(),
        ensures
            r.wf(),
            r == self.spec_restarted_at(now),
    {
        match self {
            State::Playing(_) => State::Playing(now),
            State::Paused(_) => self,
        }
    }

    /// Stops the clock: a playing state becomes paused with the time passed
    /// since it started, as the clock reads it; a paused one stays as it is.
    pub fn pause(self) -> (r: State)
        requires
            self.wf(),
        ensures
            r.wf(),
            exists|elapsed: Span| #[trigger] elapsed.wf() && r == self.spec_paused_after(elapsed),
    {
        match self {
            State::Playing(instant) => {
                let elapsed = elapsed_since(&instant);
                self.paused_after(elapsed)
            },
            State::Paused(_) => {
                let ghost z = Span { secs: 0, nanos: 0 };
                assert(z.wf());
                self
            },
        }
    }

    /// Starts the clock again: a paused state becomes playing as if it had
    /// started the paused span ago, or as if it started now where the clock
    /// cannot go back that far; a playing one stays as it is.
    pub fn resume(self) -> (r: State)
        requires
            self.wf(),
        ensures
            r.wf(),
            exists|now: Instant, back: Option<Instant>| r == self.spec_resumed_from(now, back),
    {
        match self {
            State::Paused(duration) => {
                let now = instant_now();
                let back = instant_checked_sub(&now, duration);
                self.resumed_from(now, back)
            },
            State::Playing(instant) => {
                assert(self == self.spec_resumed_from(instant, None));
                self
            },
        }
    }

    /// Whether the state is playing.
    pub fn is_playing(&self) -> (r: bool)
        ensures
            r == self is Playing,
    {
        match self {
            State::Playing(_) => true,
            State::Paused(_) => false,
        }
    }
}

/// The wallpaper that a change puts on show: the picture where the renderer
/// ran and reported success, else none.
pub fn shown_after(started: bool, success: bool, path: String) -> (r: Option<String>)
    ensures
        r == (if started && success {
            Some(path)
        } else {
            None
        }),
{
    if started && success {
        Some(path)
    } else {
        None
    }
}

/// What the daemon reports about itself.
#[derive(Debug, Clone)]
pub struct Info {
    pub current_wallpaper: Option<String>,
    pub duration: Span,
    pub time_left: Span,
    pub playing: bool,
}

/// The wallpaper on show, the time between changes and the state of the
/// clock.
pub struct Schedule {
    last_change: State,
    current_wallpaper: Option<String>,
    sleep: Span,
}

impl Schedule {
    pub closed spec fn spec_state(&self) -> State {
        self.last_change
    }

    pub closed spec fn spec_current(&self) -> Option<Seq<char>> {
        match self.current_wallpaper {
            Some(p) => Some(p@),
            None => None,
        }
    }

    pub closed spec fn spec_sleep(&self) -> Span {
        self.sleep
    }

    pub open spec fn wf(&self) -> bool {
        self.spec_state().wf() && self.spec_sleep().wf()
    }

    /// A playing schedule, started now, with no wallpaper shown yet.
    pub fn new(sleep: Span) -> (s: Schedule)
        requires
            sleep.wf(),
        ensures
            s.wf(),
            s.spec_state() is Playing,
            s.spec_current() is None,
            s.spec_sleep() == sleep,
    {
        Schedule { last_change: State::Playing(instant_now()), current_wallpaper: None, sleep }
    }

    pub fn state(&self) -> (r: State)
        ensures
            r == self.spec_state(),
    {
        self.last_change
    }

    pub fn sleep(&self) -> (r: Span)
        ensures
            r == self.spec_sleep(),
    {
        self.sleep
    }

    pub fn current_wallpaper(&self) -> (r: &Option<String>)
        ensures
            match r {
                Some(p) => self.spec_current() == Some(p@),
                None => self.spec_current() is None,
            },
    {
        &self.current_wallpaper
    }

    /// Pauses the clock, holding the time passed in the current period as
    /// the clock reads it.
    pub fn pause(&mut self)
        requires
            old(self).wf(),
        ensures
            final(self).wf(),
            exists|elapsed: Span|
                #[trigger] elapsed.wf() && final(self).spec_state() == old(
                    self,
                ).spec_state().spec_paused_after(elapsed),
            final(self).spec_current() == old(self).spec_current(),
            final(self).spec_sleep() == old(self).spec_sleep(),
    {
        self.last_change = self.last_change.pause();
    }

    /// Resumes the clock so that the paused span has already passed.
    pub fn resume(&mut self)
        requires
            old(self).wf(),
        ensures
            final(self).wf(),
            exists|now: Instant, back: Option<Instant>|
                final(self).spec_state() == old(self).spec_state().spec_resumed_from(now, back),
            final(self).spec_current() == old(self).spec_current(),
            final(self).spec_sleep() == old(self).spec_sleep(),
    {
        self.last_change = self.last_change.resume();
    }

    /// Pauses a playing clock and resumes a paused one.
    pub fn toggle(&mut self)
        requires
            old(self).wf(),
        ensures
            final(self).wf(),
            old(self).spec_state() is Playing ==> exists|elapsed: Span|
                #[trigger] elapsed.wf() && final(self).spec_state() == old(
                    self,
                ).spec_state().spec_paused_after(elapsed),
            old(self).spec_state() is Paused ==> exists|now: Instant, back: Option<Instant>|
                final(self).spec_state() == old(self).spec_state().spec_resumed_from(now, back),
            final(self).spec_current() == old(self).spec_current(),
            final(self).spec_sleep() == old(self).spec_sleep(),
    {
        self.last_change = if self.last_change.is_playing() {
            self.last_change.pause()
        } else {
            self.last_change.resume()
        };
    }

    /// The report once `elapsed` has passed in the current period.
    pub fn info_after(&self, elapsed: Span) -> (info: Info)
        requires
            self.wf(),
            elapsed.wf(),
        ensures
            info.duration == self.spec_sleep(),
            info.time_left.wf(),
            info.time_left.total() == if elapsed.total() <= self.spec_sleep().total() {
                self.spec_sleep().total() - elapsed.total()
            } else {
                0
            },
            info.playing == self.spec_state() is Playing,
            match info.current_wallpaper {
                Some(p) => self.spec_current() == Some(p@),
                None => self.spec_current() is None,
            },
    {
        Info {
            current_wallpaper: self.current_wallpaper.clone(),
            duration: self.sleep,
            time_left: self.sleep.saturating_sub(&elapsed),
            playing: self.last_change.is_playing(),
        }
    }

    /// The time passed in the current period: since the clock started when
    /// playing, the span held when paused.
    pub fn elapsed(&self) -> (e: Span)
        requires
            self.wf(),
        ensures
            e.wf(),
            self.spec_state() matches State::Paused(d) ==> e == d,
    {
        match &self.last_change {
            State::Playing(instant) => elapsed_since(instant),
            State::Paused(duration) => *duration,
        }
    }

    /// The time left in the current period once `elapsed` of it has passed,
    /// in nanoseconds.
    pub open spec fn spec_time_left(&self, elapsed: Span) -> int {
        if elapsed.total() <= self.spec_sleep().total() {
            self.spec_sleep().total() - elapsed.total()
        } else {
            0
        }
    }

    /// `info` reports the schedule once `elapsed` of the current period has
    /// passed; while paused, the time passed is the span held.
    pub open spec fn reports_after(&self, info: Info, elapsed: Span) -> bool {
        &&& elapsed.wf()
        &&& self.spec_state() matches State::Paused(d) ==> elapsed == d
        &&& info.duration == self.spec_sleep()
        &&& info.time_left.wf()
        &&& info.time_left.total() == self.spec_time_left(elapsed)
        &&& info.playing == self.spec_state() is Playing
        &&& match info.current_wallpaper {
            Some(p) => self.spec_current() == Some(p@),
            None => self.spec_current() is None,
        }
    }

    /// The report now, with the time passed as the clock reads it.
    pub fn get_info(&self) -> (info: Info)
        requires
            self.wf(),
        ensures
            exists|elapsed: Span| #[trigger] self.reports_after(info, elapsed),
    {
        let elapsed = self.elapsed();
        let info = self.info_after(elapsed);
        assert(self.reports_after(info, elapsed));
        info
    }

    /// Whether a change is due once `elapsed` has passed: always when forced,
    /// else when playing and more than the sleep time has passed.
    pub fn due_after(&self, force: bool, elapsed: Span) -> (r: bool)
        requires
            self.wf(),
            elapsed.wf(),
        ensures
            r == (force || (self.spec_state() is Playing && elapsed.total()
                > self.spec_sleep().total())),
    {
        if force {
            true
        } else if self.last_change.is_playing() {
            !elapsed.saturating_sub(&self.sleep).is_zero()
        } else {
            false
        }
    }

    /// Whether a change is due now.
    pub fn due(&self, force: bool) -> (r: bool)
        requires
            self.wf(),
        ensures
            force ==> r,
            self.spec_state() is Paused ==> r == force,
            exists|elapsed: Span|
                #[trigger] elapsed.wf() && r == (force || (self.spec_state() is Playing && elapsed.total()
                    > self.spec_sleep().total())),
    {
        if force {
            let ghost z = Span { secs: 0, nanos: 0 };
            assert(z.wf());
            return true;
        }
        match &self.last_change {
            State::Playing(instant) => {
                let elapsed = elapsed_since(instant);
                self.due_after(false, elapsed)
            },
            State::Paused(_) => {
                let ghost z = Span { secs: 0, nanos: 0 };
                assert(z.wf() && !(self.spec_state() is Playing));
                false
            },
        }
    }

    /// Records a change made at `now`: the wallpaper shown, if the change
    /// succeeded, and, when playing, a new period that starts at `now`.
    pub fn record_change_at(&mut self, shown: Option<String>, now: Instant)
        requires
            old(self).wf(),
        ensures
            final(self).wf(),
            final(self).spec_sleep() == old(self).spec_sleep(),
            match shown {
                Some(p) => final(self).spec_current() == Some(p@),
                None => final(self).spec_current() == old(self).spec_current(),
            },
            final(self).spec_state() == old(self).spec_state().spec_restarted_at(now),
    {
        if let Some(p) = shown {
            self.current_wallpaper = Some(p);
        }
        self.last_change = self.last_change.restarted_at(now);
    }

    /// Records a change made now, as the clock reads it.
    pub fn record_change(&mut self, shown: Option<String>)
        requires
            old(self).wf(),
        ensures
            final(self).wf(),
            final(self).spec_sleep() == old(self).spec_sleep(),
            match shown {
                Some(p) => final(self).spec_current() == Some(p@),
                None => final(self).spec_current() == old(self).spec_current(),
            },
            exists|now: Instant|
                final(self).spec_state() == old(self).spec_state().spec_restarted_at(now),
    {
        let now = instant_now();
        self.record_change_at(shown, now);
    }
}

} // verus!
