use std::time::{Duration, Instant};
use vstd::prelude::*;

use crate::words::same_text;

verus! {

#[verifier::external_type_specification]
#[verifier::external_body]
pub struct ExInstant(Instant);

/// Relies on `std::time::Instant::now`: a reading of the monotonic clock,
/// of which nothing is assumed.
pub assume_specification[ Instant::now ]() -> Instant;

/// Relies on `std::time::Instant::duration_since`: the time from `earlier`
/// to `this`; it does not panic, and of the value nothing is assumed.
pub assume_specification[ Instant::duration_since ](this: &Instant, earlier: Instant) -> Duration;

/// Relies on `std::time::Duration::as_nanos`: the whole nanoseconds of a
/// duration; nothing is assumed of the value.
pub assume_specification[ Duration::as_nanos ](d: &Duration) -> u128;

/// The duration of `nanos` nanoseconds.
pub uninterp spec fn duration_from_nanos(nanos: u64) -> Duration;

/// Relies on `std::time::Duration::from_nanos`: the duration of `nanos`
/// nanoseconds, which depends on `nanos` alone; it does not panic.
pub assume_specification[ Duration::from_nanos ](nanos: u64) -> (d: Duration)
    ensures
        d == duration_from_nanos(nanos),
;

/// Why a performance monitor refused a request.
#[derive(Clone, Copy, Debug, PartialEq, Eq, Structural)]
pub enum PerformanceMonitorError {
    AlreadyStarted,
    AlreadyEnded,
    NoAttempts,
    NotStarted,
}

/// An exact fraction, such as the share of words typed correctly.
#[derive(Clone, Copy, Debug, PartialEq, Eq, Structural)]
pub struct Ratio {
    pub numerator: u32,
    pub denominator: u32,
}

/// What a performance monitor records: the instant its clock readings count
/// from, the start and end readings (nanoseconds after that instant) once
/// taken, and the words typed correctly and attempted.
pub ghost struct MonitorState {
    pub origin: Instant,
    pub start: Option<u64>,
    pub end: Option<u64>,
    pub correct: nat,
    pub attempted: nat,
}

/// The nanoseconds from reading `from` to reading `to`; zero when `to` is
/// the earlier one.
pub open spec fn elapsed(from: u64, to: u64) -> u64 {
    if to >= from {
        (to - from) as u64
    } else {
        0
    }
}

/// The record after one more word, `entered` where `expected` was due.
pub open spec fn after_word(s: MonitorState, entered: Seq<char>, expected: Seq<char>) -> MonitorState {
    MonitorState {
        attempted: s.attempted + 1,
        correct: if entered == expected {
            s.correct + 1
        } else {
            s.correct
        },
        ..s
    }
}

/// The accuracy that a record reports: none before any attempt, else the
/// correct words over the attempted ones.
pub open spec fn accuracy_of(s: MonitorState) -> Option<(nat, nat)> {
    if s.attempted == 0 {
        None
    } else {
        Some((s.correct, s.attempted))
    }
}

/// Before any attempt there is no accuracy; after one word typed exactly and
/// one typed otherwise, in either order, it is one half.
pub proof fn lemma_half_accuracy(
    s: MonitorState,
    right: Seq<char>,
    wrong: Seq<char>,
    expected: Seq<char>,
)
    requires
        s.attempted == 0,
        s.correct <= s.attempted,
        right == expected,
        wrong != expected,
    ensures
        accuracy_of(s) is None,
        accuracy_of(after_word(after_word(s, right, expected), wrong, expected)) == Some((1nat, 2nat)),
        accuracy_of(after_word(after_word(s, wrong, expected), right, expected)) == Some((1nat, 2nat)),
{
}

/// Times a typing session and counts the words attempted and those typed
/// correctly.
pub struct PerformanceMonitor {
    origin: Instant,
    start: Option<u64>,
    end: Option<u64>,
    correct: u32,
    attempted: u32,
}

impl View for PerformanceMonitor {
    type V = MonitorState;

    closed spec fn view(&self) -> MonitorState {
        MonitorState {
            origin: self.origin,
            start: self.start,
            end: self.end,
            correct: self.correct as nat,
            attempted: self.attempted as nat,
        }
    }
}

impl PerformanceMonitor {
    #[verifier::type_invariant]
    spec fn counts_agree(&self) -> bool {
        self.correct <= self.attempted
    }

    /// A monitor not yet started, with no words counted; its clock readings
    /// count from now.
    pub fn new() -> (m: PerformanceMonitor)
        ensures
            m@.start is None,
            m@.end is None,
            m@.correct == 0,
            m@.attempted == 0,
            m@.correct <= m@.attempted,
    {
        PerformanceMonitor { origin: Instant::now(), start: None, end: None, correct: 0, attempted: 0 }
    }

    /// The nanoseconds on the monotonic clock since the origin, or
    /// `u64::MAX` when they do not fit.
    fn read_clock(&self) -> u64 {
        let nanos = Instant::now().duration_since(self.origin).as_nanos();
        if nanos > u64::MAX as u128 {
            u64::MAX
        } else {
            nanos as u64
        }
    }

    /// Records `now` as the start reading; a second start is refused and
    /// changes nothing.
    pub fn start_at(&mut self, now: u64) -> (r: Result<(), PerformanceMonitorError>)
        ensures
            old(self)@.start is Some ==> r == Err::<(), _>(PerformanceMonitorError::AlreadyStarted)
                && *final(self) == *old(self),
            old(self)@.start is None ==> r is Ok && final(self)@ == (MonitorState {
                start: Some(now),
                ..old(self)@
            }),
    {
        proof {
            use_type_invariant(&*self);
        }
        match self.start {
            Some(_) => Err(PerformanceMonitorError::AlreadyStarted),
            None => {
                self.start = Some(now);
                Ok(())
            },
        }
    }

    /// Records the clock reading as the start; a second start is refused and
    /// changes nothing.
    pub fn start(&mut self) -> (r: Result<(), PerformanceMonitorError>)
        ensures
            old(self)@.start is Some ==> r == Err::<(), _>(PerformanceMonitorError::AlreadyStarted)
                && *final(self) == *old(self),
            old(self)@.start is None ==> r is Ok && final(self)@.start is Some && final(self)@ == (
            MonitorState { start: final(self)@.start, ..old(self)@ }),
    {
        let now = self.read_clock();
        self.start_at(now)
    }

    /// Records `now` as the end reading; a second end is refused and changes
    /// nothing.
    pub fn end_at(&mut self, now: u64) -> (r: Result<(), PerformanceMonitorError>)
        ensures
            old(self)@.end is Some ==> r == Err::<(), _>(PerformanceMonitorError::AlreadyEnded)
                && *final(self) == *old(self),
            old(self)@.end is None ==> r is Ok && final(self)@ == (MonitorState {
                end: Some(now),
                ..old(self)@
            }),
    {
        proof {
            use_type_invariant(&*self);
        }
        match self.end {
            Some(_) => Err(PerformanceMonitorError::AlreadyEnded),
            None => {
                self.end = Some(now);
                Ok(())
            },
        }
    }

    /// Records the clock reading as the end; a second end is refused and
    /// changes nothing.
    pub fn end(&mut self) -> (r: Result<(), PerformanceMonitorError>)
        ensures
            old(self)@.end is Some ==> r == Err::<(), _>(PerformanceMonitorError::AlreadyEnded)
                && *final(self) == *old(self),
            old(self)@.end is None ==> r is Ok && final(self)@.end is Some && final(self)@ == (
            MonitorState { end: final(self)@.end, ..old(self)@ }),
    {
        let now = self.read_clock();
        self.end_at(now)
    }

    pub fn correct(&self) -> (r: u32)
        ensures
            r == self@.correct,
    {
        self.correct
    }

    pub fn attempted(&self) -> (r: u32)
        ensures
            r == self@.attempted,
    {
        self.attempted
    }

    /// The share of attempted words that were typed correctly; refused while
    /// no word has been attempted.
    pub fn accuracy(&self) -> (r: Result<Ratio, PerformanceMonitorError>)
        ensures
            accuracy_of(self@) is None ==> r == Err::<Ratio, _>(PerformanceMonitorError::NoAttempts),
            accuracy_of(self@) matches Some((c, a)) ==> r matches Ok(q) && q.numerator == c
                && q.denominator == a,
    {
        if self.attempted == 0 {
            Err(PerformanceMonitorError::NoAttempts)
        } else {
            Ok(Ratio { numerator: self.correct, denominator: self.attempted })
        }
    }

    /// The nanoseconds from the start reading to the end reading once the
    /// monitor has ended, or to the reading `now` while it runs. Refused
    /// before the start.
    pub fn duration_at(&self, now: u64) -> (r: Result<u64, PerformanceMonitorError>)
        ensures
            self@.start is None ==> r == Err::<u64, _>(PerformanceMonitorError::NotStarted),
            self@.start matches Some(s) ==> r == Ok::<_, PerformanceMonitorError>(
                elapsed(
                    s,
                    match self@.end {
                        Some(e) => e,
                        None => now,
                    },
                ),
            ),
    {
        match self.start {
            Some(start) => {
                let to = match self.end {
                    Some(end) => end,
                    None => now,
                };
                if to >= start {
                    Ok(to - start)
                } else {
                    Ok(0)
                }
            },
            None => Err(PerformanceMonitorError::NotStarted),
        }
    }

    /// The time since the start: up to the end once the monitor has ended,
    /// up to the current clock reading while it runs. Refused before the
    /// start.
    pub fn duration(&self) -> (r: Result<Duration, PerformanceMonitorError>)
        ensures
            self@.start is None ==> r == Err::<Duration, _>(PerformanceMonitorError::NotStarted),
            self@.start is Some && self@.end is Some ==> r == Ok::<_, PerformanceMonitorError>(
                duration_from_nanos(elapsed(self@.start->0, self@.end->0)),
            ),
            self@.start is Some && self@.end is None ==> exists|now: u64|
                #![trigger elapsed(self@.start->0, now)]
                r == Ok::<_, PerformanceMonitorError>(
                    duration_from_nanos(elapsed(self@.start->0, now)),
                ),
    {
        let now = self.read_clock();
        match self.duration_at(now) {
            Ok(nanos) => Ok(Duration::from_nanos(nanos)),
            Err(e) => Err(e),
        }
    }

    /// Counts one attempted word, and one correct word when `entered` is
    /// exactly `expected`; the readings stay as they are.
    pub fn register(&mut self, entered: &str, expected: &str)
        requires
            old(self)@.attempted < u32::MAX,
        ensures
            final(self)@ == after_word(old(self)@, entered@, expected@),
            final(self)@.correct <= final(self)@.attempted,
    {
        proof {
            use_type_invariant(&*self);
        }
        self.attempted = self.attempted + 1;
        if same_text(entered, expected) {
            self.correct = self.correct + 1;
        }
    }
}

} // verus!
