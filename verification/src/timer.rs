//! Where the generator has its time stamps from.

use vstd::prelude::*;

use crate::platform::get_nstime;

verus! {

use crate::platform::{is_nstime, law_clock_values_hold_nanoseconds, was_shown};

/// A source of time stamps.
pub trait Timer {
    /// Whether the timer can be read.
    spec fn is_ready(&self) -> bool;

    /// Whether `time` is a value that the timer may return.
    spec fn may_give(&self, time: u64) -> bool;

    /// Reads the timer.
    fn read(&self) -> (time: u64)
        requires
            self.is_ready(),
        ensures
            self.may_give(time),
    ;
}

/// A function that returns time stamps, as a timer.
pub struct CustomTimer<F> {
    pub function: F,
}

impl<F: Fn() -> u64> Timer for CustomTimer<F> {
    open spec fn is_ready(&self) -> bool {
        call_requires(self.function, ())
    }

    open spec fn may_give(&self, time: u64) -> bool {
        call_ensures(self.function, (), time)
    }

    fn read(&self) -> (time: u64) {
        (self.function)()
    }
}

/// The system clock.
pub struct SystemClock;

impl Timer for SystemClock {
    open spec fn is_ready(&self) -> bool {
        true
    }

    open spec fn may_give(&self, time: u64) -> bool {
        is_nstime(time) && was_shown(time)
    }

    fn read(&self) -> (time: u64) {
        get_nstime()
    }
}

/// Reads a timer, after the readings in `log` were taken from it, and with
/// `beside` in the state that it is in.
///
/// Neither has an effect on the reading. They are there so that it can be told
/// which reading it is: see [`was_read`].
pub fn read_after<T: Timer, W>(timer: &T, beside: &W, log: Ghost<Seq<u64>>) -> (time: u64)
    requires
        timer.is_ready(),
    ensures
        timer.may_give(time),
{
    timer.read()
}

/// The timer was read after the readings in `log`, with `beside` in the given state,
/// and gave `time`. Only a call of [`read_after`] shows this, so a reading cannot
/// stand for another one, nor for one that was not taken.
pub open spec fn was_read<T: Timer, W>(timer: T, beside: W, log: Seq<u64>, time: u64) -> bool {
    call_ensures(read_after::<T, W>, (&timer, &beside, Ghost(log)), time)
}

/// All readings in `log` were taken from `timer`, each after the ones before it.
pub open spec fn all_from<T: Timer>(timer: T, log: Seq<u64>) -> bool {
    forall|i: int|
        0 <= i < log.len() ==> timer.may_give(#[trigger] log[i]) && was_read(
            timer,
            (),
            log.take(i),
            log[i],
        )
}

/// A log goes on with one more reading.
pub(crate) proof fn lemma_log_goes_on<T: Timer>(timer: T, log: Seq<u64>, time: u64)
    requires
        all_from(timer, log),
        timer.may_give(time),
        was_read(timer, (), log, time),
    ensures
        all_from(timer, log.push(time)),
{
    let longer = log.push(time);
    assert forall|i: int| 0 <= i < longer.len() implies timer.may_give(#[trigger] longer[i])
        && was_read(timer, (), longer.take(i), longer[i]) by {
        assert(longer.take(i) =~= log.take(i));
        if i < log.len() {
            assert(longer[i] == log[i]);
        } else {
            assert(longer.take(i) =~= log);
        }
    }
}

/// A timer, and the log of all readings that were taken from it. The log can only
/// grow by reading the timer.
pub struct LoggedTimer<T> {
    timer: T,
    readings: Ghost<Seq<u64>>,
}

impl<T> LoggedTimer<T> {
    /// The timer.
    pub closed spec fn timer(self) -> T {
        self.timer
    }

    /// All readings so far, in order.
    pub closed spec fn readings(self) -> Seq<u64> {
        self.readings@
    }
}

impl<T: Timer> LoggedTimer<T> {
    /// Starts the log of a timer.
    pub fn new(timer: T) -> (r: LoggedTimer<T>)
        ensures
            r.timer() == timer,
            r.readings() == Seq::<u64>::empty(),
    {
        LoggedTimer { timer, readings: Ghost(Seq::empty()) }
    }

    /// Reads the timer.
    pub fn read(&mut self) -> (time: u64)
        requires
            old(self).timer().is_ready(),
        ensures
            final(self).timer() == old(self).timer(),
            final(self).timer().may_give(time),
            was_read(final(self).timer(), (), old(self).readings(), time),
            final(self).readings() == old(self).readings().push(time),
    {
        self.read_beside(&())
    }

    /// Reads the timer, with `beside` in the state that it is in.
    pub fn read_beside<W>(&mut self, beside: &W) -> (time: u64)
        requires
            old(self).timer().is_ready(),
        ensures
            final(self).timer() == old(self).timer(),
            final(self).timer().may_give(time),
            was_read(final(self).timer(), *beside, old(self).readings(), time),
            final(self).readings() == old(self).readings().push(time),
    {
        let time: u64 = read_after(&self.timer, beside, Ghost(self.readings@));
        self.readings = Ghost(self.readings@.push(time));
        time
    }
}

/// What is said to have been read from a timer was returned by a call that read it: of
/// a single reading, and of each reading in a log.
pub proof fn law_readings_were_taken<T: Timer, W>(
    timer: T,
    beside: W,
    log: Seq<u64>,
    time: u64,
    i: int,
)
    ensures
        was_read(timer, beside, log, time) ==> call_ensures(
            read_after::<T, W>,
            (&timer, &beside, Ghost(log)),
            time,
        ),
        all_from(timer, log) && 0 <= i < log.len() ==> timer.may_give(log[i]) && call_ensures(
            read_after::<T, ()>,
            (&timer, &(), Ghost(log.take(i))),
            log[i],
        ),
{
}

/// A reading of the system clock is a value that the clock has shown.
pub proof fn law_system_clock_is_read(time: u64)
    requires
        SystemClock.may_give(time),
    ensures
        was_shown(time),
        time % 0x4000_0000 < 1_000_000_000,
{
    law_clock_values_hold_nanoseconds(time);
}

} // verus!
