//! Clocks, counted in whole seconds.  `InstantClock` reads the machine's
//! time; `FrozenClock` stands still until it is moved by hand, which makes
//! the event statistics testable.

use vstd::prelude::*;

verus! {

/// A source of the current time, in seconds.  A clock whose reading is
/// determined — a frozen one — says so through `spec_now`, and `now` is
/// then bound to it; of the machine's clock nothing is promised.
pub trait Clock {
    /// The instant this clock answers with, where one is determined.
    spec fn spec_now(&self) -> Option<u64>;

    fn now(&self) -> (t: u64)
        ensures
            self.spec_now() matches Some(v) ==> t == v,
    ;
}

/// The machine's clock.
pub struct InstantClock;

impl Clock for InstantClock {
    /// The machine's reading is not determined by the value.
    open spec fn spec_now(&self) -> Option<u64> {
        None
    }

    fn now(&self) -> u64 {
        machine_now_seconds()
    }
}

/// Relies on `std::time::SystemTime`: seconds since the Unix epoch, or 0 if
/// the machine's clock stands before it.  Nothing can be promised of the
/// value.
#[verifier::external_body]
fn machine_now_seconds() -> u64 {
    match std::time::SystemTime::UNIX_EPOCH.elapsed() {
        Ok(d) => d.as_secs(),
        Err(_) => 0,
    }
}

/// A clock under the test's control.
pub struct FrozenClock {
    time: u64,
}

impl FrozenClock {
    /// The instant the clock shows.
    pub closed spec fn spec_time(self) -> u64 {
        self.time
    }

    pub fn new(time: u64) -> (r: Self)
        ensures
            r.spec_time() == time,
    {
        FrozenClock { time }
    }

    pub fn set(&mut self, time: u64)
        ensures
            final(self).spec_time() == time,
    {
        self.time = time;
    }

    pub fn get(&self) -> (r: u64)
        ensures
            r == self.spec_time(),
    {
        self.time
    }

    /// Moves the clock forward by whole minutes.
    pub fn skip_minutes(&mut self, minutes: u64)
        requires
            old(self).spec_time() + 60 * minutes <= u64::MAX,
        ensures
            final(self).spec_time() == old(self).spec_time() + 60 * minutes,
    {
        self.set(self.get() + 60 * minutes);
    }
}

impl Clock for FrozenClock {
    /// A frozen clock always answers the time it was set to.
    open spec fn spec_now(&self) -> Option<u64> {
        Some(self.spec_time())
    }

    fn now(&self) -> (t: u64)
        ensures
            t == self.spec_time(),
    {
        self.time
    }
}

} // verus!
