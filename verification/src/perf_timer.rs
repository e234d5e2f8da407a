//! A named performance timer: it remembers when it was started, so that the
//! time spent since can be reported when the timer is done with.

use vstd::prelude::*;

verus! {

/// The monotonic clock reading type of `std`.
#[verifier::external_type_specification]
#[verifier::external_body]
pub struct ExInstant(std::time::Instant);

/// `std::time::Instant::now`: the current reading of the monotonic clock.
/// Nothing is claimed of it; it depends on the time of the call.
#[verifier::external_body]
fn instant_now() -> (res: std::time::Instant) {
    std::time::Instant::now()
}

/// A timer named after what it measures, started when it is created.
pub struct PerfTimer {
    name: &'static str,
    start: std::time::Instant,
}

impl PerfTimer {
    /// The name of the timer.
    pub closed spec fn name_spec(&self) -> &'static str {
        self.name
    }

    /// Creates a timer with the given name, started now: at the clock reading
    /// taken during the call (which nothing here can name; see [`Self::started_at`]).
    pub fn new(name: &'static str) -> (res: PerfTimer)
        ensures
            res.name_spec() == name,
    {
        let start = instant_now();
        PerfTimer::started_at(name, start)
    }

    /// Creates a timer with the given name, started at the clock reading `start`.
    pub fn started_at(name: &'static str, start: std::time::Instant) -> (res: PerfTimer)
        ensures
            res.name_spec() == name,
            res.start_spec() == start,
    {
        PerfTimer { name, start }
    }

    pub fn name(&self) -> (res: &'static str)
        ensures
            res == self.name_spec(),
    {
        self.name
    }

    /// The clock reading the timer was started at.
    pub closed spec fn start_spec(&self) -> std::time::Instant {
        self.start
    }

    /// When the timer was started.
    pub fn start(&self) -> (res: std::time::Instant)
        ensures
            res == self.start_spec(),
    {
        self.start
    }
}

} // verus!
