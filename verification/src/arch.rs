//! AMD64 architecture support hooks.
use vstd::prelude::*;

verus! {

/// Architecture module initialisation: the module only orders its
/// dependencies (APIC, HPET), so there is nothing to set up here.
pub fn init() {
}

/// A point in time of the platform's monotonic clock.
#[verifier::external_type_specification]
#[verifier::external_body]
pub struct ExInstant(std::time::Instant);

/// Wraps `std::time::Instant::now`: the current reading of the monotonic
/// clock. Nothing is stated of it (it is the time).
#[verifier::external_body]
fn clock_now() -> std::time::Instant {
    std::time::Instant::now()
}

/// Wraps `std::time::Instant::elapsed`: the time passed since `origin`.
/// Nothing is stated of it (it is the time).
#[verifier::external_body]
fn clock_elapsed(origin: &std::time::Instant) -> core::time::Duration {
    origin.elapsed()
}

/// Wraps `core::time::Duration::as_millis`: the whole milliseconds in `d`.
/// Nothing is stated of it (a `Duration` is opaque here).
#[verifier::external_body]
fn duration_millis(d: &core::time::Duration) -> u128 {
    d.as_millis()
}

/// The system timer: counts milliseconds from the point at which it was
/// started (its origin), and remembers its last reading.
pub struct Timer {
    origin: std::time::Instant,
    last: u64,
}

impl Timer {
    /// The point the timer counts from.
    pub closed spec fn origin(&self) -> std::time::Instant {
        self.origin
    }

    /// The last timestamp this timer returned (0 before the first).
    pub closed spec fn last(&self) -> u64 {
        self.last
    }

    /// Start the timer now.
    pub fn new() -> (r: Timer)
        ensures
            r.last() == 0,
    {
        Timer { origin: clock_now(), last: 0 }
    }

    /// Take a clock reading of `now` milliseconds since the origin: the
    /// timestamp is the reading, or the last timestamp if the reading is
    /// behind it, so timestamps never decrease; it becomes the last one.
    pub fn record(&mut self, now: u64) -> (r: u64)
        ensures
            r == (if now < old(self).last() { old(self).last() } else { now }),
            final(self).last() == r,
            final(self).origin() == old(self).origin(),
    {
        let r = if now < self.last {
            self.last
        } else {
            now
        };
        self.last = r;
        r
    }
}

/// Milliseconds as a `u64`, saturating at `u64::MAX`.
fn millis_u64(ms: u128) -> (r: u64)
    ensures
        r == (if ms > u64::MAX { u64::MAX as int } else { ms as int }),
{
    if ms > u64::MAX as u128 {
        u64::MAX
    } else {
        ms as u64
    }
}

/// Return the system timestamp (milliseconds since an arbitrary point: the
/// origin of `timer`). The clock is read, and the reading is recorded with
/// `Timer::record`, so timestamps never decrease.
pub fn cur_timestamp(timer: &mut Timer) -> (r: u64)
    ensures
        r >= old(timer).last(),
        final(timer).last() == r,
        final(timer).origin() == old(timer).origin(),
{
    let elapsed = clock_elapsed(&timer.origin);
    let now = millis_u64(duration_millis(&elapsed));
    timer.record(now)
}

/// A frame-pointer chain walker, started from a saved base pointer.
///
/// Each frame record at a base pointer holds the caller's base pointer and
/// the return address; reading that record is the platform's work, and the
/// walker decides what is printed and where the walk goes next.
pub struct Backtrace(usize);

impl Backtrace {
    /// The base pointer the walk will read next.
    pub closed spec fn base(&self) -> usize {
        self.0
    }

    /// Start a walk at base pointer `bp`.
    pub fn new(bp: usize) -> (r: Backtrace)
        ensures
            r.base() == bp,
    {
        Backtrace(bp)
    }

    /// The base pointer whose frame record is to be read next.
    pub fn current(&self) -> (r: usize)
        ensures
            r == self.base(),
    {
        self.0
    }

    /// Advance by one frame, given the record read at the current base
    /// pointer (`None` when there is no readable frame there). Returns the
    /// return address to print, or `None` once the chain has ended.
    pub fn advance(&mut self, frame: Option<(usize, usize)>) -> (ip: Option<usize>)
        ensures
            match frame {
                Some((next_bp, ret)) => ip == Some(ret) && final(self).base() == next_bp,
                None => ip is None && final(self).base() == old(self).base(),
            },
    {
        match frame {
            Some((next_bp, ret)) => {
                self.0 = next_bp;
                Some(ret)
            },
            None => None,
        }
    }
}

} // verus!
