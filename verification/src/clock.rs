//! The tick source.
//!
//! A [`Timer`] holds a baseline instant captured once per process (the
//! embedding program keeps the single instance and hands it to each thread
//! recorder). Ticks are whole nanoseconds elapsed since that baseline, read
//! from the operating system's monotonic clock, so the tick rate is one
//! gigahertz and the header's timestamp unit (microseconds per tick) is one
//! thousandth. The monotonic clock never goes backwards, so successive
//! readings from one timer never decrease — on any one thread and across
//! threads alike, since all share the baseline. No contract states this:
//! a relation between two readings cannot be expressed in the contract of
//! a single call, so it rests on the documentation of the source.
//!
//! The wall clock, used only to stamp `$` path templates, is read
//! separately and promises nothing at all.

use vstd::prelude::*;

verus! {

/// Bit pattern of the double 1_000_000 / 1_000_000_000 (one thousandth):
/// the microseconds-per-tick unit that matches this nanosecond tick source,
/// ready to be written into the trace header.
pub const TIMESTAMP_UNIT_BITS: u64 = 0x3F50624DD2F1A9FC;

/// A declared handle to the standard library's opaque monotonic instant.
#[verifier::external_type_specification]
#[verifier::external_body]
pub struct ExInstant(std::time::Instant);

/// The monotonic tick source: a process-wide baseline instant. Event
/// timestamps are nanoseconds elapsed since it.
#[derive(Clone, Copy)]
pub struct Timer {
    baseline: std::time::Instant,
}

impl Timer {
    /// Relies on std::time::Instant::now: captures the baseline the
    /// process's ticks are counted from. Called once per process.
    #[verifier::external_body]
    pub fn start() -> Timer {
        Timer { baseline: std::time::Instant::now() }
    }

    /// Relies on std::time::Instant::elapsed: whole nanoseconds since the
    /// baseline, truncated to 64 bits (they outgrow 64 bits only after
    /// centuries). The standard library documents instants as monotonically
    /// nondecreasing, so successive readings never decrease; nothing is
    /// promised of a single reading.
    #[verifier::external_body]
    pub fn now(&self) -> u64 {
        self.baseline.elapsed().as_nanos() as u64
    }
}

/// The current tick count of `timer`, for callers stamping their own
/// events.
pub fn now(timer: &Timer) -> u64 {
    timer.now()
}

/// Relies on std::time::SystemTime::now and
/// std::time::SystemTime::duration_since: the wall-clock time as whole
/// nanoseconds since the Unix epoch, truncated to 64 bits; zero in the
/// (never-observed) case of a clock reading before the epoch. Used only
/// for the `$` path-template stamp, which wants civil time, not ticks.
#[verifier::external_body]
fn wall_clock_nanos() -> (t: u64) {
    match std::time::SystemTime::now().duration_since(std::time::UNIX_EPOCH) {
        Ok(d) => d.as_nanos() as u64,
        Err(_) => 0,
    }
}

/// Whole microseconds for a count of nanoseconds.
pub fn micros_of(nanos: u64) -> (m: u64)
    ensures
        m == nanos / 1000,
{
    nanos / 1000
}

/// The current wall-clock time in whole microseconds since the Unix epoch,
/// as substituted into path templates.
pub fn unix_micros() -> u64 {
    let nanos = wall_clock_nanos();
    micros_of(nanos)
}

} // verus!
