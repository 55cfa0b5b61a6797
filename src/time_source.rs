//! Time stamps for telemetry records.
//!
//! A `TimeSource` captures a wall-clock reading and a monotonic counter
//! reading once, at construction. Each later stamp is the wall-clock start plus
//! the monotonic time elapsed since then, so clock steps after construction
//! cannot reorder the stamps of one running instance.
use vstd::prelude::*;

verus! {

pub const NANOS_PER_SEC: u64 = 1_000_000_000;

/// A calendar instant: whole seconds since 1970-01-01T00:00:00Z and the
/// nanoseconds into that second.
#[derive(Clone, Copy, Debug, PartialEq, Eq, Structural)]
pub struct Timestamp {
    pub sec: i64,
    pub nsec: i32,
}

impl Timestamp {
    pub open spec fn wf(self) -> bool {
        0 <= self.nsec < 1_000_000_000
    }

    /// Nanoseconds since the epoch.
    pub open spec fn total_nanos(self) -> int {
        self.sec * 1_000_000_000 + self.nsec
    }
}

/// Whether moving `t` forward by `ns` nanoseconds keeps its seconds in `i64`.
pub open spec fn add_fits(t: Timestamp, ns: int) -> bool {
    t.sec + (t.nsec + ns) / 1_000_000_000 <= i64::MAX
}

/// `t` moved forward by `ns` nanoseconds; `None` when the seconds would
/// leave the range of `i64`.
pub fn checked_add_nanos(t: Timestamp, ns: u64) -> (r: Option<Timestamp>)
    requires
        t.wf(),
    ensures
        r matches Some(u) ==> u.wf() && u.total_nanos() == t.total_nanos() + ns,
        r is None <==> !add_fits(t, ns as int),
{
    let add_sec: u64 = ns / NANOS_PER_SEC;
    let add_nsec: i32 = (ns % NANOS_PER_SEC) as i32;
    let mut nsec: i32 = t.nsec + add_nsec;
    let mut carry: u64 = 0;
    if nsec >= 1_000_000_000 {
        nsec = nsec - 1_000_000_000;
        carry = 1;
    }
    let whole: u64 = add_sec + carry;
    assert(whole == (t.nsec + ns) / 1_000_000_000 && nsec == (t.nsec + ns) % 1_000_000_000);
    if whole > i64::MAX as u64 || t.sec > i64::MAX - whole as i64 {
        None
    } else {
        Some(Timestamp { sec: t.sec + whole as i64, nsec })
    }
}

/// The monotonic nanoseconds between `start` and `now`; a reading that lies
/// before `start` counts as no time at all.
pub open spec fn elapsed_between(start: u64, now: u64) -> nat {
    if now >= start {
        (now - start) as nat
    } else {
        0
    }
}

/// Relies on `time::get_time`: the current wall-clock time as seconds and
/// nanoseconds since the epoch. It builds its result with `Timespec::new`,
/// which asserts that the nanoseconds lie in `0..1_000_000_000`.
#[verifier::external_body]
fn wall_clock_now() -> (r: Timestamp)
    ensures
        r.wf(),
{
    let ts = time::get_time();
    Timestamp { sec: ts.sec, nsec: ts.nsec }
}

/// Relies on `time::precise_time_ns`: a reading of the high-resolution
/// performance counter, in nanoseconds from an unspecified origin.
#[verifier::external_body]
fn monotonic_now_ns() -> (r: u64) {
    time::precise_time_ns()
}

/// The single clock reference of one running instance.
#[derive(Clone, Copy, Debug)]
pub struct TimeSource {
    pub start: Timestamp,
    pub precise_start: u64,
}

impl TimeSource {
    pub open spec fn wf(self) -> bool {
        self.start.wf()
    }

    /// Captures the wall clock and the monotonic counter now.
    pub fn new() -> (r: TimeSource)
        ensures
            r.wf(),
    {
        let start = wall_clock_now();
        let precise_start = monotonic_now_ns();
        TimeSource { start, precise_start }
    }

    /// A source with the given wall-clock start and counter reading.
    pub fn from_parts(start: Timestamp, precise_start: u64) -> (r: TimeSource)
        requires
            start.wf(),
        ensures
            r.wf(),
            r.start == start,
            r.precise_start == precise_start,
    {
        TimeSource { start, precise_start }
    }

    /// The stamp for a monotonic counter reading `now_ns`: the start plus
    /// the time elapsed on the counter.
    pub fn stamp_at(&self, now_ns: u64) -> (r: Option<Timestamp>)
        requires
            self.wf(),
        ensures
            r matches Some(u) ==> u.wf() && u.total_nanos() == self.start.total_nanos()
                + elapsed_between(self.precise_start, now_ns),
            r is None <==> !add_fits(
                self.start,
                elapsed_between(self.precise_start, now_ns) as int,
            ),
    {
        let elapsed: u64 = if now_ns >= self.precise_start {
            now_ns - self.precise_start
        } else {
            0
        };
        checked_add_nanos(self.start, elapsed)
    }

    /// The stamp for the present moment. Whatever the counter reads, a stamp
    /// never lies before the start; and where the start leaves room for any
    /// counter reading, a stamp is always given.
    pub fn timestamp(&self) -> (r: Option<Timestamp>)
        requires
            self.wf(),
        ensures
            r matches Some(u) ==> u.wf() && u.total_nanos() >= self.start.total_nanos(),
            r is None ==> !add_fits(self.start, u64::MAX as int),
    {
        let now = monotonic_now_ns();
        let r = self.stamp_at(now);
        proof {
            lemma_add_fits_shrinks(self.start, elapsed_between(self.precise_start, now) as int, u64::MAX as int);
        }
        r
    }
}

/// The stamp for a caller-supplied time of `micros` microseconds after
/// `epoch`; `None` when the nanoseconds leave `u64` or the seconds leave `i64`.
pub fn from_elapsed_micros(epoch: Timestamp, micros: u64) -> (r: Option<Timestamp>)
    requires
        epoch.wf(),
    ensures
        r matches Some(u) ==> u.wf() && u.total_nanos() == epoch.total_nanos() + micros * 1000,
        r is None <==> micros * 1000 > u64::MAX || !add_fits(epoch, micros * 1000),
{
    match micros.checked_mul(1000) {
        Some(ns) => checked_add_nanos(epoch, ns),
        None => None,
    }
}

/// Room for `b` nanoseconds leaves room for any fewer.
pub proof fn lemma_add_fits_shrinks(t: Timestamp, a: int, b: int)
    requires
        t.wf(),
        0 <= a <= b,
    ensures
        add_fits(t, b) ==> add_fits(t, a),
{
    let x = t.nsec + a;
    let y = t.nsec + b;
    assert(x / 1_000_000_000 <= y / 1_000_000_000) by (nonlinear_arith)
        requires
            0 <= x <= y,
    ;
}

/// Stamps follow the counter: a later reading never gives an earlier stamp.
pub proof fn lemma_stamps_keep_order(src: TimeSource, a: u64, b: u64)
    requires
        a <= b,
    ensures
        elapsed_between(src.precise_start, a) <= elapsed_between(src.precise_start, b),
        src.start.total_nanos() + elapsed_between(src.precise_start, a)
            <= src.start.total_nanos() + elapsed_between(src.precise_start, b),
{
}

} // verus!
