//! Wall-clock instants as whole seconds and nanoseconds since the Unix epoch.

use vstd::prelude::*;

verus! {

/// Number of nanoseconds in one second.
pub const NANOS_PER_SEC: u32 = 1_000_000_000u32;

/// An absolute instant: `secs` whole seconds and `nanos` nanoseconds after
/// the Unix epoch.
#[derive(Clone, Copy, Debug)]
pub struct Timestamp {
    pub secs: u64,
    pub nanos: u32,
}

impl Timestamp {
    /// The sub-second part is less than one second.
    pub open spec fn wf(&self) -> bool {
        self.nanos < NANOS_PER_SEC
    }

    /// The instant as a number of nanoseconds since the epoch.
    pub open spec fn as_nanos(&self) -> int {
        self.secs as int * (NANOS_PER_SEC as int) + self.nanos as int
    }

    /// The latest instant that can be represented.
    pub open spec fn spec_latest() -> Timestamp {
        Timestamp { secs: u64::MAX, nanos: 999_999_999u32 }
    }

    /// The instant `ttl_secs` seconds after `self`, or the latest
    /// representable instant where the sum does not fit.
    pub open spec fn spec_plus_secs(&self, ttl_secs: u64) -> Timestamp {
        if self.secs as int + ttl_secs as int <= u64::MAX as int {
            Timestamp { secs: (self.secs + ttl_secs) as u64, nanos: self.nanos }
        } else {
            Self::spec_latest()
        }
    }

    /// Whether `self` is strictly later than `other`.
    pub open spec fn spec_is_after(&self, other: &Timestamp) -> bool {
        self.as_nanos() > other.as_nanos()
    }

    pub fn new(secs: u64, nanos: u32) -> (t: Timestamp)
        requires
            nanos < NANOS_PER_SEC,
        ensures
            t.secs == secs,
            t.nanos == nanos,
            t.wf(),
    {
        Timestamp { secs, nanos }
    }

    /// Adds a whole number of seconds, saturating at the latest instant.
    pub fn plus_secs(&self, ttl_secs: u64) -> (t: Timestamp)
        requires
            self.wf(),
        ensures
            t == self.spec_plus_secs(ttl_secs),
            t.wf(),
    {
        match self.secs.checked_add(ttl_secs) {
            Some(secs) => Timestamp { secs, nanos: self.nanos },
            None => Timestamp { secs: u64::MAX, nanos: 999_999_999u32 },
        }
    }

    /// Strict "later than" on instants.
    pub fn is_after(&self, other: &Timestamp) -> (b: bool)
        requires
            self.wf(),
            other.wf(),
        ensures
            b == self.spec_is_after(other),
    {
        proof {
            lemma_order(*self, *other);
        }
        self.secs > other.secs || (self.secs == other.secs && self.nanos > other.nanos)
    }
}

/// Comparing instants by seconds first and nanoseconds second agrees with
/// comparing their distance from the epoch.
pub proof fn lemma_order(a: Timestamp, b: Timestamp)
    requires
        a.wf(),
        b.wf(),
    ensures
        a.as_nanos() > b.as_nanos() <==> (a.secs > b.secs || (a.secs == b.secs && a.nanos
            > b.nanos)),
        a.as_nanos() == b.as_nanos() <==> a == b,
{
    let n = NANOS_PER_SEC as int;
    if a.secs > b.secs {
        assert(a.secs as int * n >= (b.secs as int + 1) * n) by (nonlinear_arith)
            requires
                a.secs > b.secs,
                n > 0,
        ;
        assert((b.secs as int + 1) * n == b.secs as int * n + n) by (nonlinear_arith);
    } else if a.secs < b.secs {
        assert(b.secs as int * n >= (a.secs as int + 1) * n) by (nonlinear_arith)
            requires
                a.secs < b.secs,
                n > 0,
        ;
        assert((a.secs as int + 1) * n == a.secs as int * n + n) by (nonlinear_arith);
    }
}

/// The adjusted instant is the exact sum wherever the sum is representable,
/// and otherwise no earlier than any representable instant.
pub proof fn lemma_plus_secs(now: Timestamp, ttl_secs: u64, later: Timestamp)
    requires
        now.wf(),
        later.wf(),
    ensures
        later.as_nanos() <= now.spec_plus_secs(ttl_secs).as_nanos() <==> later.as_nanos()
            <= now.as_nanos() + ttl_secs as int * (NANOS_PER_SEC as int),
{
    let n = NANOS_PER_SEC as int;
    if now.secs as int + ttl_secs as int <= u64::MAX as int {
        assert((now.secs as int + ttl_secs as int) * n == now.secs as int * n + ttl_secs as int
            * n) by (nonlinear_arith);
    } else {
        assert((now.secs as int + ttl_secs as int) * n >= (u64::MAX as int + 1) * n)
            by (nonlinear_arith)
            requires
                now.secs as int + ttl_secs as int >= u64::MAX as int + 1,
                n > 0,
        ;
        assert((now.secs as int + ttl_secs as int) * n == now.secs as int * n + ttl_secs as int
            * n) by (nonlinear_arith);
        assert((u64::MAX as int + 1) * n == u64::MAX as int * n + n) by (nonlinear_arith);
        assert(later.secs as int * n <= u64::MAX as int * n) by (nonlinear_arith)
            requires
                later.secs <= u64::MAX,
                n > 0,
        ;
    }
}

/// `std::time::SystemTime`, carried through as an opaque value.
#[verifier::external_type_specification]
#[verifier::external_body]
pub struct ExSystemTime(std::time::SystemTime);

/// `SystemTime::now` reads the system clock; nothing is promised of the
/// instant that it returns.
pub assume_specification[ std::time::SystemTime::now ]() -> (t: std::time::SystemTime)
;

/// The whole seconds that a duration holds.
pub uninterp spec fn whole_secs(d: core::time::Duration) -> u64;

/// The nanoseconds that a duration holds beyond its whole seconds.
pub uninterp spec fn subsec_part(d: core::time::Duration) -> u32;

/// `Duration::as_secs` gives the whole seconds of a duration: a number that
/// the duration alone determines. Nothing more is claimed of it.
pub assume_specification[ core::time::Duration::as_secs ](d: &core::time::Duration) -> (s: u64)
    ensures
        s == whole_secs(*d),
;

/// `Duration::subsec_nanos` gives the fractional part of a duration in
/// nanoseconds: a number that the duration alone determines, and which is
/// always less than one second.
pub assume_specification[ core::time::Duration::subsec_nanos ](d: &core::time::Duration) -> (n:
    u32)
    ensures
        n == subsec_part(*d),
        n < NANOS_PER_SEC,
;

/// `SystemTime::duration_since`, measured from `UNIX_EPOCH`: the time elapsed
/// since the epoch, or `None` where the instant lies before it.
#[verifier::external_body]
fn since_epoch(t: &std::time::SystemTime) -> (d: Option<core::time::Duration>) {
    t.duration_since(std::time::UNIX_EPOCH).ok()
}

/// The instant that a measurement from the Unix epoch stands for: none where
/// there is no measurement, otherwise the instant with the measurement's
/// whole seconds and its nanoseconds beyond them.
pub open spec fn reading(elapsed: Option<core::time::Duration>) -> Option<Timestamp> {
    match elapsed {
        Some(d) => Some(Timestamp { secs: whole_secs(d), nanos: subsec_part(d) }),
        None => None,
    }
}

/// Turns the time measured from the Unix epoch into an instant. There is an
/// instant exactly where there is a measurement.
pub fn from_elapsed(elapsed: Option<core::time::Duration>) -> (t: Option<Timestamp>)
    ensures
        t == reading(elapsed),
        t matches Some(at) ==> at.wf(),
{
    match elapsed {
        Some(d) => Some(Timestamp { secs: d.as_secs(), nanos: d.subsec_nanos() }),
        None => None,
    }
}

/// The current wall-clock instant, or `None` where the system clock reads
/// earlier than the Unix epoch.
pub fn now() -> (t: Option<Timestamp>)
    ensures
        t matches Some(at) ==> at.wf(),
{
    let clock = std::time::SystemTime::now();
    from_elapsed(since_epoch(&clock))
}

} // verus!
