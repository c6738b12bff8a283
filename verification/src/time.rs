use vstd::prelude::*;

verus! {

/// Nanoseconds in one second.
pub const NANOS_PER_SEC: u32 = 1_000_000_000;

/// An absolute instant: whole seconds and subsecond nanoseconds since the
/// Unix epoch.
#[derive(Clone, Copy, PartialEq, Eq, Structural, Debug)]
pub struct Timestamp {
    pub secs: u64,
    pub nanos: u32,
}

/// A time-to-live duration: whole seconds and subsecond nanoseconds.
#[derive(Clone, Copy, PartialEq, Eq, Structural, Debug)]
pub struct Ttl {
    pub secs: u64,
    pub nanos: u32,
}

impl Timestamp {
    /// The subsecond part stays below one second.
    pub open spec fn wf(self) -> bool {
        self.nanos < NANOS_PER_SEC
    }

    /// The instant as a single count of nanoseconds since the epoch.
    pub open spec fn as_nanos(self) -> int {
        self.secs * (NANOS_PER_SEC as int) + self.nanos
    }

    /// The instant `secs` whole seconds after the epoch.
    pub fn from_secs(secs: u64) -> (r: Timestamp)
        ensures
            r == (Timestamp { secs, nanos: 0u32 }),
            r.wf(),
    {
        Timestamp { secs, nanos: 0 }
    }

    /// Whether this instant is strictly before `other`.
    pub fn before(&self, other: &Timestamp) -> (r: bool)
        requires
            self.wf(),
            other.wf(),
        ensures
            r <==> self.as_nanos() < other.as_nanos(),
    {
        self.secs < other.secs || (self.secs == other.secs && self.nanos < other.nanos)
    }
}

impl Ttl {
    /// The subsecond part stays below one second.
    pub open spec fn wf(self) -> bool {
        self.nanos < NANOS_PER_SEC
    }

    /// The duration as a single count of nanoseconds.
    pub open spec fn as_nanos(self) -> int {
        self.secs * (NANOS_PER_SEC as int) + self.nanos
    }
}

/// The instant a file created at `created` with TTL `ttl` expires:
/// creation time plus TTL, saturating at the largest representable instant.
pub open spec fn expiration_of(created: Timestamp, ttl: Ttl) -> Timestamp {
    let ns: int = created.nanos + ttl.nanos;
    let carry: int = if ns >= NANOS_PER_SEC { 1int } else { 0int };
    let sub: int = ns - carry * NANOS_PER_SEC;
    if created.secs + ttl.secs + carry > u64::MAX {
        Timestamp { secs: u64::MAX, nanos: (NANOS_PER_SEC - 1) as u32 }
    } else {
        Timestamp { secs: (created.secs + ttl.secs + carry) as u64, nanos: sub as u32 }
    }
}

/// Compute the expiration instant for a creation time and a TTL.
pub fn add_ttl(created: &Timestamp, ttl: &Ttl) -> (r: Timestamp)
    requires
        created.wf(),
        ttl.wf(),
    ensures
        r == expiration_of(*created, *ttl),
        r.wf(),
{
    let ns: u32 = created.nanos + ttl.nanos;
    let carry: u64 = if ns >= NANOS_PER_SEC {
        1
    } else {
        0
    };
    let sub: u32 = if ns >= NANOS_PER_SEC {
        ns - NANOS_PER_SEC
    } else {
        ns
    };
    if created.secs <= u64::MAX - ttl.secs && created.secs + ttl.secs <= u64::MAX - carry {
        Timestamp { secs: created.secs + ttl.secs + carry, nanos: sub }
    } else {
        Timestamp { secs: u64::MAX, nanos: NANOS_PER_SEC - 1 }
    }
}

/// Whole seconds since the Unix epoch, as shown in log lines.
pub fn timestamp(time: &Timestamp) -> (r: u64)
    ensures
        r == time.secs,
{
    time.secs
}

} // verus!
