//! Points in time, in nanoseconds before or after the Unix epoch.
use vstd::prelude::*;

verus! {

/// Nanoseconds in one second.
pub const NANOS_PER_SEC: i128 = 1_000_000_000;

/// A point in time with the range and the resolution of a Unix clock.
#[derive(Debug, Clone, Copy, PartialEq, Eq, Structural)]
pub struct Timestamp {
    nanos: i128,
}

impl View for Timestamp {
    type V = int;

    closed spec fn view(&self) -> int {
        self.nanos as int
    }
}

impl Timestamp {
    #[verifier::type_invariant]
    spec fn in_range(self) -> bool {
        i64::MIN * NANOS_PER_SEC <= self.nanos < (i64::MAX + 1) * NANOS_PER_SEC
    }

    /// The time `secs` seconds after the epoch (before it, where negative) and
    /// a further fraction of a second.
    pub fn from_unix(secs: i64, nanos: u32) -> (res: Timestamp)
        requires
            nanos < NANOS_PER_SEC,
        ensures
            res@ == secs * NANOS_PER_SEC + nanos,
    {
        let total: i128 = (secs as i128) * NANOS_PER_SEC + (nanos as i128);
        Timestamp { nanos: total }
    }

    /// The whole seconds since the epoch, rounded down.
    pub fn unix_secs(&self) -> (res: i64)
        ensures
            res == self@ / (NANOS_PER_SEC as int),
    {
        proof {
            use_type_invariant(self);
        }
        let mut q: i128 = self.nanos / NANOS_PER_SEC;
        if self.nanos < 0 && q * NANOS_PER_SEC != self.nanos {
            q = q - 1;
        }
        q as i64
    }

    /// The fraction of a second past [`Timestamp::unix_secs`].
    pub fn subsec_nanos(&self) -> (res: u32)
        ensures
            res == self@ % (NANOS_PER_SEC as int),
    {
        proof {
            use_type_invariant(self);
        }
        let secs: i128 = self.unix_secs() as i128;
        (self.nanos - secs * NANOS_PER_SEC) as u32
    }

    /// How many nanoseconds `earlier` lies before this time; none where it
    /// lies after it.
    pub fn nanos_since(&self, earlier: &Timestamp) -> (res: Option<u128>)
        ensures
            earlier@ > self@ ==> res is None,
            earlier@ <= self@ ==> (res matches Some(n) && n == self@ - earlier@),
    {
        proof {
            use_type_invariant(self);
            use_type_invariant(earlier);
        }
        if earlier.nanos > self.nanos {
            None
        } else {
            Some((self.nanos - earlier.nanos) as u128)
        }
    }

    /// How many whole seconds `earlier` lies before this time; none where it
    /// lies after it.
    pub fn seconds_since(&self, earlier: &Timestamp) -> (res: u64)
        ensures
            res == if self@ >= earlier@ {
                (self@ - earlier@) / (NANOS_PER_SEC as int)
            } else {
                0
            },
    {
        proof {
            use_type_invariant(self);
            use_type_invariant(earlier);
        }
        if earlier.nanos > self.nanos {
            return 0;
        }
        let span: i128 = self.nanos - earlier.nanos;
        (span / NANOS_PER_SEC) as u64
    }

    /// Whether this time is `other` or later.
    pub fn not_before(&self, other: &Timestamp) -> (res: bool)
        ensures
            res == (self@ >= other@),
    {
        self.nanos >= other.nanos
    }
}

} // verus!
