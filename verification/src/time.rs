//! Points in time, and the clock.
use vstd::prelude::*;

verus! {

/// How many nanoseconds a second has.
pub const NANOS_PER_SEC: u32 = 1_000_000_000;

/// How many seconds a point in time can lie from the Unix epoch, and one more.
pub const SECS_LIMIT: i128 = 18_446_744_073_709_551_616;

/// The moment lies before the point in time it was measured from, by so many nanoseconds.
#[derive(Debug, Clone, Copy, PartialEq, Eq, Structural)]
pub struct SystemTimeError {
    pub nanos: u128,
}

/// A point in time, to the nanosecond.
#[derive(Debug, Clone, Copy, PartialEq, Eq, Structural)]
pub struct Timestamp {
    nanos: i128,
}

impl View for Timestamp {
    type V = int;

    /// The nanoseconds from the Unix epoch on; negative before it.
    closed spec fn view(&self) -> int {
        self.nanos as int
    }
}

/// The whole seconds from the Unix epoch to `nanos`, or how far `nanos` lies before it.
pub open spec fn unix_secs_at(nanos: int) -> Result<u64, SystemTimeError> {
    if nanos >= 0 {
        Ok((nanos / (NANOS_PER_SEC as int)) as u64)
    } else {
        Err(SystemTimeError { nanos: (-nanos) as u128 })
    }
}

/// Reads the system clock by `std::time::SystemTime::now` and gives the time between the
/// Unix epoch and what it shows, as whole seconds and nanoseconds: `Ok` where the clock shows
/// the epoch or later, `Err` where it shows an earlier time. What it shows is not stated; the
/// nanoseconds are the fraction of a second, so they are fewer than a second has.
#[verifier::external_body]
fn clock() -> (r: Result<(u64, u32), (u64, u32)>)
    ensures
        match r {
            Ok((_, nanos)) => nanos < NANOS_PER_SEC,
            Err((_, nanos)) => nanos < NANOS_PER_SEC,
        },
{
    match std::time::SystemTime::now().duration_since(std::time::UNIX_EPOCH) {
        Ok(after) => Ok((after.as_secs(), after.subsec_nanos())),
        Err(err) => Err((err.duration().as_secs(), err.duration().subsec_nanos())),
    }
}

impl Timestamp {
    #[verifier::type_invariant]
    spec fn in_range(self) -> bool {
        is_moment(self.nanos as int)
    }

    /// The moment `secs` seconds and `nanos` nanoseconds after the Unix epoch.
    pub fn after_epoch(secs: u64, nanos: u32) -> (r: Timestamp)
        requires
            nanos < NANOS_PER_SEC,
        ensures
            r@ == secs * NANOS_PER_SEC + nanos,
    {
        Timestamp { nanos: secs as i128 * 1_000_000_000 + nanos as i128 }
    }

    /// The moment `secs` seconds and `nanos` nanoseconds before the Unix epoch.
    pub fn before_epoch(secs: u64, nanos: u32) -> (r: Timestamp)
        requires
            nanos < NANOS_PER_SEC,
        ensures
            r@ == -(secs * NANOS_PER_SEC + nanos),
    {
        Timestamp { nanos: -(secs as i128 * 1_000_000_000 + nanos as i128) }
    }

    /// The moment that the system clock shows.
    pub fn now() -> (r: Timestamp)
        ensures
            exists|reading: Result<(u64, u32), (u64, u32)>| #[trigger]
                is_reading(reading) && r@ == moment_of(reading),
            is_moment(r@),
    {
        let reading: Result<(u64, u32), (u64, u32)> = clock();
        assert(is_reading(reading));
        Timestamp::from_reading(reading)
    }

    /// The moment that a clock shows whose reading is `reading`: the seconds and nanoseconds
    /// after the Unix epoch, or before it.
    pub fn from_reading(reading: Result<(u64, u32), (u64, u32)>) -> (r: Timestamp)
        requires
            is_reading(reading),
        ensures
            r@ == moment_of(reading),
    {
        match reading {
            Ok((secs, nanos)) => Timestamp::after_epoch(secs, nanos),
            Err((secs, nanos)) => Timestamp::before_epoch(secs, nanos),
        }
    }

    /// The whole seconds from the Unix epoch to this moment.
    pub fn unix_secs(&self) -> (r: Result<u64, SystemTimeError>)
        ensures
            r == unix_secs_at(self@),
            self@ >= 0 ==> r is Ok && (r->Ok_0) * NANOS_PER_SEC <= self@ < (r->Ok_0 + 1)
                * NANOS_PER_SEC,
            self@ < 0 ==> r is Err && (r->Err_0).nanos == -self@,
    {
        proof {
            use_type_invariant(self);
        }
        if self.nanos >= 0 {
            Ok((self.nanos as u128 / 1_000_000_000) as u64)
        } else {
            Err(SystemTimeError { nanos: (-self.nanos) as u128 })
        }
    }

    /// The nanoseconds from `earlier` to this moment, unless `earlier` is the later one.
    pub fn nanos_since(&self, earlier: &Timestamp) -> (r: Option<u128>)
        ensures
            r is Some <==> earlier@ <= self@,
            r matches Some(n) ==> n == self@ - earlier@,
    {
        proof {
            use_type_invariant(self);
            use_type_invariant(earlier);
        }
        if self.nanos < earlier.nanos {
            None
        } else {
            Some((self.nanos - earlier.nanos) as u128)
        }
    }
}

/// Whether `reading` is a reading of a clock: its nanoseconds are a fraction of a second.
pub open spec fn is_reading(reading: Result<(u64, u32), (u64, u32)>) -> bool {
    match reading {
        Ok((_, nanos)) => nanos < NANOS_PER_SEC,
        Err((_, nanos)) => nanos < NANOS_PER_SEC,
    }
}

/// Whether a clock can show the moment `nanos` nanoseconds after the Unix epoch.
pub open spec fn is_moment(nanos: int) -> bool {
    -SECS_LIMIT * NANOS_PER_SEC < nanos < SECS_LIMIT * NANOS_PER_SEC
}

/// The nanoseconds from the Unix epoch to what a clock with the reading `reading` shows.
pub open spec fn moment_of(reading: Result<(u64, u32), (u64, u32)>) -> int {
    match reading {
        Ok((secs, nanos)) => secs * NANOS_PER_SEC + nanos,
        Err((secs, nanos)) => -(secs * NANOS_PER_SEC + nanos),
    }
}

/// Seconds are counted from the epoch on, and rounded down. A moment before the epoch has none,
/// and the error tells how far before it the moment lies.
pub proof fn lemma_unix_secs(nanos: int)
    requires
        -18_446_744_073_709_551_616 * 1_000_000_000 < nanos < 18_446_744_073_709_551_616
            * 1_000_000_000,
    ensures
        is_moment(nanos),
        nanos >= 0 ==> (unix_secs_at(nanos) matches Ok(secs) && secs * 1_000_000_000 <= nanos < (
        secs + 1) * 1_000_000_000),
        nanos < 0 ==> (unix_secs_at(nanos) matches Err(e) && e.nanos == -nanos),
{
}

/// The seconds of a reading after the epoch are those of its moment. A reading before the epoch
/// lies as far from it on the other side.
pub proof fn lemma_moment_of(secs: u64, nanos: u32)
    requires
        nanos < 1_000_000_000,
    ensures
        is_reading(Ok((secs, nanos))),
        is_reading(Err((secs, nanos))),
        unix_secs_at(moment_of(Ok((secs, nanos)))) == Ok::<u64, SystemTimeError>(secs),
        moment_of(Ok((secs, nanos))) - secs * 1_000_000_000 == nanos,
        moment_of(Err((secs, nanos))) == -moment_of(Ok((secs, nanos))),
{
}

} // verus!
