//! Logical timestamps ("epochs"): the upper bits hold wall-clock milliseconds,
//! the lower `EPOCH_PHYSICAL_SHIFT_BITS` bits a sequence number.

use vstd::prelude::*;

verus! {

pub const EPOCH_PHYSICAL_SHIFT_BITS: u8 = 16;

/// Number of distinct logical values within one millisecond.
pub const LOGICAL_SPAN: u64 = 65536;

/// Number of distinct physical values that fit above the logical bits.
pub const PHYSICAL_SPAN: u64 = 281474976710656;

#[derive(Clone, Copy, Eq, Ord, PartialEq, PartialOrd, Hash, Debug)]
pub struct Epoch(pub u64);

/// Raw value of the smallest epoch.
pub const MIN_EPOCH: u64 = 0;

/// Raw value of the largest epoch.
pub const MAX_EPOCH: u64 = 18446744073709551615;

/// The physical component of a raw epoch value.
pub open spec fn physical_of(e: u64) -> u64 {
    e / LOGICAL_SPAN
}

/// The epoch that starts millisecond `ms`: `ms` shifted into the physical
/// bits, dropping what does not fit in 64 bits.
pub open spec fn epoch_at(ms: u64) -> u64 {
    ((ms % PHYSICAL_SPAN) * LOGICAL_SPAN) as u64
}

/// The epoch that follows `e` when the clock reads `now`: one more than `e`
/// while the clock has not passed `e`'s millisecond (also when it reads an
/// earlier one), else the first epoch of `now`.
pub open spec fn next_epoch(e: u64, now: u64) -> u64 {
    if now <= physical_of(e) {
        if e == u64::MAX { 0 } else { (e + 1) as u64 }
    } else {
        epoch_at(now)
    }
}

/// Relies on `SystemTime::now` and `Duration::as_millis`: milliseconds since
/// the Unix epoch, or `None` when the clock reads an earlier time. Nothing is
/// promised of the value.
#[verifier::external_body]
fn unix_millis() -> (r: Option<u128>) {
    match std::time::SystemTime::now().duration_since(std::time::UNIX_EPOCH) {
        Ok(d) => Some(d.as_millis()),
        Err(_) => None,
    }
}

/// Failures of the epoch clock.
#[derive(Clone, Copy, Debug, PartialEq, Eq)]
pub enum EpochError {
    /// The wall clock reads a time before the Unix epoch, or one past what
    /// the physical bits hold.
    ClockUnreadable,
}

impl Epoch {
    /// The first epoch of the current millisecond.
    pub fn init() -> (r: Result<Epoch, EpochError>)
        ensures
            r matches Ok(e) ==> exists|now: u64| now < PHYSICAL_SPAN && e.0 == epoch_at(now),
    {
        let now = Epoch::physical_now()?;
        let e = Epoch::from_physical(now);
        assert(now < PHYSICAL_SPAN && e.0 == epoch_at(now));
        Ok(e)
    }

    /// The first epoch of millisecond `ms`.
    pub fn from_physical(ms: u64) -> (r: Epoch)
        ensures
            r.0 == epoch_at(ms),
    {
        assert((ms % PHYSICAL_SPAN) * LOGICAL_SPAN <= u64::MAX) by (nonlinear_arith);
        Epoch((ms % PHYSICAL_SPAN) * LOGICAL_SPAN)
    }

    pub fn physical_time(&self) -> (r: u64)
        ensures
            r == physical_of(self.0),
    {
        self.0 / LOGICAL_SPAN
    }

    pub fn into_inner(self) -> (r: u64)
        ensures
            r == self.0,
    {
        self.0
    }

    /// The epoch after `self` when the clock reads `now`: one more than `self`
    /// unless the clock has passed `self`'s millisecond, else the first epoch
    /// of `now`.
    pub fn next_at(&self, now: u64) -> (r: Epoch)
        ensures
            r.0 == next_epoch(self.0, now),
            self.0 < u64::MAX && now < PHYSICAL_SPAN ==> r.0 > self.0,
    {
        proof { if self.0 < u64::MAX && now < PHYSICAL_SPAN { lemma_next_epoch_monotone(self.0, now); } }
        if now <= self.physical_time() {
            Epoch(self.0.wrapping_add(1))
        } else {
            Epoch::from_physical(now)
        }
    }

    /// The epoch after `self`, reading the wall clock once.
    pub fn next(&self) -> (r: Result<Epoch, EpochError>)
        ensures
            r matches Ok(e) ==> exists|now: u64| now < PHYSICAL_SPAN && e.0 == next_epoch(self.0, now),
            r matches Ok(e) ==> (self.0 < u64::MAX ==> e.0 > self.0),
    {
        let now = Epoch::physical_now()?;
        let e = self.next_at(now);
        assert(now < PHYSICAL_SPAN && e.0 == next_epoch(self.0, now));
        Ok(e)
    }

    /// Milliseconds since the Unix epoch; `ClockUnreadable` where the clock
    /// reads a time before the Unix epoch or past the physical range.
    pub fn physical_now() -> (r: Result<u64, EpochError>)
        ensures
            r matches Ok(ms) ==> ms < PHYSICAL_SPAN,
    {
        match unix_millis() {
            Some(ms) => {
                if ms < PHYSICAL_SPAN as u128 {
                    Ok(ms as u64)
                } else {
                    Err(EpochError::ClockUnreadable)
                }
            },
            None => Err(EpochError::ClockUnreadable),
        }
    }
}

impl From<u64> for Epoch {
    fn from(e: u64) -> (r: Epoch)
        ensures
            r.0 == e,
    {
        Epoch(e)
    }
}

impl vstd::std_specs::convert::FromSpecImpl<u64> for Epoch {
    open spec fn obeys_from_spec() -> bool {
        true
    }

    open spec fn from_spec(v: u64) -> Epoch {
        Epoch(v)
    }
}

/// Issues strictly increasing epochs from one in-memory cell.
pub struct MemEpochGenerator {
    current_epoch: Epoch,
}

impl MemEpochGenerator {
    pub closed spec fn current(&self) -> Epoch {
        self.current_epoch
    }

    pub fn new() -> (r: Result<Self, EpochError>)
        ensures
            r matches Ok(g) ==> exists|now: u64| now < PHYSICAL_SPAN && g.current().0 == epoch_at(now),
    {
        let e = Epoch::init()?;
        Ok(MemEpochGenerator { current_epoch: e })
    }

    /// Advances the stored epoch with one clock reading and returns it; where
    /// the clock cannot be read, fails and keeps the stored epoch.
    pub fn generate(&mut self) -> (r: Result<Epoch, EpochError>)
        ensures
            r is Err ==> final(self).current() == old(self).current(),
            r matches Ok(e) ==> final(self).current() == e,
            r matches Ok(e) ==> exists|now: u64| now < PHYSICAL_SPAN && e.0 == next_epoch(old(self).current().0, now),
            r matches Ok(e) ==> (old(self).current().0 < u64::MAX ==> e.0 > old(self).current().0),
    {
        let now = Epoch::physical_now()?;
        let e = self.current_epoch.next_at(now);
        assert(now < PHYSICAL_SPAN && e.0 == next_epoch(old(self).current().0, now));
        self.current_epoch = e;
        Ok(e)
    }
}

/// Successive epochs strictly increase, whatever the clock reads within the
/// physical range (also when it goes back), and an epoch issued within the
/// same millisecond as its predecessor is exactly one more.
pub proof fn lemma_next_epoch_monotone(prev: u64, now: u64)
    requires
        now < PHYSICAL_SPAN,
        prev < u64::MAX,
    ensures
        next_epoch(prev, now) > prev,
        now == physical_of(prev) ==> next_epoch(prev, now) == prev + 1,
        physical_of(next_epoch(prev, now)) >= physical_of(prev),
{
    if now > physical_of(prev) {
        assert(now % PHYSICAL_SPAN == now);
        assert(now * LOGICAL_SPAN <= u64::MAX) by (nonlinear_arith)
            requires now < PHYSICAL_SPAN;
        assert(prev < (prev / LOGICAL_SPAN + 1) * LOGICAL_SPAN) by (nonlinear_arith);
        assert((prev / LOGICAL_SPAN + 1) * LOGICAL_SPAN <= now * LOGICAL_SPAN) by (nonlinear_arith)
            requires prev / LOGICAL_SPAN + 1 <= now;
        assert(((now * LOGICAL_SPAN) as int) / (LOGICAL_SPAN as int) == now as int) by (nonlinear_arith);
    } else {
        assert((prev as int + 1) / (LOGICAL_SPAN as int) >= (prev as int) / (LOGICAL_SPAN as int)) by (nonlinear_arith);
    }
}

} // verus!
