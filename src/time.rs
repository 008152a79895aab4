//! Simulated time: a monotonic time line counted in whole microseconds, kept
//! apart from the wall clock so that stepping it is exact and reproducible.
use vstd::prelude::*;

verus! {

/// A point on the simulated time line, counted in whole microseconds from
/// an arbitrary epoch.
#[derive(Debug, Clone, Copy, PartialEq, Eq, Structural, Hash)]
pub struct SimInstant {
    micros: i64,
}

/// A signed span of simulated time, in whole microseconds.
#[derive(Debug, Clone, Copy, PartialEq, Eq, Structural, Hash)]
pub struct SimDuration {
    micros: i64,
}

/// The remainder of `a` divided by `b` as integer division that truncates
/// toward zero computes it: it takes the sign of `a`, and its magnitude is
/// less than that of `b`.
pub open spec fn trunc_rem(a: int, b: int) -> int {
    if a >= 0 {
        a % b
    } else {
        -((-a) % b)
    }
}

/// Whether `a` fits in an `i64`.
pub open spec fn fits_i64(a: int) -> bool {
    i64::MIN <= a <= i64::MAX
}

/// An instant's microsecond count is that of an `i64`.
pub broadcast proof fn lemma_instant_fits(t: SimInstant)
    ensures
        fits_i64(#[trigger] t.spec_micros()),
{
}

impl SimInstant {
    /// Microseconds since the epoch.
    pub closed spec fn spec_micros(self) -> int {
        self.micros as int
    }

    /// The instant at which simulated time starts.
    pub fn epoch() -> (r: SimInstant)
        ensures
            r.spec_micros() == 0,
    {
        SimInstant { micros: 0 }
    }

    /// The instant `d` after `self` (before it, for a negative `d`).
    pub fn plus(self, d: SimDuration) -> (r: SimInstant)
        requires
            fits_i64(self.spec_micros() + d.spec_micros()),
        ensures
            r.spec_micros() == self.spec_micros() + d.spec_micros(),
    {
        SimInstant { micros: self.micros + d.micros }
    }

    /// The instant `d` before `self`.
    pub fn minus(self, d: SimDuration) -> (r: SimInstant)
        requires
            fits_i64(self.spec_micros() - d.spec_micros()),
        ensures
            r.spec_micros() == self.spec_micros() - d.spec_micros(),
    {
        SimInstant { micros: self.micros - d.micros }
    }

    /// The span from `earlier` to `self`; negative when `earlier` is later.
    pub fn since(self, earlier: SimInstant) -> (r: SimDuration)
        requires
            fits_i64(self.spec_micros() - earlier.spec_micros()),
        ensures
            r.spec_micros() == self.spec_micros() - earlier.spec_micros(),
    {
        SimDuration { micros: self.micros - earlier.micros }
    }

    /// Moves `self` forward by `d`.
    pub fn advance(&mut self, d: SimDuration)
        requires
            fits_i64(old(self).spec_micros() + d.spec_micros()),
        ensures
            final(self).spec_micros() == old(self).spec_micros() + d.spec_micros(),
    {
        self.micros = self.micros + d.micros;
    }

    /// Moves `self` back by `d`.
    pub fn rewind(&mut self, d: SimDuration)
        requires
            fits_i64(old(self).spec_micros() - d.spec_micros()),
        ensures
            final(self).spec_micros() == old(self).spec_micros() - d.spec_micros(),
    {
        self.micros = self.micros - d.micros;
    }

    /// The instant `d` after `self`, or `None` where it lies outside the
    /// time line.
    pub fn checked_plus(self, d: SimDuration) -> (r: Option<SimInstant>)
        ensures
            fits_i64(self.spec_micros() + d.spec_micros()) ==> (r matches Some(t) && t.spec_micros() == self.spec_micros() + d.spec_micros()),
            !fits_i64(self.spec_micros() + d.spec_micros()) ==> r is None,
    {
        match self.micros.checked_add(d.micros) {
            Some(m) => Some(SimInstant { micros: m }),
            None => None,
        }
    }

    /// The instant `d` before `self`, or `None` where it lies outside the
    /// time line.
    pub fn checked_minus(self, d: SimDuration) -> (r: Option<SimInstant>)
        ensures
            fits_i64(self.spec_micros() - d.spec_micros()) ==> (r matches Some(t) && t.spec_micros() == self.spec_micros() - d.spec_micros()),
            !fits_i64(self.spec_micros() - d.spec_micros()) ==> r is None,
    {
        match self.micros.checked_sub(d.micros) {
            Some(m) => Some(SimInstant { micros: m }),
            None => None,
        }
    }

    /// The span from `earlier` to `self`, or `None` where it does not fit a
    /// span.
    pub fn checked_since(self, earlier: SimInstant) -> (r: Option<SimDuration>)
        ensures
            fits_i64(self.spec_micros() - earlier.spec_micros()) ==> (r matches Some(d) && d.spec_micros() == self.spec_micros() - earlier.spec_micros()),
            !fits_i64(self.spec_micros() - earlier.spec_micros()) ==> r is None,
    {
        match self.micros.checked_sub(earlier.micros) {
            Some(m) => Some(SimDuration { micros: m }),
            None => None,
        }
    }

    /// Whether `self` comes strictly before `other`.
    pub fn is_before(self, other: SimInstant) -> (r: bool)
        ensures
            r == (self.spec_micros() < other.spec_micros()),
    {
        self.micros < other.micros
    }
}

impl SimDuration {
    /// The length of the span in microseconds.
    pub closed spec fn spec_micros(self) -> int {
        self.micros as int
    }

    /// The span of `micros` microseconds.
    pub fn from_micros(micros: i64) -> (r: SimDuration)
        ensures
            r.spec_micros() == micros,
    {
        SimDuration { micros }
    }

    /// The span of `micros` microseconds, or `None` where that does not fit
    /// the signed 64-bit count that a span holds.
    pub fn from_micros_u128(micros: u128) -> (r: Option<SimDuration>)
        ensures
            micros <= i64::MAX ==> (r matches Some(d) && d.spec_micros() == micros),
            micros > i64::MAX ==> r is None,
    {
        if micros <= i64::MAX as u128 {
            Some(SimDuration { micros: micros as i64 })
        } else {
            None
        }
    }

    /// The length of the span in microseconds.
    pub fn as_micros(&self) -> (r: i64)
        ensures
            r == self.spec_micros(),
    {
        self.micros
    }

    /// The sum of two spans.
    pub fn plus(self, other: SimDuration) -> (r: SimDuration)
        requires
            fits_i64(self.spec_micros() + other.spec_micros()),
        ensures
            r.spec_micros() == self.spec_micros() + other.spec_micros(),
    {
        SimDuration { micros: self.micros + other.micros }
    }

    /// The difference of two spans.
    pub fn minus(self, other: SimDuration) -> (r: SimDuration)
        requires
            fits_i64(self.spec_micros() - other.spec_micros()),
        ensures
            r.spec_micros() == self.spec_micros() - other.spec_micros(),
    {
        SimDuration { micros: self.micros - other.micros }
    }

    /// What is left of `self` after taking out as many whole `period`s as
    /// fit, toward zero: the result has the sign of `self` and is shorter
    /// than `period`.
    pub fn wrap(self, period: SimDuration) -> (r: SimDuration)
        requires
            period.spec_micros() != 0,
            !(self.spec_micros() == i64::MIN && period.spec_micros() == -1),
        ensures
            r.spec_micros() == trunc_rem(self.spec_micros(), period.spec_micros()),
    {
        SimDuration { micros: self.micros % period.micros }
    }

    /// Grows `self` by `other`.
    pub fn extend(&mut self, other: SimDuration)
        requires
            fits_i64(old(self).spec_micros() + other.spec_micros()),
        ensures
            final(self).spec_micros() == old(self).spec_micros() + other.spec_micros(),
    {
        self.micros = self.micros + other.micros;
    }

    /// Shrinks `self` by `other`.
    pub fn shorten(&mut self, other: SimDuration)
        requires
            fits_i64(old(self).spec_micros() - other.spec_micros()),
        ensures
            final(self).spec_micros() == old(self).spec_micros() - other.spec_micros(),
    {
        self.micros = self.micros - other.micros;
    }

    /// Replaces `self` with what is left of it after whole `period`s.
    pub fn wrap_in_place(&mut self, period: SimDuration)
        requires
            period.spec_micros() != 0,
            !(old(self).spec_micros() == i64::MIN && period.spec_micros() == -1),
        ensures
            final(self).spec_micros() == trunc_rem(old(self).spec_micros(), period.spec_micros()),
    {
        self.micros = self.micros % period.micros;
    }
}

impl core::ops::Add<SimDuration> for SimInstant {
    type Output = SimInstant;

    fn add(self, rhs: SimDuration) -> SimInstant {
        self.plus(rhs)
    }
}

impl vstd::std_specs::ops::AddSpecImpl<SimDuration> for SimInstant {
    open spec fn obeys_add_spec() -> bool {
        true
    }

    open spec fn add_req(self, rhs: SimDuration) -> bool {
        fits_i64(self.spec_micros() + rhs.spec_micros())
    }

    closed spec fn add_spec(self, rhs: SimDuration) -> SimInstant {
        SimInstant { micros: (self.micros + rhs.micros) as i64 }
    }
}


impl core::ops::Sub<SimDuration> for SimInstant {
    type Output = SimInstant;

    fn sub(self, rhs: SimDuration) -> SimInstant {
        self.minus(rhs)
    }
}

impl vstd::std_specs::ops::SubSpecImpl<SimDuration> for SimInstant {
    open spec fn obeys_sub_spec() -> bool {
        true
    }

    open spec fn sub_req(self, rhs: SimDuration) -> bool {
        fits_i64(self.spec_micros() - rhs.spec_micros())
    }

    closed spec fn sub_spec(self, rhs: SimDuration) -> SimInstant {
        SimInstant { micros: (self.micros - rhs.micros) as i64 }
    }
}

impl core::ops::Sub<SimInstant> for SimInstant {
    type Output = SimDuration;

    fn sub(self, rhs: SimInstant) -> SimDuration {
        self.since(rhs)
    }
}

impl vstd::std_specs::ops::SubSpecImpl<SimInstant> for SimInstant {
    open spec fn obeys_sub_spec() -> bool {
        true
    }

    open spec fn sub_req(self, rhs: SimInstant) -> bool {
        fits_i64(self.spec_micros() - rhs.spec_micros())
    }

    closed spec fn sub_spec(self, rhs: SimInstant) -> SimDuration {
        SimDuration { micros: (self.micros - rhs.micros) as i64 }
    }
}

impl core::ops::Add<SimDuration> for SimDuration {
    type Output = SimDuration;

    fn add(self, rhs: SimDuration) -> SimDuration {
        self.plus(rhs)
    }
}

impl vstd::std_specs::ops::AddSpecImpl<SimDuration> for SimDuration {
    open spec fn obeys_add_spec() -> bool {
        true
    }

    open spec fn add_req(self, rhs: SimDuration) -> bool {
        fits_i64(self.spec_micros() + rhs.spec_micros())
    }

    closed spec fn add_spec(self, rhs: SimDuration) -> SimDuration {
        SimDuration { micros: (self.micros + rhs.micros) as i64 }
    }
}

impl core::ops::Sub<SimDuration> for SimDuration {
    type Output = SimDuration;

    fn sub(self, rhs: SimDuration) -> SimDuration {
        self.minus(rhs)
    }
}

impl vstd::std_specs::ops::SubSpecImpl<SimDuration> for SimDuration {
    open spec fn obeys_sub_spec() -> bool {
        true
    }

    open spec fn sub_req(self, rhs: SimDuration) -> bool {
        fits_i64(self.spec_micros() - rhs.spec_micros())
    }

    closed spec fn sub_spec(self, rhs: SimDuration) -> SimDuration {
        SimDuration { micros: (self.micros - rhs.micros) as i64 }
    }
}

impl core::ops::Rem<SimDuration> for SimDuration {
    type Output = SimDuration;

    fn rem(self, rhs: SimDuration) -> SimDuration {
        self.wrap(rhs)
    }
}

impl vstd::std_specs::ops::RemSpecImpl<SimDuration> for SimDuration {
    open spec fn obeys_rem_spec() -> bool {
        true
    }

    open spec fn rem_req(self, rhs: SimDuration) -> bool {
        rhs.spec_micros() != 0 && !(self.spec_micros() == i64::MIN && rhs.spec_micros() == -1)
    }

    closed spec fn rem_spec(self, rhs: SimDuration) -> SimDuration {
        SimDuration { micros: trunc_rem(self.micros as int, rhs.micros as int) as i64 }
    }
}

} // verus!
