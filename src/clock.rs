//! The simulation clock, stepped by a fixed interval once per tick, and the
//! integer parts of time keeping that the orbit and rotation code rely on.
use crate::time::{fits_i64, lemma_instant_fits, trunc_rem, SimDuration, SimInstant};
use vstd::prelude::*;

verus! {

/// Length of one simulation tick, in microseconds (ten milliseconds).
pub const SIM_INTERVAL_MICROS: i64 = 10_000;

/// The simulated time of the world, advanced once per tick.
#[derive(Debug)]
pub struct SimTimer {
    now: SimInstant,
}

impl SimTimer {
    /// A timer that stands at the epoch.
    pub fn new() -> (r: SimTimer)
        ensures
            r.spec_now().spec_micros() == 0,
    {
        SimTimer { now: SimInstant::epoch() }
    }

    /// The current simulated instant.
    pub closed spec fn spec_now(&self) -> SimInstant {
        self.now
    }

    /// The current simulated instant.
    pub fn now(&self) -> (r: SimInstant)
        ensures
            r == self.spec_now(),
    {
        self.now
    }

    /// Advances the timer by one fixed simulation interval.
    pub fn tick(&mut self)
        requires
            fits_i64(old(self).spec_now().spec_micros() + SIM_INTERVAL_MICROS),
        ensures
            final(self).spec_now().spec_micros() == old(self).spec_now().spec_micros() + SIM_INTERVAL_MICROS,
    {
        self.now.advance(SimDuration::from_micros(SIM_INTERVAL_MICROS));
    }

    /// Advances the timer by `dt`.
    pub fn advance(&mut self, dt: SimDuration)
        requires
            fits_i64(old(self).spec_now().spec_micros() + dt.spec_micros()),
        ensures
            final(self).spec_now().spec_micros() == old(self).spec_now().spec_micros() + dt.spec_micros(),
    {
        self.now.advance(dt);
    }
}

/// The span one fixed simulation interval long.
pub fn sim_interval() -> (r: SimDuration)
    ensures
        r.spec_micros() == SIM_INTERVAL_MICROS,
{
    SimDuration::from_micros(SIM_INTERVAL_MICROS)
}

/// Time since the periapsis epoch `t0`, reduced by whole orbital periods
/// toward zero where the orbit has a period, so that the result stays
/// within one period of `t0` however far `time` lies.
pub fn time_since_periapsis(time: SimInstant, t0: SimInstant, period: Option<SimDuration>) -> (r: SimDuration)
    requires
        fits_i64(time.spec_micros() - t0.spec_micros()),
        period matches Some(p) ==> p.spec_micros() > 0,
    ensures
        period is None ==> r.spec_micros() == time.spec_micros() - t0.spec_micros(),
        period matches Some(p) ==> r.spec_micros() == trunc_rem(time.spec_micros() - t0.spec_micros(), p.spec_micros()),
{
    let dt = time.since(t0);
    match period {
        Some(p) => dt.wrap(p),
        None => dt,
    }
}

/// Whole periods away from the periapsis epoch, in either direction, the
/// time since periapsis reduces to exactly zero: the orbit is back where it
/// was at the epoch, to the bit.
pub proof fn lemma_whole_periods_reduce_to_zero(p: int, k: int)
    requires
        p > 0,
    ensures
        trunc_rem(k * p, p) == 0,
{
    vstd::arithmetic::div_mod::lemma_mod_multiples_basic(k, p);
    vstd::arithmetic::div_mod::lemma_mod_multiples_basic(-k, p);
    assert(-(k * p) == (-k) * p) by (nonlinear_arith);
}

/// Adding whole periods that keep the elapsed time on the same side of the
/// epoch leaves the reduced time unchanged.
pub proof fn lemma_reduction_is_periodic(x: int, p: int, k: int)
    requires
        p > 0,
        (x >= 0 && k >= 0) || (x <= 0 && k <= 0),
    ensures
        trunc_rem(x + k * p, p) == trunc_rem(x, p),
{
    if x >= 0 && k >= 0 {
        vstd::arithmetic::div_mod::lemma_mod_multiples_vanish(k, x, p);
        assert(x + k * p == p * k + x) by (nonlinear_arith);
        assert(k * p >= 0) by (nonlinear_arith)
            requires
                k >= 0,
                p > 0,
        ;
    } else {
        vstd::arithmetic::div_mod::lemma_mod_multiples_vanish(-k, -x, p);
        assert(-(x + k * p) == p * (-k) + (-x)) by (nonlinear_arith);
        assert(k * p <= 0) by (nonlinear_arith)
            requires
                k <= 0,
                p > 0,
        ;
        if x == 0 {
            vstd::arithmetic::div_mod::lemma_small_mod(0nat, p as nat);
        }
    }
}

/// How far into its current turn a body that turns once every `period`
/// is at `now`, counting turns from the epoch.
pub fn rotation_phase(now: SimInstant, period: SimDuration) -> (r: SimDuration)
    requires
        period.spec_micros() > 0,
    ensures
        r.spec_micros() == trunc_rem(now.spec_micros(), period.spec_micros()),
{
    broadcast use lemma_instant_fits;
    now.since(SimInstant::epoch()).wrap(period)
}

/// The simulated span for `elapsed_micros` of wall time run `scale` times
/// faster, or `None` where that span does not fit.
pub fn scaled_step(elapsed_micros: u128, scale: u32) -> (r: Option<SimDuration>)
    ensures
        elapsed_micros * scale <= i64::MAX ==> (r matches Some(d) && d.spec_micros() == elapsed_micros * scale),
        elapsed_micros * scale > i64::MAX ==> r is None,
{
    match elapsed_micros.checked_mul(scale as u128) {
        Some(m) => SimDuration::from_micros_u128(m),
        None => None,
    }
}

} // verus!
