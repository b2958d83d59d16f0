use vstd::prelude::*;

verus! {

/// Nanoseconds in a second.
pub const NANOS_PER_SECOND: u64 = 1000000000;

/// The length of one step at `hz` steps a second, in nanoseconds, rounded
/// up so that a step is never taken early.
pub open spec fn quantum(hz: u32) -> int {
    (NANOS_PER_SECOND + hz - 1) / (hz as int)
}

/// `a + b`, limited to the range of `u64`.
pub open spec fn saturating_sum(a: int, b: int) -> int {
    if a + b > u64::MAX {
        u64::MAX as int
    } else {
        a + b
    }
}

/// The accumulator after `elapsed` more nanoseconds, and whether a step of
/// `hz` is due: at most one step is taken per poll, and none at zero steps
/// a second.
pub open spec fn poll_model(accumulator: int, elapsed: int, hz: u32) -> (int, bool) {
    let sum = saturating_sum(accumulator, elapsed);
    if hz > 0 && sum >= quantum(hz) {
        (sum - quantum(hz), true)
    } else {
        (sum, false)
    }
}

/// Time held toward the next step of one fixed-rate update, and when it
/// was last polled.
#[derive(Clone, Copy, Debug, PartialEq, Eq, Structural)]
pub struct Timestep {
    /// Nanoseconds not yet spent on steps.
    pub accumulator: u64,
    /// When it was last polled, in nanoseconds on the caller's clock.
    pub last_step: u64,
}

impl Timestep {
    /// A timestep first polled at `now`, holding no time.
    pub fn new(now: u64) -> (r: Self)
        ensures
            r.accumulator == 0,
            r.last_step == now,
    {
        Timestep { accumulator: 0, last_step: now }
    }

    /// Adds the time since the last poll (none where the clock went back),
    /// and takes one step of `interval_hz` where at least a whole step is
    /// held.
    pub fn poll(&mut self, now: u64, interval_hz: u32) -> (r: bool)
        ensures
            ({
                let elapsed = if now >= old(self).last_step { now - old(self).last_step } else { 0 };
                let (acc, step) = poll_model(old(self).accumulator as int, elapsed, interval_hz);
                &&& r == step
                &&& final(self).accumulator == acc
                &&& final(self).last_step == now
            }),
    {
        let elapsed = if now >= self.last_step { now - self.last_step } else { 0 };
        let sum = self.accumulator.saturating_add(elapsed);
        self.last_step = now;
        if interval_hz > 0 {
            let q = (NANOS_PER_SECOND + interval_hz as u64 - 1) / interval_hz as u64;
            if sum >= q {
                self.accumulator = sum - q;
                return true;
            }
        }
        self.accumulator = sum;
        false
    }
}

/// Accumulator and step count after `n` polls `dt` nanoseconds apart, from
/// an empty accumulator.
pub open spec fn polls(n: nat, dt: int, hz: u32) -> (int, nat)
    decreases n,
{
    if n == 0 {
        (0, 0)
    } else {
        let (acc, count) = polls((n - 1) as nat, dt, hz);
        let (next, step) = poll_model(acc, dt, hz);
        (next, if step { count + 1 } else { count })
    }
}

/// Polled every `dt` nanoseconds, no more than one step apart, a timestep
/// has taken exactly one step for each whole step of time that has passed,
/// and holds the rest.
pub proof fn lemma_steps_match_elapsed_time(n: nat, dt: int, hz: u32)
    requires
        hz > 0,
        0 <= dt <= quantum(hz),
    ensures
        polls(n, dt, hz) == ((n * dt) % quantum(hz), ((n * dt) / quantum(hz)) as nat),
    decreases n,
{
    let q = quantum(hz);
    assert(1 <= q <= NANOS_PER_SECOND) by {
        let num = (NANOS_PER_SECOND + hz - 1) as int;
        let h = hz as int;
        vstd::arithmetic::div_mod::lemma_fundamental_div_mod(num, h);
        vstd::arithmetic::div_mod::lemma_mod_pos_bound(num, h);
        let r = num % h;
        assert(num <= NANOS_PER_SECOND * h) by (nonlinear_arith)
            requires num == NANOS_PER_SECOND + h - 1, h >= 1;
        assert(1 <= q <= NANOS_PER_SECOND) by (nonlinear_arith)
            requires
                num == h * q + r,
                0 <= r < h,
                h <= num,
                num <= NANOS_PER_SECOND * h,
        ;
    }
    if n == 0 {
        assert(0 * dt == 0);
    } else {
        lemma_steps_match_elapsed_time((n - 1) as nat, dt, hz);
        let prev = (n - 1) * dt;
        assert(n * dt == prev + dt) by (nonlinear_arith)
            requires prev == (n - 1) * dt;
        assert(prev >= 0) by (nonlinear_arith)
            requires prev == (n - 1) * dt, n >= 1, dt >= 0;
        vstd::arithmetic::div_mod::lemma_fundamental_div_mod(prev, q);
        vstd::arithmetic::div_mod::lemma_mod_pos_bound(prev, q);
        vstd::arithmetic::div_mod::lemma_div_pos_is_pos(prev, q);
        let a = prev % q;
        let c = prev / q;
        assert((c + 1) * q == q * c + q && c * q == q * c) by (nonlinear_arith);
        if a + dt >= q {
            vstd::arithmetic::div_mod::lemma_fundamental_div_mod_converse(n * dt, q, c + 1, a + dt - q);
        } else {
            vstd::arithmetic::div_mod::lemma_fundamental_div_mod_converse(n * dt, q, c, a + dt);
        }
    }
}

/// Polled every `dt` nanoseconds, whatever `dt` is, a timestep never
/// steps early: the steps taken and the time held add up to the time that
/// has passed, so it has taken at most one step per whole step of time.
pub proof fn lemma_never_early(n: nat, dt: int, hz: u32)
    requires
        hz > 0,
        0 <= dt,
        n * dt <= u64::MAX,
    ensures
        polls(n, dt, hz).1 * quantum(hz) + polls(n, dt, hz).0 == n * dt,
        0 <= polls(n, dt, hz).0,
        polls(n, dt, hz).1 <= (n * dt) / quantum(hz),
    decreases n,
{
    let q = quantum(hz);
    assert(q >= 1) by {
        let num = (NANOS_PER_SECOND + hz - 1) as int;
        vstd::arithmetic::div_mod::lemma_div_is_ordered(hz as int, num, hz as int);
        vstd::arithmetic::div_mod::lemma_div_by_self(hz as int);
    }
    if n == 0 {
        assert(0 * dt == 0);
        assert(0 * q == 0);
        assert(0int / q == 0);
    } else {
        assert(n * dt == (n - 1) * dt + dt) by (nonlinear_arith);
        assert((n - 1) * dt <= n * dt) by (nonlinear_arith)
            requires dt >= 0, n >= 1;
        lemma_never_early((n - 1) as nat, dt, hz);
        let (acc, count) = polls((n - 1) as nat, dt, hz);
        assert(acc + dt <= u64::MAX) by (nonlinear_arith)
            requires count * q + acc == (n - 1) * dt, n * dt == (n - 1) * dt + dt, n * dt <= u64::MAX, count >= 0, q >= 1;
        let c = polls(n, dt, hz).1;
        assert(c * q + polls(n, dt, hz).0 == n * dt) by (nonlinear_arith)
            requires
                count * q + acc == (n - 1) * dt,
                n * dt == (n - 1) * dt + dt,
                (c == count + 1 && polls(n, dt, hz).0 == acc + dt - q) || (c == count && polls(n, dt, hz).0 == acc + dt),
        ;
        assert(polls(n, dt, hz).0 >= 0);
        assert(c >= 0);
        assert(q * c <= n * dt) by (nonlinear_arith)
            requires c * q + polls(n, dt, hz).0 == n * dt, polls(n, dt, hz).0 >= 0;
        vstd::arithmetic::div_mod::lemma_div_is_ordered(q * c, n * dt, q);
        vstd::arithmetic::div_mod::lemma_div_multiples_vanish(c as int, q);
        assert(c * q == q * c) by (nonlinear_arith);
    }
}

} // verus!
