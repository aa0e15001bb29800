//! Bounded exponential-backoff retry policy.
//!
//! Durations are integer milliseconds. Fractional configuration values
//! carry a fixed-point per-mille scale: a multiplier field of 2000 stands
//! for a factor of 2.0, a jitter field of 100 for 0.1.

use vstd::prelude::*;
use vstd::arithmetic::mul::lemma_mul_inequality;
use vstd::arithmetic::mul::lemma_mul_is_commutative;
use vstd::arithmetic::mul::lemma_mul_nonnegative;
use vstd::arithmetic::div_mod::lemma_div_is_ordered;
use vstd::arithmetic::div_mod::lemma_div_pos_is_pos;
use vstd::arithmetic::div_mod::lemma_div_by_multiple;
use vstd::arithmetic::div_mod::lemma_div_multiples_vanish;
use vstd::arithmetic::div_mod::lemma_mul_hoist_inequality;

verus! {

/// Fixed-point scale of the fractional configuration fields: 1000 stands for 1.0.
pub const PERMILLE_ONE: u64 = 1000;

/// Largest multiplier accepted, per-mille (a factor of 1000.0).
pub const MAX_MULTIPLIER_PERMILLE: u64 = 1000000;

/// Largest maximum-backoff value the arithmetic is proved against (about 12 days).
pub const MAX_BACKOFF_CEILING_MILLIS: u64 = 0x4000_0000;

/// Immutable retry configuration: limits and the shape of the backoff curve.
#[derive(Clone, Copy, Debug)]
pub struct RetryConfig {
    /// How many retries may be attempted before the sequence is exhausted.
    pub max_retries: usize,
    /// Delay before the first retry, in milliseconds.
    pub initial_backoff_millis: u64,
    /// Growth factor of the delay per completed attempt, per-mille.
    pub backoff_multiplier_permille: u64,
    /// Cap on any single delay, in milliseconds.
    pub max_backoff_millis: u64,
    /// Width of the random perturbation around the capped delay, per-mille.
    pub jitter_factor_permille: u64,
}

impl RetryConfig {
    /// The ranges every configuration must lie in: a positive initial delay no
    /// larger than the cap, a multiplier of at least 1.0, a jitter factor in
    /// [0.0, 1.0], and a cap small enough for the arithmetic to stay in `u64`.
    pub open spec fn valid(self) -> bool {
        &&& 1 <= self.initial_backoff_millis
        &&& self.initial_backoff_millis <= self.max_backoff_millis
        &&& self.max_backoff_millis <= MAX_BACKOFF_CEILING_MILLIS
        &&& PERMILLE_ONE <= self.backoff_multiplier_permille
        &&& self.backoff_multiplier_permille <= MAX_MULTIPLIER_PERMILLE
        &&& self.jitter_factor_permille <= PERMILLE_ONE
    }
}

impl Default for RetryConfig {
    /// At most 3 retries; 1.0 s initial delay, doubling per attempt, capped at
    /// 30.0 s, with a 0.1 jitter factor.
    fn default() -> (r: Self)
        ensures
            r == (RetryConfig {
                max_retries: 3,
                initial_backoff_millis: 1000,
                backoff_multiplier_permille: 2000,
                max_backoff_millis: 30000,
                jitter_factor_permille: 100,
            }),
            r.valid(),
    {
        RetryConfig {
            max_retries: 3,
            initial_backoff_millis: 1000,
            backoff_multiplier_permille: 2000,
            max_backoff_millis: 30000,
            jitter_factor_permille: 100,
        }
    }
}

/// The uncapped delay before retry number `attempt`: the initial delay grown
/// by the multiplier once per completed attempt, rounded down at each step.
pub open spec fn base_delay_millis(config: RetryConfig, attempt: nat) -> int
    decreases attempt,
{
    if attempt == 0 {
        config.initial_backoff_millis as int
    } else {
        base_delay_millis(config, (attempt - 1) as nat) * config.backoff_multiplier_permille
            / (PERMILLE_ONE as int)
    }
}

/// The base delay, cut off at the configured maximum.
pub open spec fn capped_delay_millis(config: RetryConfig, attempt: nat) -> int {
    if base_delay_millis(config, attempt) <= config.max_backoff_millis {
        base_delay_millis(config, attempt)
    } else {
        config.max_backoff_millis as int
    }
}

/// The capped delay perturbed by jitter, for a uniform sample `unit` in
/// [0, 65536): the perturbation is `capped * jitter * (unit - 32768) / 65536`,
/// scaled per-mille, so it spans half the jitter factor either side.
pub open spec fn jittered_delay_millis(config: RetryConfig, attempt: nat, unit: int) -> int {
    let capped = capped_delay_millis(config, attempt);
    if unit >= 32768 {
        capped + capped * config.jitter_factor_permille * (unit - 32768) / 65536000
    } else {
        capped - capped * config.jitter_factor_permille * (32768 - unit) / 65536000
    }
}

/// Growing a non-negative value by a per-mille factor of at least 1.0 never
/// shrinks it, even with the division rounding down.
proof fn lemma_permille_growth(x: int, m: int)
    requires
        0 <= x,
        PERMILLE_ONE <= m,
    ensures
        x <= x * m / (PERMILLE_ONE as int),
{
    lemma_mul_inequality(PERMILLE_ONE as int, m, x);
    lemma_mul_is_commutative(PERMILLE_ONE as int, x);
    lemma_mul_is_commutative(m, x);
    lemma_div_by_multiple(x, PERMILLE_ONE as int);
    lemma_div_is_ordered(x * (PERMILLE_ONE as int), x * m, PERMILLE_ONE as int);
}

/// The base delay never falls below the initial delay.
pub proof fn lemma_base_delay_at_least_initial(config: RetryConfig, attempt: nat)
    requires
        config.valid(),
    ensures
        config.initial_backoff_millis <= base_delay_millis(config, attempt),
    decreases attempt,
{
    if attempt > 0 {
        lemma_base_delay_at_least_initial(config, (attempt - 1) as nat);
        lemma_permille_growth(
            base_delay_millis(config, (attempt - 1) as nat),
            config.backoff_multiplier_permille as int,
        );
    }
}

/// The base delay is non-decreasing in the attempt count.
pub proof fn lemma_base_delay_monotonic(config: RetryConfig, a: nat, b: nat)
    requires
        config.valid(),
        a <= b,
    ensures
        base_delay_millis(config, a) <= base_delay_millis(config, b),
    decreases b,
{
    if a < b {
        lemma_base_delay_monotonic(config, a, (b - 1) as nat);
        lemma_base_delay_at_least_initial(config, (b - 1) as nat);
        lemma_permille_growth(
            base_delay_millis(config, (b - 1) as nat),
            config.backoff_multiplier_permille as int,
        );
    }
}

/// A jitter perturbation taken from at most half the sample width stays within
/// half of `x = capped * jitter` once rescaled: `2000 * (x*w/65536000) <= x`.
proof fn lemma_jitter_component_bound(x: int, w: int)
    requires
        0 <= x,
        0 <= w <= 32768,
    ensures
        0 <= x * w / 65536000,
        2000 * (x * w / 65536000) <= x,
{
    lemma_mul_nonnegative(x, w);
    lemma_div_pos_is_pos(x * w, 65536000);
    lemma_mul_inequality(w, 32768, x);
    lemma_mul_is_commutative(w, x);
    lemma_mul_is_commutative(32768, x);
    lemma_div_is_ordered(x * w, x * 32768, 65536000);
    lemma_mul_inequality(x * w / 65536000, x * 32768 / 65536000, 2000);
    lemma_mul_is_commutative(x * w / 65536000, 2000);
    lemma_mul_is_commutative(x * 32768 / 65536000, 2000);
    lemma_mul_hoist_inequality(2000, x * 32768, 65536000);
    assert(2000 * (x * 32768) == 65536000 * x) by (nonlinear_arith);
    lemma_div_multiples_vanish(x, 65536000);
}

/// Law of the jitter window: for any uniform sample, the jittered delay lies
/// within `capped * (1 - jitter/2)` and `capped * (1 + jitter/2)` (stated
/// multiplied out over the per-mille fields), it is never negative, and with
/// jitter 0 it equals the capped delay exactly.
pub proof fn lemma_backoff_jitter_bounds(config: RetryConfig, attempt: nat, unit: int)
    requires
        config.valid(),
        0 <= unit < 65536,
    ensures
        capped_delay_millis(config, attempt) * (2000 - config.jitter_factor_permille)
            <= 2000 * jittered_delay_millis(config, attempt, unit),
        2000 * jittered_delay_millis(config, attempt, unit)
            <= capped_delay_millis(config, attempt) * (2000 + config.jitter_factor_permille),
        0 <= jittered_delay_millis(config, attempt, unit),
        config.jitter_factor_permille == 0 ==> jittered_delay_millis(config, attempt, unit)
            == capped_delay_millis(config, attempt),
{
    lemma_base_delay_at_least_initial(config, attempt);
    let c = capped_delay_millis(config, attempt);
    let jp = config.jitter_factor_permille as int;
    let x = c * jp;
    lemma_mul_nonnegative(c, jp);
    assert(c * (2000 - jp) == 2000 * c - c * jp) by (nonlinear_arith);
    assert(c * (2000 + jp) == 2000 * c + c * jp) by (nonlinear_arith);
    lemma_mul_inequality(jp, 2000, c);
    lemma_mul_is_commutative(jp, c);
    lemma_mul_is_commutative(2000, c);
    if unit >= 32768 {
        lemma_jitter_component_bound(x, unit - 32768);
    } else {
        lemma_jitter_component_bound(x, 32768 - unit);
    }
}

/// Mutable retry accumulator for one in-flight request: the configuration
/// together with the number of completed waits.
#[derive(Clone, Copy, Debug)]
pub struct RetryState {
    /// Number of waits completed so far in this sequence.
    pub attempt: usize,
    /// The policy this sequence runs under.
    pub config: RetryConfig,
}

/// Relies on `rand::random`: a fresh sample of the standard distribution.
/// Nothing is promised of the value drawn.
pub assume_specification<T>[ rand::random::<T> ]() -> (r: T)
    where
        rand::distributions::Standard: rand::distributions::Distribution<T>,
;

impl RetryState {
    /// A fresh sequence starts before any wait has completed.
    pub fn new(config: RetryConfig) -> (r: Self)
        ensures
            r.attempt == 0,
            r.config == config,
    {
        RetryState { attempt: 0, config }
    }

    /// Whether another retry is allowed: true exactly while fewer waits have
    /// completed than the configured maximum.
    pub fn can_retry(&self) -> (r: bool)
        ensures
            r == (self.attempt < self.config.max_retries),
    {
        self.attempt < self.config.max_retries
    }

    /// The capped delay for the current attempt: the exponential base delay,
    /// cut off at the configured maximum.
    fn capped_backoff_millis(&self) -> (r: u64)
        requires
            self.config.valid(),
        ensures
            r == capped_delay_millis(self.config, self.attempt as nat),
            1 <= r <= self.config.max_backoff_millis,
    {
        let max: u64 = self.config.max_backoff_millis;
        let mult: u64 = self.config.backoff_multiplier_permille;
        let mut cur: u64 = self.config.initial_backoff_millis;
        let mut i: usize = 0;
        while i < self.attempt && cur < max
            invariant
                self.config.valid(),
                max == self.config.max_backoff_millis,
                mult == self.config.backoff_multiplier_permille,
                i <= self.attempt,
                cur == base_delay_millis(self.config, i as nat),
            decreases self.attempt - i,
        {
            assert(cur * mult <= 0x4000_0000 * 1000000) by (nonlinear_arith)
                requires
                    cur < max,
                    max <= 0x4000_0000,
                    mult <= 1000000,
            ;
            cur = cur * mult / 1000;
            i = i + 1;
        }
        proof {
            lemma_base_delay_at_least_initial(self.config, i as nat);
            if cur >= max {
                lemma_base_delay_monotonic(self.config, i as nat, self.attempt as nat);
            }
        }
        if cur < max {
            cur
        } else {
            max
        }
    }

    /// The delay for the current attempt computed from an explicit uniform
    /// sample `unit` in [0, 65536): deterministic, and exactly the jittered
    /// delay of the model.
    pub fn backoff_with_unit(&self, unit: u16) -> (r: u64)
        requires
            self.config.valid(),
        ensures
            r == jittered_delay_millis(self.config, self.attempt as nat, unit as int),
    {
        let capped: u64 = self.capped_backoff_millis();
        let jp: u64 = self.config.jitter_factor_permille;
        proof {
            assert(capped * jp <= 0x4000_0000 * 1000) by (nonlinear_arith)
                requires
                    capped <= 0x4000_0000,
                    jp <= 1000,
            ;
            lemma_backoff_jitter_bounds(self.config, self.attempt as nat, unit as int);
        }
        if unit >= 32768 {
            let w: u64 = unit as u64 - 32768;
            proof {
                lemma_jitter_component_bound((capped * jp) as int, w as int);
                assert(capped * jp * w <= 0x4000_0000 * 1000 * 32768) by (nonlinear_arith)
                    requires
                        capped * jp <= 0x4000_0000 * 1000,
                        w <= 32768,
                ;
            }
            capped + capped * jp * w / 65536000
        } else {
            let w: u64 = 32768 - unit as u64;
            proof {
                lemma_jitter_component_bound((capped * jp) as int, w as int);
                assert(capped * jp * w <= 0x4000_0000 * 1000 * 32768) by (nonlinear_arith)
                    requires
                        capped * jp <= 0x4000_0000 * 1000,
                        w <= 32768,
                ;
            }
            capped - capped * jp * w / 65536000
        }
    }

    /// The delay before the next retry, drawn with fresh jitter: within the
    /// jitter window around the capped delay on every outcome, and exactly the
    /// capped delay when the jitter factor is 0. Leaves the state unchanged.
    pub fn calculate_backoff(&self) -> (r: u64)
        requires
            self.config.valid(),
        ensures
            capped_delay_millis(self.config, self.attempt as nat)
                * (2000 - self.config.jitter_factor_permille) <= 2000 * r,
            2000 * r <= capped_delay_millis(self.config, self.attempt as nat)
                * (2000 + self.config.jitter_factor_permille),
            self.config.jitter_factor_permille == 0 ==> r == capped_delay_millis(
                self.config,
                self.attempt as nat,
            ),
    {
        let unit: u16 = rand::random::<u16>();
        proof {
            lemma_backoff_jitter_bounds(self.config, self.attempt as nat, unit as int);
        }
        self.backoff_with_unit(unit)
    }

    /// Record one completed wait: the attempt count grows by exactly one and
    /// the configuration is untouched. To be called only after the delay
    /// returned by `calculate_backoff` has fully elapsed.
    pub fn complete_wait(&mut self)
        requires
            old(self).attempt < usize::MAX,
        ensures
            final(self).attempt == old(self).attempt + 1,
            final(self).config == old(self).config,
    {
        self.attempt = self.attempt + 1;
    }
}

} // verus!
