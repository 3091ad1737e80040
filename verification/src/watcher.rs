//! Retry pacing shared by every session watcher.

use std::time::{SystemTime, SystemTimeError, UNIX_EPOCH};
use vstd::arithmetic::power2::{lemma2_to64, lemma_pow2_strictly_increases, pow2};
use vstd::prelude::*;

verus! {

pub const DEFAULT_INITIAL_DELAY: u64 = 5;

pub const DEFAULT_MAX_DELAY: u64 = 300;

/// Uptime that counts as the tunnel having genuinely worked. Above ssh's
/// `ConnectTimeout=10` and banner exchange timeouts, so a fast failure can't
/// masquerade as success and reset the backoff.
pub const HEALTHY_UPTIME_SECS: u64 = 60;

/// Retry pacing for a watcher's reconnect loop.
#[derive(Debug, Clone, Copy, PartialEq, Eq, Structural)]
pub struct RetryPolicy {
    /// Max reconnect attempts (0 = unlimited).
    pub max_retries: u32,
    /// Delay before the first retry, in seconds.
    pub initial_delay: u64,
    /// Upper bound on the backoff delay, in seconds.
    pub max_delay: u64,
}

/// The policy of a session for which nothing else was asked.
pub open spec fn default_policy() -> RetryPolicy {
    RetryPolicy {
        max_retries: 0,
        initial_delay: DEFAULT_INITIAL_DELAY,
        max_delay: DEFAULT_MAX_DELAY,
    }
}

impl Default for RetryPolicy {
    fn default() -> (r: Self)
        ensures
            r == default_policy(),
    {
        RetryPolicy {
            max_retries: 0,
            initial_delay: DEFAULT_INITIAL_DELAY,
            max_delay: DEFAULT_MAX_DELAY,
        }
    }
}

/// The delay curve: nothing before the first retry, then the initial delay
/// doubled per retry (at most 32 times), never above the policy's bound.
pub open spec fn capped(policy: RetryPolicy, retries: nat) -> nat {
    if retries == 0 {
        0
    } else {
        let doublings: nat = if retries - 1 < 32 {
            (retries - 1) as nat
        } else {
            32
        };
        let raw = policy.initial_delay * pow2(doublings);
        if raw < policy.max_delay {
            raw as nat
        } else {
            policy.max_delay as nat
        }
    }
}

/// Exponential curve, capped at `max_delay`. Jitter applied separately.
pub fn capped_delay(policy: &RetryPolicy, retries: u32) -> (d: u64)
    ensures
        d == capped(*policy, retries as nat),
{
    if retries == 0 {
        return 0;
    }
    // Clamp before shifting: retry counts in the tens of thousands are real.
    let exp: u32 = if retries - 1 < 32 {
        retries - 1
    } else {
        32
    };
    let factor: u64 = 1u64 << exp;
    proof {
        lemma2_to64();
        if exp < 32 {
            lemma_pow2_strictly_increases(exp as nat, 32);
        }
        vstd::bits::lemma_u64_shl_is_mul(1, exp as u64);
        assert(factor == 1u64 << (exp as u64)) by (bit_vector)
            requires
                factor == 1u64 << exp,
        ;
    }
    match policy.initial_delay.checked_mul(factor) {
        Some(raw) => if raw < policy.max_delay {
            raw
        } else {
            policy.max_delay
        },
        None => policy.max_delay,
    }
}

/// `delay` moved into its upper half by an arbitrary amount.
pub open spec fn jittered(delay: nat, nanos: nat) -> nat {
    let half = delay / 2;
    if half == 0 {
        delay
    } else {
        half + nanos % (half + 1)
    }
}

/// Spread `delay` over `[delay / 2, delay]`, so watchers that failed together
/// (one expired token drops every tunnel to a host) don't retry in lockstep.
pub fn apply_jitter(delay: u64, jitter_nanos: u32) -> (d: u64)
    ensures
        d == jittered(delay as nat, jitter_nanos as nat),
        delay / 2 <= d <= delay,
{
    let half: u64 = delay / 2;
    if half == 0 {
        return delay;
    }
    half + (jitter_nanos as u64) % (half + 1)
}

/// The delay before the next attempt.
pub fn backoff_delay(policy: &RetryPolicy, retries: u32, jitter_nanos: u32) -> (d: u64)
    ensures
        d == jittered(capped(*policy, retries as nat), jitter_nanos as nat),
        d <= policy.max_delay,
{
    apply_jitter(capped_delay(policy, retries), jitter_nanos)
}

/// The retry count after a master died.
pub open spec fn retries_after(retries: u32, uptime_secs: u64) -> u32 {
    if uptime_secs >= HEALTHY_UPTIME_SECS {
        1
    } else if retries == u32::MAX {
        retries
    } else {
        (retries + 1) as u32
    }
}

/// Retry count for the next attempt, given how long the SSH process that just
/// died had been up. A tunnel that stayed up resets the backoff; one that died
/// fast escalates it.
pub fn next_retry_count(retries: u32, uptime_secs: u64) -> (n: u32)
    ensures
        n == retries_after(retries, uptime_secs),
{
    if uptime_secs >= HEALTHY_UPTIME_SECS {
        1
    } else {
        retries.saturating_add(1)
    }
}

/// `std::time::SystemTime`, a reading of the system clock.
#[verifier::external_type_specification]
#[verifier::external_body]
pub struct ExSystemTime(SystemTime);

/// `std::time::SystemTimeError`, returned for a reading earlier than another.
#[verifier::external_type_specification]
#[verifier::external_body]
pub struct ExSystemTimeError(SystemTimeError);

/// `SystemTime::now` reads the clock; nothing is claimed of the reading.
pub assume_specification[ SystemTime::now ]() -> SystemTime
;

/// `SystemTime::duration_since` the Unix epoch, as a count of nanoseconds.
/// Nothing is claimed of the distance, nor that the clock stands after the
/// epoch.
#[verifier::external_body]
fn since_epoch(t: &SystemTime) -> std::result::Result<u128, SystemTimeError> {
    t.duration_since(UNIX_EPOCH).map(|d| d.as_nanos())
}

/// The sub-second part of a clock that stands so many nanoseconds after the
/// epoch. A clock that stands before the epoch has none to offer.
pub fn jitter_of(since_epoch: Option<u128>) -> (n: u32)
    ensures
        match since_epoch {
            Some(nanos) => n == nanos % 1_000_000_000,
            None => n == 0,
        },
{
    match since_epoch {
        Some(nanos) => (nanos % 1_000_000_000) as u32,
        None => 0,
    }
}

/// Whether the clock stood so many nanoseconds after the epoch when it was
/// asked, or before it.
pub closed spec fn clock_stood(since: Option<u128>) -> bool {
    exists|t: SystemTime, r: std::result::Result<u128, SystemTimeError>|
        call_ensures(SystemTime::now, (), t) && #[trigger] call_ensures(since_epoch, (&t,), r)
            && since == (match r {
            Ok(nanos) => Some(nanos),
            Err(_) => None,
        })
}

/// Whether `n` is the sub-second part of the clock when it was asked.
pub open spec fn is_jitter(n: u32) -> bool {
    exists|since: Option<u128>| #[trigger]
        clock_stood(since) && n == (match since {
            Some(nanos) => nanos as int % 1_000_000_000,
            None => 0,
        })
}

/// The sub-second part of the clock, as a source of jitter.
pub fn jitter_nanos() -> (n: u32)
    ensures
        is_jitter(n),
        n < 1_000_000_000,
{
    let t = SystemTime::now();
    let r = since_epoch(&t);
    let ghost reading = r;
    let since = match r {
        Ok(nanos) => Some(nanos),
        Err(_) => None,
    };
    assert(call_ensures(since_epoch, (&t,), reading));
    assert(clock_stood(since));
    jitter_of(since)
}

/// Retrying never gets hastier: one more failure cannot shorten the delay.
pub proof fn law_backoff_never_shrinks(policy: RetryPolicy, retries: nat)
    ensures
        capped(policy, retries) <= capped(policy, retries + 1),
{
    if retries > 0 && retries - 1 < 32 {
        let n = (retries - 1) as nat;
        lemma_pow2_strictly_increases(n, n + 1);
        assert(policy.initial_delay * pow2(n) <= policy.initial_delay * pow2(n + 1))
            by (nonlinear_arith)
            requires
                pow2(n) <= pow2(n + 1),
        ;
    } else if retries == 0 {
        lemma2_to64();
    }
}

/// Jitter only ever shortens the delay, and by no more than half.
pub proof fn law_jitter_stays_in_the_upper_half(delay: nat, nanos: nat)
    ensures
        delay / 2 <= jittered(delay, nanos) <= delay,
{
}

/// However often it failed and whatever the jitter, a watcher waits no longer
/// than its policy's bound.
pub proof fn law_backoff_respects_the_bound(policy: RetryPolicy, retries: nat, nanos: nat)
    ensures
        jittered(capped(policy, retries), nanos) <= policy.max_delay,
{
}

/// The delay before an attempt is the initial delay, doubled with every attempt
/// but the first, up to the bound. There is none before anything failed.
pub proof fn law_delays_double_up_to_the_bound(policy: RetryPolicy, retries: u32, d: u64)
    requires
        call_ensures(capped_delay, (&policy, retries), d),
    ensures
        retries == 0 ==> d == 0,
        1 <= retries <= 33 ==> d == (if policy.initial_delay * pow2((retries - 1) as nat)
            <= policy.max_delay {
            policy.initial_delay * pow2((retries - 1) as nat)
        } else {
            policy.max_delay as int
        }),
        retries > 33 ==> d == (if policy.initial_delay * pow2(32) <= policy.max_delay {
            policy.initial_delay * pow2(32)
        } else {
            policy.max_delay as int
        }),
{
}

/// Jitter moves a delay into its upper half, to any point of it.
pub proof fn law_jitter_spreads_over_the_upper_half(delay: u64, nanos: u32, d: u64)
    requires
        call_ensures(apply_jitter, (delay, nanos), d),
    ensures
        delay / 2 <= d <= delay,
        nanos <= delay / 2 && delay >= 2 ==> d == delay / 2 + nanos,
{
    if nanos <= delay / 2 {
        vstd::arithmetic::div_mod::lemma_small_mod(nanos as nat, (delay / 2 + 1) as nat);
    }
}

/// A backoff is a delay of the curve with jitter on it.
pub proof fn law_a_backoff_is_the_curve_with_jitter(
    policy: RetryPolicy,
    retries: u32,
    nanos: u32,
    curve: u64,
    d: u64,
)
    requires
        call_ensures(capped_delay, (&policy, retries), curve),
        call_ensures(backoff_delay, (&policy, retries, nanos), d),
    ensures
        curve / 2 <= d <= curve,
        nanos <= curve / 2 && curve >= 2 ==> d == curve / 2 + nanos,
{
    if nanos <= curve / 2 {
        vstd::arithmetic::div_mod::lemma_small_mod(nanos as nat, (curve / 2 + 1) as nat);
    }
}

/// A connection that held for a minute starts the count again; one that died
/// sooner counts as one more failure.
pub proof fn law_a_minute_of_uptime_forgives(retries: u32, uptime: u64, n: u32)
    requires
        call_ensures(next_retry_count, (retries, uptime), n),
    ensures
        uptime >= 60 ==> n == 1,
        uptime < 60 && retries < u32::MAX ==> n == retries + 1,
        uptime < 60 && retries == u32::MAX ==> n == retries,
{
}

/// Where nothing else was asked, a watcher never stops trying, starts with five
/// seconds, and never waits more than five minutes.
pub proof fn law_the_default_pace(n: nat)
    ensures
        default_policy().max_retries == 0,
        capped(default_policy(), 1) == 5,
        capped(default_policy(), n) <= 300,
        n >= 7 ==> capped(default_policy(), n) == 300,
{
    lemma2_to64();
    if n >= 7 {
        let e: nat = if n - 1 < 32 {
            (n - 1) as nat
        } else {
            32
        };
        if e > 6 {
            lemma_pow2_strictly_increases(6, e);
        }
        assert(pow2(6) == 64);
    }
}

/// Jitter is what the clock has beyond its last whole second; a clock that
/// stands before the epoch gives none.
pub proof fn law_jitter_is_the_fraction_of_a_second(secs: u64, nanos: u32, n: u32, none: u32)
    requires
        nanos < 1_000_000_000,
        call_ensures(jitter_of, (Some((secs * 1_000_000_000 + nanos) as u128),), n),
        call_ensures(jitter_of, (None::<u128>,), none),
    ensures
        n == nanos,
        none == 0,
{
}

/// Jitter comes from the clock, and is always a fraction of a second.
pub proof fn law_jitter_comes_from_the_clock(n: u32)
    requires
        call_ensures(jitter_nanos, (), n),
    ensures
        n < 1_000_000_000,
        exists|since: Option<u128>| #[trigger]
            clock_stood(since) && (since is Some ==> n as int == since->0 as int % 1_000_000_000)
                && (since is None ==> n == 0),
{
    let since = choose|since: Option<u128>| #[trigger]
        clock_stood(since) && n == (match since {
            Some(nanos) => nanos as int % 1_000_000_000,
            None => 0,
        });
    assert(clock_stood(since));
}

}
