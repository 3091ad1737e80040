use pf::watcher::{
    apply_jitter, backoff_delay, capped_delay, jitter_nanos, jitter_of, next_retry_count,
    RetryPolicy, DEFAULT_INITIAL_DELAY, DEFAULT_MAX_DELAY, HEALTHY_UPTIME_SECS,
};

fn policy() -> RetryPolicy {
    RetryPolicy {
        max_retries: 0,
        initial_delay: 5,
        max_delay: 300,
    }
}

#[test]
fn escalates_exponentially_then_saturates_at_cap() {
    let p = policy();
    let seq: Vec<u64> = (1..=9).map(|r| capped_delay(&p, r)).collect();
    assert_eq!(seq, vec![5, 10, 20, 40, 80, 160, 300, 300, 300]);
}

#[test]
fn zero_retries_means_no_delay() {
    assert_eq!(capped_delay(&policy(), 0), 0);
}

#[test]
fn survives_the_retry_counts_seen_in_real_logs() {
    // A failing tunnel has been seen to reach 17,155 attempts.
    let p = policy();
    assert_eq!(capped_delay(&p, 17_155), 300);
    assert_eq!(capped_delay(&p, u32::MAX), 300);
}

#[test]
fn absurd_initial_delay_saturates_instead_of_overflowing() {
    let p = RetryPolicy {
        max_retries: 0,
        initial_delay: u64::MAX,
        max_delay: 300,
    };
    assert_eq!(capped_delay(&p, 5), 300);
}

#[test]
fn max_delay_below_initial_delay_is_respected() {
    let p = RetryPolicy {
        max_retries: 0,
        initial_delay: 60,
        max_delay: 10,
    };
    assert_eq!(capped_delay(&p, 1), 10);
}

#[test]
fn jitter_stays_within_half_the_delay_and_the_delay() {
    for delay in [2u64, 5, 10, 300, 900] {
        for nanos in [0u32, 1, 7, 12_345, 499_999_999, u32::MAX] {
            let got = apply_jitter(delay, nanos);
            assert!(
                got >= delay / 2 && got <= delay,
                "apply_jitter({delay}, {nanos}) = {got}, outside [{}, {delay}]",
                delay / 2
            );
        }
    }
}

#[test]
fn jitter_actually_varies() {
    let spread: std::collections::HashSet<u64> =
        (0..1000).map(|n| apply_jitter(300, n * 7919)).collect();
    assert!(spread.len() > 50, "jitter barely varied: {} values", spread.len());
}

#[test]
fn tiny_delays_are_left_alone() {
    assert_eq!(apply_jitter(0, 12345), 0);
    assert_eq!(apply_jitter(1, 12345), 1);
}

#[test]
fn fast_failures_escalate() {
    assert_eq!(next_retry_count(0, 0), 1);
    assert_eq!(next_retry_count(1, 3), 2);
    assert_eq!(next_retry_count(9, HEALTHY_UPTIME_SECS - 1), 10);
}

#[test]
fn a_tunnel_that_stayed_up_resets_the_backoff() {
    assert_eq!(next_retry_count(50, HEALTHY_UPTIME_SECS), 1);
    assert_eq!(next_retry_count(17_155, 3600), 1);
}

#[test]
fn ssh_connect_timeout_cannot_look_like_success() {
    // ConnectTimeout=10 plus banner exchange must stay well under the healthy
    // threshold, or a failing tunnel would reset forever.
    for uptime in [0u64, 10, 20, 30, 45, 59] {
        assert_eq!(next_retry_count(4, uptime), 5, "uptime {uptime} reset the backoff");
    }
}

#[test]
fn retry_count_does_not_overflow() {
    assert_eq!(next_retry_count(u32::MAX, 0), u32::MAX);
}

#[test]
fn backoff_delay_never_exceeds_the_cap() {
    let p = policy();
    for r in 1..=50u32 {
        let d = backoff_delay(&p, r, jitter_nanos());
        assert!(d <= p.max_delay, "retry {r} produced {d}s");
    }
}

#[test]
fn the_default_policy_never_gives_up() {
    let p = RetryPolicy::default();
    assert_eq!(p.max_retries, 0);
    assert_eq!(p.initial_delay, DEFAULT_INITIAL_DELAY);
    assert_eq!(p.max_delay, DEFAULT_MAX_DELAY);
}

#[test]
fn jitter_lands_where_the_formula_says() {
    // Half of 300 plus 12345 mod 151.
    assert_eq!(apply_jitter(300, 12_345), 150 + 12_345 % 151);
    assert_eq!(backoff_delay(&policy(), 3, 0), 10);
}

#[test]
fn the_clock_gives_less_than_a_second_of_jitter() {
    assert!(jitter_nanos() < 1_000_000_000);
}

#[test]
fn jitter_is_the_sub_second_part_of_the_clock() {
    assert_eq!(jitter_of(Some(1_700_000_000_123_456_789)), 123_456_789);
    assert_eq!(jitter_of(Some(999_999_999)), 999_999_999);
    assert_eq!(jitter_of(Some(1_000_000_000)), 0);
    assert_eq!(jitter_of(None), 0);
}

#[test]
fn the_clock_moves_the_jitter() {
    let first = jitter_nanos();
    let moved = (0..1_000_000).any(|_| jitter_nanos() != first);
    assert!(moved);
}
