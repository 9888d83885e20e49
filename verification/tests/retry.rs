use std::time::Duration;

use front::location::IpPolling;
use front::retry::RetryPolicy;
use front::verify::{classify_verify_status, VerifyOutcome};

#[test]
fn doubles_from_base() {
    let policy = RetryPolicy::new(Duration::from_secs(1), Duration::from_secs(1000), None);
    assert_eq!(policy.delay_for(0), Duration::from_secs(1));
    assert_eq!(policy.delay_for(1), Duration::from_secs(2));
    assert_eq!(policy.delay_for(2), Duration::from_secs(4));
}

#[test]
fn clamps_to_ceiling_and_stays_there() {
    let policy = RetryPolicy::new(Duration::from_secs(1), Duration::from_secs(10), None);
    assert_eq!(policy.delay_for(3), Duration::from_secs(8));
    assert_eq!(policy.delay_for(4), Duration::from_secs(10));
    assert_eq!(policy.delay_for(5), Duration::from_secs(10));
    assert_eq!(policy.delay_for(100), Duration::from_secs(10));
}

#[test]
fn reproduces_frame_retry_sequence() {
    let policy = RetryPolicy::new(Duration::from_secs(2), Duration::from_secs(90), Some(8));
    let expected = [2u64, 4, 8, 16, 32, 64, 90, 90, 90];
    for (attempt, secs) in expected.into_iter().enumerate() {
        assert_eq!(
            policy.delay_for(attempt as u32),
            Duration::from_secs(secs),
            "attempt {attempt}"
        );
    }
}

#[test]
fn reproduces_ip_fallback_sequence() {
    let policy = RetryPolicy::new(Duration::from_secs(60), Duration::from_secs(30 * 60), None);
    let expected = [60u64, 120, 240, 480, 960, 1800, 1800];
    for (attempt, secs) in expected.into_iter().enumerate() {
        assert_eq!(
            policy.delay_for(attempt as u32),
            Duration::from_secs(secs),
            "attempt {attempt}"
        );
    }
    assert!(!policy.exhausted(u32::MAX));
}

#[test]
fn reproduces_meteogate_download_sequence() {
    let policy = RetryPolicy::new(Duration::from_millis(400), Duration::from_secs(120), Some(3));
    assert_eq!(policy.delay_for(0), Duration::from_millis(400));
    assert_eq!(policy.delay_for(1), Duration::from_millis(800));
    assert!(!policy.exhausted(2));
    assert!(policy.exhausted(3));
}

#[test]
fn exhausted_boundary() {
    let policy = RetryPolicy::new(Duration::from_secs(1), Duration::from_secs(1), Some(3));
    assert!(!policy.exhausted(0));
    assert!(!policy.exhausted(1));
    assert!(!policy.exhausted(2));
    assert!(policy.exhausted(3));
    assert!(policy.exhausted(4));
}

#[test]
fn exhausted_never_true_when_unbounded() {
    let policy = RetryPolicy::new(Duration::from_secs(1), Duration::from_secs(1), None);
    assert!(!policy.exhausted(0));
    assert!(!policy.exhausted(u32::MAX));
}

#[test]
fn double_advances_and_clamps() {
    let policy = RetryPolicy::new(Duration::from_millis(400), Duration::from_secs(120), Some(3));
    assert_eq!(policy.double(Duration::from_millis(400)), Duration::from_millis(800));
    assert_eq!(policy.double(Duration::from_secs(30)), Duration::from_secs(60));
    assert_eq!(policy.double(Duration::from_secs(80)), Duration::from_secs(120));
    assert_eq!(policy.double(Duration::from_secs(120)), Duration::from_secs(120));
}

#[test]
fn double_does_not_overflow() {
    let policy = RetryPolicy::new(Duration::from_secs(1), Duration::from_secs(120), None);
    assert_eq!(policy.double(Duration::MAX), Duration::from_secs(120));
}

#[test]
fn no_overflow_at_max_attempt() {
    let policy = RetryPolicy::new(Duration::from_secs(2), Duration::from_secs(90), Some(8));
    assert_eq!(policy.delay_for(u32::MAX), Duration::from_secs(90));
}

#[test]
fn long_delays_are_exact() {
    let policy = RetryPolicy::new(Duration::from_nanos(3), Duration::MAX, None);
    assert_eq!(policy.delay_for(70), Duration::new(3_541_774_862_152, 233_910_272));
    assert_eq!(policy.delay_for(200), Duration::MAX);
    let none = RetryPolicy::new(Duration::ZERO, Duration::from_secs(1), None);
    assert_eq!(none.delay_for(5), Duration::ZERO);
}

#[test]
fn success_status_is_valid() {
    assert_eq!(classify_verify_status(Some(200)), VerifyOutcome::Valid);
    assert_eq!(classify_verify_status(Some(204)), VerifyOutcome::Valid);
}

#[test]
fn unauthorized_and_forbidden_are_invalid() {
    assert_eq!(classify_verify_status(Some(401)), VerifyOutcome::Invalid);
    assert_eq!(classify_verify_status(Some(403)), VerifyOutcome::Invalid);
}

#[test]
fn network_error_is_unreachable() {
    assert_eq!(classify_verify_status(None), VerifyOutcome::Unreachable);
}

#[test]
fn server_error_is_unreachable() {
    assert_eq!(classify_verify_status(Some(500)), VerifyOutcome::Unreachable);
}

#[test]
fn rate_limited_is_unreachable_not_invalid() {
    assert_eq!(classify_verify_status(Some(429)), VerifyOutcome::Unreachable);
}

#[test]
fn lookups_that_fail_are_spaced_out_and_one_that_succeeds_resets_them() {
    let mut p = IpPolling::new();
    assert_eq!(p.after_lookup(false), Duration::from_secs(60));
    assert_eq!(p.after_lookup(false), Duration::from_secs(120));
    assert_eq!(p.after_lookup(true), Duration::from_secs(1800));
    assert_eq!(p.after_lookup(false), Duration::from_secs(60));
}
