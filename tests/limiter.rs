use pastebin::limiter::{RateDecision, RateLimiter};

#[test]
fn second_write_within_interval_is_rejected() {
    let mut l = RateLimiter::new(5);
    assert_eq!(l.check_and_record_at("1.2.3.4".to_string(), 10_000), RateDecision::Allowed);
    assert_eq!(
        l.check_and_record_at("1.2.3.4".to_string(), 11_000),
        RateDecision::Rejected { retry_after_secs: 4 }
    );
}

#[test]
fn different_clients_are_independent() {
    let mut l = RateLimiter::new(5);
    assert_eq!(l.check_and_record_at("a".to_string(), 10_000), RateDecision::Allowed);
    assert_eq!(l.check_and_record_at("b".to_string(), 11_000), RateDecision::Allowed);
}

#[test]
fn rejection_keeps_the_accepted_stamp() {
    let mut l = RateLimiter::new(5);
    assert_eq!(l.check_and_record_at("a".to_string(), 0), RateDecision::Allowed);
    assert_eq!(
        l.check_and_record_at("a".to_string(), 4_500),
        RateDecision::Rejected { retry_after_secs: 0 }
    );
    assert_eq!(l.check_and_record_at("a".to_string(), 5_000), RateDecision::Allowed);
    assert_eq!(
        l.check_and_record_at("a".to_string(), 6_999),
        RateDecision::Rejected { retry_after_secs: 3 }
    );
}

#[test]
fn clock_based_check_allows_new_client() {
    let mut l = RateLimiter::new(60);
    assert_eq!(l.check_and_record("fresh".to_string()), RateDecision::Allowed);
    assert!(matches!(
        l.check_and_record("fresh".to_string()),
        RateDecision::Rejected { .. }
    ));
}
