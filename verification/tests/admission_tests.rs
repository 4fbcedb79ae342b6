use shadow_proxy::ConcurrencyLimiter;

#[test]
fn limiter_admits_up_to_limit() {
    let mut limiter = ConcurrencyLimiter::new(2);
    assert!(limiter.try_enter());
    assert!(limiter.try_enter());
    assert!(!limiter.try_enter());
    assert_eq!(limiter.in_flight(), 2);
    limiter.leave();
    assert_eq!(limiter.in_flight(), 1);
    assert!(limiter.try_enter());
    assert!(!limiter.try_enter());
}

#[test]
fn limiter_leave_when_empty_keeps_zero() {
    let mut limiter = ConcurrencyLimiter::new(1);
    limiter.leave();
    assert_eq!(limiter.in_flight(), 0);
    assert!(limiter.try_enter());
}

#[test]
fn limiter_with_zero_limit_admits_nothing() {
    let mut limiter = ConcurrencyLimiter::new(0);
    assert!(!limiter.try_enter());
    assert_eq!(limiter.in_flight(), 0);
}
