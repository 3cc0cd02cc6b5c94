use axum_rate_limiter::redis::{
    AiUsage, RedisAiLimiter, RedisLimiter, AI_WINDOW_SECONDS, DEFAULT_WINDOW_SECONDS,
    TOTAL_AI_QUOTA_UNITS,
};

#[test]
fn request_counter_is_keyed_by_identifier() {
    let inc = RedisLimiter::increment_for("10.0.0.1");
    assert_eq!(inc.key, "rate_limit:10.0.0.1");
    assert_eq!(inc.window_seconds, DEFAULT_WINDOW_SECONDS);
    assert_eq!(inc.window_seconds, 60);
    assert_eq!(inc.amount, 1);
}

#[test]
fn request_counter_admits_up_to_max() {
    assert!(RedisLimiter::admits(1));
    assert!(RedisLimiter::admits(3));
    assert!(!RedisLimiter::admits(4));
    assert!(!RedisLimiter::admits(i64::MAX));
}

#[test]
fn free_ai_requests_touch_no_counter() {
    let usage = AiUsage { model: "gpt-5".to_string(), query_tokens: 0, charge_units: 0 };
    assert!(RedisAiLimiter::increment_for("10.0.0.1", &usage).is_none());
}

#[test]
fn charged_ai_requests_add_their_charge() {
    let usage = AiUsage { model: "gpt-5".to_string(), query_tokens: 2, charge_units: 50 };
    let inc = RedisAiLimiter::increment_for("10.0.0.1", &usage).unwrap();
    assert_eq!(inc.key, "rate_limit:ai:10.0.0.1");
    assert_eq!(inc.window_seconds, AI_WINDOW_SECONDS);
    assert_eq!(inc.window_seconds, 600);
    assert_eq!(inc.amount, 50);
}

#[test]
fn ai_quota_admits_up_to_total() {
    assert_eq!(TOTAL_AI_QUOTA_UNITS, 5000);
    assert!(RedisAiLimiter::admits(Some(50)));
    assert!(RedisAiLimiter::admits(Some(5000)));
    assert!(!RedisAiLimiter::admits(Some(5001)));
    assert!(RedisAiLimiter::admits(None));
}

#[test]
fn limit_is_three_per_window() {
    assert_eq!(axum_rate_limiter::RATE_LIMIT_MAX, 3);
    assert_eq!(axum_rate_limiter::memory::RATE_LIMIT_MAX, 5);
}
