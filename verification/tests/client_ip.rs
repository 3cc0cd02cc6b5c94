use axum_rate_limiter::client_ip_or_unknown;

#[test]
fn header_address_wins() {
    let ip = client_ip_or_unknown(Some("203.0.113.7".to_string()), Some("10.0.0.1".to_string()));
    assert_eq!(ip, "203.0.113.7");
}

#[test]
fn connection_address_is_the_fallback() {
    assert_eq!(client_ip_or_unknown(None, Some("10.0.0.1".to_string())), "10.0.0.1");
}

#[test]
fn unknown_when_no_address() {
    assert_eq!(client_ip_or_unknown(None, None), "unknown");
}
