use axum_rate_limiter::redis::{
    charge_for, count_query_tokens, usage_for_request, AiRequestError, ModelFamily, TokenizerKind,
};

#[test]
fn extracts_usage_from_json_payload() {
    let usage = usage_for_request("gpt-5".to_string(), "hello world").unwrap();
    assert_eq!(usage.model, "gpt-5");
    assert!(usage.query_tokens > 0);
    assert!(usage.charge_units >= usage.query_tokens);
}

#[test]
fn accepts_only_supported_model_families() {
    assert!(matches!(
        ModelFamily::parse("gpt-4"),
        Some(ModelFamily::Gpt4)
    ));
    assert!(matches!(
        ModelFamily::parse("gpt-4.1"),
        Some(ModelFamily::Gpt4)
    ));
    assert!(matches!(
        ModelFamily::parse("gpt-5"),
        Some(ModelFamily::Gpt5)
    ));
    assert!(matches!(
        ModelFamily::parse("gpt-5.4"),
        Some(ModelFamily::Gpt5)
    ));
    assert!(ModelFamily::parse("gpt-4o").is_none());
    assert!(ModelFamily::parse("gpt-5-mini").is_none());
    assert!(ModelFamily::parse("o3").is_none());
}

#[test]
fn rejects_unsupported_models() {
    let error = usage_for_request("gpt-4o".to_string(), "hello world").unwrap_err();
    assert!(matches!(error, AiRequestError::UnsupportedModel(model) if model == "gpt-4o"));
}

#[test]
fn parse_edge_cases() {
    assert!(ModelFamily::parse("").is_none());
    assert!(ModelFamily::parse("gpt-").is_none());
    assert!(ModelFamily::parse("gpt-6").is_none());
    assert!(ModelFamily::parse("GPT-4").is_none());
    assert!(ModelFamily::parse("gpt-45").is_none());
    assert!(matches!(ModelFamily::parse("gpt-4."), Some(ModelFamily::Gpt4)));
    assert!(matches!(ModelFamily::parse("gpt-5.é"), Some(ModelFamily::Gpt5)));
    assert!(ModelFamily::parse("xgpt-4").is_none());
}

#[test]
fn families_choose_tokenizer_and_price() {
    assert_eq!(ModelFamily::Gpt4.tokenizer(), TokenizerKind::Cl100kBase);
    assert_eq!(ModelFamily::Gpt5.tokenizer(), TokenizerKind::O200kBase);
    assert_eq!(ModelFamily::Gpt4.cost_units_per_token(), 1);
    assert_eq!(ModelFamily::Gpt5.cost_units_per_token(), 25);
}

#[test]
fn counts_tokens_of_query() {
    assert_eq!(count_query_tokens("hello world", ModelFamily::Gpt5).unwrap(), 2);
    assert_eq!(count_query_tokens("hello world", ModelFamily::Gpt4).unwrap(), 2);
    assert_eq!(count_query_tokens("", ModelFamily::Gpt4).unwrap(), 0);
}

#[test]
fn usage_charges_tokens_at_family_price() {
    let usage = usage_for_request("gpt-5.4".to_string(), "hello world").unwrap();
    assert_eq!(usage.model, "gpt-5.4");
    assert_eq!(usage.query_tokens, 2);
    assert_eq!(usage.charge_units, 50);
    let usage = usage_for_request("gpt-4".to_string(), "hello world").unwrap();
    assert_eq!(usage.query_tokens, 2);
    assert_eq!(usage.charge_units, 2);
    let usage = usage_for_request("gpt-4.1".to_string(), "").unwrap();
    assert_eq!(usage.query_tokens, 0);
    assert_eq!(usage.charge_units, 0);
}

#[test]
fn charge_overflow_is_reported() {
    let fits = charge_for("gpt-5".to_string(), ModelFamily::Gpt5, 1000).unwrap();
    assert_eq!(fits.charge_units, 25_000);
    let err = charge_for("gpt-5".to_string(), ModelFamily::Gpt5, (i64::MAX / 25 + 1) as usize)
        .unwrap_err();
    assert!(matches!(err, AiRequestError::ChargeOverflow));
    let max = charge_for("gpt-4".to_string(), ModelFamily::Gpt4, i64::MAX as usize).unwrap();
    assert_eq!(max.charge_units, i64::MAX);
    let err = charge_for("gpt-4".to_string(), ModelFamily::Gpt4, usize::MAX).unwrap_err();
    assert!(matches!(err, AiRequestError::ChargeOverflow));
}
