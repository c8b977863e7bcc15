use matrix_gen::backend::{combine_system, first_text_block, status_error, DEFAULT_MAX_TOKENS};
use matrix_gen::{AnthropicConfigError, AnthropicOracle, OracleError};

#[test]
fn builder_overrides_model_and_max_tokens() {
    let o: AnthropicOracle = AnthropicOracle::new("key".to_string(), "model-a".to_string())
        .with_model("model-b".to_string())
        .with_max_tokens(256);
    assert_eq!(o.model(), "model-b");
    assert_eq!(o.max_tokens(), 256);
    assert_eq!(o.api_key(), "key");
}

#[test]
fn new_uses_default_token_bound() {
    let o = AnthropicOracle::new("k".to_string(), "m".to_string());
    assert_eq!(o.model(), "m");
    assert_eq!(o.max_tokens(), DEFAULT_MAX_TOKENS);
    assert_eq!(o.max_tokens(), 1024);
    let o = o.with_endpoint("http://proxy".to_string());
    assert_eq!(o.model(), "m");
    assert_eq!(o.api_key(), "k");
}

#[test]
fn missing_api_key_is_refused() {
    assert!(matches!(
        AnthropicOracle::from_api_key(None, "m".to_string()),
        Err(AnthropicConfigError::MissingApiKey)
    ));
    let o = AnthropicOracle::from_api_key(Some("sk".to_string()), "m".to_string()).unwrap();
    assert_eq!(o.api_key(), "sk");
}

#[test]
fn first_text_block_picks_first_text() {
    let t = first_text_block(vec![None, Some("a".into()), Some("b".into())]).unwrap();
    assert_eq!(t, "a");
    match first_text_block(vec![None, None]) {
        Err(OracleError::Backend(m)) => assert_eq!(m, "no text content"),
        other => panic!("unexpected {other:?}"),
    }
}

#[test]
fn status_error_text() {
    match status_error("429 Too Many Requests", "slow down") {
        OracleError::Backend(m) => assert_eq!(m, "status 429 Too Many Requests: slow down"),
        other => panic!("unexpected {other:?}"),
    }
}

#[test]
fn combine_system_cases() {
    assert_eq!(combine_system(Some("p"), Some("s")), Some("p\n\ns".to_string()));
    assert_eq!(combine_system(Some("p"), None), Some("p".to_string()));
    assert_eq!(combine_system(None, Some("s")), Some("s".to_string()));
    assert_eq!(combine_system(None, None), None);
}
