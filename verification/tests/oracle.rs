use matrix_gen::{EchoOracle, Oracle, OracleError, OracleRequest, ScriptedOracle};

#[test]
fn echo_oracle_returns_user_prompt() {
    let mut oracle = EchoOracle;
    let req = OracleRequest {
        system: None,
        user: "hello world".into(),
    };
    assert_eq!(oracle.complete(&req).unwrap(), "hello world");
}

#[test]
fn scripted_oracle_returns_in_order() {
    let mut oracle = ScriptedOracle::new(vec!["first".into(), "second".into()]);
    let req = OracleRequest {
        system: None,
        user: "ignored".into(),
    };
    assert_eq!(oracle.complete(&req).unwrap(), "first");
    assert_eq!(oracle.complete(&req).unwrap(), "second");
}

#[test]
fn scripted_oracle_exhausted_after_queue_drains() {
    let mut oracle = ScriptedOracle::new(vec!["only".into()]);
    let req = OracleRequest {
        system: None,
        user: "ignored".into(),
    };
    oracle.complete(&req).unwrap();
    let err = oracle.complete(&req).unwrap_err();
    assert!(matches!(err, OracleError::Exhausted));
    let err = oracle.complete(&req).unwrap_err();
    assert!(matches!(err, OracleError::Exhausted));
}
