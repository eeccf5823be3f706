use codex_memory::auth::{auth_provider_from_auth, AuthError, CodexAuth, ProviderAuth};

fn api_key(k: &str) -> CodexAuth {
    CodexAuth { token: Ok(k.to_string()), account_id: None }
}

#[test]
fn openai_auth_uses_supplied_codex_auth() {
    let auth = auth_provider_from_auth(Some(api_key("openai-key")), Ok(ProviderAuth::OpenAi), None)
        .expect("auth provider");
    assert_eq!(auth.token.as_deref(), Some("openai-key"));
    assert_eq!(auth.account_id, None);
}

#[test]
fn custom_no_auth_preserves_supplied_codex_auth_behavior() {
    let auth = auth_provider_from_auth(Some(api_key("custom-key")), Ok(ProviderAuth::NoAuth), None)
        .expect("auth provider");
    assert_eq!(auth.token.as_deref(), Some("custom-key"));
    assert_eq!(auth.account_id, None);
}

#[test]
fn experimental_bearer_overrides_supplied_codex_auth() {
    let provider = ProviderAuth::ExperimentalBearer { token: "provider-token".to_string() };
    let auth = auth_provider_from_auth(Some(api_key("ignored")), Ok(provider), None).expect("auth provider");
    assert_eq!(auth.token.as_deref(), Some("provider-token"));
    assert_eq!(auth.account_id, None);
}

#[test]
fn env_bearer_reports_missing_env_key() {
    let key = "CODEX_TEST_AUTH_PROVIDER_FROM_AUTH_MISSING_PROVIDER_KEY_9F54D778";
    let provider = ProviderAuth::EnvBearer {
        env_key: key.to_string(),
        env_key_instructions: Some("Set the test key.".to_string()),
    };
    let err = match auth_provider_from_auth(None, Ok(provider), None) {
        Ok(_) => panic!("expected missing env var"),
        Err(err) => err,
    };
    let AuthError::EnvVar { var, instructions } = err else {
        panic!("expected env var error");
    };
    assert_eq!(var, key);
    assert_eq!(instructions.as_deref(), Some("Set the test key."));
}

#[test]
fn external_bearer_uses_supplied_codex_auth() {
    let auth = auth_provider_from_auth(Some(api_key("command-token")), Ok(ProviderAuth::ExternalBearer), None)
        .expect("auth provider");
    assert_eq!(auth.token.as_deref(), Some("command-token"));
    assert_eq!(auth.account_id, None);
}

#[test]
fn env_bearer_uses_set_value_and_rejects_blank() {
    let provider = || ProviderAuth::EnvBearer { env_key: "K".to_string(), env_key_instructions: None };
    let auth = auth_provider_from_auth(None, Ok(provider()), Some("tok".to_string())).unwrap();
    assert_eq!(auth.token.as_deref(), Some("tok"));
    assert!(matches!(
        auth_provider_from_auth(None, Ok(provider()), Some("  ".to_string())),
        Err(AuthError::EnvVar { .. })
    ));
}

#[test]
fn resolution_and_token_errors() {
    assert!(matches!(
        auth_provider_from_auth(None, Err("bad provider".to_string()), None),
        Err(AuthError::Fatal(m)) if m == "bad provider"
    ));
    let failing = CodexAuth { token: Err("expired".to_string()), account_id: None };
    assert!(matches!(
        auth_provider_from_auth(Some(failing), Ok(ProviderAuth::OpenAi), None),
        Err(AuthError::Token(m)) if m == "expired"
    ));
    let auth = auth_provider_from_auth(None, Ok(ProviderAuth::OpenAi), None).unwrap();
    assert!(auth.token.is_none());
    let with_account = CodexAuth { token: Ok("t".to_string()), account_id: Some("acc".to_string()) };
    let auth = auth_provider_from_auth(Some(with_account), Ok(ProviderAuth::OpenAi), None).unwrap();
    assert_eq!(auth.account_id.as_deref(), Some("acc"));
}
