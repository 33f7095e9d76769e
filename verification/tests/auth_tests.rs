use restie::auth::{
    expand_tilde, next_env_reference, normalize_header_name, parse_script_headers, plan_auth,
    script_context, script_launch, script_search_paths, splice_env_value, token_headers, AuthPlan,
    ScriptLaunch,
};
use restie::config::AuthConfig;

fn make_auth(auth_type: &str) -> AuthConfig {
    AuthConfig {
        auth_type: auth_type.to_string(),
        token_env: Some("TEST_TOKEN".to_string()),
        header: None,
        prefix: None,
        command: None,
        env: None,
    }
}

#[test]
fn test_none_auth() {
    let auth = make_auth("none");
    assert!(matches!(plan_auth(Some(&auth)), AuthPlan::NoHeaders));
}

#[test]
fn test_script_header_case_normalized() {
    let stdout = "authorization: Bearer x\nx-api-key: k\nX_CUSTOM: v\n";
    let headers = parse_script_headers(stdout);
    assert_eq!(headers.get("Authorization"), Some(&"Bearer x".to_string()));
    assert_eq!(headers.get("X-Api-Key"), Some(&"k".to_string()));
    assert_eq!(headers.get("X_custom"), Some(&"v".to_string()));
    assert_eq!(headers.len(), 3);
}

// ---------------------------------------------------------------------------
// Plans and headers
// ---------------------------------------------------------------------------

#[test]
fn bearer_plan_defaults_header_and_prefix() {
    let auth = make_auth("bearer_token");
    match plan_auth(Some(&auth)) {
        AuthPlan::Token { env_var, header, prefix } => {
            assert_eq!(env_var, "TEST_TOKEN");
            assert_eq!(header, "Authorization");
            assert_eq!(prefix, "Bearer");
            let h = token_headers(&header, &prefix, "my-token-123");
            assert_eq!(h.get("Authorization"), Some(&"Bearer my-token-123".to_string()));
        }
        _ => panic!("expected a token plan"),
    }
}

#[test]
fn api_key_with_empty_prefix_sends_raw_token() {
    let mut auth = make_auth("api_key");
    auth.header = Some("X-API-Key".to_string());
    auth.prefix = Some(String::new());
    match plan_auth(Some(&auth)) {
        AuthPlan::Token { header, prefix, .. } => {
            let h = token_headers(&header, &prefix, "key-abc");
            assert_eq!(h.get("X-API-Key"), Some(&"key-abc".to_string()));
        }
        _ => panic!("expected a token plan"),
    }
}

#[test]
fn custom_header_never_has_a_prefix() {
    let mut auth = make_auth("custom_header");
    auth.header = Some("PRIVATE-TOKEN".to_string());
    auth.prefix = Some("Ignored".to_string());
    match plan_auth(Some(&auth)) {
        AuthPlan::Token { header, prefix, .. } => {
            assert_eq!(prefix, "");
            let h = token_headers(&header, &prefix, "gitlab-token");
            assert_eq!(h.get("PRIVATE-TOKEN"), Some(&"gitlab-token".to_string()));
        }
        _ => panic!("expected a token plan"),
    }
}

#[test]
fn auth_plan_errors_and_unknown_types() {
    let mut auth = make_auth("bearer_token");
    auth.token_env = None;
    match plan_auth(Some(&auth)) {
        AuthPlan::Failure(m) => assert_eq!(m, "auth.token_env not set"),
        _ => panic!("expected a failure"),
    }
    let auth = make_auth("script");
    match plan_auth(Some(&auth)) {
        AuthPlan::Failure(m) => assert_eq!(m, "auth.command not set for script type"),
        _ => panic!("expected a failure"),
    }
    let mut auth = make_auth("script");
    auth.command = Some("sign.sh".to_string());
    match plan_auth(Some(&auth)) {
        AuthPlan::Script { command } => assert_eq!(command, "sign.sh"),
        _ => panic!("expected a script plan"),
    }
    match plan_auth(Some(&make_auth("oauth2"))) {
        AuthPlan::UnknownType(t) => assert_eq!(t, "oauth2"),
        _ => panic!("expected an unknown type"),
    }
    assert!(matches!(plan_auth(None), AuthPlan::NoHeaders));
}

#[test]
fn header_names_in_any_case_normalize_alike() {
    assert_eq!(normalize_header_name("x-api-key"), "X-Api-Key");
    assert_eq!(normalize_header_name("X-API-KEY"), "X-Api-Key");
    assert_eq!(normalize_header_name("content--type-"), "Content-Type");
    assert_eq!(normalize_header_name(""), "");
}

#[test]
fn script_lines_without_colon_or_blank_are_skipped() {
    let h = parse_script_headers("\n  \nnot a header\nA: 1\na: 2\n");
    assert_eq!(h.len(), 1);
    assert_eq!(h.get("A"), Some(&"2".to_string()));
}

// ---------------------------------------------------------------------------
// Script environment
// ---------------------------------------------------------------------------

#[test]
fn env_references_are_found_and_spliced() {
    let s = "prefix-${FOO}-suffix";
    let (start, close, name) = next_env_reference(s).unwrap();
    assert_eq!((start, close, name.as_str()), (7, 12, "FOO"));
    assert_eq!(splice_env_value(s, start, close, "bar"), "prefix-bar-suffix");
    assert!(next_env_reference("no-vars-here").is_none());
    assert!(next_env_reference("open ${FOO but never closed").is_none());
    let (_, _, empty) = next_env_reference("${}").unwrap();
    assert_eq!(empty, "");
}

#[test]
fn tilde_expands_only_with_home_and_leading_tilde() {
    assert_eq!(expand_tilde("~/auth/x.sh", Some("/home/u")), Some("/home/u/auth/x.sh".to_string()));
    assert_eq!(expand_tilde("auth/x.sh", Some("/home/u")), None);
    assert_eq!(expand_tilde("~/x", None), None);
}

#[test]
fn script_paths_and_context() {
    let (a, b) = script_search_paths("auth/s.sh", "/home/u/.config/restie");
    assert_eq!(a, "/home/u/.config/restie/auth/s.sh");
    assert_eq!(b, "/home/u/.config/restie/presets/auth/s.sh");
    let ctx = script_context("POST", "/repos/test", None, Some("{}"));
    assert_eq!(
        ctx,
        vec![
            ("RESTIE_METHOD".to_string(), "POST".to_string()),
            ("RESTIE_PATH".to_string(), "/repos/test".to_string()),
            ("RESTIE_QUERY".to_string(), String::new()),
            ("RESTIE_BODY".to_string(), "{}".to_string()),
        ]
    );
}

#[test]
fn script_launch_prefers_found_files() {
    let r = script_launch("sign.sh", false, false, "/c/sign.sh", true, "/c/presets/sign.sh", true);
    assert!(matches!(r, ScriptLaunch::Direct(ref f) if f == "/c/sign.sh"));
    let r = script_launch("sign.sh", false, false, "/c/sign.sh", false, "/c/presets/sign.sh", true);
    assert!(matches!(r, ScriptLaunch::Direct(ref f) if f == "/c/presets/sign.sh"));
    let r = script_launch("echo X-A: 1", false, false, "/c/echo X-A: 1", false, "/c/presets/x", false);
    assert!(matches!(r, ScriptLaunch::Shell(ref c) if c == "echo X-A: 1"));
    let r = script_launch("/abs/sign.sh", true, true, "/abs/sign.sh", true, "/x", true);
    assert!(matches!(r, ScriptLaunch::Direct(ref f) if f == "/abs/sign.sh"));
    let r = script_launch("/abs/missing", true, false, "/abs/missing", true, "/x", true);
    assert!(matches!(r, ScriptLaunch::Shell(ref c) if c == "/abs/missing"));
}

#[test]
fn normalizing_twice_changes_nothing() {
    for name in ["x-api-key", "CONTENT--TYPE", "-a-", "authorization", ""] {
        let once = normalize_header_name(name);
        assert_eq!(normalize_header_name(&once), once);
    }
}
