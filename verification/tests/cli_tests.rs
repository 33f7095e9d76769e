use restie::cli::{
    distribute_params_heuristic, distribute_params_with_config, parse_extra_args,
    replace_path_placeholders, split_command_and_args, strip_control_flags, route_params,
    RequestBody,
};
use restie::http::outgoing;
use restie::config::{EndpointConfig, ParamConfig};
use restie::ordmap::OrdMap;

fn json_of(text: &str) -> serde_json::Value {
    serde_json::from_str(text).unwrap()
}

fn map(pairs: &[(&str, &str)]) -> OrdMap<String> {
    let mut m = OrdMap::new();
    for (k, v) in pairs {
        m.insert(k.to_string(), v.to_string());
    }
    m
}

fn param(required: bool, location: &str) -> ParamConfig {
    ParamConfig {
        required,
        location: location.to_string(),
        description: None,
        param_type: None,
        default: None,
    }
}

fn endpoint(method: &str, path: &str, params: &[(&str, bool, &str)]) -> EndpointConfig {
    let mut m = OrdMap::new();
    for (name, required, location) in params {
        m.insert(name.to_string(), param(*required, location));
    }
    EndpointConfig {
        method: method.to_string(),
        path: path.to_string(),
        summary: None,
        aliases: vec![],
        params: m,
    }
}

fn strings(v: &[&str]) -> Vec<String> {
    v.iter().map(|s| s.to_string()).collect()
}

#[test]
fn test_replace_path_placeholders() {
    let params = map(&[("owner", "rust-lang"), ("repo", "rust")]);
    let path = replace_path_placeholders("/repos/{owner}/{repo}", &params);
    assert_eq!(path, "/repos/rust-lang/rust");
}

#[test]
fn test_replace_path_placeholders_no_match() {
    let params = OrdMap::new();
    let path = replace_path_placeholders("/repos/{owner}/{repo}", &params);
    assert_eq!(path, "/repos/{owner}/{repo}");
}

#[test]
fn test_distribute_heuristic_path_params() {
    let params = map(&[("owner", "rust-lang"), ("repo", "rust"), ("per_page", "10")]);
    let parts = distribute_params_heuristic("/repos/{owner}/{repo}", "GET", &params);
    assert_eq!(parts.path, "/repos/rust-lang/rust");
    assert_eq!(parts.query.get("per_page"), Some(&"10".to_string()));
    assert!(parts.body.is_none());
}

#[test]
fn test_distribute_heuristic_body_param() {
    let params = map(&[("body", r#"{"title":"bug"}"#)]);
    let parts = distribute_params_heuristic("/repos/x/y/issues", "POST", &params);
    assert!(parts.body.is_some());
    assert!(parts.query.is_empty());
    assert!(matches!(&parts.body, Some(RequestBody::Text(t)) if t == r#"{"title":"bug"}"#));
    assert_eq!(json_of(&outgoing(parts).body.unwrap())["title"], "bug");
}

#[test]
fn test_distribute_heuristic_all_query() {
    let params = map(&[("q", "rust"), ("per_page", "10")]);
    let parts = distribute_params_heuristic("/search/repositories", "GET", &params);
    assert_eq!(parts.path, "/search/repositories");
    assert_eq!(parts.query.get("q"), Some(&"rust".to_string()));
    assert_eq!(parts.query.get("per_page"), Some(&"10".to_string()));
}

#[test]
fn test_distribute_with_config() {
    let ep = endpoint(
        "POST",
        "/repos/{owner}/{repo}/issues",
        &[("owner", true, "path"), ("repo", true, "path"), ("title", true, "body")],
    );
    let params = map(&[("owner", "rust-lang"), ("repo", "rust"), ("title", "bug report")]);
    let parts = distribute_params_with_config(&ep, &params).unwrap();
    assert_eq!(parts.method, "POST");
    assert_eq!(parts.path, "/repos/rust-lang/rust/issues");
    assert!(parts.query.is_empty());
    assert!(parts.body.is_some());
    match &parts.body {
        Some(RequestBody::Fields(f)) => assert_eq!(f.get("title"), Some(&"bug report".to_string())),
        _ => panic!("expected body fields"),
    }
    assert_eq!(json_of(&outgoing(parts).body.unwrap())["title"], "bug report");
}

#[test]
fn test_strip_control_flags_raw() {
    let args = strings(&["get", "--owner", "o", "--raw", "--per_page", "10"]);
    let (filtered, raw, site, config) = strip_control_flags(&args);
    assert!(raw);
    assert!(site.is_none());
    assert!(config.is_none());
    assert_eq!(filtered, strings(&["get", "--owner", "o", "--per_page", "10"]));
    assert!(!filtered.contains(&"--raw".to_string()));
}

#[test]
fn test_strip_control_flags_no_controls() {
    let args = strings(&["get", "--owner", "o"]);
    let (filtered, raw, site, config) = strip_control_flags(&args);
    assert!(!raw);
    assert!(site.is_none());
    assert!(config.is_none());
    assert_eq!(filtered.len(), 3);
}

#[test]
fn test_strip_control_flags_site_and_config_forms() {
    let args = strings(&["get", "--site", "github", "--owner", "o"]);
    let (filtered, _, site, _) = strip_control_flags(&args);
    assert_eq!(site.as_deref(), Some("github"));
    assert_eq!(filtered, strings(&["get", "--owner", "o"]));

    let args = strings(&["get", "--site=github", "--config=/tmp/x.yaml"]);
    let (filtered, _, site, config) = strip_control_flags(&args);
    assert_eq!(site.as_deref(), Some("github"));
    assert_eq!(config.as_deref(), Some("/tmp/x.yaml"));
    assert_eq!(filtered, strings(&["get"]));

    let args = strings(&["get", "--site"]);
    let (filtered, _, site, _) = strip_control_flags(&args);
    assert!(site.is_none());
    assert_eq!(filtered, strings(&["get"]));
}

#[test]
fn test_distribute_with_config_header_params() {
    let ep = endpoint("GET", "/items", &[("x-request-id", true, "header"), ("page", false, "query")]);
    let params = map(&[("x-request-id", "abc-123"), ("page", "2")]);
    let parts = distribute_params_with_config(&ep, &params).unwrap();
    assert_eq!(parts.headers.get("X-Request-Id"), Some(&"abc-123".to_string()));
    assert_eq!(parts.query.get("page"), Some(&"2".to_string()));
    assert!(!parts.query.contains_key("x-request-id"));
}

#[test]
fn test_distribute_with_config_missing_required_path_param() {
    let ep = endpoint("GET", "/repos/{owner}/{repo}", &[("owner", true, "path"), ("repo", true, "path")]);
    let params = map(&[("repo", "rust")]);
    let err = distribute_params_with_config(&ep, &params).err().unwrap();
    assert!(err.contains("--owner"), "error should name owner, got: {}", err);
}

#[test]
fn test_distribute_with_config_empty_required_path_param() {
    let ep = endpoint("GET", "/repos/{owner}/{repo}", &[("owner", true, "path"), ("repo", true, "path")]);
    let params = map(&[("owner", ""), ("repo", "rust")]);
    let err = distribute_params_with_config(&ep, &params).err().unwrap();
    assert!(err.contains("--owner"), "error should name owner, got: {}", err);
    assert!(err.contains("empty"), "error should mention empty value, got: {}", err);
}

// ---------------------------------------------------------------------------
// Further cases
// ---------------------------------------------------------------------------

#[test]
fn missing_path_param_message_is_exact() {
    let ep = endpoint("GET", "/repos/{owner}/{repo}", &[("owner", true, "path"), ("repo", true, "path")]);
    let err = distribute_params_with_config(&ep, &map(&[("repo", "rust")])).err().unwrap();
    assert_eq!(err, "Missing required parameter '--owner' for path '/repos/{owner}/{repo}'");
    let err = distribute_params_with_config(&ep, &map(&[("owner", "  "), ("repo", "rust")]))
        .err()
        .unwrap();
    assert_eq!(
        err,
        "Missing required parameter '--owner' (empty value) for path '/repos/{owner}/{repo}'"
    );
}

#[test]
fn undeclared_params_go_to_the_query_and_method_is_uppercased() {
    let ep = endpoint("post", "/things/{id}", &[("id", true, "path"), ("note", false, "body")]);
    let params = map(&[("id", "7"), ("note", "\"hi\""), ("extra", "x")]);
    let parts = distribute_params_with_config(&ep, &params).unwrap();
    assert_eq!(parts.method, "POST");
    assert_eq!(parts.path, "/things/7");
    assert_eq!(parts.query.len(), 1);
    assert_eq!(parts.query.get("extra"), Some(&"x".to_string()));
    assert_eq!(json_of(&outgoing(parts).body.unwrap())["note"], "hi");
}

#[test]
fn routing_keeps_each_param_where_declared() {
    let ep = endpoint(
        "GET",
        "/a/{p}",
        &[("p", true, "path"), ("b", false, "body"), ("h", false, "header"), ("q", false, "query")],
    );
    let params = map(&[("p", "1"), ("b", "2"), ("h", "3"), ("q", "4"), ("z", "5")]);
    let r = route_params(&ep, &params);
    assert_eq!(r.path.len(), 1);
    assert_eq!(r.body.len(), 1);
    assert_eq!(r.headers.get("H"), Some(&"3".to_string()));
    assert_eq!(r.query.len(), 2);
    assert!(r.query.contains_key("q") && r.query.contains_key("z"));
    assert!(!r.query.contains_key("p") && !r.query.contains_key("b") && !r.query.contains_key("h"));
}

#[test]
fn placeholders_replace_every_occurrence() {
    let params = map(&[("id", "9")]);
    assert_eq!(replace_path_placeholders("/x/{id}/y/{id}", &params), "/x/9/y/9");
}

#[test]
fn split_command_finds_first_non_flag() {
    let (cmd, rest) = split_command_and_args(&strings(&["--verbose", "get", "--owner", "o"]));
    assert_eq!(cmd, "get");
    assert_eq!(rest, strings(&["--owner", "o"]));
    let (cmd, rest) = split_command_and_args(&strings(&["--a", "--b"]));
    assert_eq!(cmd, "");
    assert_eq!(rest, strings(&["--a", "--b"]));
}

#[test]
fn extra_args_forms() {
    let p = parse_extra_args(&strings(&["--a=1", "--b", "2", "--flag", "--c", "--d=x=y", "stray"]));
    assert_eq!(p.get("a"), Some(&"1".to_string()));
    assert_eq!(p.get("b"), Some(&"2".to_string()));
    assert_eq!(p.get("flag"), Some(&"true".to_string()));
    assert_eq!(p.get("c"), Some(&"true".to_string()));
    assert_eq!(p.get("d"), Some(&"x=y".to_string()));
    assert_eq!(p.len(), 5);
}

#[test]
fn later_param_occurrence_wins() {
    let p = parse_extra_args(&strings(&["--a", "1", "--a", "2"]));
    assert_eq!(p.get("a"), Some(&"2".to_string()));
}

#[test]
fn stripping_twice_changes_nothing() {
    let args = strings(&["get", "--raw", "--site", "s", "--x", "1"]);
    let (once, _, _, _) = strip_control_flags(&args);
    let (twice, raw, site, config) = strip_control_flags(&once);
    assert_eq!(once, twice);
    assert!(!raw && site.is_none() && config.is_none());
}

#[test]
fn templates_without_placeholders_stay_as_they_are() {
    let params = map(&[("owner", "x"), ("repo", "y")]);
    assert_eq!(replace_path_placeholders("/user/repos", &params), "/user/repos");
}

#[test]
fn stripping_keeps_argument_order() {
    let args: Vec<String> = ["--b", "2", "--raw", "--a", "1", "--site=gh", "--c"]
        .iter()
        .map(|s| s.to_string())
        .collect();
    let (kept, raw, site, _config) = strip_control_flags(&args);
    assert_eq!(kept, vec!["--b", "2", "--a", "1", "--c"]);
    assert!(raw);
    assert_eq!(site.as_deref(), Some("gh"));
}

#[test]
fn body_text_is_the_json_sent() {
    let params = map(&[("a", "1"), ("b", "x y"), ("c", "{ \"k\" : [1, 2] }")]);
    let ep = endpoint("POST", "/t", &[("a", false, "body"), ("b", false, "body"), ("c", false, "body")]);
    let parts = distribute_params_with_config(&ep, &params).unwrap();
    assert_eq!(outgoing(parts).body.unwrap(), r#"{"a":1,"b":"x y","c":{"k":[1,2]}}"#);
}
