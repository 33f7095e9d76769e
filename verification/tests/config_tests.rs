use restie::config::{AuthConfig, EndpointConfig, ModuleConfig, ParamConfig, SiteConfig, SiteInfo};
use restie::ordmap::OrdMap;

fn param(required: bool, location: &str, description: Option<&str>) -> ParamConfig {
    ParamConfig {
        required,
        location: location.to_string(),
        description: description.map(|d| d.to_string()),
        param_type: None,
        default: None,
    }
}

fn endpoint(method: &str, path: &str, summary: &str, params: Vec<(&str, ParamConfig)>) -> EndpointConfig {
    let mut m = OrdMap::new();
    for (k, p) in params {
        m.insert(k.to_string(), p);
    }
    EndpointConfig {
        method: method.to_string(),
        path: path.to_string(),
        summary: Some(summary.to_string()),
        aliases: vec![],
        params: m,
    }
}

/// The sample configuration: GitHub with two modules.
fn load_sample() -> SiteConfig {
    let mut repos = OrdMap::new();
    repos.insert(
        "get".to_string(),
        endpoint(
            "GET",
            "/repos/{owner}/{repo}",
            "Get a repository",
            vec![
                ("owner", param(true, "path", Some("Repository owner"))),
                ("repo", param(true, "path", Some("Repository name"))),
            ],
        ),
    );
    repos.insert(
        "create".to_string(),
        endpoint(
            "POST",
            "/user/repos",
            "Create a repository",
            vec![("name", param(true, "body", Some("Repository name")))],
        ),
    );
    let mut issues = OrdMap::new();
    issues.insert(
        "create".to_string(),
        endpoint(
            "POST",
            "/repos/{owner}/{repo}/issues",
            "Create an issue",
            vec![
                ("owner", param(true, "path", None)),
                ("repo", param(true, "path", None)),
                ("title", param(true, "body", None)),
            ],
        ),
    );
    let mut modules = OrdMap::new();
    modules.insert("repos".to_string(), ModuleConfig { commands: repos });
    modules.insert("issues".to_string(), ModuleConfig { commands: issues });
    SiteConfig {
        site: Some(SiteInfo {
            name: Some("GitHub".to_string()),
            base_url: Some("https://api.github.com".to_string()),
            auth: Some(AuthConfig {
                auth_type: "bearer_token".to_string(),
                token_env: Some("GITHUB_TOKEN".to_string()),
                header: None,
                prefix: None,
                command: None,
                env: None,
            }),
            headers: None,
        }),
        modules,
    }
}

#[test]
fn test_load_config() {
    let config = load_sample();
    assert!(config.site.is_some());
    assert_eq!(config.modules.len(), 2);
}

#[test]
fn test_auth_config() {
    let config = load_sample();
    let auth = config.get_auth().unwrap();
    assert_eq!(auth.auth_type, "bearer_token");
    assert_eq!(auth.token_env, Some("GITHUB_TOKEN".to_string()));
}

#[test]
fn test_get_base_url() {
    let config = load_sample();
    assert_eq!(config.get_base_url(), "https://api.github.com");
}

#[test]
fn test_get_endpoint() {
    let config = load_sample();
    let ep = config.get_endpoint("repos", "get").unwrap();
    assert_eq!(ep.method, "GET");
    assert_eq!(ep.path, "/repos/{owner}/{repo}");
    assert_eq!(ep.params.len(), 2);
}

#[test]
fn test_get_endpoint_not_found() {
    let config = load_sample();
    assert!(config.get_endpoint("repos", "nonexistent").is_none());
    assert!(config.get_endpoint("nonexistent", "get").is_none());
}

#[test]
fn test_param_config() {
    let config = load_sample();
    let ep = config.get_endpoint("repos", "get").unwrap();
    let owner = ep.params.get("owner").unwrap();
    assert!(owner.required);
    assert_eq!(owner.location, "path");
}

#[test]
fn test_list_modules() {
    let config = load_sample();
    let listing = config.list_modules();
    assert!(listing.contains("repos"));
    assert!(listing.contains("issues"));
}

#[test]
fn test_help_for_module() {
    let config = load_sample();
    let help = config.help_for_module("repos");
    assert!(help.contains("get"));
    assert!(help.contains("create"));
}

#[test]
fn test_help_for_command() {
    let config = load_sample();
    let help = config.help_for_command("repos", "get");
    assert!(help.contains("GET /repos/{owner}/{repo}"));
    assert!(help.contains("--owner"));
    assert!(help.contains("--repo"));
}

// ---------------------------------------------------------------------------
// Further cases
// ---------------------------------------------------------------------------

#[test]
fn base_url_is_trimmed_and_defaults_to_github() {
    let mut config = load_sample();
    config.site.as_mut().unwrap().base_url = Some("https://api.example.com//".to_string());
    assert_eq!(config.get_base_url(), "https://api.example.com");
    config.site.as_mut().unwrap().base_url = None;
    assert_eq!(config.get_base_url(), "https://api.github.com");
    config.site = None;
    assert_eq!(config.get_base_url(), "https://api.github.com");
    assert!(config.get_auth().is_none());
    assert!(config.get_headers().is_none());
}

#[test]
fn endpoint_found_by_alias() {
    let mut config = load_sample();
    let mut cmds = OrdMap::new();
    let mut ep = endpoint("GET", "/user", "Get the user", vec![]);
    ep.aliases = vec!["users/get-authenticated".to_string()];
    cmds.insert("get".to_string(), ep);
    config.modules.insert("users".to_string(), ModuleConfig { commands: cmds });
    let found = config.get_endpoint("users", "users/get-authenticated").unwrap();
    assert_eq!(found.path, "/user");
}

#[test]
fn module_listing_is_exact() {
    let config = load_sample();
    let expected = format!(
        "Available modules:\n\n  {:<25} 1 commands\n  {:<25} 2 commands\n",
        "issues", "repos"
    );
    assert_eq!(config.list_modules(), expected);
}

#[test]
fn module_help_is_exact() {
    let config = load_sample();
    let expected = format!(
        "Module: repos\n\nCommands:\n  {:<30} {:<6} {:<40} {}\n  {:<30} {:<6} {:<40} {}\n",
        "create", "POST", "/user/repos", "Create a repository", "get", "GET", "/repos/{owner}/{repo}",
        "Get a repository"
    );
    assert_eq!(config.help_for_module("repos"), expected);
}

#[test]
fn unknown_module_help_lists_modules() {
    let config = load_sample();
    let help = config.help_for_module("nope");
    assert!(help.starts_with("Unknown module: 'nope'\n\nAvailable modules: Available modules:\n\n"));
}

#[test]
fn command_help_is_exact() {
    let mut config = load_sample();
    let mut ep = endpoint(
        "get",
        "/search",
        "Search",
        vec![
            ("q", param(true, "query", Some("Query"))),
            ("page", ParamConfig { default: Some("1".to_string()), ..param(false, "query", Some("Page")) }),
        ],
    );
    ep.summary = Some("Search things".to_string());
    let mut cmds = OrdMap::new();
    cmds.insert("search".to_string(), ep);
    config.modules.insert("find".to_string(), ModuleConfig { commands: cmds });
    let expected = format!(
        "API: GET /search\nSearch things\n\nUsage: restie find search --q <Q> [--page <PAGE>]\n\nRequired:\n  --{:<20} Query\n\nOptional:\n  --{:<20} Page (default: 1)\n",
        "q", "page"
    );
    assert_eq!(config.help_for_command("find", "search"), expected);
}

#[test]
fn unknown_command_help_falls_back_to_module_help() {
    let config = load_sample();
    let help = config.help_for_command("repos", "nope");
    assert_eq!(help, format!("Unknown command: repos nope\n\n{}", config.help_for_module("repos")));
}

#[test]
fn all_commands_listing_is_exact() {
    let config = load_sample();
    let expected = format!(
        "Available commands:\n\n  issues {:<25} {:<6} {:<40} {}\n  repos {:<25} {:<6} {:<40} {}\n  repos {:<25} {:<6} {:<40} {}\n",
        "create", "POST", "/repos/{owner}/{repo}/issues", "Create an issue",
        "create", "POST", "/user/repos", "Create a repository",
        "get", "GET", "/repos/{owner}/{repo}", "Get a repository"
    );
    assert_eq!(config.list_all_commands(), expected);
}

#[test]
fn overview_notes_empty_config_and_hint() {
    let config = SiteConfig { site: None, modules: OrdMap::new() };
    let text = config.overview_text(true, Some("\nHINT"));
    assert_eq!(
        text,
        "Available commands:\n\n\nNote: this config has no commands. Regenerate it (e.g. 'restie generate <preset>') or delete the file.\n\n\nHINT\n"
    );
    let text = load_sample().overview_text(false, None);
    assert!(text.ends_with("Use 'restie sites' to see available site configs.\n"));
    assert!(!text.contains("Note:"));
}
