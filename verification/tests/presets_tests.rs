use restie::config::AuthConfig;
use restie::ordmap::OrdMap;
use restie::presets::{
    cache_catalog_path, cache_dir, default_repo_base, effective, empty_catalog, find_preset_in,
    local_override_path, merge_catalog, preset_list_in, presets_overview, required_script_paths,
    resolve_repo_base, validate_catalog, Preset, PresetCatalog, CatalogSource, DEFAULT_PRESETS_REPO,
    SCHEMA_VERSION,
};

fn preset(name: &str, display: &str, url: &str, description: &str) -> Preset {
    Preset {
        name: name.to_string(),
        display_name: display.to_string(),
        openapi_url: url.to_string(),
        base_url: None,
        default_auth: None,
        description: description.to_string(),
    }
}

fn auth(auth_type: &str) -> AuthConfig {
    AuthConfig {
        auth_type: auth_type.to_string(),
        token_env: None,
        header: None,
        prefix: None,
        command: None,
        env: None,
    }
}

fn env(pairs: &[(&str, &str)]) -> OrdMap<String> {
    let mut m = OrdMap::new();
    for (k, v) in pairs {
        m.insert(k.to_string(), v.to_string());
    }
    m
}

fn catalog(version: u32, scripts: &[&str], presets: Vec<Preset>) -> PresetCatalog {
    PresetCatalog {
        schema_version: version,
        scripts: scripts.iter().map(|s| s.to_string()).collect(),
        presets,
    }
}

fn script_preset(name: &str, command: &str, base_url: Option<&str>) -> Preset {
    let mut p = preset(name, name, "", "fixture");
    let mut a = auth("script");
    a.command = Some(command.to_string());
    p.default_auth = Some(a);
    p.base_url = base_url.map(|b| b.to_string());
    p
}

/// The lookup fixture: a bearer-token and a custom-header preset.
fn lookup_fixture() -> PresetCatalog {
    let mut github = preset("github", "GitHub REST API", "https://api.github.com/openapi.json", "fixture github");
    let mut a = auth("bearer_token");
    a.token_env = Some("GITHUB_TOKEN".to_string());
    github.default_auth = Some(a);
    let mut gitlab = preset("gitlab", "GitLab API v4", "https://gitlab.com/openapi.yaml", "fixture gitlab");
    let mut a = auth("custom_header");
    a.token_env = Some("GITLAB_TOKEN".to_string());
    a.header = Some("PRIVATE-TOKEN".to_string());
    gitlab.default_auth = Some(a);
    validate_catalog(catalog(1, &[], vec![github, gitlab])).unwrap()
}

/// The repository fixture: two raw-only presets signed by scripts.
fn repo_catalog() -> PresetCatalog {
    let mut aliyun = script_preset("aliyun", "auth/aliyun-sign.sh", Some("https://ecs.aliyuncs.com"));
    aliyun.openapi_url = "https://api.aliyun.com/meta/v1/products.json".to_string();
    aliyun.display_name = "Alibaba Cloud".to_string();
    aliyun.default_auth.as_mut().unwrap().env = Some(env(&[
        ("ALIYUN_ACCESS_KEY_ID", "${ALIBABA_CLOUD_ACCESS_KEY_ID}"),
        ("ALIYUN_ACCESS_KEY_SECRET", "${ALIBABA_CLOUD_ACCESS_KEY_SECRET}"),
    ]));
    let mut tencent = script_preset("tencent", "auth/tencent-sign.sh", Some("https://cvm.tencentcloudapi.com"));
    tencent.openapi_url = "https://cvm.tencentcloudapi.com/".to_string();
    tencent.display_name = "Tencent Cloud".to_string();
    tencent.default_auth.as_mut().unwrap().env = Some(env(&[
        ("TENCENTCLOUD_SECRET_ID", "${TENCENTCLOUD_SECRET_ID}"),
        ("TENCENTCLOUD_SECRET_KEY", "${TENCENTCLOUD_SECRET_KEY}"),
        ("TENCENTCLOUD_SERVICE", "cvm"),
        ("TENCENTCLOUD_REGION", "ap-beijing"),
    ]));
    validate_catalog(catalog(1, &["auth/aliyun-sign.sh", "auth/tencent-sign.sh"], vec![aliyun, tencent])).unwrap()
}

fn repo_preset(name: &str) -> Preset {
    find_preset_in(&repo_catalog(), name).unwrap_or_else(|| panic!("repo preset '{}' missing", name))
}

fn catalog_with_two() -> PresetCatalog {
    validate_catalog(catalog(
        1,
        &[],
        vec![
            preset("github", "GitHub", "https://example.com/gh.json", "base github"),
            preset("stripe", "Stripe", "https://example.com/stripe.json", "base stripe"),
        ],
    ))
    .unwrap()
}

fn override_catalog() -> PresetCatalog {
    let mut internal = preset("internal", "Internal API", "https://internal.example/openapi.json", "added locally");
    let mut a = auth("bearer_token");
    a.token_env = Some("INTERNAL_API_TOKEN".to_string());
    internal.default_auth = Some(a);
    validate_catalog(catalog(
        1,
        &[],
        vec![
            preset("github", "GitHub (patched)", "https://example.com/gh-v2.json", "overridden locally"),
            internal,
        ],
    ))
    .unwrap()
}

const CONFIG_DIR: &str = "/home/user/.config/restie";

#[test]
fn test_default_repo_points_at_the_presets_repository() {
    assert_eq!(DEFAULT_PRESETS_REPO, "https://raw.githubusercontent.com/samxxu/restie-presets/main");
    assert!(!DEFAULT_PRESETS_REPO.ends_with('/'), "the raw base URL must not have a trailing slash");
}

#[test]
fn test_empty_catalog_is_empty_and_well_formed() {
    let c = empty_catalog();
    assert!(c.presets.is_empty());
    assert!(c.scripts.is_empty());
    assert_eq!(c.schema_version, SCHEMA_VERSION);
}

#[test]
fn test_parse_catalog_rejects_newer_schema() {
    let err = validate_catalog(catalog(99, &[], vec![])).err().unwrap();
    assert!(err.contains("schema_version"), "got: {}", err);
    assert!(err.contains("99"), "got: {}", err);
}

#[test]
fn test_parse_catalog_rejects_older_schema_below_min() {
    let err = validate_catalog(catalog(0, &[], vec![])).err().unwrap();
    assert!(err.contains("schema_version"), "got: {}", err);
}

#[test]
fn test_parse_catalog_minimal_valid() {
    let c = validate_catalog(catalog(1, &[], vec![])).unwrap();
    assert_eq!(c.schema_version, 1);
    assert!(c.presets.is_empty());
}

#[test]
fn test_parse_catalog_rejects_duplicate_names() {
    let err = validate_catalog(catalog(
        1,
        &[],
        vec![
            preset("dup", "First", "https://example.com/a.json", "first"),
            preset("dup", "Second", "https://example.com/b.json", "second"),
        ],
    ))
    .err()
    .unwrap();
    assert!(err.contains("duplicate"), "got: {}", err);
    assert!(err.contains("dup"), "got: {}", err);
}

#[test]
fn test_parse_catalog_rejects_empty_name() {
    let err = validate_catalog(catalog(1, &[], vec![preset("", "Nameless", "https://example.com/a.json", "nameless")]))
        .err()
        .unwrap();
    assert!(err.contains("empty 'name'"), "got: {}", err);
}

#[test]
fn test_parse_catalog_rejects_empty_openapi_url() {
    let err = validate_catalog(catalog(1, &[], vec![preset("nousl", "No URL", "", "missing url")]))
        .err()
        .unwrap();
    assert!(err.contains("openapi_url"), "got: {}", err);
}

#[test]
fn test_parse_catalog_rejects_script_without_command() {
    let mut p = preset("noscript", "No Script", "https://example.com/a.json", "script auth without command");
    p.default_auth = Some(auth("script"));
    let err = validate_catalog(catalog(1, &[], vec![p])).err().unwrap();
    assert!(err.contains("command"), "got: {}", err);
}

#[test]
fn test_parse_catalog_rejects_absolute_script_path() {
    let mut p = script_preset("evil", "/tmp/evil.sh", None);
    p.openapi_url = "https://example.com/a.json".to_string();
    let err = validate_catalog(catalog(1, &[], vec![p])).err().unwrap();
    assert!(err.contains("unsafe script path"), "got: {}", err);
}

#[test]
fn test_parse_catalog_rejects_parent_dir_script_path() {
    let mut p = script_preset("escape", "../../tmp/evil.sh", None);
    p.openapi_url = "https://example.com/a.json".to_string();
    let err = validate_catalog(catalog(1, &[], vec![p])).err().unwrap();
    assert!(err.contains("unsafe script path"), "got: {}", err);
}

#[test]
fn test_parse_catalog_accepts_relative_script_path() {
    let mut p = script_preset("good", "auth/good-sign.sh", Some("https://good.example.com"));
    p.default_auth.as_mut().unwrap().env = Some(env(&[("GOOD_KEY", "${GOOD_KEY}")]));
    let c = validate_catalog(catalog(1, &[], vec![p])).unwrap();
    let a = c.presets[0].default_auth.as_ref().unwrap();
    assert_eq!(a.command.as_deref(), Some("auth/good-sign.sh"));
    assert_eq!(c.presets[0].openapi_url, "");
}

#[test]
fn test_parse_catalog_rejects_script_preset_without_base_url() {
    let p = script_preset("hostless", "auth/x.sh", None);
    let err = validate_catalog(catalog(1, &[], vec![p])).err().unwrap();
    assert!(err.contains("base_url"), "got: {}", err);
}

#[test]
fn test_parse_catalog_rejects_script_preset_with_bad_base_url() {
    let p = script_preset("badhost", "auth/x.sh", Some("example.com"));
    let err = validate_catalog(catalog(1, &[], vec![p])).err().unwrap();
    assert!(err.contains("base_url must be an http(s) URL"), "got: {}", err);
}

#[test]
fn test_parse_catalog_allows_spec_preset_without_base_url() {
    let mut p = preset("spec", "Spec Based", "https://example.com/openapi.json", "no base_url needed");
    let mut a = auth("bearer_token");
    a.token_env = Some("SPEC_TOKEN".to_string());
    p.default_auth = Some(a);
    assert!(validate_catalog(catalog(1, &[], vec![p])).is_ok());
}

#[test]
fn test_parse_catalog_rejects_empty_env_name() {
    let mut p = script_preset("emptyenv", "auth/x.sh", None);
    p.openapi_url = "https://example.com/a.json".to_string();
    p.default_auth.as_mut().unwrap().env = Some(env(&[("", "value")]));
    let err = validate_catalog(catalog(1, &[], vec![p])).err().unwrap();
    assert!(err.contains("env var name"), "got: {}", err);
}

#[test]
fn test_parse_catalog_rejects_unsafe_manifest_script() {
    let err = validate_catalog(catalog(1, &["../evil.sh"], vec![])).err().unwrap();
    assert!(err.contains("unsafe script path"), "got: {}", err);
}

#[test]
fn test_parse_catalog_accepts_manifest_with_scripts() {
    let c = validate_catalog(catalog(1, &["auth/aliyun-sign.sh", "auth/tencent-sign.sh"], vec![])).unwrap();
    assert_eq!(c.scripts.len(), 2);
    assert!(c.scripts.contains(&"auth/aliyun-sign.sh".to_string()));
}

#[test]
fn test_parse_catalog_rejects_non_http_openapi_url() {
    let err = validate_catalog(catalog(1, &[], vec![preset("bad", "Bad", "./local/spec.json", "not a URL")]))
        .err()
        .unwrap();
    assert!(err.contains("http(s) URL"), "got: {}", err);
}

#[test]
fn test_parse_catalog_rejects_empty_display_name() {
    let err = validate_catalog(catalog(
        1,
        &[],
        vec![preset("noname", "  ", "https://example.com/a.json", "has a description")],
    ))
    .err()
    .unwrap();
    assert!(err.contains("display_name"), "got: {}", err);
}

#[test]
fn test_parse_catalog_rejects_empty_description() {
    let err = validate_catalog(catalog(
        1,
        &[],
        vec![preset("nodesc", "No Description", "https://example.com/a.json", "")],
    ))
    .err()
    .unwrap();
    assert!(err.contains("description"), "got: {}", err);
}

#[test]
fn test_find_preset_in_fixture() {
    let c = lookup_fixture();
    let p = find_preset_in(&c, "github").unwrap();
    assert_eq!(p.name, "github");
    assert!(p.default_auth.is_some());
}

#[test]
fn test_find_preset_missing_is_none() {
    assert!(find_preset_in(&lookup_fixture(), "nonexistent").is_none());
}

#[test]
fn test_find_preset_in_empty_catalog_is_none() {
    assert!(find_preset_in(&empty_catalog(), "github").is_none());
}

#[test]
fn test_preset_list_in_fixture() {
    let list = preset_list_in(&lookup_fixture());
    assert_eq!(list.len(), 2);
    assert_eq!(list.get("github").map(String::as_str), Some("GitHub REST API"));
    assert_eq!(list.get("gitlab").map(String::as_str), Some("GitLab API v4"));
}

#[test]
fn test_preset_list_of_empty_catalog_is_empty() {
    assert!(preset_list_in(&empty_catalog()).is_empty());
}

#[test]
fn test_github_preset_has_bearer_auth() {
    let a = find_preset_in(&lookup_fixture(), "github").unwrap().default_auth.unwrap();
    assert_eq!(a.auth_type, "bearer_token");
    assert_eq!(a.token_env, Some("GITHUB_TOKEN".to_string()));
}

#[test]
fn test_gitlab_preset_has_custom_header() {
    let a = find_preset_in(&lookup_fixture(), "gitlab").unwrap().default_auth.unwrap();
    assert_eq!(a.auth_type, "custom_header");
    assert_eq!(a.header, Some("PRIVATE-TOKEN".to_string()));
}

#[test]
fn test_aliyun_preset_has_script_auth() {
    let a = repo_preset("aliyun").default_auth.unwrap();
    assert_eq!(a.auth_type, "script");
    assert_eq!(a.command.as_deref(), Some("auth/aliyun-sign.sh"));
    assert!(a.env.is_some());
    let e = a.env.unwrap();
    assert!(e.contains_key("ALIYUN_ACCESS_KEY_ID"));
    assert!(e.contains_key("ALIYUN_ACCESS_KEY_SECRET"));
}

#[test]
fn test_tencent_preset_has_script_auth() {
    let a = repo_preset("tencent").default_auth.unwrap();
    assert_eq!(a.auth_type, "script");
    assert_eq!(a.command.as_deref(), Some("auth/tencent-sign.sh"));
    assert!(a.env.is_some());
    let e = a.env.unwrap();
    assert!(e.contains_key("TENCENTCLOUD_SECRET_ID"));
    assert!(e.contains_key("TENCENTCLOUD_SECRET_KEY"));
    assert!(e.contains_key("TENCENTCLOUD_SERVICE"));
    assert!(e.contains_key("TENCENTCLOUD_REGION"));
}

#[test]
fn test_aliyun_env_values_are_indirections_not_secrets() {
    let e = repo_preset("aliyun").default_auth.unwrap().env.unwrap();
    for i in 0..e.len() {
        let value = e.value_at(i);
        assert!(
            value.starts_with("${") && value.ends_with('}'),
            "{} should be a ${{VAR}} indirection, got '{}'",
            e.key_at(i),
            value
        );
    }
}

#[test]
fn test_raw_only_presets_have_base_urls() {
    let c = repo_catalog();
    for name in ["aliyun", "tencent"] {
        let p = c.presets.iter().find(|p| p.name == name).unwrap_or_else(|| panic!("preset '{}' missing", name));
        let a = p.default_auth.as_ref().unwrap_or_else(|| panic!("preset '{}' lost its auth", name));
        assert_eq!(a.auth_type, "script", "preset '{}' must be script-auth", name);
        let base = p.base_url.as_deref().unwrap_or_else(|| panic!("preset '{}' must define a base_url", name));
        assert!(base.starts_with("https://"), "preset '{}' base_url: {}", name, base);
    }
}

#[test]
fn test_required_script_paths_from_command_and_manifest() {
    let paths = required_script_paths(&repo_catalog());
    assert!(paths.contains(&"auth/aliyun-sign.sh".to_string()));
    assert!(paths.contains(&"auth/tencent-sign.sh".to_string()));
}

#[test]
fn test_local_override_path_is_not_the_remote_cache() {
    assert_ne!(local_override_path(CONFIG_DIR), cache_catalog_path(CONFIG_DIR));
    assert!(
        local_override_path(CONFIG_DIR).ends_with("presets/catalog.local.yaml"),
        "got {}",
        local_override_path(CONFIG_DIR)
    );
}

#[test]
fn test_merge_catalog_overrides_by_name_and_appends_new() {
    let base = catalog_with_two();
    let overlay = override_catalog();
    let merged = merge_catalog(&base, &overlay);
    assert_eq!(merged.presets.len(), 3, "2 base + 1 new, 1 replaced");
    let names: Vec<&str> = merged.presets.iter().map(|p| p.name.as_str()).collect();
    assert_eq!(names, vec!["github", "stripe", "internal"]);
    assert_eq!(merged.presets[0].display_name, "GitHub (patched)");
    assert_eq!(merged.presets[0].openapi_url, "https://example.com/gh-v2.json");
    assert_eq!(merged.presets[1].description, "base stripe");
    assert_eq!(merged.presets[2].default_auth.as_ref().unwrap().auth_type, "bearer_token");
}

#[test]
fn test_merge_catalog_does_not_mutate_inputs() {
    let base = catalog_with_two();
    let overlay = override_catalog();
    let merged = merge_catalog(&base, &overlay);
    assert_eq!(merged.presets.len(), 3);
    assert_eq!(base.presets.len(), 2, "base must be untouched");
    assert_eq!(overlay.presets.len(), 2, "overlay must be untouched");
    assert_eq!(base.presets[0].display_name, "GitHub");
}

#[test]
fn test_merge_catalog_unions_and_sorts_scripts() {
    let base = validate_catalog(catalog(1, &["auth/a.sh", "auth/shared.sh"], vec![])).unwrap();
    let overlay = validate_catalog(catalog(1, &["auth/shared.sh", "auth/b.sh"], vec![])).unwrap();
    let merged = merge_catalog(&base, &overlay);
    assert_eq!(merged.scripts, vec!["auth/a.sh", "auth/b.sh", "auth/shared.sh"]);
}

#[test]
fn test_merge_catalog_takes_highest_schema_version() {
    let base = validate_catalog(catalog(1, &[], vec![])).unwrap();
    let overlay = validate_catalog(catalog(1, &[], vec![])).unwrap();
    assert_eq!(merge_catalog(&base, &overlay).schema_version, 1);
}

// ---------------------------------------------------------------------------
// Further cases
// ---------------------------------------------------------------------------

#[test]
fn repo_base_precedence() {
    assert_eq!(resolve_repo_base(Some("https://arg.example/repo"), Some("https://env.example/repo")).unwrap(), "https://arg.example/repo");
    assert_eq!(resolve_repo_base(Some("   "), Some("https://env.example/repo")).unwrap(), "https://env.example/repo");
    assert_eq!(resolve_repo_base(None, None).unwrap(), DEFAULT_PRESETS_REPO);
    assert_eq!(default_repo_base(None).unwrap(), DEFAULT_PRESETS_REPO);
}

#[test]
fn cache_paths() {
    assert_eq!(cache_dir(CONFIG_DIR), "/home/user/.config/restie/presets");
    assert_eq!(cache_catalog_path(CONFIG_DIR), "/home/user/.config/restie/presets/catalog.yaml");
}

#[test]
fn effective_catalog_layers() {
    let eff = effective(None, None, "/o.yaml");
    assert_eq!(eff.source, CatalogSource::Empty);
    assert_eq!(eff.description, "no catalog fetched yet");
    assert!(eff.catalog.presets.is_empty());

    let eff = effective(Some((catalog_with_two(), "/c.yaml".to_string())), Some(override_catalog()), "/o.yaml");
    assert_eq!(eff.source, CatalogSource::Remote);
    assert_eq!(eff.local_overrides, 2);
    assert_eq!(eff.description, "remote cache (/c.yaml) + 2 preset(s) from local override (/o.yaml)");
    assert_eq!(eff.catalog.presets.len(), 3);
}

#[test]
fn presets_overview_table() {
    let all = lookup_fixture().presets;
    let text = presets_overview(&all, "remote cache (/c.yaml)", 2, "/o.yaml");
    assert!(text.starts_with("Available platform presets:\n\n  Name     Auth Type       Env Variable   Description\n"));
    assert!(text.contains("  github   bearer_token    GITHUB_TOKEN   fixture github\n"));
    assert!(text.contains("  gitlab   custom_header   GITLAB_TOKEN   fixture gitlab\n"));
    assert!(text.contains("\nCatalog: schema v1 \u{2014} remote cache (/c.yaml) (2 presets)\n"));
    assert!(text.ends_with("Add or override presets locally: /o.yaml (never overwritten by update)\n"));
    let empty = presets_overview(&vec![], "", 0, "/o.yaml");
    assert!(empty.starts_with("No presets available yet.\n\n"));
    assert!(empty.contains("\n  /o.yaml\n"));
}

#[test]
fn validated_catalog_stages_only_safe_paths() {
    let c = validate_catalog(repo_catalog()).unwrap();
    let paths = required_script_paths(&c);
    assert!(!paths.is_empty());
    for p in &paths {
        assert!(!p.trim().is_empty());
        assert!(!p.starts_with('/'));
        assert!(!p.split('/').any(|seg| seg == ".."));
    }
}

#[test]
fn merged_scripts_are_a_sorted_union_and_version_is_the_higher() {
    let base = catalog(1, &["b.sh", "a.sh"], vec![]);
    let overlay = catalog(2, &["c.sh", "a.sh"], vec![]);
    let m = merge_catalog(&base, &overlay);
    assert_eq!(m.scripts, vec!["a.sh", "b.sh", "c.sh"]);
    assert_eq!(m.schema_version, 2);
}
