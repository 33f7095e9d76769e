use restie::commands::{
    blank_spec_error, choose_site_name, default_output_path, directory_output_error,
    empty_config_error, generated_message, levenshtein, looks_like_spec_source, module_action,
    plan_generate, raw_generated_message, raw_site_config, read_invocation, suggest_command,
    with_preset_auth, GeneratePlan, ModuleAction,
};
use restie::config::{AuthConfig, EndpointConfig, ModuleConfig, ParamConfig, SiteConfig, SiteInfo};
use restie::ordmap::OrdMap;
use restie::presets::Preset;

fn strings(v: &[&str]) -> Vec<String> {
    v.iter().map(|s| s.to_string()).collect()
}

fn sample() -> SiteConfig {
    let mut params = OrdMap::new();
    params.insert(
        "owner".to_string(),
        ParamConfig { required: true, location: "path".to_string(), description: None, param_type: None, default: None },
    );
    let mut cmds = OrdMap::new();
    cmds.insert(
        "get".to_string(),
        EndpointConfig {
            method: "GET".to_string(),
            path: "/users/{owner}".to_string(),
            summary: Some("Get a user".to_string()),
            aliases: vec![],
            params,
        },
    );
    let mut modules = OrdMap::new();
    modules.insert("users".to_string(), ModuleConfig { commands: cmds });
    SiteConfig {
        site: Some(SiteInfo { name: Some("T".to_string()), base_url: None, auth: None, headers: None }),
        modules,
    }
}

fn preset(auth_type: Option<&str>) -> Preset {
    Preset {
        name: "p".to_string(),
        display_name: "P".to_string(),
        openapi_url: "https://p.example/openapi.json".to_string(),
        base_url: None,
        default_auth: auth_type.map(|t| AuthConfig {
            auth_type: t.to_string(),
            token_env: None,
            header: None,
            prefix: None,
            command: Some("auth/p.sh".to_string()),
            env: None,
        }),
        description: "d".to_string(),
    }
}

#[test]
fn edit_distances() {
    assert_eq!(levenshtein("kitten", "sitting"), 3);
    assert_eq!(levenshtein("", "abc"), 3);
    assert_eq!(levenshtein("abc", ""), 3);
    assert_eq!(levenshtein("preset", "presets"), 1);
    assert_eq!(levenshtein("same", "same"), 0);
    assert_eq!(levenshtein("ab", "ba"), levenshtein("ba", "ab"));
}

#[test]
fn suggestions() {
    assert_eq!(suggest_command("preset"), Some("presets"));
    assert_eq!(suggest_command("lst"), Some("list"));
    assert_eq!(suggest_command("GTE"), Some("GET"));
    assert_eq!(suggest_command("repos"), None);
    assert_eq!(suggest_command("PUTS"), Some("PUT"));
}

#[test]
fn spec_sources() {
    assert!(looks_like_spec_source("https://x/openapi.json", false));
    assert!(looks_like_spec_source("./spec.yaml", true));
    assert!(!looks_like_spec_source("github", false));
}

#[test]
fn invocation_reads_flags_after_module() {
    let inv = read_invocation(&strings(&["get", "--site", "gh", "--owner", "o", "--raw"]), false, Some("before"), None);
    assert!(inv.raw);
    assert_eq!(inv.site.as_deref(), Some("gh"));
    assert_eq!(inv.config_path, None);
    assert_eq!(inv.command, "get");
    assert_eq!(inv.params.get("owner"), Some(&"o".to_string()));
    let inv = read_invocation(&strings(&["--help"]), false, Some("before"), Some("c.yaml"));
    assert_eq!(inv.command, "");
    assert_eq!(inv.site.as_deref(), Some("before"));
    assert_eq!(inv.config_path.as_deref(), Some("c.yaml"));
}

#[test]
fn module_actions() {
    let cfg = sample();
    let inv = read_invocation(&strings(&[]), false, None, None);
    match module_action("users", &inv, Some(&cfg)) {
        ModuleAction::Show(t) => assert_eq!(t, cfg.help_for_module("users")),
        _ => panic!("expected module help"),
    }
    match module_action("preset", &inv, None) {
        ModuleAction::Warn(t) => assert_eq!(
            t,
            "Unknown command: 'preset'. Did you mean 'presets'?\nRun 'restie presets' to see available platforms."
        ),
        _ => panic!("expected a suggestion"),
    }
    assert!(matches!(module_action("zzzzzz", &inv, None), ModuleAction::Onboard { on_stderr: false, failed: false }));

    let inv = read_invocation(&strings(&["get", "--help"]), false, None, None);
    match module_action("users", &inv, Some(&cfg)) {
        ModuleAction::Show(t) => assert_eq!(t, cfg.help_for_command("users", "get")),
        _ => panic!("expected command help"),
    }

    let inv = read_invocation(&strings(&["get", "--owner", "octo"]), false, None, None);
    assert!(matches!(module_action("users", &inv, None), ModuleAction::Onboard { on_stderr: true, failed: true }));
    match module_action("users", &inv, Some(&cfg)) {
        ModuleAction::Call(parts) => {
            assert_eq!(parts.method, "GET");
            assert_eq!(parts.path, "/users/octo");
        }
        _ => panic!("expected a call"),
    }
    match module_action("users", &read_invocation(&strings(&["get"]), false, None, None), Some(&cfg)) {
        ModuleAction::Fail(t) => assert_eq!(
            t,
            "Error: Missing required parameter '--owner' for path '/users/{owner}'\nRun 'restie users get --help' to see required parameters."
        ),
        _ => panic!("expected a failure"),
    }
    match module_action("users", &read_invocation(&strings(&["nope"]), false, None, None), Some(&cfg)) {
        ModuleAction::Fail(t) => {
            assert!(t.starts_with("Command 'users nope' not found in config.\nAvailable commands in module 'users':\nModule: users"))
        }
        _ => panic!("expected a failure"),
    }
}

#[test]
fn generate_plans() {
    match plan_generate("p", Some(preset(Some("script"))), false, false) {
        GeneratePlan::RawOnly(p) => assert_eq!(p.name, "p"),
        _ => panic!("expected raw-only"),
    }
    match plan_generate("p", Some(preset(Some("bearer_token"))), false, false) {
        GeneratePlan::FromSpec { source, site_name_hint, auth } => {
            assert_eq!(source, "https://p.example/openapi.json");
            assert_eq!(site_name_hint.as_deref(), Some("p"));
            assert_eq!(auth.unwrap().auth_type, "bearer_token");
        }
        _ => panic!("expected a spec"),
    }
    match plan_generate("./spec.json", None, true, false) {
        GeneratePlan::FromSpec { source, site_name_hint, auth } => {
            assert_eq!(source, "./spec.json");
            assert!(site_name_hint.is_none() && auth.is_none());
        }
        _ => panic!("expected a spec"),
    }
    match plan_generate("nope", None, false, true) {
        GeneratePlan::Unknown(m) => assert_eq!(
            m,
            "Error: unknown preset 'nope'.\nNo preset catalog is available yet, so no presets exist to match.\nFetch one with 'restie presets update'."
        ),
        _ => panic!("expected unknown"),
    }
    match plan_generate("nope", None, false, false) {
        GeneratePlan::Unknown(m) => assert_eq!(m, "Error: unknown preset 'nope'.\nRun 'restie presets' to see available presets."),
        _ => panic!("expected unknown"),
    }
}

#[test]
fn generate_finishing() {
    assert_eq!(
        blank_spec_error("u", " \n").as_deref(),
        Some("Error: OpenAPI spec at 'u' is empty \u{2014} nothing to generate from.")
    );
    assert!(blank_spec_error("u", "{}").is_none());
    let cfg = sample();
    assert_eq!(cfg.command_count(), 1);
    assert!(empty_config_error(0).is_some());
    assert!(empty_config_error(3).is_none());
    assert_eq!(choose_site_name(&cfg, Some("mine".to_string()), Some("p".to_string())), "mine");
    assert_eq!(choose_site_name(&cfg, None, Some("p".to_string())), "p");
    assert_eq!(choose_site_name(&cfg, None, None), "t");
    assert_eq!(default_output_path("/home/u/.config/restie", "gh"), "/home/u/.config/restie/gh.yaml");
    assert_eq!(
        directory_output_error("/tmp"),
        "Error: output path '/tmp' is a directory. Use --output <file>.yaml"
    );
    assert_eq!(generated_message("/x.yaml", "gh", 2, 10), "Generated /x.yaml (site: gh, 2 modules, 10 endpoints)");
    let auth = AuthConfig {
        auth_type: "bearer_token".to_string(),
        token_env: Some("T".to_string()),
        header: None,
        prefix: None,
        command: None,
        env: None,
    };
    let with = with_preset_auth(sample(), Some(auth));
    assert_eq!(with.site.unwrap().auth.unwrap().token_env.as_deref(), Some("T"));
}

#[test]
fn raw_only_configs() {
    let mut p = preset(Some("script"));
    let (cfg, name) = raw_site_config(&p, None);
    assert_eq!(name, "p");
    let site = cfg.site.unwrap();
    assert_eq!(site.base_url.as_deref(), Some("https://example.com"));
    assert_eq!(site.auth.unwrap().auth_type, "script");
    assert_eq!(cfg.modules.len(), 0);
    p.base_url = Some("https://ecs.example".to_string());
    let (cfg, name) = raw_site_config(&p, Some("mine".to_string()));
    assert_eq!(name, "mine");
    assert_eq!(cfg.site.unwrap().base_url.as_deref(), Some("https://ecs.example"));
    let m = raw_generated_message("/x.yaml", "ali");
    assert!(m.starts_with("Generated /x.yaml (site: ali, raw-only \u{2014} no commands)\nCall it in raw mode: restie --site ali <METHOD>"));
}
