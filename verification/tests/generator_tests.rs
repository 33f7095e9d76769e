use restie::generator::{generate_config, looks_like_json};
use restie::json::{compact_text, default_to_string, resolve_ref, JsonValue};
use restie::naming::{site_name_to_filename, summary_to_command_name, word_variants, strip_module_prefix, derive_fallback_name};

/// The library's form of a parsed JSON value.
fn to_json(v: &serde_json::Value) -> JsonValue {
    match v {
        serde_json::Value::Null => JsonValue::Null,
        serde_json::Value::Bool(b) => JsonValue::Bool(*b),
        serde_json::Value::Number(n) => JsonValue::Number(n.to_string()),
        serde_json::Value::String(s) => JsonValue::Str(s.clone()),
        serde_json::Value::Array(a) => JsonValue::Array(a.iter().map(to_json).collect()),
        serde_json::Value::Object(o) => {
            JsonValue::Object(o.iter().map(|(k, x)| (k.clone(), to_json(x))).collect())
        }
    }
}

fn parse(text: &str) -> JsonValue {
    let v: serde_json::Value = serde_json::from_str(text).unwrap();
    to_json(&v)
}

const SAMPLE_OPENAPI: &str = r#"{
  "openapi": "3.0.0",
  "info": { "title": "GitHub API", "version": "1.0" },
  "servers": [{ "url": "https://api.github.com" }],
  "paths": {
    "/repos/{owner}/{repo}": {
      "get": {
        "operationId": "repos/get",
        "summary": "Get a repository",
        "tags": ["repos"],
        "parameters": [
          { "name": "owner", "in": "path", "required": true, "description": "Repository owner", "schema": { "type": "string" } },
          { "name": "repo", "in": "path", "required": true, "description": "Repository name", "schema": { "type": "string" } }
        ]
      },
      "delete": {
        "operationId": "repos/delete",
        "summary": "Delete a repository",
        "tags": ["repos"],
        "parameters": [
          { "name": "owner", "in": "path", "required": true, "schema": { "type": "string" } },
          { "name": "repo", "in": "path", "required": true, "schema": { "type": "string" } }
        ]
      }
    },
    "/user/repos": {
      "get": {
        "operationId": "repos/list-for-authenticated-user",
        "summary": "List repositories for the authenticated user",
        "tags": ["repos"],
        "parameters": [
          { "name": "per_page", "in": "query", "required": false, "description": "Per page", "schema": { "type": "integer", "default": 30 } }
        ]
      },
      "post": {
        "operationId": "repos/create-for-authenticated-user",
        "summary": "Create a repository for the authenticated user",
        "tags": ["repos"],
        "requestBody": {
          "content": {
            "application/json": {
              "schema": {
                "type": "object",
                "required": ["name"],
                "properties": {
                  "name": { "type": "string", "description": "Repository name" },
                  "description": { "type": "string", "description": "Repository description" }
                }
              }
            }
          }
        }
      }
    },
    "/repos/{owner}/{repo}/issues": {
      "post": {
        "operationId": "issues/create",
        "summary": "Create an issue",
        "tags": ["issues"],
        "parameters": [
          { "name": "owner", "in": "path", "required": true, "schema": { "type": "string" } },
          { "name": "repo", "in": "path", "required": true, "schema": { "type": "string" } }
        ],
        "requestBody": {
          "content": {
            "application/json": {
              "schema": {
                "type": "object",
                "required": ["title"],
                "properties": {
                  "title": { "type": "string", "description": "Issue title" },
                  "body": { "type": "string", "description": "Issue body" }
                }
              }
            }
          }
        }
      }
    }
  }
}"#;

#[test]
fn test_generate_config_basic() {
    let config = generate_config(&parse(SAMPLE_OPENAPI), None);
    assert!(config.site.is_some());
    let site = config.site.unwrap();
    assert_eq!(site.name, Some("GitHub API".to_string()));
    assert_eq!(site.base_url, Some("https://api.github.com".to_string()));
}

#[test]
fn test_generate_config_modules() {
    let config = generate_config(&parse(SAMPLE_OPENAPI), None);
    assert_eq!(config.modules.len(), 2);
    assert!(config.modules.contains_key("repos"));
    assert!(config.modules.contains_key("issues"));
}

#[test]
fn test_command_names_stripped_of_module_word() {
    let config = generate_config(&parse(SAMPLE_OPENAPI), None);
    let repos = config.modules.get("repos").unwrap();
    assert!(repos.commands.contains_key("get"));
    assert!(repos.commands.contains_key("delete"));
    assert!(repos.commands.contains_key("list-mine"));
    assert!(repos.commands.contains_key("create-mine"));
}

#[test]
fn test_operation_id_aliases_preserved() {
    let config = generate_config(&parse(SAMPLE_OPENAPI), None);
    let repos = config.modules.get("repos").unwrap();
    let get_ep = repos.commands.get("get").unwrap();
    assert!(get_ep.aliases.contains(&"repos/get".to_string()));
    let create_ep = repos.commands.get("create-mine").unwrap();
    assert!(create_ep.aliases.contains(&"repos/create-for-authenticated-user".to_string()));
}

#[test]
fn test_path_params() {
    let config = generate_config(&parse(SAMPLE_OPENAPI), None);
    let repos = config.modules.get("repos").unwrap();
    let ep = repos.commands.get("get").unwrap();
    assert_eq!(ep.method, "GET");
    assert_eq!(ep.path, "/repos/{owner}/{repo}");
    let owner = ep.params.get("owner").unwrap();
    assert!(owner.required);
    assert_eq!(owner.location, "path");
    assert_eq!(owner.description, Some("Repository owner".to_string()));
}

#[test]
fn test_body_params() {
    let config = generate_config(&parse(SAMPLE_OPENAPI), None);
    let issues = config.modules.get("issues").unwrap();
    let ep = issues.commands.get("create").unwrap();
    assert_eq!(ep.method, "POST");
    let title = ep.params.get("title").unwrap();
    assert!(title.required);
    assert_eq!(title.location, "body");
}

#[test]
fn test_filter() {
    let config = generate_config(&parse(SAMPLE_OPENAPI), Some("issues"));
    let repos_count = config.modules.get("repos").map(|m| m.commands.len()).unwrap_or(0);
    assert_eq!(repos_count, 0);
    let issues_count = config.modules.get("issues").map(|m| m.commands.len()).unwrap_or(0);
    assert_eq!(issues_count, 1);
}

#[test]
fn test_site_name_to_filename() {
    assert_eq!(site_name_to_filename("GitHub v3 REST API"), "github");
    assert_eq!(site_name_to_filename("Vultr API v2"), "vultr");
    assert_eq!(site_name_to_filename("Amazon EC2 API"), "amazon-ec2");
    assert_eq!(site_name_to_filename("Aliyun API"), "aliyun");
}

#[test]
fn test_site_name_to_filename_empty_after_strip() {
    assert_eq!(site_name_to_filename("V3 REST API v2"), "v3");
    assert_eq!(site_name_to_filename("API v2"), "api");
    assert_eq!(site_name_to_filename("---"), "site");
}

#[test]
fn file_names_are_plain_stems() {
    for title in ["  Acme -- Cloud__API!! ", "!!!", "Über Service v1", "REST API", "x"] {
        let name = site_name_to_filename(title);
        assert!(!name.is_empty());
        assert!(name.chars().all(|c| c.is_ascii_alphanumeric() || c == '-'));
        assert!(!name.starts_with('-') && !name.ends_with('-'));
        assert!(!name.contains("--"));
        assert!(!name.chars().any(|c| c.is_ascii_uppercase()));
    }
    assert_eq!(site_name_to_filename("  Acme -- Cloud__API!! "), "acme-cloud");
    assert_eq!(site_name_to_filename("REST API"), "rest");
}

#[test]
fn test_body_params_with_schema_ref() {
    let spec = r##"{
          "openapi": "3.0.0",
          "info": { "title": "Test" },
          "servers": [{ "url": "https://api.example.com" }],
          "components": {
            "schemas": {
              "Repo": {
                "type": "object",
                "required": ["name"],
                "properties": {
                  "name": { "type": "string", "description": "Repo name" },
                  "private": { "type": "boolean", "default": false }
                }
              }
            }
          },
          "paths": {
            "/user/repos": {
              "post": {
                "operationId": "repos/create",
                "summary": "Create a repository",
                "tags": ["repos"],
                "requestBody": {
                  "content": {
                    "application/json": {
                      "schema": { "$ref": "#/components/schemas/Repo" }
                    }
                  }
                }
              }
            }
          }
        }"##;
    let config = generate_config(&parse(spec), None);
    let module = config.modules.get("repos").unwrap();
    let cmd = module.commands.value_at(0);
    assert_eq!(cmd.params.get("name").unwrap().location, "body");
    assert!(cmd.params.get("name").unwrap().required);
    assert_eq!(cmd.params.get("private").unwrap().default.as_deref(), Some("false"));
}

#[test]
fn test_body_params_form_urlencoded_fallback() {
    let spec = r#"{
          "openapi": "3.0.0",
          "info": { "title": "Test" },
          "servers": [{ "url": "https://api.example.com" }],
          "paths": {
            "/login": {
              "post": {
                "operationId": "auth/login",
                "summary": "Login with credentials",
                "tags": ["auth"],
                "requestBody": {
                  "content": {
                    "application/x-www-form-urlencoded": {
                      "schema": {
                        "type": "object",
                        "required": ["username"],
                        "properties": {
                          "username": { "type": "string" },
                          "password": { "type": "string" }
                        }
                      }
                    }
                  }
                }
              }
            }
          }
        }"#;
    let config = generate_config(&parse(spec), None);
    let module = config.modules.get("auth").unwrap();
    let cmd = module.commands.value_at(0);
    assert_eq!(cmd.params.len(), 2);
    assert_eq!(cmd.params.get("username").unwrap().location, "body");
    assert!(cmd.params.get("username").unwrap().required);
}

#[test]
fn test_default_value_types() {
    let spec = r#"{
          "openapi": "3.0.0",
          "info": { "title": "Test" },
          "servers": [{ "url": "https://api.example.com" }],
          "paths": {
            "/search": {
              "get": {
                "operationId": "search/get",
                "summary": "Search items",
                "tags": ["search"],
                "parameters": [
                  { "name": "limit", "in": "query", "schema": { "type": "integer", "default": 20 } },
                  { "name": "ratio", "in": "query", "schema": { "type": "number", "default": 1.5 } },
                  { "name": "active", "in": "query", "schema": { "type": "boolean", "default": true } },
                  { "name": "tags", "in": "query", "schema": { "type": "array", "default": ["a", "b"] } }
                ]
              }
            }
          }
        }"#;
    let config = generate_config(&parse(spec), None);
    let module = config.modules.get("search").unwrap();
    let cmd = module.commands.value_at(0);
    assert_eq!(cmd.params.get("limit").unwrap().default.as_deref(), Some("20"));
    assert_eq!(cmd.params.get("ratio").unwrap().default.as_deref(), Some("1.5"));
    assert_eq!(cmd.params.get("active").unwrap().default.as_deref(), Some("true"));
    assert_eq!(cmd.params.get("tags").unwrap().default.as_deref(), Some("[\"a\",\"b\"]"));
}

#[test]
fn test_circular_ref_terminates() {
    let spec = r##"{
          "openapi": "3.0.0",
          "info": { "title": "Test" },
          "servers": [{ "url": "https://api.example.com" }],
          "components": {
            "parameters": {
              "p": { "$ref": "#/components/parameters/q" },
              "q": { "$ref": "#/components/parameters/p" }
            }
          },
          "paths": {
            "/items/{id}": {
              "get": {
                "operationId": "items/get",
                "summary": "Get an item",
                "tags": ["items"],
                "parameters": [
                  { "name": "id", "in": "path", "required": true, "schema": { "type": "string" } },
                  { "$ref": "#/components/parameters/p" }
                ]
              }
            }
          }
        }"##;
    let config = generate_config(&parse(spec), None);
    let module = config.modules.get("items").unwrap();
    let cmd = module.commands.value_at(0);
    assert_eq!(cmd.params.len(), 1);
    assert!(cmd.params.contains_key("id"));
}

#[test]
fn test_ref_chain_to_concrete_value() {
    let spec = r##"{
          "openapi": "3.0.0",
          "info": { "title": "Test" },
          "servers": [{ "url": "https://api.example.com" }],
          "components": {
            "schemas": {
              "A": { "$ref": "#/components/schemas/B" },
              "B": { "type": "integer", "default": 7 }
            }
          },
          "paths": {
            "/things": {
              "get": {
                "operationId": "things/get",
                "summary": "List things",
                "tags": ["things"],
                "parameters": [
                  { "name": "limit", "in": "query", "schema": { "$ref": "#/components/schemas/A" } }
                ]
              }
            }
          }
        }"##;
    let config = generate_config(&parse(spec), None);
    let module = config.modules.get("things").unwrap();
    let cmd = module.commands.value_at(0);
    assert_eq!(cmd.params.get("limit").unwrap().param_type.as_deref(), Some("integer"));
    assert_eq!(cmd.params.get("limit").unwrap().default.as_deref(), Some("7"));
}

// ---------------------------------------------------------------------------
// Further cases
// ---------------------------------------------------------------------------

#[test]
fn command_names_from_summaries() {
    assert_eq!(summary_to_command_name("Get a repository", "repos"), "get");
    assert_eq!(summary_to_command_name("List repositories for the authenticated user", "repos"), "list-mine");
    assert_eq!(summary_to_command_name("Create an issue", "issues"), "create");
    assert_eq!(summary_to_command_name("Closed - List organization members", "orgs"), "list-members");
    assert_eq!(summary_to_command_name("Repositories", "repos"), "repositories");
    assert_eq!(summary_to_command_name("!!!", "x"), "!!!");
    assert_eq!(summary_to_command_name("   ", "x"), "command");
}

#[test]
fn word_variants_and_prefixes() {
    assert_eq!(word_variants("repos"), vec!["repos", "repo", "repositories", "repository"]);
    assert_eq!(word_variants("issues"), vec!["issues", "issue"]);
    assert_eq!(word_variants("org"), vec!["org", "organizations", "organization"]);
    assert_eq!(strip_module_prefix("repos/get", "repos"), "get");
    assert_eq!(strip_module_prefix("issues/get", "repos"), "issues/get");
    assert_eq!(derive_fallback_name("GET", "/repos/{owner}/{repo}"), "get-repos-owner-repo");
}

#[test]
fn colliding_names_get_numbered() {
    let spec = r#"{
      "info": { "title": "T" },
      "paths": {
        "/a": { "get": { "summary": "List things", "tags": ["t"] } },
        "/b": { "get": { "summary": "List things", "tags": ["t"] } },
        "/c": { "get": { "summary": "List things", "tags": ["t"] } }
      }
    }"#;
    let config = generate_config(&parse(spec), None);
    let t = config.modules.get("t").unwrap();
    assert_eq!(t.commands.len(), 3);
    assert_eq!(t.commands.get("list-things").unwrap().path, "/a");
    assert_eq!(t.commands.get("list-things-2").unwrap().path, "/b");
    assert_eq!(t.commands.get("list-things-3").unwrap().path, "/c");
}

#[test]
fn missing_metadata_falls_back() {
    let spec = r#"{
      "servers": [{ "url": "https://x.example/api/" }],
      "paths": { "/ping": { "get": {}, "options": {} } }
    }"#;
    let config = generate_config(&parse(spec), None);
    let site = config.site.as_ref().unwrap();
    assert_eq!(site.name.as_deref(), Some("API"));
    assert_eq!(site.base_url.as_deref(), Some("https://x.example/api"));
    let misc = config.modules.get("misc").unwrap();
    assert_eq!(misc.commands.len(), 1);
    let ep = misc.commands.get("get-ping").unwrap();
    assert!(ep.aliases.is_empty());
    let none = generate_config(&parse("{}"), None);
    assert_eq!(none.site.unwrap().base_url.as_deref(), Some("https://api.github.com"));
    assert_eq!(none.modules.len(), 0);
}

#[test]
fn json_text_and_refs() {
    assert!(looks_like_json("  \n{\"a\":1}"));
    assert!(!looks_like_json("openapi: 3.0.0"));
    let v = parse(r#"{"b":[1,"x",null,true],"a":{"c":"q\"r"}}"#);
    assert_eq!(compact_text(&v), r#"{"a":{"c":"q\"r"},"b":[1,"x",null,true]}"#);
    assert_eq!(default_to_string(&JsonValue::Null), None);
    assert_eq!(default_to_string(&JsonValue::Str("s".to_string())), Some("s".to_string()));
    let spec = parse(r##"{"components":{"x":{"$ref":"#/components/y"},"y":{"type":"string"}}}"##);
    let r = resolve_ref(&spec, "#/components/x").unwrap();
    assert_eq!(compact_text(r), r#"{"type":"string"}"#);
    assert!(resolve_ref(&spec, "#/components/missing").is_none());
}

#[test]
fn every_operation_becomes_a_command() {
    let spec = r#"{
      "info": { "title": "T" },
      "paths": {
        "/a": { "parameters": [], "get": { "summary": "Same" }, "post": { "summary": "Same" } },
        "/b": { "get": { "summary": "Same", "tags": ["x"] }, "delete": {}, "head": {} },
        "/c": { "put": { "operationId": "c" } }
      }
    }"#;
    let all = generate_config(&parse(spec), None);
    assert_eq!(all.command_count(), 5);
    let only_b = generate_config(&parse(spec), Some("/b"));
    assert_eq!(only_b.command_count(), 2);
}

#[test]
fn warnings_for_missing_metadata() {
    let none = restie::generator::warnings_for(&parse("{}"));
    assert_eq!(none.len(), 2);
    assert!(none[0].contains("no server URL"));
    assert!(none[1].contains("no info.title"));
    let full = restie::generator::warnings_for(&parse(r#"{"servers":[{"url":"https://x"}],"info":{"title":"T"}}"#));
    assert!(full.is_empty());
}

#[test]
fn generated_endpoints_use_http_methods_on_selected_paths() {
    let spec = r#"{
      "paths": {
        "/repos/a": { "get": {}, "head": {}, "patch": { "summary": "Edit" } },
        "/users/b": { "post": {} }
      }
    }"#;
    let config = generate_config(&parse(spec), Some("/repos/"));
    for m in 0..config.modules.len() {
        let cmds = &config.modules.value_at(m).commands;
        for c in 0..cmds.len() {
            let ep = cmds.value_at(c);
            assert!(["GET", "POST", "PUT", "PATCH", "DELETE"].contains(&ep.method.as_str()));
            assert!(ep.path.contains("/repos/"));
        }
    }
    assert_eq!(config.command_count(), 2);
}
