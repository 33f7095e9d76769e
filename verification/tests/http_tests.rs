use restie::cli::{RequestBody, RequestParts};
use restie::http::{
    api_error_text, client_base_url, outgoing, request_headers, request_url, response_value,
    trimmed_base, ResponseBody,
};
use restie::ordmap::OrdMap;

fn map(pairs: &[(&str, &str)]) -> OrdMap<String> {
    let mut m = OrdMap::new();
    for (k, v) in pairs {
        m.insert(k.to_string(), v.to_string());
    }
    m
}

#[test]
fn test_with_base_trims_trailing_slash() {
    assert_eq!(trimmed_base("https://api.example.com/"), "https://api.example.com");
}

#[test]
fn test_with_base_no_trailing_slash() {
    assert_eq!(trimmed_base("https://api.example.com"), "https://api.example.com");
}

#[test]
fn default_client_base_is_github() {
    assert_eq!(client_base_url(None), "https://api.github.com");
}

#[test]
fn url_carries_encoded_query_in_name_order() {
    let q = map(&[("q", "a b"), ("per_page", "10")]);
    let (url, query) = request_url("https://api.example.com", "/search", Some(&q)).unwrap();
    assert_eq!(url.as_str(), "https://api.example.com/search?per_page=10&q=a+b");
    assert_eq!(query.as_deref(), Some("per_page=10&q=a+b"));
    let (url, query) = request_url("https://api.example.com", "/x", None).unwrap();
    assert_eq!(url.as_str(), "https://api.example.com/x");
    assert!(query.is_none());
}

#[test]
fn unparsable_url_is_reported() {
    let err = request_url("not a url", "/x", None).err().unwrap();
    assert!(err.starts_with("Invalid URL: "), "got: {}", err);
}

#[test]
fn headers_in_order() {
    let auth = map(&[("Authorization", "Bearer t")]);
    let statics = map(&[("X-Site", "1")]);
    let extra = map(&[("X-Req", "2")]);
    let h = request_headers("restie/0.1.0", &auth, Some(&statics), Some(&extra));
    let names: Vec<&str> = h.iter().map(|(k, _)| k.as_str()).collect();
    assert_eq!(names, vec!["User-Agent", "Authorization", "X-Site", "X-Req"]);
    assert_eq!(h[0].1, "restie/0.1.0");
    let h = request_headers("ua", &OrdMap::new(), None, None);
    assert_eq!(h.len(), 1);
}

#[test]
fn api_errors() {
    assert_eq!(
        api_error_text("404 Not Found", r#"{"message":"Not Found","doc":"x"}"#),
        "API Error (404 Not Found): Not Found"
    );
    assert_eq!(api_error_text("500 Internal Server Error", "  oops \n"), "API Error (500 Internal Server Error): oops");
    let long = "x".repeat(600);
    let err = api_error_text("502 Bad Gateway", &long);
    assert_eq!(
        err,
        format!("API Error (502 Bad Gateway): {}... (truncated, 600 bytes total)", "x".repeat(500))
    );
    let err = api_error_text("400 Bad Request", r#"{"error":"bad"}"#);
    assert!(err.starts_with("API Error (400 Bad Request): {"), "got: {}", err);
    assert!(err.contains("\"error\": \"bad\""), "got: {}", err);
}

#[test]
fn response_bodies() {
    assert!(matches!(response_value(""), ResponseBody::Empty));
    match response_value(r#"{"a":1}"#) {
        ResponseBody::Json(t) => assert_eq!(t, r#"{"a":1}"#),
        _ => panic!("expected JSON"),
    }
    match response_value("plain text") {
        ResponseBody::Text(t) => assert_eq!(t, "plain text"),
        _ => panic!("expected text"),
    }
}

#[test]
fn outgoing_requests() {
    let parts = RequestParts {
        method: "GET".to_string(),
        path: "/x".to_string(),
        query: OrdMap::new(),
        body: Some(RequestBody::Text("null".to_string())),
        headers: map(&[("H", "v")]),
    };
    let o = outgoing(parts);
    assert_eq!(o.method, "GET");
    assert!(o.body.is_none());
    assert!(o.query.is_none());
    assert_eq!(o.headers.unwrap().len(), 1);
    let parts = RequestParts {
        method: "PATCH".to_string(),
        path: "/y".to_string(),
        query: map(&[("a", "1")]),
        body: Some(RequestBody::Text("true".to_string())),
        headers: OrdMap::new(),
    };
    let o = outgoing(parts);
    assert_eq!(o.method, "PATCH");
    assert_eq!(o.body.as_deref(), Some("true"));
    assert!(o.headers.is_none());
    let parts = RequestParts {
        method: "TRACE".to_string(),
        path: "/z".to_string(),
        query: OrdMap::new(),
        body: None,
        headers: OrdMap::new(),
    };
    assert_eq!(outgoing(parts).method, "GET");
}
