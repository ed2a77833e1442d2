use code_atlas::api::{needs_confirmation, request_as_curl, request_without_secrets, shell_quote, ApiEnvironmentKind, ApiExecuteRequest, ApiExecutionResponse};
use code_atlas::api_checks::{evaluate_assertions, extract_response_variable, path_segments, value_at_path, ApiAssertion};
use code_atlas::json::JsonDoc;

fn request(method: &str, url: &str, environment: ApiEnvironmentKind, confirm: bool) -> ApiExecuteRequest {
    ApiExecuteRequest {
        endpoint_id: None,
        method: method.into(),
        url: url.into(),
        headers: vec![],
        body: None,
        environment,
        confirm_destructive: confirm,
    }
}

#[test]
fn collection_variables_are_extracted_and_secrets_are_not_persisted() {
    assert_eq!(
        extract_response_variable(r#"{"session":{"token":"secret-token"},"user":{"id":7}}"#, "$.session.token").as_deref(),
        Some("secret-token")
    );
    assert_eq!(extract_response_variable(r#"{"user":{"id":7}}"#, "$.user.id").as_deref(), Some("7"));
    let sanitized = request_without_secrets(&ApiExecuteRequest {
        endpoint_id: None,
        method: "GET".into(),
        url: "http://127.0.0.1/profile".into(),
        headers: vec![
            ("Accept".into(), "application/json".into()),
            ("Authorization".into(), "Bearer secret-token".into()),
        ],
        body: None,
        environment: ApiEnvironmentKind::Local,
        confirm_destructive: true,
    });
    assert!(!sanitized.headers.iter().any(|(name, _)| name == "Authorization"));
    assert_eq!(
        sanitized.headers.iter().find(|(name, _)| name == "Accept").map(|(_, v)| v.as_str()),
        Some("application/json")
    );
    assert!(!sanitized.confirm_destructive);
}

#[test]
fn production_destructive_requests_need_confirmation() {
    let delete = request("DELETE", "https://example.com/users/1", ApiEnvironmentKind::Production, false);
    assert!(needs_confirmation(&delete, Some("example.com")));
}

#[test]
fn confirmation_rules_by_method_host_and_environment() {
    let confirmed = request("DELETE", "https://example.com/users/1", ApiEnvironmentKind::Production, true);
    assert!(!needs_confirmation(&confirmed, Some("example.com")));
    let read = request("GET", "https://example.com/users/1", ApiEnvironmentKind::Production, false);
    assert!(!needs_confirmation(&read, Some("example.com")));
    let local_delete = request("DELETE", "http://localhost/users/1", ApiEnvironmentKind::Local, false);
    assert!(!needs_confirmation(&local_delete, Some("localhost")));
    let remote_delete = request("DELETE", "https://example.com/users/1", ApiEnvironmentKind::Staging, false);
    assert!(needs_confirmation(&remote_delete, Some("example.com")));
    let remote_post = request("POST", "https://example.com/users", ApiEnvironmentKind::Staging, false);
    assert!(!needs_confirmation(&remote_post, Some("example.com")));
    let custom_put = request("PUT", "http://127.0.0.1/x", ApiEnvironmentKind::Custom, false);
    assert!(needs_confirmation(&custom_put, Some("127.0.0.1")));
}

#[test]
fn curl_rendering_quotes_every_part() {
    assert_eq!(shell_quote("it's"), "'it'\"'\"'s'");
    let mut r = request("POST", "http://x/a", ApiEnvironmentKind::Local, false);
    r.headers = vec![("Accept".into(), "text/plain".into())];
    r.body = Some("{}".into());
    let curl = request_as_curl(&r);
    assert!(curl.starts_with("curl -X 'POST' 'http://x/a'"), "{curl}");
    assert!(curl.contains("-H 'Accept: text/plain'"), "{curl}");
    assert!(curl.contains("--data-raw '{}'"), "{curl}");
}

#[test]
fn assertions_report_pass_and_fail() {
    let response = ApiExecutionResponse {
        status: 200,
        duration_ms: 12,
        size: 20,
        headers: vec![("content-type".into(), "application/json".into())],
        cookies: vec![],
        body: r#"{"token":"abc","user":{"id":7}}"#.into(),
        content_type: Some("application/json".into()),
        truncated: false,
    };
    let results = evaluate_assertions(
        &response,
        &vec![
            ApiAssertion { kind: "status".into(), key: None, expected: Some(serde_json::Value::from(200)) },
            ApiAssertion { kind: "json_path_exists".into(), key: Some("$.token".into()), expected: None },
            ApiAssertion { kind: "json_path_equals".into(), key: Some("$.user.id".into()), expected: Some(serde_json::Value::from(8)) },
        ],
    );
    assert!(results[0].passed);
    assert!(results[1].passed);
    assert!(!results[2].passed);
}

#[test]
fn other_assertion_kinds() {
    let response = ApiExecutionResponse {
        status: 404,
        duration_ms: 30,
        size: 2,
        headers: vec![("X-Request-ID".into(), "abc".into())],
        cookies: vec![],
        body: "not found".into(),
        content_type: None,
        truncated: false,
    };
    let results = evaluate_assertions(
        &response,
        &vec![
            ApiAssertion { kind: "header_exists".into(), key: Some("x-request-id".into()), expected: None },
            ApiAssertion { kind: "header_equals".into(), key: Some("X-REQUEST-ID".into()), expected: Some(serde_json::Value::from("abc")) },
            ApiAssertion { kind: "response_time".into(), key: None, expected: Some(serde_json::Value::from(20)) },
            ApiAssertion { kind: "body_contains".into(), key: None, expected: Some(serde_json::Value::from("found")) },
            ApiAssertion { kind: "json_type".into(), key: Some("$".into()), expected: Some(serde_json::Value::from("null")) },
            ApiAssertion { kind: "teapot".into(), key: None, expected: None },
        ],
    );
    let passed: Vec<bool> = results.iter().map(|r| r.passed).collect();
    assert_eq!(passed, [true, true, false, true, true, false]);
    assert_eq!(results[0].message, "En-tête x-request-id");
    assert_eq!(results[5].message, "Assertion inconnue");
    assert_eq!(results[2].actual, serde_json::Value::from(30));
}

#[test]
fn json_paths_split_on_dots() {
    assert_eq!(path_segments("$.user.id"), ["user", "id"]);
    assert_eq!(path_segments("$$..a..b."), ["a", "b"]);
    assert!(path_segments("$").is_empty());
    assert_eq!(extract_response_variable("not json", "$.a"), None);
    assert_eq!(extract_response_variable(r#"{"a":null}"#, "$.a"), None);
    assert_eq!(extract_response_variable(r#"{"a":{"b":[1,2]}}"#, "$.a"), Some(r#"{"b":[1,2]}"#.to_string()));
}

#[test]
fn assertions_without_expected_values() {
    let response = ApiExecutionResponse {
        status: 200,
        duration_ms: 5,
        size: 2,
        headers: vec![],
        cookies: vec![],
        body: r#"{"a":null,"b":1}"#.into(),
        content_type: None,
        truncated: false,
    };
    let results = evaluate_assertions(
        &response,
        &vec![
            ApiAssertion { kind: "body_contains".into(), key: None, expected: None },
            ApiAssertion { kind: "response_time".into(), key: None, expected: None },
            ApiAssertion { kind: "status".into(), key: None, expected: None },
            ApiAssertion { kind: "json_path_exists".into(), key: Some("$.a".into()), expected: None },
            ApiAssertion { kind: "json_path_exists".into(), key: Some("$.b".into()), expected: None },
        ],
    );
    assert!(results[0].passed);
    assert!(!results[1].passed);
    assert!(!results[2].passed);
    assert!(!results[3].passed);
    assert!(results[4].passed);
}

#[test]
fn values_are_found_along_their_path() {
    let doc = JsonDoc::Object(vec![(
        "session".into(),
        JsonDoc::Object(vec![("token".into(), JsonDoc::Text("t".into()))]),
    )]);
    match value_at_path(&doc, "$.session.token") {
        Some(JsonDoc::Text(t)) => assert_eq!(t, "t"),
        _ => panic!("token expected"),
    }
    assert!(value_at_path(&doc, "$.session.missing").is_none());
    assert!(matches!(value_at_path(&doc, "$"), Some(JsonDoc::Object(_))));
}
