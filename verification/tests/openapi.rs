use code_atlas::api::{
    ApiEndpoint, ApiEnvironmentKind, ApiExecuteRequest, ApiParameter, ApiParameterLocation, ApiResponseMetadata,
};
use code_atlas::json::JsonDoc;
use code_atlas::openapi::{masked_request, merge_openapi, openapi_document};

fn text(s: &str) -> JsonDoc {
    JsonDoc::Text(s.into())
}

fn object(members: Vec<(&str, JsonDoc)>) -> JsonDoc {
    JsonDoc::Object(members.into_iter().map(|(k, v)| (k.to_string(), v)).collect())
}

fn member<'a>(d: &'a JsonDoc, key: &str) -> &'a JsonDoc {
    match d {
        JsonDoc::Object(ms) => &ms.iter().find(|(k, _)| k == key).expect("member").1,
        _ => panic!("not an object"),
    }
}

fn text_of(d: &JsonDoc) -> &str {
    match d {
        JsonDoc::Text(s) => s,
        _ => panic!("not a text"),
    }
}

fn endpoint(method: &str, path: &str, transport: &str) -> ApiEndpoint {
    ApiEndpoint {
        id: format!("{method} {path}"),
        project_id: "p".into(),
        method: method.into(),
        path: path.into(),
        name: format!("{method} {path}"),
        framework: "Generic".into(),
        transport: transport.into(),
        handler_node_id: None,
        source_path: None,
        source_start_line: None,
        source_end_line: None,
        auth_requirements: vec![],
        parameters: vec![],
        request_content_types: vec![],
        request_schema: None,
        responses: vec![],
        tags: vec![],
        feature_ids: vec![],
        source_scope: "project".into(),
        provenance: "code".into(),
        security_finding_ids: vec![],
        quality_finding_ids: vec![],
        has_tests: false,
    }
}

#[test]
fn openapi_merge_preserves_code_provenance() {
    let mut endpoints = vec![endpoint("GET", "/users/{id}", "http")];
    let parameter = object(vec![
        ("name", text("id")),
        ("in", text("path")),
        ("required", JsonDoc::Bool(true)),
        ("schema", object(vec![("type", text("string"))])),
    ]);
    let document = object(vec![(
        "paths",
        object(vec![(
            "/users/{id}",
            object(vec![(
                "get",
                object(vec![("tags", JsonDoc::Array(vec![text("Users")])), ("parameters", JsonDoc::Array(vec![parameter]))]),
            )]),
        )]),
    )]);
    let merged = merge_openapi(&mut endpoints, &document);
    assert_eq!(merged, 1);
    assert_eq!(endpoints[0].provenance, "both");
    assert_eq!(endpoints[0].parameters.len(), 1);
    assert_eq!(endpoints[0].parameters[0].location, ApiParameterLocation::Path);
    assert!(endpoints[0].parameters[0].required);
    assert_eq!(endpoints[0].parameters[0].schema_type, "string");
    assert_eq!(endpoints[0].parameters[0].source, "openapi");
    assert_eq!(endpoints[0].tags, vec!["Users".to_string()]);
}

#[test]
fn openapi_merge_skips_unknown_operations_and_known_parameters() {
    let mut first = endpoint("POST", "/users", "http");
    first.tags = vec!["Users".into()];
    first.parameters = vec![ApiParameter {
        name: "id".into(),
        location: ApiParameterLocation::Query,
        required: false,
        schema_type: "string".into(),
        source: "code".into(),
    }];
    let mut endpoints = vec![first, endpoint("GET", "/health", "http")];
    let operation = object(vec![
        ("tags", JsonDoc::Array(vec![text("Users"), text("Admin"), JsonDoc::Number("3".into())])),
        (
            "parameters",
            JsonDoc::Array(vec![
                object(vec![("name", text("id")), ("in", text("header"))]),
                object(vec![("name", text("x-trace")), ("in", text("header"))]),
                object(vec![("in", text("query"))]),
            ]),
        ),
        (
            "requestBody",
            object(vec![("content", object(vec![("application/json", object(vec![("schema", object(vec![]))]))]))]),
        ),
    ]);
    let document = object(vec![("paths", object(vec![("/users", object(vec![("post", operation)]))]))]);
    assert_eq!(merge_openapi(&mut endpoints, &document), 1);
    assert_eq!(endpoints[0].tags, vec!["Users".to_string(), "Admin".to_string()]);
    assert_eq!(endpoints[0].parameters.len(), 2);
    assert_eq!(endpoints[0].parameters[1].name, "x-trace");
    assert_eq!(endpoints[0].parameters[1].location, ApiParameterLocation::Header);
    assert!(!endpoints[0].parameters[1].required);
    assert_eq!(endpoints[0].parameters[1].schema_type, "unknown");
    assert!(endpoints[0].request_schema.is_some());
    assert_eq!(endpoints[1].provenance, "code");
    assert_eq!(merge_openapi(&mut endpoints, &object(vec![])), 0);
}

#[test]
fn openapi_document_groups_http_endpoints_by_path_and_method() {
    let mut get = endpoint("GET", "/users/{id}", "http");
    get.tags = vec!["Users".into()];
    get.handler_node_id = Some("handler".into());
    get.responses = vec![
        ApiResponseMetadata { status: 200, content_type: Some("application/json".into()), schema: None, source: "code".into() },
        ApiResponseMetadata { status: 404, content_type: None, schema: None, source: "code".into() },
    ];
    let delete = endpoint("DELETE", "/users/{id}", "http");
    let socket = endpoint("GET", "/ws", "websocket");
    let document = openapi_document("demo", &vec![get, delete, socket]);
    assert_eq!(text_of(member(&document, "openapi")), "3.1.0");
    assert_eq!(text_of(member(member(&document, "info"), "title")), "demo");
    let paths = member(&document, "paths");
    match paths {
        JsonDoc::Object(ms) => assert_eq!(ms.len(), 1),
        _ => panic!("paths"),
    }
    let user = member(paths, "/users/{id}");
    let get_op = member(user, "get");
    assert_eq!(text_of(member(get_op, "operationId")), "GET /users/{id}");
    assert_eq!(text_of(member(get_op, "x-code-atlas-handler")), "handler");
    let responses = member(get_op, "responses");
    assert_eq!(text_of(member(member(responses, "200"), "description")), "R\u{e9}ponse d\u{e9}tect\u{e9}e");
    assert!(matches!(member(member(responses, "404"), "content"), JsonDoc::Null));
    let delete_op = member(user, "delete");
    assert!(matches!(member(delete_op, "x-code-atlas-handler"), JsonDoc::Null));
    assert_eq!(
        text_of(member(member(member(delete_op, "responses"), "default"), "description")),
        "R\u{e9}ponse non d\u{e9}termin\u{e9}e depuis le code"
    );
}

#[test]
fn masked_request_hides_credentials_only() {
    let request = ApiExecuteRequest {
        endpoint_id: Some("e".into()),
        method: "GET".into(),
        url: "http://localhost/profile".into(),
        headers: vec![("Accept".into(), "application/json".into()), ("Authorization".into(), "Bearer secret".into())],
        body: None,
        environment: ApiEnvironmentKind::Production,
        confirm_destructive: false,
    };
    let record = masked_request(&request);
    assert_eq!(text_of(member(&record, "endpoint_id")), "e");
    assert_eq!(text_of(member(&record, "environment")), "production");
    let headers = member(&record, "headers");
    assert_eq!(text_of(member(headers, "Accept")), "application/json");
    assert_eq!(text_of(member(headers, "Authorization")), "\u{2022}\u{2022}\u{2022}\u{2022}");
}
