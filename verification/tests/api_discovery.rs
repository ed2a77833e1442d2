use code_atlas::api_discovery::{discover_api_endpoints, discover_query_parameters, discover_responses};
use code_atlas::findings::SourceText;
use code_atlas::model::{CodeEdge, CodeNode, NodeKind, ProjectGraph, RelationKind, SourceScope};

fn node(id: &str, kind: NodeKind, name: &str) -> CodeNode {
    CodeNode {
        id: id.into(),
        kind,
        name: name.into(),
        path: Some("src/api.rs".into()),
        language: None,
        start_line: Some(1),
        end_line: Some(5),
        owner: None,
        source_scope: SourceScope::Project,
    }
}

const SOURCE: &str = r#"use axum::Json;
async fn create(Json(payload): Json<CreateUser>) -> Json<UserView> {
    let page = query_params.get("page");
    Json(UserView::from(payload))
}"#;

#[test]
fn discovery_keeps_code_provenance_and_named_schemas() {
    let graph = ProjectGraph::new(
        ".".into(),
        vec![node("route", NodeKind::ApiEndpoint, "POST /users/{id}"), node("handler", NodeKind::Handler, "create")],
        vec![CodeEdge::new("route".into(), "handler".into(), RelationKind::HandledBy)],
        vec![],
        vec![],
        vec![],
    );
    let sources = vec![SourceText { path: "src/api.rs".into(), text: SOURCE.into() }];
    let endpoints = discover_api_endpoints("p", &graph, &vec![], &vec![], &sources);
    let endpoint = &endpoints[0];
    assert_eq!(endpoint.framework, "Axum");
    assert_eq!(endpoint.provenance, "code");
    assert_eq!(endpoint.request_schema.as_ref().unwrap()["x-code-atlas-type"], "CreateUser");
    assert!(endpoint.parameters.iter().any(|parameter| parameter.name == "id"));
    assert!(endpoint.parameters.iter().any(|parameter| parameter.name == "page"));
    assert!(endpoint.responses.iter().any(|response| response.status == 200));
}

#[test]
fn endpoints_are_sorted_and_unique_by_method_and_path() {
    let graph = ProjectGraph::new(
        ".".into(),
        vec![
            node("b", NodeKind::Route, "GET /users"),
            node("a", NodeKind::Route, "DELETE /users"),
            node("dup", NodeKind::Route, "GET /users"),
            node("c", NodeKind::ApiEndpoint, "GET /accounts/:id"),
            node("bad", NodeKind::Route, "not a route"),
        ],
        vec![],
        vec![],
        vec![],
        vec![],
    );
    let endpoints = discover_api_endpoints("p", &graph, &vec![], &vec![], &vec![]);
    let keys: Vec<(String, String)> = endpoints.iter().map(|e| (e.path.clone(), e.method.clone())).collect();
    assert_eq!(
        keys,
        [
            ("/accounts/:id".to_string(), "GET".to_string()),
            ("/users".to_string(), "DELETE".to_string()),
            ("/users".to_string(), "GET".to_string()),
        ]
    );
    assert_eq!(endpoints[2].id, "b");
    assert_eq!(endpoints[0].tags, ["accounts"]);
    assert_eq!(endpoints[0].parameters[0].name, "id");
    assert_eq!(endpoints[0].transport, "http");
    assert_eq!(endpoints[0].source_scope, "project");
}

#[test]
fn statuses_and_query_parameters_come_from_the_code() {
    let responses = discover_responses("return (StatusCode::NOT_FOUND, 201); // json");
    let statuses: Vec<u16> = responses.iter().map(|r| r.status).collect();
    assert_eq!(statuses, [201, 404]);
    assert_eq!(responses[0].content_type.as_deref(), Some("application/json"));
    let query = discover_query_parameters("req.query('limit'); query['offset']");
    let names: Vec<&str> = query.iter().map(|p| p.name.as_str()).collect();
    assert_eq!(names, ["offset", "limit"]);
}
