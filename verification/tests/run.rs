use fiuto::executor::{
    attach_bearer, drill_get_endpoint, drill_post_endpoint, exec_operation, get_jwt_token,
    is_bearer, payload_variants, record, retrieve_base_url, ConfigError, Header, Request,
};
use fiuto::model::{
    Components, Description, MediaType, NamedScheme, NamedSchema, Operation, PathEntry, PathItem,
    PathRecord, Property, RequestBody, Schema, SchemaKind, SchemaRef, SecurityScheme, Server,
    ServerVariable,
};
use fiuto::{do_it, CallResult};
use serde_json::Value;

fn text(example: &str) -> SchemaRef {
    SchemaRef::Item(Schema {
        example: Some(Value::String(example.to_owned())),
        nullable: false,
        kind: SchemaKind::String,
    })
}

fn reference(name: &str) -> SchemaRef {
    SchemaRef::Reference(format!("#/components/schemas/{name}"))
}

fn prop(name: &str, schema: SchemaRef) -> Property {
    Property { name: name.to_owned(), schema }
}

fn object(props: Vec<Property>) -> Schema {
    Schema { example: None, nullable: false, kind: SchemaKind::Object(props) }
}

fn named(name: &str, schema: Schema) -> NamedSchema {
    NamedSchema { name: name.to_owned(), schema: SchemaRef::Item(schema) }
}

fn json_body(schema: &str) -> Option<RequestBody> {
    Some(RequestBody::Item(vec![MediaType {
        name: "application/json".to_owned(),
        schema: Some(reference(schema)),
    }]))
}

fn bearer_auth() -> Vec<NamedScheme> {
    vec![NamedScheme {
        name: "bearerAuth".to_owned(),
        scheme: SecurityScheme::Http("bearer".to_owned()),
    }]
}

fn requires_bearer() -> Option<Vec<Vec<String>>> {
    Some(vec![vec!["bearerAuth".to_owned()]])
}

fn operation(
    deprecated: bool,
    security: Option<Vec<Vec<String>>>,
    request_body: Option<RequestBody>,
) -> Operation {
    Operation { deprecated, security, request_body }
}

fn path(path: &str, get: Option<Operation>, post: Option<Operation>) -> PathRecord {
    PathRecord { path: path.to_owned(), item: PathEntry::Item(PathItem { get, post }) }
}

fn server(url: &str) -> Server {
    Server { url: url.to_owned(), variables: None }
}

fn description(
    paths: Vec<PathRecord>,
    schemas: Vec<NamedSchema>,
    security_schemes: Vec<NamedScheme>,
) -> Description {
    Description {
        openapi: "3.0.0".to_owned(),
        servers: vec![server("http://127.0.0.1:8000")],
        paths,
        components: Some(Components { schemas, security_schemes }),
    }
}

fn login_request() -> Schema {
    object(vec![
        prop("email", text("user@example.com")),
        prop("org", text("acme")),
        prop("password", text("secret")),
    ])
}

fn hq() -> Schema {
    object(vec![
        prop("address", text("1 Main Street")),
        prop("postal_code", text("12345")),
        prop("city", text("Springfield")),
        prop("state_region", text("IL")),
        prop("country", text("US")),
    ])
}

fn get_info() -> Description {
    description(
        vec![path("/api/v1/org/info", Some(operation(false, None, None)), None)],
        vec![],
        vec![],
    )
}

fn login_api() -> Description {
    description(
        vec![path("/api/v1/login", None, Some(operation(false, None, json_body("LoginRequest"))))],
        vec![named("LoginRequest", login_request())],
        vec![],
    )
}

fn get_more_info_with_jwt() -> Description {
    description(
        vec![path(
            "/api/v1/org/more/info",
            Some(operation(false, requires_bearer(), None)),
            None,
        )],
        vec![],
        bearer_auth(),
    )
}

fn post_info_with_jwt() -> Description {
    description(
        vec![path(
            "/api/v1/org/info",
            None,
            Some(operation(false, requires_bearer(), json_body("InfoRequest"))),
        )],
        vec![named("InfoRequest", object(vec![prop("address", text("1 Main Street"))]))],
        bearer_auth(),
    )
}

fn post_info_nested_property() -> Description {
    description(
        vec![path("/api/v1/org/hq", None, Some(operation(false, None, json_body("InfoRequest"))))],
        vec![named("InfoRequest", object(vec![prop("hq", reference("HQ"))])), named("HQ", hq())],
        vec![],
    )
}

fn single_server() -> Description {
    let mut d = get_info();
    d.servers = vec![server("http://127.0.0.1:8000"), server("http://127.0.0.1:9000")];
    d
}

fn server_from_env() -> Description {
    let mut d = get_info();
    d.servers = vec![Server {
        url: "{base_url}".to_owned(),
        variables: Some(vec![ServerVariable {
            name: "base_url".to_owned(),
            default: "http://localhost:8000".to_owned(),
        }]),
    }];
    d
}

const BASE: &str = "http://test.local:3000";

fn has_strings(value: &Value, keys: &[&str]) -> bool {
    match value.as_object() {
        Some(o) => keys.iter().all(|k| o.get(*k).map_or(false, |v| v.is_string())),
        None => false,
    }
}

fn bearer_token(request: &Request) -> Option<String> {
    request
        .headers
        .iter()
        .find(|h| h.name == "Authorization")
        .and_then(|h| h.value.strip_prefix("Bearer ").map(|t| t.to_owned()))
}

fn json_of(request: &Request) -> Option<Value> {
    let typed = request
        .headers
        .iter()
        .any(|h| h.name == "Content-Type" && h.value == "application/json");
    if typed {
        serde_json::from_str(&request.body).ok()
    } else {
        None
    }
}

/// What the test service answers: the status code for one request.
fn serve(request: &Request) -> u16 {
    let route = request.url.strip_prefix(BASE).unwrap();
    match (request.method.as_str(), route) {
        ("GET", "/api/v1/org/info") => 200,
        ("GET", "/api/v1/org/more/info") => {
            if bearer_token(request).is_some() {
                200
            } else {
                401
            }
        }
        ("POST", "/api/v1/login") | ("POST", "/api/v1/org/login") => match json_of(request) {
            Some(v) if has_strings(&v, &["email", "password", "org"]) => 200,
            _ => 422,
        },
        ("POST", "/api/v1/org/info") => {
            if bearer_token(request).is_none() {
                401
            } else {
                match json_of(request) {
                    Some(v) if has_strings(&v, &["address"]) => 200,
                    _ => 422,
                }
            }
        }
        ("POST", "/api/v1/org/hq") => match json_of(request) {
            Some(v) => match v.get("hq") {
                Some(hq)
                    if has_strings(
                        hq,
                        &["address", "postal_code", "city", "country", "state_region"],
                    ) =>
                {
                    200
                }
                _ => 422,
            },
            None => 422,
        },
        _ => 404,
    }
}

fn run(d: &Description, jwt: Option<String>) -> Result<Vec<Vec<CallResult>>, ConfigError> {
    let plan = do_it(d, Some(BASE.to_owned()), jwt)?;
    Ok(plan.iter().map(|rs| rs.iter().map(|r| record(r, serve(r))).collect()).collect())
}

#[test]
fn decode_base_url() {
    {
        let base = retrieve_base_url(&single_server());
        assert_eq!(base.unwrap(), "http://127.0.0.1:8000");
    }
    {
        let base = retrieve_base_url(&server_from_env());
        assert_eq!(base.unwrap(), "http://localhost:8000");
    }
}

#[test]
fn find_jwt_token_in_components() {
    let d = get_more_info_with_jwt();
    let components = d.components.unwrap();
    let jwt = get_jwt_token(&components);

    assert!(jwt.is_some());
    assert_eq!(jwt.unwrap(), "bearerAuth");
}

#[test]
fn jwt_token_not_found_when_no_bearer_scheme() {
    let d = get_info();
    let components = d.components.unwrap();
    let jwt = get_jwt_token(&components);

    assert!(jwt.is_none());
}

#[test]
fn retrieve_base_url_with_multiple_servers() {
    let base = retrieve_base_url(&single_server());

    assert_eq!(base.unwrap(), "http://127.0.0.1:8000");
}

#[test]
fn base_url_without_servers_or_with_empty_variables() {
    let mut d = get_info();
    d.servers = vec![];
    assert!(retrieve_base_url(&d).is_none());
    d.servers = vec![Server { url: "http://a".to_owned(), variables: Some(vec![]) }];
    assert_eq!(retrieve_base_url(&d).unwrap(), "http://a");
}

#[test]
fn the_bearer_scheme_is_found_in_any_case_and_first_wins() {
    let scheme = |name: &str, scheme: SecurityScheme| NamedScheme { name: name.to_owned(), scheme };
    let components = Components {
        schemas: vec![],
        security_schemes: vec![
            scheme("key", SecurityScheme::Other),
            scheme("ref", SecurityScheme::Reference("#/x".to_owned())),
            scheme("basic", SecurityScheme::Http("basic".to_owned())),
            scheme("jwt", SecurityScheme::Http("BeArEr".to_owned())),
            scheme("second", SecurityScheme::Http("bearer".to_owned())),
        ],
    };
    assert_eq!(get_jwt_token(&components).unwrap(), "jwt");
    assert!(is_bearer("bearer"));
    assert!(!is_bearer("Bearer"));
    assert!(!is_bearer("basic"));
}

#[test]
fn get_info_simple() {
    let r = run(&get_info(), None);

    assert!(r.is_ok());
    let r = r.unwrap();

    assert_eq!(r.len(), 1);

    let endpoint_results = r.first().unwrap();
    assert_eq!(endpoint_results.len(), 1);
    assert_eq!(endpoint_results.first().unwrap().status_code, 200);
    assert_eq!(endpoint_results.first().unwrap().payload(), "");
    assert_eq!(
        endpoint_results.first().unwrap().path(),
        "http://test.local:3000/api/v1/org/info"
    );
}

#[test]
fn post_login() {
    let r = run(&login_api(), None);

    assert!(r.is_ok());
    let r = r.unwrap();

    assert_eq!(r.len(), 1);

    let combinations = r.first().unwrap();
    assert_eq!(combinations.len(), 8);

    let success_count = combinations.iter().filter(|c| c.status_code == 200).count();
    let error_count = combinations.iter().filter(|c| c.status_code == 422).count();

    assert_eq!(success_count, 1, "Only complete payload should succeed");
    assert_eq!(error_count, 7, "Incomplete payloads should return 422");
    assert_eq!(combinations.last().unwrap().payload(), "{}");
    assert_eq!(combinations[6].status_code(), 200);
}

#[test]
fn get_with_jwt() {
    let token = Some("test_token_get_with_jwt".to_owned());
    let plan = do_it(&get_more_info_with_jwt(), Some(BASE.to_owned()), token.clone()).unwrap();
    assert_eq!(plan[0][0].headers.len(), 1);
    assert_eq!(plan[0][0].headers[0].name, "Authorization");
    assert_eq!(plan[0][0].headers[0].value, "Bearer test_token_get_with_jwt");

    let r = run(&get_more_info_with_jwt(), token);

    assert!(r.is_ok());

    let r = r.unwrap();
    assert_eq!(r.len(), 1);

    let endpoint_results = r.first().unwrap();
    assert_eq!(endpoint_results.len(), 1);
    assert_eq!(endpoint_results.first().unwrap().status_code, 200);
}

#[test]
fn post_with_jwt() {
    let token = Some("test_token_post_with_jwt".to_owned());
    let r = run(&post_info_with_jwt(), token);

    assert!(r.is_ok());

    let r = r.unwrap();
    assert_eq!(r.len(), 1);

    let combinations = r.first().unwrap();
    assert_eq!(combinations.len(), 2);

    let success_count = combinations.iter().filter(|c| c.status_code == 200).count();
    assert_eq!(success_count, 1, "Complete payload with JWT should succeed");
}

#[test]
fn post_with_nested_property_body() {
    let r = run(&post_info_nested_property(), None);

    assert!(r.is_ok());

    let r = r.unwrap();
    assert_eq!(r.len(), 1);

    let combinations = r.first().unwrap();
    assert!(!combinations.is_empty());
    assert_eq!(combinations.len(), 33);
    assert_eq!(combinations[0].payload(), "{\"hq\":null}");
    assert_eq!(combinations[32].payload(), "{}");

    let success_count = combinations.iter().filter(|c| c.status_code == 200).count();
    assert!(success_count >= 1, "Complete nested payload should succeed");
    assert_eq!(combinations[31].status_code, 200);
}

#[test]
fn get_without_jwt_returns_401() {
    let r = run(&get_more_info_with_jwt(), None);

    assert!(r.is_ok());

    let r = r.unwrap();
    assert_eq!(r.len(), 1);

    let endpoint_results = r.first().unwrap();
    assert_eq!(endpoint_results.len(), 1);
    assert_eq!(endpoint_results.first().unwrap().status_code, 401);
}

#[test]
fn post_without_jwt_returns_401() {
    let r = run(&post_info_with_jwt(), None);

    assert!(r.is_ok());

    let r = r.unwrap();
    assert_eq!(r.len(), 1);

    let combinations = r.first().unwrap();
    assert!(
        combinations.iter().all(|c| c.status_code == 401),
        "All requests without JWT should return 401"
    );
}

#[test]
fn deprecated_operations_give_an_empty_run() {
    let d = description(
        vec![
            path("/api/v1/org/info", Some(operation(true, None, None)), None),
            path("/api/v1/login", None, Some(operation(true, None, json_body("LoginRequest")))),
        ],
        vec![named("LoginRequest", login_request())],
        vec![],
    );
    let plan = do_it(&d, Some(BASE.to_owned()), None).unwrap();
    assert!(plan.is_empty());
}

#[test]
fn a_run_needs_servers_and_components() {
    let mut d = get_info();
    d.servers = vec![];
    assert_eq!(do_it(&d, None, None).unwrap_err(), ConfigError::NoServers);
    let plan = do_it(&d, Some(BASE.to_owned()), None).unwrap();
    assert_eq!(plan[0][0].url, "http://test.local:3000/api/v1/org/info");
    d.components = None;
    assert_eq!(do_it(&d, None, None).unwrap_err(), ConfigError::NoServers);
    assert_eq!(do_it(&d, Some(BASE.to_owned()), None).unwrap_err(), ConfigError::NoComponents);
    let mut d = get_info();
    d.components = None;
    assert_eq!(do_it(&d, None, None).unwrap_err(), ConfigError::NoComponents);
}

#[test]
fn the_base_url_of_the_caller_wins_over_the_declared_one() {
    let plan = do_it(&get_info(), None, None).unwrap();
    assert_eq!(plan[0][0].url, "http://127.0.0.1:8000/api/v1/org/info");
    let plan = do_it(&get_info(), Some("http://other".to_owned()), None).unwrap();
    assert_eq!(plan[0][0].url, "http://other/api/v1/org/info");
    let plan = do_it(&server_from_env(), None, None).unwrap();
    assert_eq!(plan[0][0].url, "http://localhost:8000/api/v1/org/info");
}

#[test]
fn gets_come_before_posts() {
    let d = description(
        vec![
            path("/api/v1/login", None, Some(operation(false, None, json_body("LoginRequest")))),
            path("/api/v1/org/info", Some(operation(false, None, None)), None),
        ],
        vec![named("LoginRequest", login_request())],
        vec![],
    );
    let plan = do_it(&d, Some(BASE.to_owned()), None).unwrap();
    assert_eq!(plan.len(), 2);
    assert_eq!(plan[0].len(), 1);
    assert_eq!(plan[0][0].method, "GET");
    assert_eq!(plan[1].len(), 8);
    assert!(plan[1].iter().all(|r| r.method == "POST"));
    let bodies: Vec<&str> = plan[1].iter().map(|r| r.body.as_str()).collect();
    assert_eq!(
        bodies,
        vec![
            "{\"email\":\"user@example.com\"}",
            "{\"org\":\"acme\"}",
            "{\"email\":\"user@example.com\",\"org\":\"acme\"}",
            "{\"password\":\"secret\"}",
            "{\"email\":\"user@example.com\",\"password\":\"secret\"}",
            "{\"org\":\"acme\",\"password\":\"secret\"}",
            "{\"email\":\"user@example.com\",\"org\":\"acme\",\"password\":\"secret\"}",
            "{}",
        ]
    );
}

#[test]
fn a_post_of_n_scalars_has_two_to_the_n_requests() {
    let mut n = 0;
    while n <= 6 {
        let props = (0..n).map(|i| prop(&format!("p{i}"), text("v"))).collect();
        let schema = object(props);
        let components = Components { schemas: vec![], security_schemes: vec![] };
        let requests =
            drill_post_endpoint(BASE, "/x", &schema, &None, &None, &None, &components);
        assert_eq!(requests.len(), 1 << n);
        assert_eq!(requests.last().unwrap().body, "{}");
        n += 1;
    }
}

#[test]
fn a_post_request_carries_the_json_content_type_first() {
    let d = post_info_with_jwt();
    let plan = do_it(&d, Some(BASE.to_owned()), Some("t".to_owned())).unwrap();
    for request in &plan[0] {
        assert_eq!(request.url, "http://test.local:3000/api/v1/org/info");
        assert_eq!(request.headers.len(), 2);
        assert_eq!(request.headers[0].name, "Content-Type");
        assert_eq!(request.headers[0].value, "application/json");
        assert_eq!(request.headers[1].name, "Authorization");
        assert_eq!(request.headers[1].value, "Bearer t");
    }
    let plan = do_it(&d, Some(BASE.to_owned()), None).unwrap();
    assert!(plan[0].iter().all(|r| r.headers.len() == 1));
}

fn attached(
    security: Option<Vec<Vec<String>>>,
    jwt_name: Option<&str>,
    jwt: Option<&str>,
) -> Vec<(String, String)> {
    let mut headers: Vec<Header> = vec![];
    attach_bearer(
        &mut headers,
        &security,
        &jwt_name.map(|s| s.to_owned()),
        &jwt.map(|s| s.to_owned()),
    );
    headers.into_iter().map(|h| (h.name, h.value)).collect()
}

#[test]
fn the_bearer_header_is_attached_once_for_each_match() {
    let groups = |gs: &[&[&str]]| {
        Some(gs.iter().map(|g| g.iter().map(|n| (*n).to_owned()).collect()).collect())
    };
    let bearer = ("Authorization".to_owned(), "Bearer tok".to_owned());
    assert_eq!(attached(groups(&[&["jwt"]]), Some("jwt"), Some("tok")), vec![bearer.clone()]);
    assert_eq!(
        attached(groups(&[&["key", "jwt"], &[], &["jwt"]]), Some("jwt"), Some("tok")),
        vec![bearer.clone(), bearer.clone()]
    );
    assert!(attached(groups(&[&["key"]]), Some("jwt"), Some("tok")).is_empty());
    assert!(attached(groups(&[]), Some("jwt"), Some("tok")).is_empty());
    assert!(attached(None, Some("jwt"), Some("tok")).is_empty());
    assert!(attached(groups(&[&["jwt"]]), None, Some("tok")).is_empty());
    assert!(attached(groups(&[&["jwt"]]), Some("jwt"), None).is_empty());
}

#[test]
fn attach_bearer_keeps_the_headers_that_are_there() {
    let mut headers =
        vec![Header { name: "Content-Type".to_owned(), value: "application/json".to_owned() }];
    attach_bearer(
        &mut headers,
        &Some(vec![vec!["jwt".to_owned()]]),
        &Some("jwt".to_owned()),
        &Some("tok".to_owned()),
    );
    assert_eq!(headers.len(), 2);
    assert_eq!(headers[0].name, "Content-Type");
    assert_eq!(headers[1].value, "Bearer tok");
}

#[test]
fn a_get_has_one_request_without_body() {
    let requests = drill_get_endpoint(BASE, "/api/v1/org/info", &None, &None, &None);
    assert_eq!(requests.len(), 1);
    assert_eq!(requests[0].method, "GET");
    assert_eq!(requests[0].url, "http://test.local:3000/api/v1/org/info");
    assert_eq!(requests[0].body, "");
    assert!(requests[0].headers.is_empty());
}

#[test]
fn a_post_that_cannot_be_dug_has_no_request() {
    let components = Components { schemas: vec![], security_schemes: vec![] };
    let no_example = object(vec![prop(
        "a",
        SchemaRef::Item(Schema { example: None, nullable: false, kind: SchemaKind::String }),
    )]);
    assert!(drill_post_endpoint(BASE, "/x", &no_example, &None, &None, &None, &components)
        .is_empty());
    let unresolved = object(vec![prop("a", reference("Missing"))]);
    assert!(payload_variants(&unresolved, &components).is_empty());
    let wide = object((0..64).map(|i| prop(&format!("p{i}"), text("v"))).collect());
    assert!(payload_variants(&wide, &components).is_empty());
    let empty = object(vec![]);
    let only = payload_variants(&empty, &components);
    assert_eq!(only.len(), 1);
    assert!(only[0].is_empty());
}

#[test]
fn an_operation_of_another_method_or_without_payload_has_no_request() {
    let components = Components { schemas: vec![], security_schemes: vec![] };
    let operation = operation(false, None, None);
    let op = |method: &str| fiuto::collector::Op {
        path: "/x".to_owned(),
        method: method.to_owned(),
        operation: &operation,
        payload: None,
    };
    assert_eq!(exec_operation(&components, &op("GET"), BASE, &None, &None).len(), 1);
    assert!(exec_operation(&components, &op("POST"), BASE, &None, &None).is_empty());
    assert!(exec_operation(&components, &op("PUT"), BASE, &None, &None).is_empty());
}

#[test]
fn a_call_result_records_the_request_and_the_status() {
    let request = Request {
        method: "POST".to_owned(),
        url: "http://h/p".to_owned(),
        headers: vec![],
        body: "{\"a\":1}".to_owned(),
    };
    let r = record(&request, 503);
    assert_eq!(r.path(), "http://h/p");
    assert_eq!(r.payload(), "{\"a\":1}");
    assert_eq!(r.status_code, 503);
    assert_eq!(r.status_code(), 503);
}
