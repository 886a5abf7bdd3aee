use hoplite::app::{App, Proxy, Route, RouteAdapter};
use hoplite::host::Json;
use hoplite::openapi::openapi;

fn route(method: &str, path: &str, name: Option<&str>, summary: Option<&str>) -> Route {
    Route {
        method: method.into(),
        path: path.into(),
        handler: "sample/handler".into(),
        name: name.map(|n| n.into()),
        summary: summary.map(|s| s.into()),
        adapter: RouteAdapter::Request,
    }
}

fn sample(routes: Vec<Route>, proxies: Vec<Proxy>) -> App {
    App {
        id: 1,
        name: "sample".into(),
        port: 8080,
        hostnames: Vec::new(),
        routes,
        request_body: None,
        proxies,
        channels: Vec::new(),
        peers: Vec::new(),
        openapi_path: None,
    }
}

fn to_serde(value: &Json) -> serde_json::Value {
    match value {
        Json::Null => serde_json::Value::Null,
        Json::Bool(flag) => serde_json::Value::Bool(*flag),
        Json::Number(text) => serde_json::from_str(text).unwrap(),
        Json::Text(text) => serde_json::Value::String(text.clone()),
        Json::Array(items) => serde_json::Value::Array(items.iter().map(to_serde).collect()),
        Json::Object(members) => serde_json::Value::Object(
            members.iter().map(|(key, member)| (key.clone(), to_serde(member))).collect(),
        ),
    }
}

fn rendered(app: &App) -> String {
    serde_json::to_string_pretty(&to_serde(&openapi(app))).unwrap()
}

#[test]
fn documents_templated_paths_and_operations() {
    let app = sample(
        vec![
            route("GET", "/users/:id", Some("users/get"), Some("Get user")),
            route("POST", "/users/:id", None, None),
            route("ANY", "/any", None, None),
            route("GET", "/__hoplite/nchan/1/signals/authorize", None, None),
        ],
        Vec::new(),
    );
    let document = to_serde(&openapi(&app));
    assert_eq!(document["openapi"], "3.1.0");
    assert_eq!(document["info"]["title"], "sample");
    assert_eq!(document["info"]["version"], "0.2.0");
    let paths = document["paths"].as_object().unwrap();
    assert_eq!(paths.len(), 1);
    let user = &paths["/users/{id}"];
    assert_eq!(user["get"]["operationId"], "users.get");
    assert_eq!(user["get"]["summary"], "Get user");
    assert_eq!(user["get"]["responses"]["200"]["description"], "Handler response");
    assert!(user["post"].get("operationId").is_none());
    let text = rendered(&app);
    assert!(text.contains("/users/{id}"));
    assert!(!text.contains("/__hoplite/"));
}

#[test]
fn lists_fixed_proxies() {
    let app = sample(
        vec![route("GET", "/health", None, None)],
        vec![Proxy {
            path: "/space/".into(),
            upstream: "https://greenways.space/beacon/v1/".into(),
            authority: "greenways.space".into(),
            server_name: "greenways.space".into(),
            secure: true,
        }],
    );
    let document = to_serde(&openapi(&app));
    assert_eq!(document["x-hoplite-static-proxies"][0]["path"], "/space/");
    assert_eq!(
        document["x-hoplite-static-proxies"][0]["upstream"],
        "https://greenways.space/beacon/v1/"
    );
    assert!(rendered(&app).contains("x-hoplite-static-proxies"));
}

#[test]
fn a_later_route_replaces_an_earlier_operation() {
    let app = sample(
        vec![route("get", "/a", Some("first"), None), route("GET", "/a", Some("second"), None)],
        Vec::new(),
    );
    let document = to_serde(&openapi(&app));
    assert_eq!(document["paths"]["/a"]["get"]["operationId"], "second");
    assert_eq!(document["paths"]["/a"].as_object().unwrap().len(), 1);
}
