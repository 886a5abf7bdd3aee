use hoplite::app::{App, Config, Peer, Route, RouteAdapter};
use hoplite::hal::HalValue;
use hoplite::host::Json;
use hoplite::manifest::{manifest as build_manifest, manifest_json, read_app_manifest, runtime_adapter, summarize_manifest};

fn keyword(text: &str) -> HalValue {
    HalValue::Keyword(text.into())
}

fn string(text: &str) -> HalValue {
    HalValue::String(text.into())
}

fn route(method: &str, path: &str, handler: &str, adapter: RouteAdapter) -> Route {
    Route {
        method: method.into(),
        path: path.into(),
        handler: handler.into(),
        name: None,
        summary: None,
        adapter,
    }
}

fn app(id: u64, routes: Vec<Route>) -> App {
    App {
        id,
        name: format!("app{id}"),
        port: 8080,
        hostnames: Vec::new(),
        routes,
        request_body: None,
        proxies: Vec::new(),
        channels: Vec::new(),
        peers: vec![Peer {
            name: "sync".into(),
            channel: "signals".into(),
            handler: "sample/connected".into(),
            label: "sample.sync".into(),
            max_message_bytes: 65536,
            idle_timeout_seconds: 60,
        }],
        openapi_path: None,
    }
}

#[test]
fn the_runtime_reads_back_what_the_build_writes() {
    let config = Config {
        workers: 1,
        apps: vec![
            app(1, vec![
                route("GET", "/users/:id", "sample/get-user", RouteAdapter::Request),
                route("ANY", "/raw", "sample/raw", RouteAdapter::Raw),
            ]),
            app(2, vec![route("POST", "/hta", "sample/hta", RouteAdapter::RequestHta)]),
        ],
    };
    let apps = read_app_manifest(&build_manifest(&config)).unwrap();
    assert_eq!(apps.len(), 2);
    assert_eq!(apps[0].id, 1);
    assert_eq!(apps[0].routes.len(), 2);
    assert_eq!(apps[0].routes[0].method, "GET");
    assert_eq!(apps[0].routes[0].path, "/users/:id");
    assert_eq!(apps[0].routes[0].handler, "sample/get-user");
    assert_eq!(apps[0].routes[0].adapter, RouteAdapter::Request);
    assert_eq!(apps[0].routes[1].adapter, RouteAdapter::Raw);
    assert_eq!(apps[1].id, 2);
    assert_eq!(apps[1].routes[0].adapter, RouteAdapter::RequestHta);
}

fn manifest(format: Option<i64>, apps: Vec<HalValue>) -> HalValue {
    let mut entries = Vec::new();
    if let Some(format) = format {
        entries.push((keyword("format"), HalValue::Number(format)));
    }
    entries.push((keyword("apps"), HalValue::Vector(apps)));
    HalValue::Mapping(entries)
}

fn app_entry(id: i64, routes: Vec<HalValue>) -> HalValue {
    HalValue::Mapping(vec![(keyword("id"), HalValue::Number(id)), (keyword("routes"), HalValue::List(routes))])
}

fn route_entry(extra: Vec<(HalValue, HalValue)>) -> HalValue {
    let mut entries = vec![
        (keyword("method"), keyword("GET")),
        (keyword("path"), string("/")),
        (keyword("handler"), string("sample/index")),
    ];
    entries.extend(extra);
    HalValue::Mapping(entries)
}

#[test]
fn format_one_manifests_default_to_request_hta() {
    let apps = read_app_manifest(&manifest(None, vec![app_entry(3, vec![route_entry(vec![])])])).unwrap();
    assert_eq!(apps[0].routes[0].adapter, RouteAdapter::RequestHta);
    assert_eq!(apps[0].routes[0].method, "GET");
    let apps = read_app_manifest(&manifest(Some(2), vec![app_entry(3, vec![route_entry(vec![])])])).unwrap();
    assert_eq!(apps[0].routes[0].adapter, RouteAdapter::Request);
}

#[test]
fn refuses_malformed_manifests() {
    let ok_route = || route_entry(vec![]);
    let cases = vec![
        (manifest(Some(3), vec![]), "unsupported Hoplite app manifest format"),
        (HalValue::Mapping(vec![]), "missing :apps"),
        (HalValue::Mapping(vec![(keyword("apps"), string("x"))]), "expected sequence"),
        (manifest(Some(2), vec![app_entry(0, vec![])]), "missing or invalid :id"),
        (
            manifest(Some(2), vec![HalValue::Mapping(vec![(keyword("id"), HalValue::Number(1))])]),
            "missing :routes",
        ),
        (
            manifest(Some(2), vec![app_entry(1, vec![HalValue::Mapping(vec![])])]),
            "missing or invalid :method",
        ),
        (
            manifest(Some(2), vec![app_entry(1, vec![route_entry(vec![(keyword("adapter"), keyword("json"))])])]),
            "unknown route adapter :json",
        ),
        (
            manifest(Some(2), vec![app_entry(1, vec![route_entry(vec![(keyword("auth"), HalValue::Nil)])])]),
            "route auth policy belongs in the HAL handler",
        ),
        (
            manifest(Some(2), vec![app_entry(4, vec![ok_route()]), app_entry(4, vec![])]),
            "duplicate app id 4",
        ),
    ];
    for (value, message) in cases {
        assert_eq!(read_app_manifest(&value).unwrap_err(), message);
    }
}

#[test]
fn adapters_are_named_exactly() {
    assert_eq!(runtime_adapter(Some("raw".into()), true).unwrap(), RouteAdapter::Raw);
    assert_eq!(runtime_adapter(None, true).unwrap(), RouteAdapter::RequestHta);
    assert_eq!(runtime_adapter(None, false).unwrap(), RouteAdapter::Request);
    assert_eq!(runtime_adapter(Some("Raw".into()), false).unwrap_err(), "unknown route adapter :Raw");
}

fn to_serde(value: &Json) -> serde_json::Value {
    match value {
        Json::Null => serde_json::Value::Null,
        Json::Bool(flag) => serde_json::Value::Bool(*flag),
        Json::Number(text) => serde_json::from_str(text).unwrap(),
        Json::Text(text) => serde_json::Value::String(text.clone()),
        Json::Array(items) => serde_json::Value::Array(items.iter().map(to_serde).collect()),
        Json::Object(members) => serde_json::Value::Object(
            members.iter().map(|(key, member)| (key.clone(), to_serde(member))).collect(),
        ),
    }
}

#[test]
fn the_json_manifest_lists_every_field() {
    let mut first = app(1, vec![route("GET", "/", "sample/index", RouteAdapter::Raw)]);
    first.hostnames = vec!["example.org".into()];
    first.request_body = Some(hoplite::app::RequestBodyPolicy { max_bytes: 1024, max_chunk_bytes: 64 });
    let config = Config { workers: 2, apps: vec![first] };
    let document = to_serde(&manifest_json(&config));
    assert_eq!(document["format"], 2);
    let app = &document["apps"][0];
    assert_eq!(app["id"], 1);
    assert_eq!(app["name"], "app1");
    assert_eq!(app["port"], 8080);
    assert_eq!(app["hostnames"][0], "example.org");
    assert_eq!(app["request_body"]["max_bytes"], 1024);
    assert_eq!(app["request_body"]["max_chunk_bytes"], 64);
    assert_eq!(app["peers"][0]["max_message_bytes"], 65536);
    assert_eq!(app["peers"][0]["idle_timeout_seconds"], 60);
    assert_eq!(app["routes"][0]["adapter"], "raw");
    assert_eq!(app["routes"][0]["handler"], "sample/index");
    assert!(app["proxies"].as_array().unwrap().is_empty());
    let none = Config { workers: 1, apps: vec![app_without_body()] };
    assert!(to_serde(&manifest_json(&none))["apps"][0]["request_body"].is_null());
}

fn app_without_body() -> App {
    app(9, Vec::new())
}

#[test]
fn inspection_counts_applications_routes_and_adapters() {
    let config = Config {
        workers: 1,
        apps: vec![
            app(1, vec![
                route("GET", "/a", "s/a", RouteAdapter::Request),
                route("GET", "/b", "s/b", RouteAdapter::Raw),
                route("GET", "/c", "s/c", RouteAdapter::Request),
            ]),
            app(2, vec![route("GET", "/d", "s/d", RouteAdapter::RequestHta)]),
        ],
    };
    let summary = summarize_manifest(&build_manifest(&config)).unwrap();
    assert_eq!(summary.format, 2);
    assert_eq!(summary.applications, 2);
    assert_eq!(summary.routes, 4);
    assert_eq!(
        summary.adapters,
        vec![("raw".to_string(), 1), ("request".to_string(), 2), ("request+hta".to_string(), 1)]
    );
    let only_request = Config { workers: 1, apps: vec![app(1, vec![route("GET", "/", "s/i", RouteAdapter::Request)])] };
    assert_eq!(summarize_manifest(&build_manifest(&only_request)).unwrap().adapters, vec![("request".to_string(), 1)]);
}

#[test]
fn inspection_refuses_incomplete_manifests() {
    let cases = vec![
        (HalValue::Mapping(vec![]), "hoplite/inspect-manifest-format-missing"),
        (manifest(Some(-3), vec![]), "hoplite/inspect-manifest-incompatible: format -3, expected 2"),
        (manifest(Some(1), vec![]), "hoplite/inspect-manifest-incompatible: format 1, expected 2"),
        (
            HalValue::Mapping(vec![(keyword("format"), HalValue::Number(2))]),
            "hoplite/inspect-manifest-apps-missing",
        ),
        (manifest(Some(2), vec![]), "hoplite/inspect-manifest-apps-empty"),
        (
            manifest(Some(2), vec![HalValue::Mapping(vec![(keyword("id"), HalValue::Number(1))])]),
            "hoplite/inspect-manifest-routes-missing",
        ),
        (manifest(Some(2), vec![app_entry(1, vec![route_entry(vec![])])]), "hoplite/inspect-manifest-adapter-missing"),
        (
            manifest(Some(2), vec![app_entry(1, vec![route_entry(vec![(keyword("adapter"), keyword("json"))])])]),
            "hoplite/inspect-manifest-adapter-unsupported: json",
        ),
    ];
    for (value, message) in cases {
        assert_eq!(summarize_manifest(&value).unwrap_err(), message);
    }
}

#[test]
fn the_manifest_describes_each_peer() {
    let config = Config { workers: 1, apps: vec![app(7, Vec::new())] };
    let value = build_manifest(&config);
    let HalValue::Mapping(entries) = value else { panic!("manifest is not a map") };
    let HalValue::Vector(apps) = &entries[1].1 else { panic!(":apps is not a vector") };
    let HalValue::Mapping(app_entries) = &apps[0] else { panic!("app is not a map") };
    assert!(matches!(&app_entries[1].0, HalValue::Keyword(k) if k == "peers"));
    let HalValue::Vector(peers) = &app_entries[1].1 else { panic!(":peers is not a vector") };
    assert_eq!(peers.len(), 1);
    let HalValue::Mapping(peer) = &peers[0] else { panic!("peer is not a map") };
    let text = |v: &HalValue| match v {
        HalValue::Keyword(t) | HalValue::String(t) => t.clone(),
        HalValue::Number(n) => n.to_string(),
        _ => panic!("unexpected value"),
    };
    let seen: Vec<(String, String)> = peer.iter().map(|(k, v)| (text(k), text(v))).collect();
    assert!(peer.iter().all(|(k, _)| matches!(k, HalValue::Keyword(_))));
    assert!(matches!(&peer[0].1, HalValue::String(_)) && matches!(&peer[3].1, HalValue::String(_)));
    assert!(matches!(&peer[4].1, HalValue::Number(65536)) && matches!(&peer[5].1, HalValue::Number(60)));
    let expected: Vec<(String, String)> = [
        ("name", "sync"),
        ("channel", "signals"),
        ("handler", "sample/connected"),
        ("label", "sample.sync"),
        ("max-message-bytes", "65536"),
        ("idle-timeout-seconds", "60"),
    ]
    .iter()
    .map(|(k, v)| (k.to_string(), v.to_string()))
    .collect();
    assert_eq!(seen, expected);
}
