use hoplite::app::{
    parse_app, parse_channel, parse_config, parse_proxy, parse_proxy_authority,
    parse_proxy_upstream, parse_root, validate_proxies, valid_token, Proxy, RouteAdapter,
};
use hoplite::hal::HalValue;

fn kw(name: &str) -> HalValue {
    HalValue::Keyword(name.into())
}

fn string(text: &str) -> HalValue {
    HalValue::String(text.into())
}

fn var(symbol: &str) -> HalValue {
    HalValue::Var(symbol.into(), Box::new(HalValue::Nil))
}

fn map_value(entries: Vec<(HalValue, HalValue)>) -> HalValue {
    HalValue::Mapping(entries)
}

fn keyword(name: &str) -> HalValue {
    kw(name)
}

fn vector(items: Vec<HalValue>) -> HalValue {
    HalValue::Vector(items)
}

#[test]
fn rejects_open_ended_nchan_configuration() {
    let value = map_value(vec![
        (keyword("hoplite/type"), keyword("channel")),
        (keyword("name"), keyword("signals")),
        (
            keyword("path"),
            HalValue::String("/signals/$request_uri".into()),
        ),
        (
            keyword("authorize"),
            HalValue::Symbol("sample/authorize".into()),
        ),
        (keyword("admit"), HalValue::Symbol("sample/admit".into())),
        (
            keyword("nginx/directives"),
            HalValue::String("return 200;".into()),
        ),
    ]);
    let error = parse_channel(&value, "test channel").unwrap_err();
    assert!(error.contains("unsupported field"), "{error}");
}

#[test]
fn rejects_dynamic_and_insecure_remote_proxy_configuration() {
    let invalid = [
        ("/space/", "http://greenways.space/beacon/v1/"),
        ("/space/$path/", "https://greenways.space/beacon/v1/"),
        ("/space/", "https://user@greenways.space/beacon/v1/"),
        ("/space/", "https://greenways.space/beacon/../private/"),
    ];
    for (path, upstream) in invalid {
        let value = map_value(vec![
            (keyword("path"), HalValue::String(path.into())),
            (keyword("upstream"), HalValue::String(upstream.into())),
        ]);
        assert!(
            parse_proxy(&value, "test proxy").is_err(),
            "accepted {path} -> {upstream}"
        );
    }
}

fn proxy_app() -> HalValue {
    map_value(vec![
        (kw("hoplite/type"), kw("application")),
        (kw("name"), kw("proxy")),
        (
            kw("proxies"),
            vector(vec![
                map_value(vec![
                    (kw("path"), string("/space/")),
                    (kw("upstream"), string("https://greenways.space/beacon/v1/")),
                ]),
                map_value(vec![
                    (kw("path"), string("/dev/")),
                    (kw("upstream"), string("http://127.0.0.1:5173/api/")),
                ]),
            ]),
        ),
        (
            kw("resources"),
            vector(vec![vector(vec![
                string("/health"),
                map_value(vec![(kw("get"), map_value(vec![(kw("handler"), var("sample.proxy/health"))]))]),
            ])]),
        ),
    ])
}

#[test]
fn parses_fixed_https_and_loopback_proxy_prefixes() {
    let app = parse_app(&proxy_app(), 1, 58100, vec![], false).unwrap();
    assert_eq!(app.proxies.len(), 2);
    assert_eq!(app.proxies[0].path, "/space/");
    assert_eq!(app.proxies[0].authority, "greenways.space");
    assert_eq!(app.proxies[0].server_name, "greenways.space");
    assert!(app.proxies[0].secure);
    assert!(!app.proxies[1].secure);
    assert_eq!(app.routes.len(), 1);
    assert_eq!(app.routes[0].method, "GET");
    assert_eq!(app.routes[0].path, "/health");
    assert_eq!(app.routes[0].handler, "sample.proxy/health");
    assert_eq!(app.openapi_path.as_deref(), Some("/openapi.json"));
}

fn channel_app() -> HalValue {
    map_value(vec![
        (kw("hoplite/type"), kw("application")),
        (kw("name"), kw("sample")),
        (
            kw("channels"),
            vector(vec![map_value(vec![
                (kw("hoplite/type"), kw("channel")),
                (kw("name"), kw("signals")),
                (kw("path"), string("/tahto/signals/:channel")),
                (kw("profile"), kw("ephemeral")),
                (kw("authorize"), var("sample.channel/authorize")),
                (kw("admit"), var("sample.channel/admit")),
            ])]),
        ),
        (
            kw("peers"),
            vector(vec![map_value(vec![
                (kw("hoplite/type"), kw("peer")),
                (kw("name"), kw("sync")),
                (kw("channel"), kw("signals")),
                (kw("handler"), var("sample.channel/connected")),
                (kw("label"), string("tahto.sync")),
            ])]),
        ),
    ])
}

#[test]
fn parses_closed_nchan_channel_declarations() {
    let app = parse_app(&channel_app(), 7, 58100, vec![], false).unwrap();
    assert_eq!(app.channels.len(), 1);
    assert_eq!(app.channels[0].path_prefix, "/tahto/signals");
    assert_eq!(app.channels[0].authorize, "sample.channel/authorize");
    assert_eq!(app.channels[0].admission, "sample.channel/admit");
    assert_eq!(app.channels[0].message_buffer, 8);
    assert_eq!(app.channels[0].transports, ["websocket", "eventsource"]);
    assert_eq!(app.peers.len(), 1);
    assert_eq!(app.peers[0].channel, "signals");
    assert_eq!(app.peers[0].handler, "sample.channel/connected");
    assert_eq!(app.peers[0].max_message_bytes, 65_536);
    assert_eq!(app.routes[0].path, "/__hoplite/nchan/7/signals/authorize");
    assert_eq!(app.routes[1].path, "/__hoplite/nchan/7/signals/admit");
}

#[test]
fn semantic_route_authorization_belongs_to_the_hal_handler() {
    let value = map_value(vec![
        (kw("hoplite/type"), kw("application")),
        (kw("name"), kw("sample")),
        (
            kw("resources"),
            vector(vec![vector(vec![
                string("/objects"),
                map_value(vec![(
                    kw("post"),
                    map_value(vec![
                        (kw("handler"), var("sample/submit")),
                        (kw("route/auth"), map_value(vec![(kw("application"), string("example"))])),
                    ]),
                )]),
            ])]),
        ),
    ]);
    let error = parse_app(&value, 1, 8080, vec![], false).unwrap_err();
    assert!(error.contains(":route/auth is not a Hoplite transport field"));
    assert!(error.contains("authorize inside the HAL handler"));
}

#[test]
fn nested_resources_join_paths_and_keep_declared_metadata() {
    let value = map_value(vec![
        (kw("hoplite/type"), kw("application")),
        (kw("name"), string("users")),
        (kw("handler"), var("users/fallback")),
        (
            kw("resources"),
            vector(vec![vector(vec![
                string("/users"),
                map_value(vec![
                    (kw("post"), map_value(vec![(kw("handler"), var("users/create"))])),
                    (
                        kw("get"),
                        map_value(vec![
                            (kw("handler"), var("users/list")),
                            (kw("name"), kw("users/list")),
                            (kw("summary"), string("List users")),
                            (kw("route/adapter"), kw("raw")),
                        ]),
                    ),
                ]),
                vector(vec![
                    string("/:id"),
                    map_value(vec![(kw("delete"), map_value(vec![(kw("handler"), HalValue::Symbol("users/remove".into()))]))]),
                ]),
            ])]),
        ),
    ]);
    let app = parse_app(&value, 3, 9000, vec!["example.org".into()], true).unwrap();
    let routes: Vec<(&str, &str, &str)> = app
        .routes
        .iter()
        .map(|route| (route.method.as_str(), route.path.as_str(), route.handler.as_str()))
        .collect();
    assert_eq!(
        routes,
        vec![
            ("ANY", "/*path", "users/fallback"),
            ("GET", "/users", "users/list"),
            ("POST", "/users", "users/create"),
            ("DELETE", "/users/:id", "users/remove"),
        ]
    );
    assert_eq!(app.routes[0].name.as_deref(), Some("users/handler"));
    assert_eq!(app.routes[1].adapter, RouteAdapter::Raw);
    assert_eq!(app.routes[1].summary.as_deref(), Some("List users"));
    assert_eq!(app.routes[2].adapter, RouteAdapter::Request);
    assert_eq!(app.openapi_path, None);
    assert_eq!(app.hostnames, vec!["example.org".to_string()]);
}

#[test]
fn app_refusals_name_their_cause() {
    let not_app = map_value(vec![(kw("hoplite/type"), kw("channel"))]);
    assert_eq!(
        parse_app(&not_app, 1, 1, vec![], false).unwrap_err(),
        "app instance :app must be a hoplite.core/app"
    );
    let empty = map_value(vec![(kw("hoplite/type"), kw("application"))]);
    assert_eq!(
        parse_app(&empty, 4, 1, vec![], false).unwrap_err(),
        "Hoplite app \"app-4\" has no resource operations"
    );
    let bad_adapter = map_value(vec![
        (kw("hoplite/type"), kw("application")),
        (kw("route/adapter"), kw("stream")),
    ]);
    assert_eq!(
        parse_app(&bad_adapter, 1, 1, vec![], false).unwrap_err(),
        "Hoplite app \"app-1\" :route/adapter must be :raw, :request, or :request+hta; got :stream"
    );
    let body_and_hta = map_value(vec![
        (kw("hoplite/type"), kw("application")),
        (kw("route/adapter"), kw("request+hta")),
        (kw("request/body"), map_value(vec![(kw("max-bytes"), HalValue::Number(10))])),
        (kw("handler"), var("a/b")),
    ]);
    assert_eq!(
        parse_app(&body_and_hta, 1, 1, vec![], false).unwrap_err(),
        "Hoplite app \"app-1\" request max-chunk-bytes exceeds max-bytes"
    );
    let overlapping = map_value(vec![
        (kw("hoplite/type"), kw("application")),
        (kw("name"), string("x")),
        (
            kw("proxies"),
            vector(vec![
                map_value(vec![(kw("path"), string("/a/")), (kw("upstream"), string("https://a.example/"))]),
                map_value(vec![(kw("path"), string("/a/b/")), (kw("upstream"), string("https://b.example/"))]),
            ]),
        ),
        (kw("handler"), var("a/b")),
    ]);
    assert_eq!(
        parse_app(&overlapping, 1, 1, vec![], false).unwrap_err(),
        "Hoplite app \"x\" has overlapping proxy paths \"/a/\" and \"/a/b/\""
    );
}

#[test]
fn upstream_authorities_are_closed() {
    assert_eq!(
        parse_proxy_authority("[::1]:8080", "p").unwrap(),
        ("::1".to_string(), true)
    );
    assert!(parse_proxy_authority("[::2]", "p").is_err());
    assert_eq!(
        parse_proxy_authority("LocalHost:80", "p").unwrap(),
        ("LocalHost".to_string(), true)
    );
    assert_eq!(
        parse_proxy_authority("a:b:c", "p").unwrap_err(),
        "p :upstream authority is invalid"
    );
    assert_eq!(
        parse_proxy_authority("example.org:0", "p").unwrap_err(),
        "p :upstream port must be between 1 and 65535"
    );
    assert!(parse_proxy_authority("-bad.org", "p").is_err());
    assert_eq!(
        parse_proxy_upstream("https://example.org/v1/", "p").unwrap(),
        ("example.org".to_string(), "example.org".to_string(), true)
    );
    assert_eq!(
        parse_proxy_upstream("ftp://example.org/", "p").unwrap_err(),
        "p :upstream must use http:// or https://"
    );
    assert_eq!(
        parse_proxy_upstream("http://example.org/", "p").unwrap_err(),
        "p remote upstreams must use https://"
    );
    assert!(valid_token("a.b-c_9", "t").is_ok());
    assert_eq!(valid_token("", "t").unwrap_err(), "t is invalid");
    let proxies = vec![Proxy {
        path: "/x/".into(),
        upstream: "https://a/".into(),
        authority: "a".into(),
        server_name: "a".into(),
        secure: true,
    }];
    assert!(validate_proxies(&proxies, "n").is_ok());
}

#[test]
fn internal_configs_number_apps_and_assign_ports() {
    let instance = |id: Option<&str>, hostnames: Vec<HalValue>| {
        let mut entries = vec![(kw("app"), HalValue::Var("demo/app".into(), Box::new(proxy_app())))];
        if let Some(id) = id {
            entries.push((kw("id"), string(id)));
        }
        entries.push((kw("hostnames"), vector(hostnames)));
        map_value(entries)
    };
    let config = map_value(vec![
        (kw("hoplite/type"), kw("config")),
        (kw("worker-processes"), HalValue::Number(3)),
        (
            kw("apps"),
            vector(vec![instance(Some("first"), vec![]), instance(Some("second"), vec![string("b.example")])]),
        ),
    ]);
    let parsed = parse_config(&config, 8080, 1, true).unwrap();
    assert_eq!(parsed.workers, 3);
    assert_eq!(parsed.apps.len(), 2);
    assert_eq!(parsed.apps[0].name, "first");
    assert_eq!(parsed.apps[0].port, 8080);
    assert_eq!(parsed.apps[1].id, 2);
    assert_eq!(parsed.apps[1].port, 8081);
    let clash = map_value(vec![
        (kw("hoplite/type"), kw("config")),
        (kw("apps"), vector(vec![instance(None, vec![]), instance(None, vec![])])),
    ]);
    assert_eq!(
        parse_root(&clash, 8080, 2, true).unwrap_err(),
        "duplicate app id \"proxy\""
    );
    let single = parse_root(&proxy_app(), 5000, 4, false).unwrap();
    assert_eq!(single.workers, 4);
    assert_eq!(single.apps[0].port, 5000);
    assert_eq!(
        parse_root(&kw("nothing"), 1, 1, false).unwrap_err(),
        "profile main must evaluate to hoplite.core/app or hoplite.internal/config"
    );
}
