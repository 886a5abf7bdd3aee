use hoplite::app::{App, Channel, Config, Proxy, RequestBodyPolicy};
use hoplite::nginx::{
    contains_whitespace, nginx_app_configuration, nginx_proxy_location, proxy_needs_trusted_ca,
    unsafe_nginx,
};

fn space_proxy(secure: bool) -> Proxy {
    Proxy {
        path: "/space/".into(),
        upstream: "https://greenways.space/beacon/v1/".into(),
        authority: "greenways.space".into(),
        server_name: "greenways.space".into(),
        secure,
    }
}

#[test]
fn rejects_nginx_configuration_injection() {
    assert!(unsafe_nginx("example.org; return 200"));
    assert!(unsafe_nginx("https://example.org/$request_uri"));
}

#[test]
fn renders_verified_fixed_proxy_locations_without_forwarding_local_ambient_authority() {
    let proxy = space_proxy(true);
    let location =
        nginx_proxy_location(&proxy, Some("/etc/ssl/certs/ca-certificates.crt")).unwrap();
    assert!(location.contains("location ^~ /space/"));
    assert!(location.contains("proxy_ssl_name greenways.space;"));
    assert!(location.contains("proxy_ssl_verify on;"));
    assert!(location.contains("proxy_ssl_verify_depth 5;"));
    assert!(
        location.contains("proxy_ssl_trusted_certificate /etc/ssl/certs/ca-certificates.crt;")
    );
    assert!(location.contains("proxy_set_header Host greenways.space;"));
    assert!(location.contains("proxy_set_header Cookie \"\";"));
    assert!(location.contains("proxy_set_header Origin \"\";"));
    assert!(location.contains("proxy_pass https://greenways.space/beacon/v1/;"));
    assert!(!location.contains("$request_uri"));
}

#[test]
fn secure_proxy_requires_a_ca_bundle() {
    let proxy = space_proxy(true);
    assert!(nginx_proxy_location(&proxy, None)
        .unwrap_err()
        .contains("trusted CA bundle"));
}

#[test]
fn plain_proxy_location_is_exact() {
    let mut proxy = space_proxy(false);
    proxy.upstream = "http://127.0.0.1:9000/".into();
    proxy.authority = "127.0.0.1:9000".into();
    let location = nginx_proxy_location(&proxy, None).unwrap();
    assert_eq!(
        location,
        "        location ^~ /space/ {\n            proxy_http_version 1.1;\n            proxy_set_header Host 127.0.0.1:9000;\n            proxy_set_header Connection \"\";\n            proxy_set_header Cookie \"\";\n            proxy_set_header Origin \"\";\n            proxy_set_header Referer \"\";\n            proxy_set_header X-Forwarded-For \"\";\n            proxy_set_header X-Forwarded-Host \"\";\n            proxy_set_header X-Forwarded-Proto \"\";\n            proxy_pass_request_headers on;\n            proxy_redirect off;\n            proxy_pass http://127.0.0.1:9000/;\n        }\n"
    );
}

#[test]
fn each_unsafe_proxy_field_is_named() {
    let mut proxy = space_proxy(true);
    proxy.path = "/a b/".into();
    assert_eq!(
        nginx_proxy_location(&proxy, Some("/ca.pem")).unwrap_err(),
        "invalid proxy path \"/a b/\""
    );
    let mut proxy = space_proxy(true);
    proxy.upstream = "https://x/{".into();
    assert_eq!(
        nginx_proxy_location(&proxy, Some("/ca.pem")).unwrap_err(),
        "invalid proxy upstream \"https://x/{\""
    );
    let mut proxy = space_proxy(true);
    proxy.authority = "x;y".into();
    assert_eq!(
        nginx_proxy_location(&proxy, Some("/ca.pem")).unwrap_err(),
        "invalid proxy authority \"x;y\""
    );
    let mut proxy = space_proxy(true);
    proxy.server_name = "x\u{a0}y".into();
    assert!(nginx_proxy_location(&proxy, Some("/ca.pem"))
        .unwrap_err()
        .starts_with("invalid proxy server name "));
    let proxy = space_proxy(true);
    assert_eq!(
        nginx_proxy_location(&proxy, Some("/my ca.pem")).unwrap_err(),
        "invalid proxy CA bundle path \"/my ca.pem\""
    );
}

#[test]
fn whitespace_follows_unicode() {
    assert!(contains_whitespace("a\tb"));
    assert!(contains_whitespace("a\u{3000}b"));
    assert!(contains_whitespace("a\u{2028}"));
    assert!(!contains_whitespace("a\u{200b}b"));
    assert!(!unsafe_nginx("https://example.org/path"));
    assert!(unsafe_nginx("a\\b"));
    assert!(unsafe_nginx("a'b"));
}

#[test]
fn channel_paths_name_the_application_and_channel() {
    let channel = Channel {
        name: "chat".into(),
        path_prefix: "/chat/".into(),
        authorize: "demo/authorize".into(),
        admission: "demo/admit".into(),
        message_buffer: 16,
        message_timeout_seconds: 60,
        max_channel_id_bytes: 64,
        max_subscribers: 8,
        transports: vec!["websocket".into()],
    };
    assert_eq!(channel.authorize_path(42), "/__hoplite/nchan/42/chat/authorize");
    assert_eq!(channel.admit_path(7), "/__hoplite/nchan/7/chat/admit");
}

fn plain_app(id: u64, name: &str, port: u16, hostnames: &[&str]) -> App {
    App {
        id,
        name: name.into(),
        port,
        hostnames: hostnames.iter().map(|h| h.to_string()).collect(),
        routes: Vec::new(),
        request_body: None,
        proxies: Vec::new(),
        channels: Vec::new(),
        peers: Vec::new(),
        openapi_path: None,
    }
}

#[test]
fn whole_configuration_is_exact() {
    let mut first = plain_app(0, "site", 8080, &["example.org", "www.example.org"]);
    first.request_body = Some(RequestBodyPolicy { max_bytes: 1024, max_chunk_bytes: 256 });
    let second = plain_app(7, "admin", 9090, &[]);
    let config = Config { workers: 4, apps: vec![first, second] };
    let text =
        nginx_app_configuration(&config, "/srv/.hoplite/app.hbx", "/srv/.hoplite/apps.hta", None)
            .unwrap();
    assert_eq!(
        text,
        "worker_processes 4;\npid .hoplite/nginx.pid;\nerror_log .hoplite/error.log;\nevents {}\nhttp {\n    access_log .hoplite/access.log;\n    hoplite_bootstrap /srv/.hoplite/app.hbx;\n    hoplite_manifest /srv/.hoplite/apps.hta;\n    server {\n        listen 8080;\n        server_name example.org www.example.org;\n        location / {\n            client_max_body_size 1024;\n            hoplite_request_body on;\n            hoplite_request_body_max 1024;\n            hoplite_request_body_chunk 256;\n            hoplite_app 0;\n        }\n    }\n    server {\n        listen 9090;\n        server_name _;\n        location / {\n            hoplite_app 7;\n        }\n    }\n }\n"
    );
}

#[test]
fn configuration_refuses_unsafe_hostnames_and_proxies() {
    let bad_host = plain_app(0, "site", 8080, &["example.org;"]);
    let config = Config { workers: 1, apps: vec![bad_host] };
    assert_eq!(
        nginx_app_configuration(&config, "/b", "/m", None).unwrap_err(),
        "invalid hostname in app \"site\""
    );
    let mut secure = plain_app(0, "site", 8080, &["example.org"]);
    secure.proxies.push(space_proxy(true));
    let config = Config { workers: 1, apps: vec![secure] };
    assert!(proxy_needs_trusted_ca(&config));
    assert_eq!(
        nginx_app_configuration(&config, "/b", "/m", None).unwrap_err(),
        "secure proxy is missing a trusted CA bundle"
    );
    let text = nginx_app_configuration(&config, "/b", "/m", Some("/ca.pem")).unwrap();
    assert!(text.contains("proxy_ssl_trusted_certificate /ca.pem;"));
    let plain = Config { workers: 1, apps: vec![plain_app(0, "site", 8080, &[])] };
    assert!(!proxy_needs_trusted_ca(&plain));
}

#[test]
fn ca_bundle_paths_must_be_inert() {
    assert!(hoplite::nginx::check_ca_bundle_path("/etc/ssl/cert.pem").is_ok());
    assert_eq!(
        hoplite::nginx::check_ca_bundle_path("/tmp/my certs.pem").unwrap_err(),
        "proxy CA bundle path is not safe for generated Nginx configuration: \"/tmp/my certs.pem\""
    );
    assert!(hoplite::nginx::check_ca_bundle_path("/tmp/a;b").is_err());
}
