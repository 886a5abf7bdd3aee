//! Generated Nginx configuration: which values may be interpolated, and the
//! fixed-upstream proxy locations built from them.

use vstd::prelude::*;
use crate::app::{App, Config, Proxy, RequestBodyPolicy};
use crate::text::{chars_of, debug_quoted, debug_text, decimal_chars, owned, push_decimal, push_str};

verus! {

/// The Nginx release this build serves with.
pub const NGINX_VERSION: &'static str = "1.30.4";

/// Characters that would let an interpolated value end a directive, open or
/// close a block, expand a variable or escape a quoted string.
pub open spec fn is_nginx_syntax_char(c: char) -> bool {
    c == ';' || c == '{' || c == '}' || c == '$' || c == '\\' || c == '"' || c == '\''
        || c == '\n' || c == '\r' || c == '\0'
}

/// Unicode `White_Space`, the set `char::is_whitespace` tests.
pub open spec fn is_whitespace_char(c: char) -> bool {
    ('\t' <= c && c <= '\r') || c == ' ' || c == '\u{85}' || c == '\u{a0}' || c == '\u{1680}'
        || ('\u{2000}' <= c && c <= '\u{200a}') || c == '\u{2028}' || c == '\u{2029}'
        || c == '\u{202f}' || c == '\u{205f}' || c == '\u{3000}'
}

pub open spec fn has_nginx_syntax(value: Seq<char>) -> bool {
    exists|i: int| 0 <= i < value.len() && is_nginx_syntax_char(#[trigger] value[i])
}

pub open spec fn has_whitespace(value: Seq<char>) -> bool {
    exists|i: int| 0 <= i < value.len() && is_whitespace_char(#[trigger] value[i])
}

/// A value that may stand as one Nginx argument.
pub open spec fn is_inert_argument(value: Seq<char>) -> bool {
    !has_nginx_syntax(value) && !has_whitespace(value)
}

fn nginx_syntax_char(c: char) -> (r: bool)
    ensures
        r == is_nginx_syntax_char(c),
{
    c == ';' || c == '{' || c == '}' || c == '$' || c == '\\' || c == '"' || c == '\''
        || c == '\n' || c == '\r' || c == '\0'
}

fn whitespace_char(c: char) -> (r: bool)
    ensures
        r == is_whitespace_char(c),
{
    ('\t' <= c && c <= '\r') || c == ' ' || c == '\u{85}' || c == '\u{a0}' || c == '\u{1680}'
        || ('\u{2000}' <= c && c <= '\u{200a}') || c == '\u{2028}' || c == '\u{2029}'
        || c == '\u{202f}' || c == '\u{205f}' || c == '\u{3000}'
}

/// Whether the value holds a character that Nginx would read as syntax.
pub fn unsafe_nginx(value: &str) -> (r: bool)
    ensures
        r == has_nginx_syntax(value@),
{
    let chars = chars_of(value);
    let mut i: usize = 0;
    while i < chars.len()
        invariant
            i <= chars@.len(),
            chars@ == value@,
            forall|j: int| 0 <= j < i ==> !is_nginx_syntax_char(#[trigger] chars@[j]),
        decreases chars@.len() - i,
    {
        if nginx_syntax_char(chars[i]) {
            assert(is_nginx_syntax_char(value@[i as int]));
            return true;
        }
        i = i + 1;
    }
    false
}

/// Whether the value holds a whitespace character.
pub fn contains_whitespace(value: &str) -> (r: bool)
    ensures
        r == has_whitespace(value@),
{
    let chars = chars_of(value);
    let mut i: usize = 0;
    while i < chars.len()
        invariant
            i <= chars@.len(),
            chars@ == value@,
            forall|j: int| 0 <= j < i ==> !is_whitespace_char(#[trigger] chars@[j]),
        decreases chars@.len() - i,
    {
        if whitespace_char(chars[i]) {
            assert(is_whitespace_char(value@[i as int]));
            return true;
        }
        i = i + 1;
    }
    false
}

/// The TLS directives of a verified upstream.
pub open spec fn tls_directives(server_name: Seq<char>, trusted_ca: Seq<char>) -> Seq<char> {
    "            proxy_ssl_server_name on;\n            proxy_ssl_name "@ + server_name
        + ";\n            proxy_ssl_verify on;\n            proxy_ssl_verify_depth 5;\n            proxy_ssl_trusted_certificate "@
        + trusted_ca + ";\n"@
}

/// A location block that forwards one fixed prefix to one fixed upstream
/// and strips the caller's ambient credentials and forwarding headers.
pub open spec fn location_block(
    path: Seq<char>,
    tls: Seq<char>,
    authority: Seq<char>,
    upstream: Seq<char>,
) -> Seq<char> {
    "        location ^~ "@ + path + " {\n            proxy_http_version 1.1;\n"@ + tls
        + "            proxy_set_header Host "@ + authority
        + ";\n            proxy_set_header Connection \"\";\n            proxy_set_header Cookie \"\";\n            proxy_set_header Origin \"\";\n            proxy_set_header Referer \"\";\n            proxy_set_header X-Forwarded-For \"\";\n            proxy_set_header X-Forwarded-Host \"\";\n            proxy_set_header X-Forwarded-Proto \"\";\n            proxy_pass_request_headers on;\n            proxy_redirect off;\n            proxy_pass "@
        + upstream + ";\n        }\n"@
}

/// What rendering a proxy location gives: the first unsafe field refused in
/// the order path, upstream, authority, server name; then, for a secure
/// upstream, the CA bundle; then the location block.
pub open spec fn proxy_location(
    path: Seq<char>,
    upstream: Seq<char>,
    authority: Seq<char>,
    server_name: Seq<char>,
    secure: bool,
    trusted_ca: Option<Seq<char>>,
) -> Result<Seq<char>, Seq<char>> {
    if !is_inert_argument(path) {
        Err("invalid proxy path "@ + debug_text(path))
    } else if !is_inert_argument(upstream) {
        Err("invalid proxy upstream "@ + debug_text(upstream))
    } else if !is_inert_argument(authority) {
        Err("invalid proxy authority "@ + debug_text(authority))
    } else if !is_inert_argument(server_name) {
        Err("invalid proxy server name "@ + debug_text(server_name))
    } else if !secure {
        Ok(location_block(path, Seq::empty(), authority, upstream))
    } else {
        match trusted_ca {
            None => Err("secure proxy is missing a trusted CA bundle"@),
            Some(ca) => if !is_inert_argument(ca) {
                Err("invalid proxy CA bundle path "@ + debug_text(ca))
            } else {
                Ok(location_block(path, tls_directives(server_name, ca), authority, upstream))
            },
        }
    }
}

pub open spec fn proxy_location_of(proxy: Proxy, trusted_ca: Option<&str>) -> Result<
    Seq<char>,
    Seq<char>,
> {
    proxy_location(
        proxy.path@,
        proxy.upstream@,
        proxy.authority@,
        proxy.server_name@,
        proxy.secure,
        match trusted_ca {
            Some(ca) => Some(ca@),
            None => None,
        },
    )
}

pub open spec fn string_result(r: Result<String, String>) -> Result<Seq<char>, Seq<char>> {
    match r {
        Ok(text) => Ok(text@),
        Err(message) => Err(message@),
    }
}

/// `Err("invalid proxy {label} {value:?}")` when the value is not inert.
fn check_argument(label: &str, value: &str) -> (r: Result<(), String>)
    ensures
        match r {
            Ok(()) => is_inert_argument(value@),
            Err(message) => !is_inert_argument(value@) && message@ == "invalid proxy "@
                + label@ + seq![' '] + debug_text(value@),
        },
{
    if unsafe_nginx(value) || contains_whitespace(value) {
        let mut message = owned("invalid proxy ");
        push_str(&mut message, label);
        push_str(&mut message, " ");
        let quoted = debug_quoted(value);
        push_str(&mut message, quoted.as_str());
        proof {
            reveal_strlit(" ");
        }
        Err(message)
    } else {
        Ok(())
    }
}

/// The Nginx location block for one fixed proxy, or why its configuration
/// cannot be emitted. `trusted_ca` is the display form of the CA bundle.
pub fn nginx_proxy_location(proxy: &Proxy, trusted_ca: Option<&str>) -> (r: Result<String, String>)
    ensures
        string_result(r) == proxy_location_of(*proxy, trusted_ca),
{
    proof {
        reveal_strlit("invalid proxy path ");
        reveal_strlit("invalid proxy upstream ");
        reveal_strlit("invalid proxy authority ");
        reveal_strlit("invalid proxy server name ");
        reveal_strlit("invalid proxy ");
        reveal_strlit("path");
        reveal_strlit("upstream");
        reveal_strlit("authority");
        reveal_strlit("server name");
    }
    match check_argument("path", proxy.path.as_str()) {
        Ok(()) => {},
        Err(message) => {
            assert(message@ =~= "invalid proxy path "@ + debug_text(proxy.path@));
            return Err(message);
        },
    }
    match check_argument("upstream", proxy.upstream.as_str()) {
        Ok(()) => {},
        Err(message) => {
            assert(message@ =~= "invalid proxy upstream "@ + debug_text(proxy.upstream@));
            return Err(message);
        },
    }
    match check_argument("authority", proxy.authority.as_str()) {
        Ok(()) => {},
        Err(message) => {
            assert(message@ =~= "invalid proxy authority "@ + debug_text(proxy.authority@));
            return Err(message);
        },
    }
    match check_argument("server name", proxy.server_name.as_str()) {
        Ok(()) => {},
        Err(message) => {
            assert(message@ =~= "invalid proxy server name "@ + debug_text(proxy.server_name@));
            return Err(message);
        },
    }
    let tls = if proxy.secure {
        let ca = match trusted_ca {
            Some(ca) => ca,
            None => return Err(owned("secure proxy is missing a trusted CA bundle")),
        };
        if unsafe_nginx(ca) || contains_whitespace(ca) {
            let mut message = owned("invalid proxy CA bundle path ");
            let quoted = debug_quoted(ca);
            push_str(&mut message, quoted.as_str());
            return Err(message);
        }
        let mut tls = owned("            proxy_ssl_server_name on;\n            proxy_ssl_name ");
        push_str(&mut tls, proxy.server_name.as_str());
        push_str(
            &mut tls,
            ";\n            proxy_ssl_verify on;\n            proxy_ssl_verify_depth 5;\n            proxy_ssl_trusted_certificate ",
        );
        push_str(&mut tls, ca);
        push_str(&mut tls, ";\n");
        tls
    } else {
        let tls = String::new();
        assert(tls@ =~= Seq::<char>::empty());
        tls
    };
    let mut location = owned("        location ^~ ");
    push_str(&mut location, proxy.path.as_str());
    push_str(&mut location, " {\n            proxy_http_version 1.1;\n");
    push_str(&mut location, tls.as_str());
    push_str(&mut location, "            proxy_set_header Host ");
    push_str(&mut location, proxy.authority.as_str());
    push_str(
        &mut location,
        ";\n            proxy_set_header Connection \"\";\n            proxy_set_header Cookie \"\";\n            proxy_set_header Origin \"\";\n            proxy_set_header Referer \"\";\n            proxy_set_header X-Forwarded-For \"\";\n            proxy_set_header X-Forwarded-Host \"\";\n            proxy_set_header X-Forwarded-Proto \"\";\n            proxy_pass_request_headers on;\n            proxy_redirect off;\n            proxy_pass ",
    );
    push_str(&mut location, proxy.upstream.as_str());
    push_str(&mut location, ";\n        }\n");
    Ok(location)
}

// ---------------------------------------------------------------------------
// The application configuration
// ---------------------------------------------------------------------------

/// Host names joined by single spaces.
pub open spec fn joined(names: Seq<Seq<char>>) -> Seq<char>
    decreases names.len(),
{
    if names.len() == 0 {
        Seq::empty()
    } else if names.len() == 1 {
        names[0]
    } else {
        joined(names.drop_last()) + " "@ + names.last()
    }
}

pub open spec fn host_texts(app: App) -> Seq<Seq<char>> {
    app.hostnames@.map_values(|h: String| h@)
}

/// The `server_name` of an application: its host names, or `_`.
pub open spec fn server_names(app: App) -> Seq<char> {
    if app.hostnames@.len() == 0 {
        "_"@
    } else {
        joined(host_texts(app))
    }
}

/// The location blocks of an application's proxies, or the first refusal.
pub open spec fn proxy_locations(proxies: Seq<Proxy>, trusted_ca: Option<&str>) -> Result<Seq<char>, Seq<char>>
    decreases proxies.len(),
{
    if proxies.len() == 0 {
        Ok(Seq::empty())
    } else {
        match proxy_locations(proxies.drop_last(), trusted_ca) {
            Err(m) => Err(m),
            Ok(before) => match proxy_location_of(proxies.last(), trusted_ca) {
                Err(m) => Err(m),
                Ok(location) => Ok(before + location),
            },
        }
    }
}

/// The request-body directives of an application's policy.
pub open spec fn request_body_directives(policy: Option<RequestBodyPolicy>) -> Seq<char> {
    match policy {
        Some(p) => "            client_max_body_size "@ + decimal_chars(p.max_bytes as nat)
            + ";\n            hoplite_request_body on;\n            hoplite_request_body_max "@
            + decimal_chars(p.max_bytes as nat) + ";\n            hoplite_request_body_chunk "@
            + decimal_chars(p.max_chunk_bytes as nat) + ";\n"@,
        None => Seq::empty(),
    }
}

/// One application's `server` block, or why it cannot be emitted: a host
/// name that is not an inert argument, or a refused proxy.
pub open spec fn server_block(app: App, trusted_ca: Option<&str>) -> Result<Seq<char>, Seq<char>> {
    if exists|i: int| 0 <= i < app.hostnames@.len() && !is_inert_argument(#[trigger] app.hostnames@[i]@) {
        Err("invalid hostname in app "@ + debug_text(app.name@))
    } else {
        match proxy_locations(app.proxies@, trusted_ca) {
            Err(m) => Err(m),
            Ok(locations) => Ok(
                "    server {\n        listen "@ + decimal_chars(app.port as nat) + ";\n        server_name "@
                    + server_names(app) + ";\n"@ + locations + "        location / {\n"@
                    + request_body_directives(app.request_body) + "            hoplite_app "@ + decimal_chars(
                    app.id as nat,
                ) + ";\n        }\n"@ + "    }\n"@,
            ),
        }
    }
}

pub open spec fn server_blocks(apps: Seq<App>, trusted_ca: Option<&str>) -> Result<Seq<char>, Seq<char>>
    decreases apps.len(),
{
    if apps.len() == 0 {
        Ok(Seq::empty())
    } else {
        match server_blocks(apps.drop_last(), trusted_ca) {
            Err(m) => Err(m),
            Ok(before) => match server_block(apps.last(), trusted_ca) {
                Err(m) => Err(m),
                Ok(server) => Ok(before + server),
            },
        }
    }
}

/// The whole Nginx configuration of a project: worker count, state files,
/// the bootstrap bundle and manifest, and one `server` per application.
pub open spec fn app_configuration(config: Config, bootstrap: Seq<char>, manifest: Seq<char>, trusted_ca: Option<&str>) -> Result<Seq<char>, Seq<char>> {
    match server_blocks(config.apps@, trusted_ca) {
        Err(m) => Err(m),
        Ok(servers) => Ok(
            "worker_processes "@ + decimal_chars(config.workers as nat)
                + ";\npid .hoplite/nginx.pid;\nerror_log .hoplite/error.log;\nevents {}\nhttp {\n    access_log .hoplite/access.log;\n    hoplite_bootstrap "@
                + bootstrap + ";\n    hoplite_manifest "@ + manifest + ";\n"@ + servers + " }\n"@,
        ),
    }
}

fn server_block_of(app: &App, trusted_ca: Option<&str>) -> (r: Result<String, String>)
    ensures
        string_result(r) == server_block(*app, trusted_ca),
{
    let mut h: usize = 0;
    while h < app.hostnames.len()
        invariant
            h <= app.hostnames@.len(),
            forall|j: int| 0 <= j < h ==> is_inert_argument(#[trigger] app.hostnames@[j]@),
        decreases app.hostnames@.len() - h,
    {
        let host = app.hostnames[h].as_str();
        if unsafe_nginx(host) || contains_whitespace(host) {
            assert(!is_inert_argument(app.hostnames@[h as int]@));
            let mut m = owned("invalid hostname in app ");
            push_str(&mut m, debug_quoted(app.name.as_str()).as_str());
            return Err(m);
        }
        h = h + 1;
    }
    let mut names = String::new();
    if app.hostnames.len() == 0 {
        push_str(&mut names, "_");
    } else {
        push_str(&mut names, app.hostnames[0].as_str());
        let mut k: usize = 1;
        assert(host_texts(*app).take(1) =~= seq![host_texts(*app)[0]]);
        while k < app.hostnames.len()
            invariant
                1 <= k <= app.hostnames@.len(),
                names@ == joined(host_texts(*app).take(k as int)),
            decreases app.hostnames@.len() - k,
        {
            push_str(&mut names, " ");
            push_str(&mut names, app.hostnames[k].as_str());
            assert(host_texts(*app).take(k + 1).drop_last() =~= host_texts(*app).take(k as int));
            k = k + 1;
        }
        assert(host_texts(*app).take(k as int) =~= host_texts(*app));
    }
    let mut locations = String::new();
    let mut p: usize = 0;
    assert(app.proxies@.take(0) =~= Seq::<Proxy>::empty());
    while p < app.proxies.len()
        invariant
            p <= app.proxies@.len(),
            forall|j: int| 0 <= j < app.hostnames@.len() ==> is_inert_argument(#[trigger] app.hostnames@[j]@),
            proxy_locations(app.proxies@.take(p as int), trusted_ca) == Ok::<Seq<char>, Seq<char>>(locations@),
        decreases app.proxies@.len() - p,
    {
        assert(app.proxies@.take(p + 1).drop_last() =~= app.proxies@.take(p as int));
        match nginx_proxy_location(&app.proxies[p], trusted_ca) {
            Err(m) => {
                proof {
                    lemma_locations_refusal_persists(app.proxies@, p + 1, trusted_ca);
                }
                return Err(m);
            },
            Ok(location) => push_str(&mut locations, location.as_str()),
        }
        p = p + 1;
    }
    assert(app.proxies@.take(p as int) =~= app.proxies@);
    let mut server = owned("    server {\n        listen ");
    push_decimal(&mut server, app.port as u64);
    push_str(&mut server, ";\n        server_name ");
    push_str(&mut server, names.as_str());
    push_str(&mut server, ";\n");
    push_str(&mut server, locations.as_str());
    push_str(&mut server, "        location / {\n");
    match &app.request_body {
        Some(policy) => {
            push_str(&mut server, "            client_max_body_size ");
            push_decimal(&mut server, policy.max_bytes as u64);
            push_str(&mut server, ";\n            hoplite_request_body on;\n            hoplite_request_body_max ");
            push_decimal(&mut server, policy.max_bytes as u64);
            push_str(&mut server, ";\n            hoplite_request_body_chunk ");
            push_decimal(&mut server, policy.max_chunk_bytes as u64);
            push_str(&mut server, ";\n");
        },
        None => {},
    }
    push_str(&mut server, "            hoplite_app ");
    push_decimal(&mut server, app.id);
    push_str(&mut server, ";\n        }\n");
    push_str(&mut server, "    }\n");
    assert(server@ =~= server_block(*app, trusted_ca)->Ok_0);
    Ok(server)
}

/// Once a prefix of the proxies is refused, the whole list is refused
/// with the same message.
proof fn lemma_locations_refusal_persists(proxies: Seq<Proxy>, k: int, trusted_ca: Option<&str>)
    requires
        0 <= k <= proxies.len(),
        proxy_locations(proxies.take(k), trusted_ca) is Err,
    ensures
        proxy_locations(proxies, trusted_ca) == proxy_locations(proxies.take(k), trusted_ca),
    decreases proxies.len(),
{
    if k == proxies.len() {
        assert(proxies.take(k) =~= proxies);
    } else {
        assert(proxies.drop_last().take(k) =~= proxies.take(k));
        lemma_locations_refusal_persists(proxies.drop_last(), k, trusted_ca);
    }
}

/// Whether any application forwards to a secure upstream, so that the
/// configuration needs the system's CA bundle.
pub open spec fn needs_trusted_ca(config: Config) -> bool {
    exists|a: int, p: int|
        0 <= a < config.apps@.len() && 0 <= p < config.apps@[a].proxies@.len()
            && (#[trigger] config.apps@[a].proxies@[p]).secure
}

/// Whether the configuration has a secure proxy and so needs a trusted CA
/// bundle.
pub fn proxy_needs_trusted_ca(config: &Config) -> (r: bool)
    ensures
        r == needs_trusted_ca(*config),
{
    let mut a: usize = 0;
    while a < config.apps.len()
        invariant
            a <= config.apps@.len(),
            forall|i: int, j: int|
                0 <= i < a && 0 <= j < config.apps@[i].proxies@.len()
                    ==> !(#[trigger] config.apps@[i].proxies@[j]).secure,
        decreases config.apps@.len() - a,
    {
        let proxies = &config.apps[a].proxies;
        let mut p: usize = 0;
        while p < proxies.len()
            invariant
                a < config.apps@.len(),
                proxies@ == config.apps@[a as int].proxies@,
                p <= proxies@.len(),
                forall|j: int| 0 <= j < p ==> !(#[trigger] proxies@[j]).secure,
            decreases proxies@.len() - p,
        {
            if proxies[p].secure {
                assert(config.apps@[a as int].proxies@[p as int].secure);
                return true;
            }
            p = p + 1;
        }
        a = a + 1;
    }
    false
}

/// The Nginx configuration of a project, or why it cannot be emitted.
/// `bootstrap` and `manifest` are the display forms of the bundle and the
/// manifest paths; `trusted_ca` that of the CA bundle, where one was found.
pub fn nginx_app_configuration(config: &Config, bootstrap: &str, manifest: &str, trusted_ca: Option<&str>) -> (r: Result<String, String>)
    ensures
        string_result(r) == app_configuration(*config, bootstrap@, manifest@, trusted_ca),
{
    let mut servers = String::new();
    let mut a: usize = 0;
    assert(config.apps@.take(0) =~= Seq::<App>::empty());
    while a < config.apps.len()
        invariant
            a <= config.apps@.len(),
            server_blocks(config.apps@.take(a as int), trusted_ca) == Ok::<Seq<char>, Seq<char>>(servers@),
        decreases config.apps@.len() - a,
    {
        assert(config.apps@.take(a + 1).drop_last() =~= config.apps@.take(a as int));
        match server_block_of(&config.apps[a], trusted_ca) {
            Err(m) => {
                proof {
                    lemma_servers_refusal_persists(config.apps@, a + 1, trusted_ca);
                }
                return Err(m);
            },
            Ok(server) => push_str(&mut servers, server.as_str()),
        }
        a = a + 1;
    }
    assert(config.apps@.take(a as int) =~= config.apps@);
    let mut text = owned("worker_processes ");
    push_decimal(&mut text, config.workers as u64);
    push_str(
        &mut text,
        ";\npid .hoplite/nginx.pid;\nerror_log .hoplite/error.log;\nevents {}\nhttp {\n    access_log .hoplite/access.log;\n    hoplite_bootstrap ",
    );
    push_str(&mut text, bootstrap);
    push_str(&mut text, ";\n    hoplite_manifest ");
    push_str(&mut text, manifest);
    push_str(&mut text, ";\n");
    push_str(&mut text, servers.as_str());
    push_str(&mut text, " }\n");
    Ok(text)
}

/// Once a prefix of the applications is refused, the whole configuration
/// is refused with the same message.
proof fn lemma_servers_refusal_persists(apps: Seq<App>, k: int, trusted_ca: Option<&str>)
    requires
        0 <= k <= apps.len(),
        server_blocks(apps.take(k), trusted_ca) is Err,
    ensures
        server_blocks(apps, trusted_ca) == server_blocks(apps.take(k), trusted_ca),
    decreases apps.len(),
{
    if k == apps.len() {
        assert(apps.take(k) =~= apps);
    } else {
        assert(apps.drop_last().take(k) =~= apps.take(k));
        lemma_servers_refusal_persists(apps.drop_last(), k, trusted_ca);
    }
}

/// A CA bundle path may stand in the generated configuration only as an
/// inert argument.
pub fn check_ca_bundle_path(path: &str) -> (r: Result<(), String>)
    ensures
        match r {
            Ok(()) => is_inert_argument(path@),
            Err(m) => !is_inert_argument(path@) && m@
                == "proxy CA bundle path is not safe for generated Nginx configuration: "@ + debug_text(path@),
        },
{
    if unsafe_nginx(path) || contains_whitespace(path) {
        let mut message = owned("proxy CA bundle path is not safe for generated Nginx configuration: ");
        push_str(&mut message, debug_quoted(path).as_str());
        Err(message)
    } else {
        Ok(())
    }
}

} // verus!
