//! The application manifest: the value a build writes for the runtime (each
//! application's id, peers and routes) and how the runtime reads it back.

use vstd::prelude::*;
use crate::app::{
    adapter_keyword, App, AppModel, Channel, ChannelModel, Config, ConfigModel, Peer, PeerModel, Proxy, ProxyModel,
    RequestBodyPolicy, Route, RouteAdapter, RouteModel,
};
use crate::host::Json;
use crate::hal::{HalValue, field, field_value, is_keyword, keyword_field, keyword_field_of, number_field, number_field_of};
use crate::text::{decimal_chars, owned, push_decimal, push_str, same_text};

verus! {

// ---------------------------------------------------------------------------
// Writing
// ---------------------------------------------------------------------------

fn keyword(name: &str) -> (value: HalValue)
    ensures
        is_keyword(value, name@),
{
    HalValue::Keyword(owned(name))
}

fn text_value(text: &String) -> (value: HalValue)
    ensures
        value matches HalValue::String(s) && s@ == text@,
{
    HalValue::String(text.clone())
}

pub open spec fn string_is(value: HalValue, text: Seq<char>) -> bool {
    value matches HalValue::String(s) && s@ == text
}

/// A route's map in the manifest: `:method`, `:path`, `:handler` and
/// `:adapter`, in that order.
pub open spec fn describes_route(value: HalValue, route: RouteModel) -> bool {
    match value {
        HalValue::Mapping(entries) => {
            &&& entries@.len() == 4
            &&& is_keyword(entries@[0].0, "method"@) && string_is(entries@[0].1, route.method)
            &&& is_keyword(entries@[1].0, "path"@) && string_is(entries@[1].1, route.path)
            &&& is_keyword(entries@[2].0, "handler"@) && string_is(entries@[2].1, route.handler)
            &&& is_keyword(entries@[3].0, "adapter"@) && is_keyword(entries@[3].1, adapter_keyword(route.adapter))
        },
        _ => false,
    }
}

/// A peer's map in the manifest: `:name`, `:channel`, `:handler`, `:label`,
/// `:max-message-bytes` and `:idle-timeout-seconds`, in that order.
pub open spec fn describes_peer(value: HalValue, peer: PeerModel) -> bool {
    match value {
        HalValue::Mapping(entries) => {
            &&& entries@.len() == 6
            &&& is_keyword(entries@[0].0, "name"@) && string_is(entries@[0].1, peer.name)
            &&& is_keyword(entries@[1].0, "channel"@) && string_is(entries@[1].1, peer.channel)
            &&& is_keyword(entries@[2].0, "handler"@) && string_is(entries@[2].1, peer.handler)
            &&& is_keyword(entries@[3].0, "label"@) && string_is(entries@[3].1, peer.label)
            &&& is_keyword(entries@[4].0, "max-message-bytes"@)
            &&& entries@[4].1 == HalValue::Number(peer.max_message_bytes as i64)
            &&& is_keyword(entries@[5].0, "idle-timeout-seconds"@)
            &&& entries@[5].1 == HalValue::Number(peer.idle_timeout_seconds as i64)
        },
        _ => false,
    }
}

/// The `:peers` vector of an application's map: one peer map per peer, in
/// order.
pub open spec fn describes_app_peers(value: HalValue, peers: Seq<PeerModel>) -> bool {
    &&& value matches HalValue::Mapping(entries)
    &&& entries@.len() > 1
    &&& entries@[1].1 matches HalValue::Vector(items)
    &&& items@.len() == peers.len()
    &&& forall|i: int| 0 <= i < items@.len() ==> describes_peer(#[trigger] items@[i], peers[i])
}

/// The peers of every application in a manifest, each described in order.
pub open spec fn describes_manifest_peers(value: HalValue, config: ConfigModel) -> bool {
    &&& value matches HalValue::Mapping(entries)
    &&& entries@.len() > 1
    &&& entries@[1].1 matches HalValue::Vector(apps)
    &&& apps@.len() == config.apps.len()
    &&& forall|i: int| 0 <= i < apps@.len() ==> describes_app_peers(#[trigger] apps@[i], config.apps[i].peers)
}

/// An application's map in the manifest: `:id`, `:peers` and `:routes`.
pub open spec fn describes_app(value: HalValue, id: u64, peer_count: nat, routes: Seq<RouteModel>) -> bool {
    match value {
        HalValue::Mapping(entries) => {
            &&& entries@.len() == 3
            &&& is_keyword(entries@[0].0, "id"@) && entries@[0].1 == HalValue::Number(id as i64)
            &&& is_keyword(entries@[1].0, "peers"@)
            &&& entries@[1].1 matches HalValue::Vector(peers) && peers@.len() == peer_count
            &&& is_keyword(entries@[2].0, "routes"@)
            &&& entries@[2].1 matches HalValue::Vector(items) && items@.len() == routes.len() && forall|i: int|
                0 <= i < items@.len() ==> describes_route(#[trigger] items@[i], routes[i])
        },
        _ => false,
    }
}

/// The manifest of a configuration: `:format 2` and `:apps`, one map per
/// application in order.
pub open spec fn describes_manifest(value: HalValue, config: ConfigModel) -> bool {
    match value {
        HalValue::Mapping(entries) => {
            &&& entries@.len() == 2
            &&& is_keyword(entries@[0].0, "format"@) && entries@[0].1 == HalValue::Number(2)
            &&& is_keyword(entries@[1].0, "apps"@)
            &&& entries@[1].1 matches HalValue::Vector(apps) && apps@.len() == config.apps.len() && forall|i: int|
                0 <= i < apps@.len() ==> describes_app(
                    #[trigger] apps@[i],
                    config.apps[i].id,
                    config.apps[i].peers.len(),
                    config.apps[i].routes,
                )
        },
        _ => false,
    }
}

fn route_value(route: &Route) -> (value: HalValue)
    ensures
        describes_route(value, route@),
{
    let mut entries: Vec<(HalValue, HalValue)> = Vec::new();
    entries.push((keyword("method"), text_value(&route.method)));
    entries.push((keyword("path"), text_value(&route.path)));
    entries.push((keyword("handler"), text_value(&route.handler)));
    entries.push((keyword("adapter"), keyword(route.adapter.keyword())));
    HalValue::Mapping(entries)
}

fn peer_value(peer: &Peer) -> (value: HalValue)
    ensures
        describes_peer(value, peer@),
{
    let mut entries: Vec<(HalValue, HalValue)> = Vec::new();
    entries.push((keyword("name"), text_value(&peer.name)));
    entries.push((keyword("channel"), text_value(&peer.channel)));
    entries.push((keyword("handler"), text_value(&peer.handler)));
    entries.push((keyword("label"), text_value(&peer.label)));
    entries.push((keyword("max-message-bytes"), HalValue::Number(peer.max_message_bytes as i64)));
    entries.push((keyword("idle-timeout-seconds"), HalValue::Number(peer.idle_timeout_seconds as i64)));
    HalValue::Mapping(entries)
}

fn app_value(app: &App) -> (value: HalValue)
    ensures
        describes_app(value, app.id, app.peers@.len(), app@.routes),
        describes_app_peers(value, app@.peers),
{
    let mut peers: Vec<HalValue> = Vec::new();
    let mut i: usize = 0;
    while i < app.peers.len()
        invariant
            i <= app.peers@.len(),
            peers@.len() == i,
            forall|j: int| 0 <= j < i ==> describes_peer(#[trigger] peers@[j], app@.peers[j]),
        decreases app.peers@.len() - i,
    {
        peers.push(peer_value(&app.peers[i]));
        i = i + 1;
    }
    let mut routes: Vec<HalValue> = Vec::new();
    let mut k: usize = 0;
    while k < app.routes.len()
        invariant
            k <= app.routes@.len(),
            routes@.len() == k,
            forall|j: int| 0 <= j < k ==> describes_route(#[trigger] routes@[j], app@.routes[j]),
        decreases app.routes@.len() - k,
    {
        routes.push(route_value(&app.routes[k]));
        k = k + 1;
    }
    let mut entries: Vec<(HalValue, HalValue)> = Vec::new();
    entries.push((keyword("id"), HalValue::Number(app.id as i64)));
    entries.push((keyword("peers"), HalValue::Vector(peers)));
    entries.push((keyword("routes"), HalValue::Vector(routes)));
    HalValue::Mapping(entries)
}

/// The manifest value a build encodes for the runtime: format 2 and, per
/// application, its id, its peers and its routes.
pub fn manifest(config: &Config) -> (value: HalValue)
    ensures
        describes_manifest(value, config@),
        describes_manifest_peers(value, config@),
{
    let mut apps: Vec<HalValue> = Vec::new();
    let mut i: usize = 0;
    while i < config.apps.len()
        invariant
            i <= config.apps@.len(),
            apps@.len() == i,
            forall|j: int|
                0 <= j < i ==> describes_app(
                    #[trigger] apps@[j],
                    config@.apps[j].id,
                    config@.apps[j].peers.len(),
                    config@.apps[j].routes,
                ),
            forall|j: int| 0 <= j < i ==> describes_app_peers(#[trigger] apps@[j], config@.apps[j].peers),
        decreases config.apps@.len() - i,
    {
        apps.push(app_value(&config.apps[i]));
        i = i + 1;
    }
    let mut entries: Vec<(HalValue, HalValue)> = Vec::new();
    entries.push((keyword("format"), HalValue::Number(2)));
    entries.push((keyword("apps"), HalValue::Vector(apps)));
    HalValue::Mapping(entries)
}

// ---------------------------------------------------------------------------
// Reading
// ---------------------------------------------------------------------------

/// A route as the runtime serves it, before its handler is prepared.
#[derive(Debug)]
pub struct RuntimeRoute {
    pub method: String,
    pub path: String,
    pub handler: String,
    pub adapter: RouteAdapter,
}

/// An application as the runtime serves it.
#[derive(Debug)]
pub struct RuntimeApp {
    pub id: u64,
    pub routes: Vec<RuntimeRoute>,
}

pub struct RuntimeRouteModel {
    pub method: Seq<char>,
    pub path: Seq<char>,
    pub handler: Seq<char>,
    pub adapter: RouteAdapter,
}

pub struct RuntimeAppModel {
    pub id: u64,
    pub routes: Seq<RuntimeRouteModel>,
}

impl View for RuntimeRoute {
    type V = RuntimeRouteModel;

    open spec fn view(&self) -> RuntimeRouteModel {
        RuntimeRouteModel { method: self.method@, path: self.path@, handler: self.handler@, adapter: self.adapter }
    }
}

pub open spec fn route_models(routes: Seq<RuntimeRoute>) -> Seq<RuntimeRouteModel> {
    routes.map_values(|r: RuntimeRoute| r@)
}

impl View for RuntimeApp {
    type V = RuntimeAppModel;

    open spec fn view(&self) -> RuntimeAppModel {
        RuntimeAppModel { id: self.id, routes: route_models(self.routes@) }
    }
}

pub open spec fn app_views(apps: Seq<RuntimeApp>) -> Seq<RuntimeAppModel> {
    apps.map_values(|a: RuntimeApp| a@)
}

/// The items of a vector, list or tuple.
pub open spec fn sequence_of(value: HalValue) -> Option<Seq<HalValue>> {
    match value {
        HalValue::Vector(items) => Some(items@),
        HalValue::List(items) => Some(items@),
        HalValue::Tuple(items) => Some(items@),
        _ => None,
    }
}

/// The sequence under the keyword `name`.
pub open spec fn field_sequence(value: HalValue, name: Seq<char>) -> Result<Seq<HalValue>, Seq<char>> {
    match field_value(value, name) {
        None => Err("missing :"@ + name),
        Some(v) => match sequence_of(v) {
            None => Err("expected sequence"@),
            Some(items) => Ok(items),
        },
    }
}

/// The text (a string or a keyword) under the keyword `name`.
pub open spec fn optional_text(value: HalValue, name: Seq<char>) -> Option<Seq<char>> {
    match field_value(value, name) {
        Some(HalValue::String(s)) => Some(s@),
        Some(HalValue::Keyword(s)) => Some(s@),
        _ => None,
    }
}

pub open spec fn required_text(value: HalValue, name: Seq<char>) -> Result<Seq<char>, Seq<char>> {
    match optional_text(value, name) {
        Some(t) => Ok(t),
        None => Err("missing or invalid :"@ + name),
    }
}

/// The positive number under the keyword `name`.
pub open spec fn positive_number(value: HalValue, name: Seq<char>) -> Result<i64, Seq<char>> {
    match field_value(value, name) {
        Some(HalValue::Number(n)) => if n > 0 {
            Ok(n)
        } else {
            Err("missing or invalid :"@ + name)
        },
        _ => Err("missing or invalid :"@ + name),
    }
}

/// The adapter a manifest route names; a format 1 manifest defaults to
/// `request+hta`, a later one to `request`.
pub open spec fn runtime_adapter_spec(name: Option<Seq<char>>, legacy: bool) -> Result<RouteAdapter, Seq<char>> {
    match name {
        None => if legacy {
            Ok(RouteAdapter::RequestHta)
        } else {
            Ok(RouteAdapter::Request)
        },
        Some(n) => if n == "request"@ {
            Ok(RouteAdapter::Request)
        } else if n == "raw"@ {
            Ok(RouteAdapter::Raw)
        } else if n == "request+hta"@ {
            Ok(RouteAdapter::RequestHta)
        } else {
            Err("unknown route adapter :"@ + n)
        },
    }
}

pub open spec fn route_spec(route: HalValue, legacy: bool) -> Result<RuntimeRouteModel, Seq<char>> {
    match required_text(route, "method"@) {
        Err(m) => Err(m),
        Ok(method) => match required_text(route, "path"@) {
            Err(m) => Err(m),
            Ok(path) => match required_text(route, "handler"@) {
                Err(m) => Err(m),
                Ok(handler) => match runtime_adapter_spec(optional_text(route, "adapter"@), legacy) {
                    Err(m) => Err(m),
                    Ok(adapter) => if field_value(route, "auth"@) is Some {
                        Err("route auth policy belongs in the HAL handler"@)
                    } else {
                        Ok(RuntimeRouteModel { method, path, handler, adapter })
                    },
                },
            },
        },
    }
}

pub open spec fn routes_spec(routes: Seq<HalValue>, legacy: bool) -> Result<Seq<RuntimeRouteModel>, Seq<char>>
    decreases routes.len(),
{
    if routes.len() == 0 {
        Ok(Seq::empty())
    } else {
        match routes_spec(routes.drop_last(), legacy) {
            Err(m) => Err(m),
            Ok(before) => match route_spec(routes.last(), legacy) {
                Err(m) => Err(m),
                Ok(route) => Ok(before.push(route)),
            },
        }
    }
}

pub open spec fn has_app_id(apps: Seq<RuntimeAppModel>, id: u64) -> bool {
    exists|i: int| 0 <= i < apps.len() && (#[trigger] apps[i]).id == id
}

pub open spec fn apps_spec(apps: Seq<HalValue>, legacy: bool) -> Result<Seq<RuntimeAppModel>, Seq<char>>
    decreases apps.len(),
{
    if apps.len() == 0 {
        Ok(Seq::empty())
    } else {
        match apps_spec(apps.drop_last(), legacy) {
            Err(m) => Err(m),
            Ok(before) => match positive_number(apps.last(), "id"@) {
                Err(m) => Err(m),
                Ok(n) => match field_sequence(apps.last(), "routes"@) {
                    Err(m) => Err(m),
                    Ok(items) => match routes_spec(items, legacy) {
                        Err(m) => Err(m),
                        Ok(routes) => if has_app_id(before, n as u64) {
                            Err("duplicate app id "@ + decimal_chars(n as nat))
                        } else {
                            Ok(before.push(RuntimeAppModel { id: n as u64, routes }))
                        },
                    },
                },
            },
        }
    }
}

/// The manifest format: the number under `:format`, 1 where there is none.
pub open spec fn manifest_format(manifest: HalValue) -> i64 {
    match field_value(manifest, "format"@) {
        Some(HalValue::Number(n)) => n,
        _ => 1,
    }
}

/// What the runtime reads from a manifest: its applications and their
/// routes, or the first reason to refuse it.
pub open spec fn manifest_spec(manifest: HalValue) -> Result<Seq<RuntimeAppModel>, Seq<char>> {
    let format = manifest_format(manifest);
    if format != 1 && format != 2 {
        Err("unsupported Hoplite app manifest format"@)
    } else {
        match field_sequence(manifest, "apps"@) {
            Err(m) => Err(m),
            Ok(apps) => apps_spec(apps, format == 1),
        }
    }
}

pub open spec fn manifest_view(r: Result<Vec<RuntimeApp>, String>) -> Result<Seq<RuntimeAppModel>, Seq<char>> {
    match r {
        Ok(apps) => Ok(app_views(apps@)),
        Err(m) => Err(m@),
    }
}

fn message_with(prefix: &str, name: &str) -> (message: String)
    ensures
        message@ == prefix@ + name@,
{
    let mut message = owned(prefix);
    push_str(&mut message, name);
    message
}

fn read_sequence<'a>(value: &'a HalValue, name: &str) -> (r: Result<&'a Vec<HalValue>, String>)
    ensures
        match r {
            Ok(items) => field_sequence(*value, name@) == Ok::<Seq<HalValue>, Seq<char>>(items@),
            Err(m) => field_sequence(*value, name@) == Err::<Seq<HalValue>, Seq<char>>(m@),
        },
{
    match field(value, name) {
        None => Err(message_with("missing :", name)),
        Some(HalValue::Vector(items)) => Ok(items),
        Some(HalValue::List(items)) => Ok(items),
        Some(HalValue::Tuple(items)) => Ok(items),
        Some(_) => Err(owned("expected sequence")),
    }
}

fn read_optional_text(value: &HalValue, name: &str) -> (r: Option<String>)
    ensures
        match r {
            Some(t) => optional_text(*value, name@) == Some(t@),
            None => optional_text(*value, name@) is None,
        },
{
    match field(value, name) {
        Some(HalValue::String(s)) => Some(s.clone()),
        Some(HalValue::Keyword(s)) => Some(s.clone()),
        _ => None,
    }
}

fn read_text(value: &HalValue, name: &str) -> (r: Result<String, String>)
    ensures
        match r {
            Ok(t) => required_text(*value, name@) == Ok::<Seq<char>, Seq<char>>(t@),
            Err(m) => required_text(*value, name@) == Err::<Seq<char>, Seq<char>>(m@),
        },
{
    match read_optional_text(value, name) {
        Some(t) => Ok(t),
        None => Err(message_with("missing or invalid :", name)),
    }
}

fn read_positive(value: &HalValue, name: &str) -> (r: Result<i64, String>)
    ensures
        match r {
            Ok(n) => positive_number(*value, name@) == Ok::<i64, Seq<char>>(n),
            Err(m) => positive_number(*value, name@) == Err::<i64, Seq<char>>(m@),
        },
{
    match field(value, name) {
        Some(HalValue::Number(n)) => {
            if *n > 0 {
                Ok(*n)
            } else {
                Err(message_with("missing or invalid :", name))
            }
        },
        _ => Err(message_with("missing or invalid :", name)),
    }
}

/// The adapter a manifest route names.
pub fn runtime_adapter(name: Option<String>, legacy: bool) -> (r: Result<RouteAdapter, String>)
    ensures
        match r {
            Ok(a) => runtime_adapter_spec(
                match name {
                    Some(n) => Some(n@),
                    None => None,
                },
                legacy,
            ) == Ok::<RouteAdapter, Seq<char>>(a),
            Err(m) => runtime_adapter_spec(
                match name {
                    Some(n) => Some(n@),
                    None => None,
                },
                legacy,
            ) == Err::<RouteAdapter, Seq<char>>(m@),
        },
{
    match name {
        None => if legacy {
            Ok(RouteAdapter::RequestHta)
        } else {
            Ok(RouteAdapter::Request)
        },
        Some(n) => if same_text(n.as_str(), "request") {
            Ok(RouteAdapter::Request)
        } else if same_text(n.as_str(), "raw") {
            Ok(RouteAdapter::Raw)
        } else if same_text(n.as_str(), "request+hta") {
            Ok(RouteAdapter::RequestHta)
        } else {
            Err(message_with("unknown route adapter :", n.as_str()))
        },
    }
}

fn read_route(route: &HalValue, legacy: bool) -> (r: Result<RuntimeRoute, String>)
    ensures
        match r {
            Ok(read) => route_spec(*route, legacy) == Ok::<RuntimeRouteModel, Seq<char>>(read@),
            Err(m) => route_spec(*route, legacy) == Err::<RuntimeRouteModel, Seq<char>>(m@),
        },
{
    let method = match read_text(route, "method") {
        Ok(t) => t,
        Err(m) => return Err(m),
    };
    let path = match read_text(route, "path") {
        Ok(t) => t,
        Err(m) => return Err(m),
    };
    let handler = match read_text(route, "handler") {
        Ok(t) => t,
        Err(m) => return Err(m),
    };
    let adapter = match runtime_adapter(read_optional_text(route, "adapter"), legacy) {
        Ok(a) => a,
        Err(m) => return Err(m),
    };
    if field(route, "auth").is_some() {
        return Err(owned("route auth policy belongs in the HAL handler"));
    }
    Ok(RuntimeRoute { method, path, handler, adapter })
}

fn read_routes(items: &Vec<HalValue>, legacy: bool) -> (r: Result<Vec<RuntimeRoute>, String>)
    ensures
        match r {
            Ok(routes) => routes_spec(items@, legacy) == Ok::<Seq<RuntimeRouteModel>, Seq<char>>(route_models(routes@)),
            Err(m) => routes_spec(items@, legacy) == Err::<Seq<RuntimeRouteModel>, Seq<char>>(m@),
        },
{
    let mut routes: Vec<RuntimeRoute> = Vec::new();
    let mut i: usize = 0;
    assert(items@.take(0) =~= Seq::<HalValue>::empty());
    assert(route_models(routes@) =~= Seq::<RuntimeRouteModel>::empty());
    while i < items.len()
        invariant
            i <= items@.len(),
            routes_spec(items@.take(i as int), legacy) == Ok::<Seq<RuntimeRouteModel>, Seq<char>>(route_models(routes@)),
        decreases items@.len() - i,
    {
        assert(items@.take(i + 1).drop_last() =~= items@.take(i as int));
        assert(items@.take(i + 1).last() == items@[i as int]);
        match read_route(&items[i], legacy) {
            Err(m) => {
                proof {
                    lemma_routes_refusal_persists(items@, i + 1, legacy);
                }
                return Err(m);
            },
            Ok(route) => {
                let ghost before = route_models(routes@);
                routes.push(route);
                assert(route_models(routes@) =~= before.push(route@));
            },
        }
        i = i + 1;
    }
    assert(items@.take(i as int) =~= items@);
    Ok(routes)
}

proof fn lemma_routes_refusal_persists(items: Seq<HalValue>, k: int, legacy: bool)
    requires
        0 <= k <= items.len(),
        routes_spec(items.take(k), legacy) is Err,
    ensures
        routes_spec(items, legacy) == routes_spec(items.take(k), legacy),
    decreases items.len(),
{
    if k == items.len() {
        assert(items.take(k) =~= items);
    } else {
        assert(items.drop_last().take(k) =~= items.take(k));
        lemma_routes_refusal_persists(items.drop_last(), k, legacy);
    }
}

proof fn lemma_apps_refusal_persists(items: Seq<HalValue>, k: int, legacy: bool)
    requires
        0 <= k <= items.len(),
        apps_spec(items.take(k), legacy) is Err,
    ensures
        apps_spec(items, legacy) == apps_spec(items.take(k), legacy),
    decreases items.len(),
{
    if k == items.len() {
        assert(items.take(k) =~= items);
    } else {
        assert(items.drop_last().take(k) =~= items.take(k));
        lemma_apps_refusal_persists(items.drop_last(), k, legacy);
    }
}

fn app_id_taken(apps: &Vec<RuntimeApp>, id: u64) -> (r: bool)
    ensures
        r == has_app_id(app_views(apps@), id),
{
    let mut i: usize = 0;
    while i < apps.len()
        invariant
            i <= apps@.len(),
            forall|j: int| 0 <= j < i ==> (#[trigger] app_views(apps@)[j]).id != id,
        decreases apps@.len() - i,
    {
        if apps[i].id == id {
            assert(app_views(apps@)[i as int].id == id);
            return true;
        }
        i = i + 1;
    }
    false
}

/// The applications and routes of a manifest, as the runtime reads it
/// before preparing each route's handler.
pub fn read_app_manifest(manifest: &HalValue) -> (r: Result<Vec<RuntimeApp>, String>)
    ensures
        manifest_view(r) == manifest_spec(*manifest),
{
    let format: i64 = match field(manifest, "format") {
        Some(HalValue::Number(n)) => *n,
        _ => 1,
    };
    if format != 1 && format != 2 {
        return Err(owned("unsupported Hoplite app manifest format"));
    }
    let legacy = format == 1;
    let items = match read_sequence(manifest, "apps") {
        Ok(items) => items,
        Err(m) => return Err(m),
    };
    let mut apps: Vec<RuntimeApp> = Vec::new();
    let mut i: usize = 0;
    assert(items@.take(0) =~= Seq::<HalValue>::empty());
    assert(app_views(apps@) =~= Seq::<RuntimeAppModel>::empty());
    while i < items.len()
        invariant
            i <= items@.len(),
            manifest_spec(*manifest) == apps_spec(items@, legacy),
            apps_spec(items@.take(i as int), legacy) == Ok::<Seq<RuntimeAppModel>, Seq<char>>(app_views(apps@)),
        decreases items@.len() - i,
    {
        assert(items@.take(i + 1).drop_last() =~= items@.take(i as int));
        assert(items@.take(i + 1).last() == items@[i as int]);
        let app = &items[i];
        let outcome: Result<RuntimeApp, String> = match read_positive(app, "id") {
            Err(m) => Err(m),
            Ok(n) => match read_sequence(app, "routes") {
                Err(m) => Err(m),
                Ok(route_items) => match read_routes(route_items, legacy) {
                    Err(m) => Err(m),
                    Ok(routes) => {
                        let id = n as u64;
                        if app_id_taken(&apps, id) {
                            let mut message = owned("duplicate app id ");
                            push_decimal(&mut message, id);
                            Err(message)
                        } else {
                            Ok(RuntimeApp { id, routes })
                        }
                    },
                },
            },
        };
        match outcome {
            Err(m) => {
                proof {
                    lemma_apps_refusal_persists(items@, i + 1, legacy);
                }
                return Err(m);
            },
            Ok(app) => {
                let ghost before = app_views(apps@);
                apps.push(app);
                assert(app_views(apps@) =~= before.push(app@));
            },
        }
        i = i + 1;
    }
    assert(items@.take(i as int) =~= items@);
    Ok(apps)
}

// ---------------------------------------------------------------------------
// What the runtime reads of what the build writes
// ---------------------------------------------------------------------------

/// The applications and routes a configuration serves, as the runtime
/// holds them.
pub open spec fn runtime_view(config: ConfigModel) -> Seq<RuntimeAppModel> {
    config.apps.map_values(
        |a: crate::app::AppModel| RuntimeAppModel {
            id: a.id,
            routes: runtime_routes(a.routes),
        },
    )
}

pub open spec fn runtime_routes(routes: Seq<RouteModel>) -> Seq<RuntimeRouteModel> {
    routes.map_values(
        |r: RouteModel| RuntimeRouteModel { method: r.method, path: r.path, handler: r.handler, adapter: r.adapter },
    )
}

proof fn lemma_field_names_differ()
    ensures
        "format"@ != "apps"@,
        "id"@ != "routes"@,
        "peers"@ != "routes"@,
        "method"@ != "path"@,
        "method"@ != "handler"@,
        "path"@ != "handler"@,
        "method"@ != "adapter"@,
        "path"@ != "adapter"@,
        "handler"@ != "adapter"@,
        "method"@ != "auth"@,
        "path"@ != "auth"@,
        "handler"@ != "auth"@,
        "adapter"@ != "auth"@,
        "request"@ != "raw"@,
        "request"@ != "request+hta"@,
        "raw"@ != "request+hta"@,
{
    reveal_strlit("format");
    reveal_strlit("apps");
    reveal_strlit("id");
    reveal_strlit("routes");
    reveal_strlit("peers");
    reveal_strlit("method");
    reveal_strlit("path");
    reveal_strlit("handler");
    reveal_strlit("adapter");
    reveal_strlit("auth");
    reveal_strlit("request");
    reveal_strlit("raw");
    reveal_strlit("request+hta");
    assert("format"@.len() != "apps"@.len());
    assert("id"@.len() != "routes"@.len());
    assert("peers"@[0] != "routes"@[0]);
    assert("method"@.len() != "path"@.len());
    assert("method"@.len() != "handler"@.len());
    assert("path"@.len() != "handler"@.len());
    assert("method"@.len() != "adapter"@.len());
    assert("path"@.len() != "adapter"@.len());
    assert("handler"@[0] != "adapter"@[0]);
    assert("method"@.len() != "auth"@.len());
    assert("path"@[0] != "auth"@[0]);
    assert("handler"@.len() != "auth"@.len());
    assert("adapter"@.len() != "auth"@.len());
    assert("request"@.len() != "raw"@.len());
    assert("request"@.len() != "request+hta"@.len());
    assert("raw"@.len() != "request+hta"@.len());
}

proof fn lemma_route_reads(value: HalValue, route: RouteModel)
    requires
        describes_route(value, route),
    ensures
        route_spec(value, false) == Ok::<RuntimeRouteModel, Seq<char>>(
            RuntimeRouteModel { method: route.method, path: route.path, handler: route.handler, adapter: route.adapter },
        ),
        keyword_field(value, "adapter"@) == Some(adapter_keyword(route.adapter)),
{
    lemma_field_names_differ();
    let entries = crate::hal::map_entries(value)->0;
    assert(field_value(value, "method"@) == Some(entries[0].1));
    assert(crate::hal::entry_index(entries, "path"@, 1) == Some(1int));
    assert(field_value(value, "path"@) == Some(entries[1].1));
    assert(crate::hal::entry_index(entries, "handler"@, 2) == Some(2int));
    assert(crate::hal::entry_index(entries, "handler"@, 1) == Some(2int));
    assert(field_value(value, "handler"@) == Some(entries[2].1));
    assert(crate::hal::entry_index(entries, "adapter"@, 3) == Some(3int));
    assert(crate::hal::entry_index(entries, "adapter"@, 2) == Some(3int));
    assert(crate::hal::entry_index(entries, "adapter"@, 1) == Some(3int));
    assert(field_value(value, "adapter"@) == Some(entries[3].1));
    assert(crate::hal::entry_index(entries, "auth"@, 4) is None);
    assert(crate::hal::entry_index(entries, "auth"@, 3) is None);
    assert(crate::hal::entry_index(entries, "auth"@, 2) is None);
    assert(crate::hal::entry_index(entries, "auth"@, 1) is None);
    assert(field_value(value, "auth"@) is None);
    assert(optional_text(value, "adapter"@) == Some(adapter_keyword(route.adapter)));
}

proof fn lemma_routes_read(items: Seq<HalValue>, routes: Seq<RouteModel>)
    requires
        items.len() == routes.len(),
        forall|i: int| 0 <= i < items.len() ==> describes_route(#[trigger] items[i], routes[i]),
    ensures
        routes_spec(items, false) == Ok::<Seq<RuntimeRouteModel>, Seq<char>>(runtime_routes(routes)),
    decreases items.len(),
{
    if items.len() == 0 {
        assert(runtime_routes(routes) =~= Seq::<RuntimeRouteModel>::empty());
    } else {
        let n = items.len() - 1;
        assert forall|i: int| 0 <= i < items.drop_last().len() implies describes_route(
            #[trigger] items.drop_last()[i],
            routes.drop_last()[i],
        ) by {
            assert(items.drop_last()[i] == items[i]);
            assert(describes_route(items[i], routes[i]));
        }
        lemma_routes_read(items.drop_last(), routes.drop_last());
        assert(describes_route(items[n], routes[n]));
        lemma_route_reads(items[n], routes[n]);
        assert(runtime_routes(routes) =~= runtime_routes(routes.drop_last()).push(runtime_routes(routes)[n]));
    }
}

proof fn lemma_apps_read(items: Seq<HalValue>, config: ConfigModel, n: int)
    requires
        0 <= n <= items.len(),
        items.len() == config.apps.len(),
        forall|i: int|
            0 <= i < items.len() ==> describes_app(
                #[trigger] items[i],
                config.apps[i].id,
                config.apps[i].peers.len(),
                config.apps[i].routes,
            ),
        forall|i: int| 0 <= i < config.apps.len() ==> 1 <= (#[trigger] config.apps[i]).id <= i64::MAX,
        forall|i: int, j: int|
            0 <= i < j < config.apps.len() ==> (#[trigger] config.apps[i]).id != (#[trigger] config.apps[j]).id,
    ensures
        apps_spec(items.take(n), false) == Ok::<Seq<RuntimeAppModel>, Seq<char>>(runtime_view(config).take(n)),
    decreases n,
{
    lemma_field_names_differ();
    if n == 0 {
        assert(items.take(0) =~= Seq::<HalValue>::empty());
        assert(runtime_view(config).take(0) =~= Seq::<RuntimeAppModel>::empty());
    } else {
        lemma_apps_read(items, config, n - 1);
        let k = n - 1;
        assert(items.take(n).drop_last() =~= items.take(k));
        assert(items.take(n).last() == items[k]);
        let value = items[k];
        let app = config.apps[k];
        assert(describes_app(value, app.id, app.peers.len(), app.routes));
        let entries = crate::hal::map_entries(value)->0;
        assert(field_value(value, "id"@) == Some(entries[0].1));
        assert(positive_number(value, "id"@) == Ok::<i64, Seq<char>>(app.id as i64));
        assert(crate::hal::entry_index(entries, "routes"@, 2) == Some(2int));
        assert(crate::hal::entry_index(entries, "routes"@, 1) == Some(2int));
        assert(field_value(value, "routes"@) == Some(entries[2].1));
        let route_items = sequence_of(entries[2].1)->0;
        assert forall|i: int| 0 <= i < route_items.len() implies describes_route(#[trigger] route_items[i], app.routes[i]) by {}
        lemma_routes_read(route_items, app.routes);
        let before = runtime_view(config).take(k);
        if has_app_id(before, app.id) {
            let j = choose|j: int| 0 <= j < before.len() && (#[trigger] before[j]).id == app.id;
            assert(config.apps[j].id == app.id);
        }
        assert(runtime_view(config).take(n) =~= before.push(runtime_view(config)[k]));
    }
}

/// The runtime reads from the manifest a build writes exactly the
/// applications, in order, with their routes: method, path, handler and
/// adapter, where the application ids are distinct and positive numbers.
pub proof fn law_runtime_reads_the_build_manifest(value: HalValue, config: ConfigModel)
    requires
        describes_manifest(value, config),
        forall|i: int| 0 <= i < config.apps.len() ==> 1 <= (#[trigger] config.apps[i]).id <= i64::MAX,
        forall|i: int, j: int|
            0 <= i < j < config.apps.len() ==> (#[trigger] config.apps[i]).id != (#[trigger] config.apps[j]).id,
    ensures
        manifest_spec(value) == Ok::<Seq<RuntimeAppModel>, Seq<char>>(runtime_view(config)),
{
    lemma_field_names_differ();
    let entries = crate::hal::map_entries(value)->0;
    assert(field_value(value, "format"@) == Some(entries[0].1));
    assert(manifest_format(value) == 2);
    assert(crate::hal::entry_index(entries, "apps"@, 1) == Some(1int));
    assert(field_value(value, "apps"@) == Some(entries[1].1));
    let items = sequence_of(entries[1].1)->0;
    assert(field_sequence(value, "apps"@) == Ok::<Seq<HalValue>, Seq<char>>(items));
    lemma_apps_read(items, config, items.len() as int);
    assert(items.take(items.len() as int) =~= items);
    assert(runtime_view(config).take(items.len() as int) =~= runtime_view(config));
}

// ---------------------------------------------------------------------------
// The manifest as JSON
// ---------------------------------------------------------------------------

pub open spec fn json_text_is(value: Json, text: Seq<char>) -> bool {
    value matches Json::Text(t) && t@ == text
}

pub open spec fn json_number_is(value: Json, n: nat) -> bool {
    value matches Json::Number(t) && t@ == decimal_chars(n)
}

/// An array whose items stand, in order, for the elements.
pub open spec fn array_of<T>(value: Json, elements: Seq<T>, item: spec_fn(Json, T) -> bool) -> bool {
    value matches Json::Array(items) && items@.len() == elements.len() && forall|i: int|
        0 <= i < elements.len() ==> item(#[trigger] items@[i], elements[i])
}

/// An object whose members have these names, in order.
pub open spec fn object_keys(value: Json, names: Seq<Seq<char>>) -> bool {
    value matches Json::Object(members) && members@.len() == names.len() && forall|i: int|
        0 <= i < names.len() ==> (#[trigger] members@[i]).0@ == names[i]
}

pub open spec fn member_at(value: Json, i: int) -> Json {
    value->Object_0@[i].1
}

pub open spec fn route_json(value: Json, route: RouteModel) -> bool {
    &&& object_keys(value, seq!["method"@, "path"@, "handler"@, "adapter"@])
    &&& json_text_is(member_at(value, 0), route.method)
    &&& json_text_is(member_at(value, 1), route.path)
    &&& json_text_is(member_at(value, 2), route.handler)
    &&& json_text_is(member_at(value, 3), adapter_keyword(route.adapter))
}

pub open spec fn peer_json(value: Json, peer: PeerModel) -> bool {
    &&& object_keys(
        value,
        seq!["name"@, "channel"@, "handler"@, "label"@, "max_message_bytes"@, "idle_timeout_seconds"@],
    )
    &&& json_text_is(member_at(value, 0), peer.name)
    &&& json_text_is(member_at(value, 1), peer.channel)
    &&& json_text_is(member_at(value, 2), peer.handler)
    &&& json_text_is(member_at(value, 3), peer.label)
    &&& json_number_is(member_at(value, 4), peer.max_message_bytes as nat)
    &&& json_number_is(member_at(value, 5), peer.idle_timeout_seconds as nat)
}

pub open spec fn channel_json(value: Json, channel: ChannelModel) -> bool {
    &&& object_keys(
        value,
        seq![
            "name"@,
            "path_prefix"@,
            "authorize"@,
            "admit"@,
            "message_buffer"@,
            "message_timeout_seconds"@,
            "max_channel_id_bytes"@,
            "max_subscribers"@,
            "transports"@,
        ],
    )
    &&& json_text_is(member_at(value, 0), channel.name)
    &&& json_text_is(member_at(value, 1), channel.path_prefix)
    &&& json_text_is(member_at(value, 2), channel.authorize)
    &&& json_text_is(member_at(value, 3), channel.admission)
    &&& json_number_is(member_at(value, 4), channel.message_buffer as nat)
    &&& json_number_is(member_at(value, 5), channel.message_timeout_seconds as nat)
    &&& json_number_is(member_at(value, 6), channel.max_channel_id_bytes as nat)
    &&& json_number_is(member_at(value, 7), channel.max_subscribers as nat)
    &&& array_of(member_at(value, 8), channel.transports, |v: Json, t: Seq<char>| json_text_is(v, t))
}

pub open spec fn proxy_json(value: Json, proxy: ProxyModel) -> bool {
    &&& object_keys(value, seq!["path"@, "upstream"@, "authority"@, "server_name"@, "secure"@])
    &&& json_text_is(member_at(value, 0), proxy.path)
    &&& json_text_is(member_at(value, 1), proxy.upstream)
    &&& json_text_is(member_at(value, 2), proxy.authority)
    &&& json_text_is(member_at(value, 3), proxy.server_name)
    &&& member_at(value, 4) == Json::Bool(proxy.secure)
}

pub open spec fn body_json(value: Json, body: Option<RequestBodyPolicy>) -> bool {
    match body {
        None => value == Json::Null,
        Some(policy) => {
            &&& object_keys(value, seq!["max_bytes"@, "max_chunk_bytes"@])
            &&& json_number_is(member_at(value, 0), policy.max_bytes as nat)
            &&& json_number_is(member_at(value, 1), policy.max_chunk_bytes as nat)
        },
    }
}

pub open spec fn app_json(value: Json, app: AppModel) -> bool {
    &&& object_keys(
        value,
        seq![
            "id"@,
            "name"@,
            "port"@,
            "hostnames"@,
            "request_body"@,
            "proxies"@,
            "channels"@,
            "peers"@,
            "routes"@,
        ],
    )
    &&& json_number_is(member_at(value, 0), app.id as nat)
    &&& json_text_is(member_at(value, 1), app.name)
    &&& json_number_is(member_at(value, 2), app.port as nat)
    &&& array_of(member_at(value, 3), app.hostnames, |v: Json, t: Seq<char>| json_text_is(v, t))
    &&& body_json(member_at(value, 4), app.request_body)
    &&& array_of(member_at(value, 5), app.proxies, |v: Json, p: ProxyModel| proxy_json(v, p))
    &&& array_of(member_at(value, 6), app.channels, |v: Json, c: ChannelModel| channel_json(v, c))
    &&& array_of(member_at(value, 7), app.peers, |v: Json, p: PeerModel| peer_json(v, p))
    &&& array_of(member_at(value, 8), app.routes, |v: Json, r: RouteModel| route_json(v, r))
}

/// The JSON form of a configuration's manifest: `format` 2 and, per
/// application, its id, name, port, host names, request-body policy,
/// proxies, channels, peers and routes.
pub open spec fn manifest_json_of(value: Json, config: ConfigModel) -> bool {
    &&& object_keys(value, seq!["format"@, "apps"@])
    &&& json_number_is(member_at(value, 0), 2)
    &&& array_of(member_at(value, 1), config.apps, |v: Json, a: AppModel| app_json(v, a))
}

fn json_text(text: &String) -> (value: Json)
    ensures
        json_text_is(value, text@),
{
    Json::Text(text.clone())
}

fn json_number(n: u64) -> (value: Json)
    ensures
        json_number_is(value, n as nat),
{
    let mut text = String::new();
    push_decimal(&mut text, n);
    assert(text@ =~= decimal_chars(n as nat));
    Json::Number(text)
}

fn json_object(names: &[&str], values: Vec<Json>) -> (value: Json)
    requires
        names@.len() == values@.len(),
    ensures
        value matches Json::Object(members) && members@.len() == names@.len() && forall|i: int|
            0 <= i < names@.len() ==> (#[trigger] members@[i]).0@ == names@[i]@ && members@[i].1 == values@[i],
{
    let mut members: Vec<(String, Json)> = Vec::new();
    let mut rest = values;
    let ghost all = rest@;
    let mut i: usize = 0;
    let mut reversed: Vec<Json> = Vec::new();
    while rest.len() > 0
        invariant
            rest@.len() + reversed@.len() == all.len(),
            forall|j: int| 0 <= j < rest@.len() ==> rest@[j] == all[j],
            forall|j: int| 0 <= j < reversed@.len() ==> reversed@[j] == all[all.len() - 1 - j],
        decreases rest@.len(),
    {
        let last = rest.pop().unwrap();
        reversed.push(last);
    }
    while i < names.len()
        invariant
            names@.len() == all.len(),
            i <= names@.len(),
            reversed@.len() == all.len() - i,
            forall|j: int| 0 <= j < reversed@.len() ==> reversed@[j] == all[all.len() - 1 - j],
            members@.len() == i,
            forall|j: int| 0 <= j < i ==> (#[trigger] members@[j]).0@ == names@[j]@ && members@[j].1 == all[j],
        decreases names@.len() - i,
    {
        let value = reversed.pop().unwrap();
        members.push((owned(names[i]), value));
        i = i + 1;
    }
    Json::Object(members)
}

fn texts_json(texts: &Vec<String>) -> (value: Json)
    ensures
        array_of(value, texts@.map_values(|t: String| t@), |v: Json, t: Seq<char>| json_text_is(v, t)),
{
    let mut items: Vec<Json> = Vec::new();
    let mut i: usize = 0;
    while i < texts.len()
        invariant
            i <= texts@.len(),
            items@.len() == i,
            forall|j: int| 0 <= j < i ==> json_text_is(#[trigger] items@[j], texts@[j]@),
        decreases texts@.len() - i,
    {
        items.push(json_text(&texts[i]));
        i = i + 1;
    }
    Json::Array(items)
}

fn route_json_of(route: &Route) -> (value: Json)
    ensures
        route_json(value, route@),
{
    let values = vec![
        json_text(&route.method),
        json_text(&route.path),
        json_text(&route.handler),
        Json::Text(owned(route.adapter.keyword())),
    ];
    json_object(&["method", "path", "handler", "adapter"], values)
}

fn peer_json_of(peer: &Peer) -> (value: Json)
    ensures
        peer_json(value, peer@),
{
    let values = vec![
        json_text(&peer.name),
        json_text(&peer.channel),
        json_text(&peer.handler),
        json_text(&peer.label),
        json_number(peer.max_message_bytes as u64),
        json_number(peer.idle_timeout_seconds as u64),
    ];
    json_object(&["name", "channel", "handler", "label", "max_message_bytes", "idle_timeout_seconds"], values)
}

fn channel_json_of(channel: &Channel) -> (value: Json)
    ensures
        channel_json(value, channel@),
{
    let values = vec![
        json_text(&channel.name),
        json_text(&channel.path_prefix),
        json_text(&channel.authorize),
        json_text(&channel.admission),
        json_number(channel.message_buffer as u64),
        json_number(channel.message_timeout_seconds as u64),
        json_number(channel.max_channel_id_bytes as u64),
        json_number(channel.max_subscribers as u64),
        texts_json(&channel.transports),
    ];
    json_object(
        &[
            "name",
            "path_prefix",
            "authorize",
            "admit",
            "message_buffer",
            "message_timeout_seconds",
            "max_channel_id_bytes",
            "max_subscribers",
            "transports",
        ],
        values,
    )
}

fn proxy_json_of(proxy: &Proxy) -> (value: Json)
    ensures
        proxy_json(value, proxy@),
{
    let values = vec![
        json_text(&proxy.path),
        json_text(&proxy.upstream),
        json_text(&proxy.authority),
        json_text(&proxy.server_name),
        Json::Bool(proxy.secure),
    ];
    json_object(&["path", "upstream", "authority", "server_name", "secure"], values)
}

fn body_json_of(body: &Option<RequestBodyPolicy>) -> (value: Json)
    ensures
        body_json(value, *body),
{
    match body {
        None => Json::Null,
        Some(policy) => {
            let values = vec![json_number(policy.max_bytes as u64), json_number(policy.max_chunk_bytes as u64)];
            json_object(&["max_bytes", "max_chunk_bytes"], values)
        },
    }
}

fn app_json_of(app: &App) -> (value: Json)
    ensures
        app_json(value, app@),
{
    let mut proxies: Vec<Json> = Vec::new();
    let mut i: usize = 0;
    while i < app.proxies.len()
        invariant
            i <= app.proxies@.len(),
            proxies@.len() == i,
            forall|j: int| 0 <= j < i ==> proxy_json(#[trigger] proxies@[j], app@.proxies[j]),
        decreases app.proxies@.len() - i,
    {
        proxies.push(proxy_json_of(&app.proxies[i]));
        i = i + 1;
    }
    let mut channels: Vec<Json> = Vec::new();
    let mut i: usize = 0;
    while i < app.channels.len()
        invariant
            i <= app.channels@.len(),
            channels@.len() == i,
            forall|j: int| 0 <= j < i ==> channel_json(#[trigger] channels@[j], app@.channels[j]),
        decreases app.channels@.len() - i,
    {
        channels.push(channel_json_of(&app.channels[i]));
        i = i + 1;
    }
    let mut peers: Vec<Json> = Vec::new();
    let mut i: usize = 0;
    while i < app.peers.len()
        invariant
            i <= app.peers@.len(),
            peers@.len() == i,
            forall|j: int| 0 <= j < i ==> peer_json(#[trigger] peers@[j], app@.peers[j]),
        decreases app.peers@.len() - i,
    {
        peers.push(peer_json_of(&app.peers[i]));
        i = i + 1;
    }
    let mut routes: Vec<Json> = Vec::new();
    let mut i: usize = 0;
    while i < app.routes.len()
        invariant
            i <= app.routes@.len(),
            routes@.len() == i,
            forall|j: int| 0 <= j < i ==> route_json(#[trigger] routes@[j], app@.routes[j]),
        decreases app.routes@.len() - i,
    {
        routes.push(route_json_of(&app.routes[i]));
        i = i + 1;
    }
    let values = vec![
        json_number(app.id),
        json_text(&app.name),
        json_number(app.port as u64),
        texts_json(&app.hostnames),
        body_json_of(&app.request_body),
        Json::Array(proxies),
        Json::Array(channels),
        Json::Array(peers),
        Json::Array(routes),
    ];
    json_object(
        &["id", "name", "port", "hostnames", "request_body", "proxies", "channels", "peers", "routes"],
        values,
    )
}

/// The manifest of a configuration as a JSON document.
pub fn manifest_json(config: &Config) -> (value: Json)
    ensures
        manifest_json_of(value, config@),
{
    let mut apps: Vec<Json> = Vec::new();
    let mut i: usize = 0;
    while i < config.apps.len()
        invariant
            i <= config.apps@.len(),
            apps@.len() == i,
            forall|j: int| 0 <= j < i ==> app_json(#[trigger] apps@[j], config@.apps[j]),
        decreases config.apps@.len() - i,
    {
        apps.push(app_json_of(&config.apps[i]));
        i = i + 1;
    }
    let values = vec![json_number(2), Json::Array(apps)];
    json_object(&["format", "apps"], values)
}

// ---------------------------------------------------------------------------
// Inspecting a manifest
// ---------------------------------------------------------------------------

/// What an inspection reports of a manifest: its format, how many
/// applications and routes it has, and how many routes use each adapter.
#[derive(Debug)]
pub struct ManifestSummary {
    pub format: i64,
    pub applications: usize,
    pub routes: usize,
    /// The adapters in use, by name in increasing order, with their counts.
    pub adapters: Vec<(String, usize)>,
}

pub struct SummaryModel {
    pub format: i64,
    pub applications: nat,
    pub raw: nat,
    pub request: nat,
    pub request_hta: nat,
}

/// The adapters with at least one route, in name order.
pub open spec fn adapter_counts(summary: SummaryModel) -> Seq<(Seq<char>, nat)> {
    (if summary.raw > 0 { seq![("raw"@, summary.raw)] } else { Seq::empty() })
        + (if summary.request > 0 { seq![("request"@, summary.request)] } else { Seq::empty() })
        + (if summary.request_hta > 0 { seq![("request+hta"@, summary.request_hta)] } else { Seq::empty() })
}

pub open spec fn describes_summary(summary: ManifestSummary, model: SummaryModel) -> bool {
    &&& summary.format == model.format
    &&& summary.applications == model.applications
    &&& summary.routes == model.raw + model.request + model.request_hta
    &&& summary.adapters@.map_values(|a: (String, usize)| (a.0@, a.1 as nat)) == adapter_counts(model)
}

/// The tally of routes by adapter, or the first route refused.
pub open spec fn route_tally(routes: Seq<HalValue>) -> Result<(nat, nat, nat), Seq<char>>
    decreases routes.len(),
{
    if routes.len() == 0 {
        Ok((0nat, 0nat, 0nat))
    } else {
        match route_tally(routes.drop_last()) {
            Err(m) => Err(m),
            Ok((raw, request, hta)) => match keyword_field(routes.last(), "adapter"@) {
                None => Err("hoplite/inspect-manifest-adapter-missing"@),
                Some(a) => if a == "raw"@ {
                    Ok((raw + 1, request, hta))
                } else if a == "request"@ {
                    Ok((raw, request + 1, hta))
                } else if a == "request+hta"@ {
                    Ok((raw, request, hta + 1))
                } else {
                    Err("hoplite/inspect-manifest-adapter-unsupported: "@ + a)
                },
            },
        }
    }
}

pub open spec fn app_routes(app: HalValue) -> Option<Seq<HalValue>> {
    match field_value(app, "routes"@) {
        Some(v) => sequence_of(v),
        None => None,
    }
}

pub open spec fn apps_tally(apps: Seq<HalValue>) -> Result<(nat, nat, nat), Seq<char>>
    decreases apps.len(),
{
    if apps.len() == 0 {
        Ok((0nat, 0nat, 0nat))
    } else {
        match apps_tally(apps.drop_last()) {
            Err(m) => Err(m),
            Ok((raw, request, hta)) => match app_routes(apps.last()) {
                None => Err("hoplite/inspect-manifest-routes-missing"@),
                Some(routes) => match route_tally(routes) {
                    Err(m) => Err(m),
                    Ok((r, q, h)) => Ok((raw + r, request + q, hta + h)),
                },
            },
        }
    }
}

/// How many routes the applications list in all.
pub open spec fn route_total(apps: Seq<HalValue>) -> nat
    decreases apps.len(),
{
    if apps.len() == 0 {
        0
    } else {
        route_total(apps.drop_last()) + match app_routes(apps.last()) {
            Some(routes) => routes.len(),
            None => 0,
        }
    }
}

pub open spec fn signed_decimal(n: int) -> Seq<char> {
    if n < 0 {
        "-"@ + decimal_chars((-n) as nat)
    } else {
        decimal_chars(n as nat)
    }
}

pub open spec fn manifest_apps(value: HalValue) -> Seq<HalValue> {
    match field_value(value, "apps"@) {
        Some(v) => match sequence_of(v) {
            Some(apps) => apps,
            None => Seq::empty(),
        },
        None => Seq::empty(),
    }
}

/// What inspecting a manifest reports, or the first reason it cannot be
/// summarized.
pub open spec fn summary_spec(value: HalValue) -> Result<SummaryModel, Seq<char>> {
    match number_field(value, "format"@) {
        None => Err("hoplite/inspect-manifest-format-missing"@),
        Some(format) => if format != 2 {
            Err("hoplite/inspect-manifest-incompatible: format "@ + signed_decimal(format as int) + ", expected 2"@)
        } else {
            match field_value(value, "apps"@) {
                None => Err("hoplite/inspect-manifest-apps-missing"@),
                Some(v) => match sequence_of(v) {
                    None => Err("hoplite/inspect-manifest-apps-missing"@),
                    Some(apps) => if apps.len() == 0 {
                        Err("hoplite/inspect-manifest-apps-empty"@)
                    } else {
                        match apps_tally(apps) {
                            Err(m) => Err(m),
                            Ok((raw, request, hta)) => Ok(
                                SummaryModel { format, applications: apps.len(), raw, request, request_hta: hta },
                            ),
                        }
                    },
                },
            }
        },
    }
}

proof fn lemma_route_tally_bound(routes: Seq<HalValue>)
    ensures
        route_tally(routes) matches Ok((r, q, h)) ==> r + q + h == routes.len(),
    decreases routes.len(),
{
    if routes.len() > 0 {
        lemma_route_tally_bound(routes.drop_last());
    }
}

proof fn lemma_apps_tally_bound(apps: Seq<HalValue>)
    ensures
        apps_tally(apps) matches Ok((r, q, h)) ==> r + q + h == route_total(apps),
    decreases apps.len(),
{
    if apps.len() > 0 {
        lemma_apps_tally_bound(apps.drop_last());
        match app_routes(apps.last()) {
            Some(routes) => lemma_route_tally_bound(routes),
            None => {},
        }
    }
}

proof fn lemma_route_total_prefix(apps: Seq<HalValue>, k: int)
    requires
        0 <= k <= apps.len(),
    ensures
        route_total(apps.take(k)) <= route_total(apps),
    decreases apps.len(),
{
    if k < apps.len() {
        assert(apps.drop_last().take(k) =~= apps.take(k));
        lemma_route_total_prefix(apps.drop_last(), k);
    } else {
        assert(apps.take(k) =~= apps);
    }
}

proof fn lemma_tally_refusal_persists(apps: Seq<HalValue>, k: int)
    requires
        0 <= k <= apps.len(),
        apps_tally(apps.take(k)) is Err,
    ensures
        apps_tally(apps) == apps_tally(apps.take(k)),
    decreases apps.len(),
{
    if k == apps.len() {
        assert(apps.take(k) =~= apps);
    } else {
        assert(apps.drop_last().take(k) =~= apps.take(k));
        lemma_tally_refusal_persists(apps.drop_last(), k);
    }
}

proof fn lemma_route_tally_refusal_persists(routes: Seq<HalValue>, k: int)
    requires
        0 <= k <= routes.len(),
        route_tally(routes.take(k)) is Err,
    ensures
        route_tally(routes) == route_tally(routes.take(k)),
    decreases routes.len(),
{
    if k == routes.len() {
        assert(routes.take(k) =~= routes);
    } else {
        assert(routes.drop_last().take(k) =~= routes.take(k));
        lemma_route_tally_refusal_persists(routes.drop_last(), k);
    }
}

pub fn push_signed(out: &mut String, n: i64)
    ensures
        final(out)@ == old(out)@ + signed_decimal(n as int),
{
    if n < 0 {
        push_str(out, "-");
        let magnitude: u64 = if n == i64::MIN {
            0x8000_0000_0000_0000u64
        } else {
            (0 - n) as u64
        };
        push_decimal(out, magnitude);
        proof {
            reveal_strlit("-");
        }
        assert(final(out)@ =~= old(out)@ + signed_decimal(n as int));
    } else {
        push_decimal(out, n as u64);
    }
}

/// Tallies one application's routes by adapter.
fn tally_routes(routes: &Vec<HalValue>) -> (r: Result<(usize, usize, usize), String>)
    requires
        routes@.len() <= usize::MAX,
    ensures
        match route_tally(routes@) {
            Ok((a, b, c)) => r == Ok::<(usize, usize, usize), String>((a as usize, b as usize, c as usize)),
            Err(m) => r matches Err(e) && e@ == m,
        },
{
    let mut raw: usize = 0;
    let mut request: usize = 0;
    let mut hta: usize = 0;
    let mut i: usize = 0;
    assert(routes@.take(0) =~= Seq::<HalValue>::empty());
    while i < routes.len()
        invariant
            i <= routes@.len(),
            route_tally(routes@.take(i as int)) == Ok::<(nat, nat, nat), Seq<char>>((raw as nat, request as nat, hta as nat)),
            raw + request + hta == i,
        decreases routes@.len() - i,
    {
        assert(routes@.take(i + 1).drop_last() =~= routes@.take(i as int));
        assert(routes@.take(i + 1).last() == routes@[i as int]);
        match keyword_field_of(&routes[i], "adapter") {
            None => {
                proof {
                    lemma_route_tally_refusal_persists(routes@, i + 1);
                }
                return Err(owned("hoplite/inspect-manifest-adapter-missing"));
            },
            Some(a) => {
                if same_text(a.as_str(), "raw") {
                    raw = raw + 1;
                } else if same_text(a.as_str(), "request") {
                    request = request + 1;
                } else if same_text(a.as_str(), "request+hta") {
                    hta = hta + 1;
                } else {
                    proof {
                        lemma_route_tally_refusal_persists(routes@, i + 1);
                    }
                    let mut message = owned("hoplite/inspect-manifest-adapter-unsupported: ");
                    push_str(&mut message, a.as_str());
                    return Err(message);
                }
            },
        }
        i = i + 1;
    }
    assert(routes@.take(i as int) =~= routes@);
    Ok((raw, request, hta))
}

/// What inspecting a manifest reports: its format (which must be 2), its
/// applications (at least one), its routes and the adapters they use.
pub fn summarize_manifest(value: &HalValue) -> (r: Result<ManifestSummary, String>)
    requires
        route_total(manifest_apps(*value)) <= usize::MAX,
    ensures
        match summary_spec(*value) {
            Ok(model) => r matches Ok(summary) && describes_summary(summary, model),
            Err(m) => r matches Err(e) && e@ == m,
        },
{
    let format = match number_field_of(value, "format") {
        None => return Err(owned("hoplite/inspect-manifest-format-missing")),
        Some(format) => format,
    };
    if format != 2 {
        let mut message = owned("hoplite/inspect-manifest-incompatible: format ");
        push_signed(&mut message, format);
        push_str(&mut message, ", expected 2");
        return Err(message);
    }
    let apps = match field(value, "apps") {
        None => return Err(owned("hoplite/inspect-manifest-apps-missing")),
        Some(HalValue::Vector(items)) => items,
        Some(HalValue::List(items)) => items,
        Some(HalValue::Tuple(items)) => items,
        Some(_) => return Err(owned("hoplite/inspect-manifest-apps-missing")),
    };
    if apps.len() == 0 {
        return Err(owned("hoplite/inspect-manifest-apps-empty"));
    }
    assert(manifest_apps(*value) == apps@);
    let mut raw: usize = 0;
    let mut request: usize = 0;
    let mut hta: usize = 0;
    let mut i: usize = 0;
    assert(apps@.take(0) =~= Seq::<HalValue>::empty());
    let ghost outcome = match apps_tally(apps@) {
        Err(m) => Err(m),
        Ok((a, b, c)) => Ok(SummaryModel { format: 2, applications: apps@.len(), raw: a, request: b, request_hta: c }),
    };
    assert(summary_spec(*value) == outcome);
    while i < apps.len()
        invariant
            i <= apps@.len(),
            summary_spec(*value) == outcome,
            outcome == match apps_tally(apps@) {
                Err(m) => Err(m),
                Ok((a, b, c)) => Ok(SummaryModel { format: 2, applications: apps@.len(), raw: a, request: b, request_hta: c }),
            },
            route_total(apps@) <= usize::MAX,
            apps_tally(apps@.take(i as int)) == Ok::<(nat, nat, nat), Seq<char>>((raw as nat, request as nat, hta as nat)),
            raw + request + hta == route_total(apps@.take(i as int)),
        decreases apps@.len() - i,
    {
        assert(apps@.take(i + 1).drop_last() =~= apps@.take(i as int));
        assert(apps@.take(i + 1).last() == apps@[i as int]);
        proof {
            lemma_route_total_prefix(apps@, i + 1);
        }
        let routes = match field(&apps[i], "routes") {
            Some(HalValue::Vector(items)) => items,
            Some(HalValue::List(items)) => items,
            Some(HalValue::Tuple(items)) => items,
            _ => {
                proof {
                    lemma_tally_refusal_persists(apps@, i + 1);
                }
                return Err(owned("hoplite/inspect-manifest-routes-missing"));
            },
        };
        assert(app_routes(apps@[i as int]) == Some(routes@));
        match tally_routes(routes) {
            Err(m) => {
                proof {
                    lemma_tally_refusal_persists(apps@, i + 1);
                }
                return Err(m);
            },
            Ok((r, q, h)) => {
                proof {
                    lemma_route_tally_bound(routes@);
                }
                raw = raw + r;
                request = request + q;
                hta = hta + h;
            },
        }
        i = i + 1;
    }
    assert(apps@.take(i as int) =~= apps@);
    let mut adapters: Vec<(String, usize)> = Vec::new();
    if raw > 0 {
        adapters.push((owned("raw"), raw));
    }
    if request > 0 {
        adapters.push((owned("request"), request));
    }
    if hta > 0 {
        adapters.push((owned("request+hta"), hta));
    }
    let summary = ManifestSummary { format, applications: apps.len(), routes: raw + request + hta, adapters };
    let ghost model = SummaryModel {
        format,
        applications: apps@.len(),
        raw: raw as nat,
        request: request as nat,
        request_hta: hta as nat,
    };
    assert(summary.adapters@.map_values(|a: (String, usize)| (a.0@, a.1 as nat)) =~= adapter_counts(model));
    Ok(summary)
}

/// How many routes use each adapter: raw, request and request+hta.
pub open spec fn adapter_tally(routes: Seq<RouteModel>) -> (nat, nat, nat)
    decreases routes.len(),
{
    if routes.len() == 0 {
        (0nat, 0nat, 0nat)
    } else {
        let (r, q, h) = adapter_tally(routes.drop_last());
        match routes.last().adapter {
            RouteAdapter::Raw => (r + 1, q, h),
            RouteAdapter::Request => (r, q + 1, h),
            RouteAdapter::RequestHta => (r, q, h + 1),
        }
    }
}

pub open spec fn config_tally(apps: Seq<AppModel>) -> (nat, nat, nat)
    decreases apps.len(),
{
    if apps.len() == 0 {
        (0nat, 0nat, 0nat)
    } else {
        let (r, q, h) = config_tally(apps.drop_last());
        let (a, b, c) = adapter_tally(apps.last().routes);
        (r + a, q + b, h + c)
    }
}

proof fn lemma_route_tally_of_manifest(items: Seq<HalValue>, routes: Seq<RouteModel>)
    requires
        items.len() == routes.len(),
        forall|i: int| 0 <= i < items.len() ==> describes_route(#[trigger] items[i], routes[i]),
    ensures
        route_tally(items) == Ok::<(nat, nat, nat), Seq<char>>(adapter_tally(routes)),
    decreases items.len(),
{
    if items.len() > 0 {
        let n = items.len() - 1;
        assert forall|i: int| 0 <= i < items.drop_last().len() implies describes_route(
            #[trigger] items.drop_last()[i],
            routes.drop_last()[i],
        ) by {
            assert(items.drop_last()[i] == items[i]);
            assert(describes_route(items[i], routes[i]));
        }
        lemma_route_tally_of_manifest(items.drop_last(), routes.drop_last());
        assert(describes_route(items[n], routes[n]));
        lemma_field_names_differ();
        lemma_route_reads(items[n], routes[n]);
        assert(keyword_field(items[n], "adapter"@) == Some(adapter_keyword(routes[n].adapter)));
    }
}

proof fn lemma_apps_tally_of_manifest(items: Seq<HalValue>, apps: Seq<AppModel>)
    requires
        items.len() == apps.len(),
        forall|i: int|
            0 <= i < items.len() ==> describes_app(#[trigger] items[i], apps[i].id, apps[i].peers.len(), apps[i].routes),
    ensures
        apps_tally(items) == Ok::<(nat, nat, nat), Seq<char>>(config_tally(apps)),
    decreases items.len(),
{
    if items.len() > 0 {
        let n = items.len() - 1;
        assert forall|i: int| 0 <= i < items.drop_last().len() implies describes_app(
            #[trigger] items.drop_last()[i],
            apps.drop_last()[i].id,
            apps.drop_last()[i].peers.len(),
            apps.drop_last()[i].routes,
        ) by {
            assert(items.drop_last()[i] == items[i]);
            assert(describes_app(items[i], apps[i].id, apps[i].peers.len(), apps[i].routes));
        }
        lemma_apps_tally_of_manifest(items.drop_last(), apps.drop_last());
        let value = items[n];
        let app = apps[n];
        assert(describes_app(value, app.id, app.peers.len(), app.routes));
        lemma_field_names_differ();
        let entries = crate::hal::map_entries(value)->0;
        assert(crate::hal::entry_index(entries, "routes"@, 2) == Some(2int));
        assert(crate::hal::entry_index(entries, "routes"@, 1) == Some(2int));
        assert(field_value(value, "routes"@) == Some(entries[2].1));
        let route_items = sequence_of(entries[2].1)->0;
        assert forall|i: int| 0 <= i < route_items.len() implies describes_route(#[trigger] route_items[i], app.routes[i]) by {}
        lemma_route_tally_of_manifest(route_items, app.routes);
    }
}

/// Inspecting the manifest a build writes reports format 2, its number of
/// applications, and its routes counted by adapter.
pub proof fn law_inspection_counts_the_build_manifest(value: HalValue, config: ConfigModel)
    requires
        describes_manifest(value, config),
        config.apps.len() > 0,
    ensures
        summary_spec(value) == Ok::<SummaryModel, Seq<char>>(
            SummaryModel {
                format: 2,
                applications: config.apps.len(),
                raw: config_tally(config.apps).0,
                request: config_tally(config.apps).1,
                request_hta: config_tally(config.apps).2,
            },
        ),
{
    lemma_field_names_differ();
    let entries = crate::hal::map_entries(value)->0;
    assert(field_value(value, "format"@) == Some(entries[0].1));
    assert(crate::hal::entry_index(entries, "apps"@, 1) == Some(1int));
    assert(field_value(value, "apps"@) == Some(entries[1].1));
    let items = sequence_of(entries[1].1)->0;
    lemma_apps_tally_of_manifest(items, config.apps);
}

} // verus!
