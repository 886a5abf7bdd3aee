//! The OpenAPI document of an application: one operation per documented
//! route, under its OpenAPI path template and lower-case method, and the
//! fixed proxies it forwards.

use vstd::prelude::*;
use vstd::utf8::encode_utf8;
use crate::app::{App, AppModel, RouteModel, ascii_lower, openapi_path, openapi_template};
use crate::host::Json;
use crate::text::{chars_of, owned, same_chars, string_of};

verus! {

/// What an operation states: its id and its summary, where the route has
/// them.
pub struct OperationModel {
    pub id: Option<Seq<char>>,
    pub summary: Option<Seq<char>>,
}

pub open spec fn hoplite_prefix() -> Seq<char> {
    "/__hoplite/"@
}

/// A route is documented unless it serves any method or an internal path.
pub open spec fn documented(route: RouteModel) -> bool {
    route.method != "ANY"@ && !(route.path.len() >= hoplite_prefix().len() && route.path.take(
        hoplite_prefix().len() as int,
    ) == hoplite_prefix())
}

/// A route name with `/` read as `.`.
pub open spec fn dotted(name: Seq<char>) -> Seq<char> {
    name.map_values(|c: char| if c == '/' { '.' } else { c })
}

pub open spec fn lower_method(method: Seq<char>) -> Seq<char> {
    method.map_values(|c: char| ascii_lower(c))
}

pub open spec fn operation_of(route: RouteModel) -> OperationModel {
    OperationModel {
        id: match route.name {
            Some(name) => Some(dotted(name)),
            None => None,
        },
        summary: route.summary,
    }
}

pub open spec fn key_index<T>(entries: Seq<(Seq<char>, T)>, key: Seq<char>) -> Option<int> {
    if exists|i: int| 0 <= i < entries.len() && (#[trigger] entries[i]).0 == key {
        Some(choose|i: int| 0 <= i < entries.len() && (#[trigger] entries[i]).0 == key)
    } else {
        None
    }
}

/// Keyed entries with distinct keys.
pub open spec fn distinct_keys<T>(entries: Seq<(Seq<char>, T)>) -> bool {
    forall|i: int, j: int| 0 <= i < j < entries.len() ==> (#[trigger] entries[i]).0 != (#[trigger] entries[j]).0
}

/// Sets a key's value, keeping its place, or adds it last.
pub open spec fn put<T>(entries: Seq<(Seq<char>, T)>, key: Seq<char>, value: T) -> Seq<(Seq<char>, T)> {
    match key_index(entries, key) {
        Some(i) => entries.update(i, (key, value)),
        None => entries.push((key, value)),
    }
}

pub open spec fn put_operation(
    paths: Seq<(Seq<char>, Seq<(Seq<char>, OperationModel)>)>,
    path: Seq<char>,
    method: Seq<char>,
    operation: OperationModel,
) -> Seq<(Seq<char>, Seq<(Seq<char>, OperationModel)>)> {
    match key_index(paths, path) {
        Some(i) => paths.update(i, (path, put(paths[i].1, method, operation))),
        None => paths.push((path, seq![(method, operation)])),
    }
}

/// The paths of the documented routes: each route in turn sets its
/// operation under its path template and method.
pub open spec fn paths_of(routes: Seq<RouteModel>) -> Seq<(Seq<char>, Seq<(Seq<char>, OperationModel)>)>
    decreases routes.len(),
{
    if routes.len() == 0 {
        Seq::empty()
    } else {
        let before = paths_of(routes.drop_last());
        let route = routes.last();
        if documented(route) {
            put_operation(
                before,
                openapi_template(encode_utf8(route.path), 0),
                lower_method(route.method),
                operation_of(route),
            )
        } else {
            before
        }
    }
}

pub open spec fn text_is(value: Json, text: Seq<char>) -> bool {
    value matches Json::Text(t) && t@ == text
}

/// `{"200": {"description": "Handler response"}}`.
pub open spec fn describes_responses(value: Json) -> bool {
    &&& value matches Json::Object(members) && members@.len() == 1 && members@[0].0@ == "200"@
    &&& value->Object_0@[0].1 matches Json::Object(inner) && inner@.len() == 1 && inner@[0].0@ == "description"@
        && text_is(inner@[0].1, "Handler response"@)
}

/// An operation object: `operationId` and `summary` where present, then
/// `responses`.
pub open spec fn describes_operation(value: Json, operation: OperationModel) -> bool {
    value matches Json::Object(members) && {
        let m = members@;
        let a: int = if operation.id is Some { 1 } else { 0 };
        let b: int = if operation.summary is Some { 1 } else { 0 };
        &&& m.len() == a + b + 1
        &&& operation.id matches Some(id) ==> m[0].0@ == "operationId"@ && text_is(m[0].1, id)
        &&& operation.summary matches Some(s) ==> m[a].0@ == "summary"@ && text_is(m[a].1, s)
        &&& m[a + b].0@ == "responses"@ && describes_responses(m[a + b].1)
    }
}

pub open spec fn describes_methods(value: Json, methods: Seq<(Seq<char>, OperationModel)>) -> bool {
    value matches Json::Object(members) && members@.len() == methods.len() && forall|i: int|
        0 <= i < methods.len() ==> (#[trigger] members@[i]).0@ == methods[i].0 && describes_operation(
            members@[i].1,
            methods[i].1,
        )
}

pub open spec fn describes_paths(value: Json, paths: Seq<(Seq<char>, Seq<(Seq<char>, OperationModel)>)>) -> bool {
    value matches Json::Object(members) && members@.len() == paths.len() && forall|i: int|
        0 <= i < paths.len() ==> (#[trigger] members@[i]).0@ == paths[i].0 && describes_methods(
            members@[i].1,
            paths[i].1,
        )
}

pub open spec fn describes_proxy(value: Json, path: Seq<char>, upstream: Seq<char>) -> bool {
    value matches Json::Object(members) && members@.len() == 2 && members@[0].0@ == "path"@ && text_is(
        members@[0].1,
        path,
    ) && members@[1].0@ == "upstream"@ && text_is(members@[1].1, upstream)
}

/// `{"title": name, "version": "0.2.0"}`.
pub open spec fn describes_info(value: Json, name: Seq<char>) -> bool {
    value matches Json::Object(info) && info@.len() == 2 && info@[0].0@ == "title"@ && text_is(info@[0].1, name)
        && info@[1].0@ == "version"@ && text_is(info@[1].1, "0.2.0"@)
}

/// Each fixed proxy's path and upstream, in order.
pub open spec fn describes_proxies(value: Json, proxies: Seq<crate::app::ProxyModel>) -> bool {
    value matches Json::Array(items) && items@.len() == proxies.len() && forall|i: int|
        0 <= i < items@.len() ==> describes_proxy(#[trigger] items@[i], proxies[i].path, proxies[i].upstream)
}

/// The OpenAPI 3.1.0 document of an application: `openapi`, `info` (its
/// name as title, version `0.2.0`), `paths`, and its fixed proxies under
/// `x-hoplite-static-proxies`.
pub open spec fn describes_openapi(value: Json, app: AppModel) -> bool {
    value matches Json::Object(members) && {
        let m = members@;
        &&& m.len() == 4
        &&& m[0].0@ == "openapi"@ && text_is(m[0].1, "3.1.0"@)
        &&& m[1].0@ == "info"@ && describes_info(m[1].1, app.name)
        &&& m[2].0@ == "paths"@ && describes_paths(m[2].1, paths_of(app.routes))
        &&& m[3].0@ == "x-hoplite-static-proxies"@ && describes_proxies(m[3].1, app.proxies)
    }
}

// ---------------------------------------------------------------------------
// Building the document
// ---------------------------------------------------------------------------

struct Operation {
    id: Option<String>,
    summary: Option<String>,
}

spec fn operation_view(operation: Operation) -> OperationModel {
    OperationModel {
        id: match operation.id {
            Some(t) => Some(t@),
            None => None,
        },
        summary: match operation.summary {
            Some(t) => Some(t@),
            None => None,
        },
    }
}

spec fn methods_view(methods: Seq<(String, Operation)>) -> Seq<(Seq<char>, OperationModel)> {
    methods.map_values(|m: (String, Operation)| (m.0@, operation_view(m.1)))
}

spec fn paths_view(paths: Seq<(String, Vec<(String, Operation)>)>) -> Seq<(Seq<char>, Seq<(Seq<char>, OperationModel)>)> {
    paths.map_values(|p: (String, Vec<(String, Operation)>)| (p.0@, methods_view(p.1@)))
}

fn text_json(text: &str) -> (value: Json)
    ensures
        text_is(value, text@),
{
    Json::Text(owned(text))
}

fn is_documented(method: &str, path: &str) -> (r: bool)
    ensures
        r == (method@ != "ANY"@ && !(path@.len() >= hoplite_prefix().len() && path@.take(hoplite_prefix().len() as int)
            == hoplite_prefix())),
{
    let m = chars_of(method);
    let any = chars_of("ANY");
    if same_chars(m.as_slice(), any.as_slice()) {
        return false;
    }
    let p = chars_of(path);
    let prefix = chars_of("/__hoplite/");
    if p.len() < prefix.len() {
        return true;
    }
    let mut i: usize = 0;
    while i < prefix.len()
        invariant
            prefix@ == hoplite_prefix(),
            p@ == path@,
            method@ != "ANY"@,
            p@.len() >= prefix@.len(),
            i <= prefix@.len(),
            forall|j: int| 0 <= j < i ==> p@[j] == prefix@[j],
        decreases prefix@.len() - i,
    {
        if p[i] != prefix[i] {
            assert(path@.take(hoplite_prefix().len() as int)[i as int] != hoplite_prefix()[i as int]);
            return true;
        }
        i = i + 1;
    }
    assert(path@.take(hoplite_prefix().len() as int) =~= hoplite_prefix());
    false
}

fn map_chars_dotted(name: &String) -> (out: String)
    ensures
        out@ == dotted(name@),
{
    let chars = chars_of(name.as_str());
    let mut mapped: Vec<char> = Vec::new();
    let mut i: usize = 0;
    while i < chars.len()
        invariant
            chars@ == name@,
            i <= chars@.len(),
            mapped@ == dotted(chars@.take(i as int)),
        decreases chars@.len() - i,
    {
        let c = chars[i];
        mapped.push(if c == '/' { '.' } else { c });
        assert(chars@.take(i + 1) =~= chars@.take(i as int).push(c));
        assert(mapped@ =~= dotted(chars@.take(i + 1)));
        i = i + 1;
    }
    assert(chars@.take(i as int) =~= chars@);
    string_of(mapped.as_slice())
}

fn lower_text(text: &String) -> (out: String)
    ensures
        out@ == lower_method(text@),
{
    let chars = chars_of(text.as_str());
    let mut mapped: Vec<char> = Vec::new();
    let mut i: usize = 0;
    while i < chars.len()
        invariant
            chars@ == text@,
            i <= chars@.len(),
            mapped@ == lower_method(chars@.take(i as int)),
        decreases chars@.len() - i,
    {
        let c = chars[i];
        let lower = if 'A' <= c && c <= 'Z' {
            let code: u8 = (c as u8) + 32;
            code as char
        } else {
            c
        };
        mapped.push(lower);
        assert(chars@.take(i + 1) =~= chars@.take(i as int).push(c));
        assert(mapped@ =~= lower_method(chars@.take(i + 1)));
        i = i + 1;
    }
    assert(chars@.take(i as int) =~= chars@);
    string_of(mapped.as_slice())
}

fn copy_optional(text: &Option<String>) -> (out: Option<String>)
    ensures
        match (out, *text) {
            (Some(a), Some(b)) => a@ == b@,
            (None, None) => true,
            _ => false,
        },
{
    match text {
        Some(t) => Some(t.clone()),
        None => None,
    }
}

/// The index of the entry with this key.
fn find_key<T>(entries: &Vec<(String, T)>, key: &String) -> (r: Option<usize>)
    ensures
        match r {
            Some(i) => i < entries@.len() && entries@[i as int].0@ == key@,
            None => forall|j: int| 0 <= j < entries@.len() ==> (#[trigger] entries@[j]).0@ != key@,
        },
{
    let k = chars_of(key.as_str());
    let mut i: usize = 0;
    while i < entries.len()
        invariant
            k@ == key@,
            i <= entries@.len(),
            forall|j: int| 0 <= j < i ==> (#[trigger] entries@[j]).0@ != key@,
        decreases entries@.len() - i,
    {
        let e = chars_of(entries[i].0.as_str());
        if same_chars(e.as_slice(), k.as_slice()) {
            return Some(i);
        }
        i = i + 1;
    }
    None
}

proof fn lemma_key_index<T>(entries: Seq<(Seq<char>, T)>, key: Seq<char>, i: int)
    requires
        distinct_keys(entries),
        0 <= i < entries.len(),
        entries[i].0 == key,
    ensures
        key_index(entries, key) == Some(i),
{
    let c = choose|c: int| 0 <= c < entries.len() && (#[trigger] entries[c]).0 == key;
    if c != i {
        if c < i {
            assert(entries[c].0 != entries[i].0);
        } else {
            assert(entries[i].0 != entries[c].0);
        }
    }
}

proof fn lemma_put_keeps_distinct<T>(entries: Seq<(Seq<char>, T)>, key: Seq<char>, value: T)
    requires
        distinct_keys(entries),
    ensures
        distinct_keys(put(entries, key, value)),
        put(entries, key, value).len() >= 1,
{
    match key_index(entries, key) {
        Some(i) => {
            let c = choose|c: int| 0 <= c < entries.len() && (#[trigger] entries[c]).0 == key;
            assert(c == i);
            let updated = entries.update(i, (key, value));
            assert forall|a: int, b: int| 0 <= a < b < updated.len() implies (#[trigger] updated[a]).0 != (#[trigger] updated[b]).0 by {
                assert(entries[a].0 != entries[b].0);
            }
        },
        None => {
            let pushed = entries.push((key, value));
            assert forall|a: int, b: int| 0 <= a < b < pushed.len() implies (#[trigger] pushed[a]).0 != (#[trigger] pushed[b]).0 by {
                if b == entries.len() {
                    assert(entries[a].0 != key);
                } else {
                    assert(entries[a].0 != entries[b].0);
                }
            }
        },
    }
}

/// Sets the method's operation in a path's methods.
fn put_method(methods: &mut Vec<(String, Operation)>, method: String, operation: Operation)
    requires
        distinct_keys(methods_view(old(methods)@)),
    ensures
        methods_view(final(methods)@) == put(methods_view(old(methods)@), method@, operation_view(operation)),
        distinct_keys(methods_view(final(methods)@)),
{
    let ghost before = methods_view(methods@);
    proof {
        lemma_put_keeps_distinct(before, method@, operation_view(operation));
    }
    match find_key(methods, &method) {
        Some(i) => {
            proof {
                assert(before[i as int].0 == method@);
                lemma_key_index(before, method@, i as int);
            }
            methods.set(i, (method, operation));
            assert(methods_view(methods@) =~= before.update(i as int, (method@, operation_view(operation))));
        },
        None => {
            assert(key_index(before, method@) is None) by {
                if exists|c: int| 0 <= c < before.len() && (#[trigger] before[c]).0 == method@ {
                    let c = choose|c: int| 0 <= c < before.len() && (#[trigger] before[c]).0 == method@;
                    assert(methods@[c].0@ != method@);
                }
            }
            methods.push((method, operation));
            assert(methods_view(methods@) =~= before.push((method@, operation_view(operation))));
        },
    }
}

spec fn paths_distinct(paths: Seq<(String, Vec<(String, Operation)>)>) -> bool {
    &&& distinct_keys(paths_view(paths))
    &&& forall|i: int| 0 <= i < paths.len() ==> distinct_keys(methods_view((#[trigger] paths[i]).1@))
}

/// Sets an operation under a path and method.
fn put_path_operation(paths: &mut Vec<(String, Vec<(String, Operation)>)>, path: String, method: String, operation: Operation)
    requires
        paths_distinct(old(paths)@),
    ensures
        paths_view(final(paths)@) == put_operation(paths_view(old(paths)@), path@, method@, operation_view(operation)),
        paths_distinct(final(paths)@),
{
    let ghost before = paths_view(paths@);
    match find_key(paths, &path) {
        Some(i) => {
            proof {
                lemma_key_index(before, path@, i as int);
            }
            let mut methods: Vec<(String, Operation)> = Vec::new();
            let mut taken: (String, Vec<(String, Operation)>) = (String::new(), Vec::new());
            std::mem::swap(&mut taken, &mut paths[i]);
            let (_, mut methods_taken) = taken;
            assert(methods_view(methods_taken@) == before[i as int].1);
            assert(distinct_keys(methods_view(methods_taken@))) by {
                assert(distinct_keys(methods_view(old(paths)@[i as int].1@)));
            }
            put_method(&mut methods_taken, method, operation);
            methods = methods_taken;
            paths.set(i, (path, methods));
            assert(paths_view(paths@) =~= before.update(i as int, (path@, put(before[i as int].1, method@, operation_view(operation)))));
            assert forall|a: int, b: int| 0 <= a < b < paths_view(paths@).len() implies (#[trigger] paths_view(paths@)[a]).0
                != (#[trigger] paths_view(paths@)[b]).0 by {
                assert(before[a].0 != before[b].0);
            }
            assert forall|j: int| 0 <= j < paths@.len() implies distinct_keys(methods_view((#[trigger] paths@[j]).1@)) by {
                if j != i {
                    assert(paths@[j] == old(paths)@[j]);
                }
            }
        },
        None => {
            assert(key_index(before, path@) is None) by {
                if exists|c: int| 0 <= c < before.len() && (#[trigger] before[c]).0 == path@ {
                    let c = choose|c: int| 0 <= c < before.len() && (#[trigger] before[c]).0 == path@;
                    assert(paths@[c].0@ != path@);
                }
            }
            let mut methods: Vec<(String, Operation)> = Vec::new();
            let ghost op = operation_view(operation);
            let ghost m = method@;
            methods.push((method, operation));
            assert(methods_view(methods@) =~= seq![(m, op)]);
            paths.push((path, methods));
            assert(paths_view(paths@) =~= before.push((path@, seq![(m, op)])));
            assert forall|a: int, b: int| 0 <= a < b < paths_view(paths@).len() implies (#[trigger] paths_view(paths@)[a]).0
                != (#[trigger] paths_view(paths@)[b]).0 by {
                if b == before.len() {
                    assert(before[a].0 != path@);
                } else {
                    assert(before[a].0 != before[b].0);
                }
            }
            assert forall|j: int| 0 <= j < paths@.len() implies distinct_keys(methods_view((#[trigger] paths@[j]).1@)) by {
                if j < before.len() {
                    assert(paths@[j] == old(paths)@[j]);
                }
            }
        },
    }
}

fn operation_json(operation: &Operation) -> (value: Json)
    ensures
        describes_operation(value, operation_view(*operation)),
{
    let mut members: Vec<(String, Json)> = Vec::new();
    match &operation.id {
        Some(id) => members.push((owned("operationId"), text_json(id.as_str()))),
        None => {},
    }
    match &operation.summary {
        Some(summary) => members.push((owned("summary"), text_json(summary.as_str()))),
        None => {},
    }
    let mut inner: Vec<(String, Json)> = Vec::new();
    inner.push((owned("description"), text_json("Handler response")));
    let mut responses: Vec<(String, Json)> = Vec::new();
    responses.push((owned("200"), Json::Object(inner)));
    members.push((owned("responses"), Json::Object(responses)));
    Json::Object(members)
}

fn methods_json(methods: &Vec<(String, Operation)>) -> (value: Json)
    ensures
        describes_methods(value, methods_view(methods@)),
{
    let mut members: Vec<(String, Json)> = Vec::new();
    let mut i: usize = 0;
    while i < methods.len()
        invariant
            i <= methods@.len(),
            members@.len() == i,
            forall|j: int|
                0 <= j < i ==> (#[trigger] members@[j]).0@ == methods_view(methods@)[j].0 && describes_operation(
                    members@[j].1,
                    methods_view(methods@)[j].1,
                ),
        decreases methods@.len() - i,
    {
        members.push((methods[i].0.clone(), operation_json(&methods[i].1)));
        i = i + 1;
    }
    Json::Object(members)
}

fn paths_json(paths: &Vec<(String, Vec<(String, Operation)>)>) -> (value: Json)
    ensures
        describes_paths(value, paths_view(paths@)),
{
    let mut members: Vec<(String, Json)> = Vec::new();
    let mut i: usize = 0;
    while i < paths.len()
        invariant
            i <= paths@.len(),
            members@.len() == i,
            forall|j: int|
                0 <= j < i ==> (#[trigger] members@[j]).0@ == paths_view(paths@)[j].0 && describes_methods(
                    members@[j].1,
                    paths_view(paths@)[j].1,
                ),
        decreases paths@.len() - i,
    {
        members.push((paths[i].0.clone(), methods_json(&paths[i].1)));
        i = i + 1;
    }
    Json::Object(members)
}

/// The OpenAPI document of an application.
pub fn openapi(app: &App) -> (document: Json)
    ensures
        describes_openapi(document, app@),
{
    let mut paths: Vec<(String, Vec<(String, Operation)>)> = Vec::new();
    let mut i: usize = 0;
    assert(app@.routes.take(0) =~= Seq::<RouteModel>::empty());
    assert(paths_view(paths@) =~= Seq::<(Seq<char>, Seq<(Seq<char>, OperationModel)>)>::empty());
    while i < app.routes.len()
        invariant
            i <= app.routes@.len(),
            paths_view(paths@) == paths_of(app@.routes.take(i as int)),
            paths_distinct(paths@),
        decreases app.routes@.len() - i,
    {
        let route = &app.routes[i];
        assert(app@.routes.take(i + 1).drop_last() =~= app@.routes.take(i as int));
        assert(app@.routes.take(i + 1).last() == app@.routes[i as int]);
        assert(app@.routes[i as int] == route@);
        if is_documented(route.method.as_str(), route.path.as_str()) {
            let operation = Operation {
                id: match &route.name {
                    Some(name) => Some(map_chars_dotted(name)),
                    None => None,
                },
                summary: copy_optional(&route.summary),
            };
            assert(operation_view(operation) == operation_of(route@));
            put_path_operation(&mut paths, openapi_path(route.path.as_str()), lower_text(&route.method), operation);
        }
        i = i + 1;
    }
    assert(app@.routes.take(i as int) =~= app@.routes);
    let mut proxies: Vec<Json> = Vec::new();
    let mut k: usize = 0;
    while k < app.proxies.len()
        invariant
            k <= app.proxies@.len(),
            proxies@.len() == k,
            forall|j: int|
                0 <= j < k ==> describes_proxy(#[trigger] proxies@[j], app@.proxies[j].path, app@.proxies[j].upstream),
        decreases app.proxies@.len() - k,
    {
        let mut members: Vec<(String, Json)> = Vec::new();
        members.push((owned("path"), text_json(app.proxies[k].path.as_str())));
        members.push((owned("upstream"), text_json(app.proxies[k].upstream.as_str())));
        proxies.push(Json::Object(members));
        k = k + 1;
    }
    let mut info: Vec<(String, Json)> = Vec::new();
    info.push((owned("title"), text_json(app.name.as_str())));
    info.push((owned("version"), text_json("0.2.0")));
    let mut members: Vec<(String, Json)> = Vec::new();
    members.push((owned("openapi"), text_json("3.1.0")));
    members.push((owned("info"), Json::Object(info)));
    members.push((owned("paths"), paths_json(&paths)));
    members.push((owned("x-hoplite-static-proxies"), Json::Array(proxies)));
    Json::Object(members)
}

} // verus!
