//! The application configuration that a Hoplite project declares: routes,
//! request-body policy, fixed upstream proxies, Nchan channels and peers.

use vstd::prelude::*;
use crate::hal::{
    field, field_value, keyword_field, keyword_field_of, map_entries, number_field,
    number_field_of, sequence, sequence_field, sequence_field_of, sequence_items, text, text_field,
    text_field_of,
    text_value, HalValue,
};
use vstd::utf8::encode_utf8;
use crate::text::{
    chars_of, debug_quoted, debug_text, decimal_chars, find_chars, find_from,
    lemma_find_from_bounds, owned, parse_unsigned, parse_unsigned_chars, push_char, push_decimal,
    push_str, same_chars, same_text, split_at, split_chars, string_of,
};

verus! {

/// How a route's handler receives its request.
#[derive(Clone, Copy, Debug, PartialEq, Eq, Structural)]
pub enum RouteAdapter {
    Raw,
    Request,
    RequestHta,
}

#[derive(Clone, Debug, PartialEq, Eq)]
pub struct Route {
    pub method: String,
    pub path: String,
    pub handler: String,
    pub name: Option<String>,
    pub summary: Option<String>,
    pub adapter: RouteAdapter,
}

#[derive(Clone, Copy, Debug, PartialEq, Eq)]
pub struct RequestBodyPolicy {
    pub max_bytes: usize,
    pub max_chunk_bytes: usize,
}

/// A fixed-prefix, fixed-origin Nginx upstream owned by the Hoplite build.
///
/// Proxies are deliberately not selected from request data. They are inert
/// app configuration, validated before Nginx configuration is emitted, and
/// remain outside the handler manifest.
#[derive(Clone, Debug, PartialEq, Eq)]
pub struct Proxy {
    pub path: String,
    pub upstream: String,
    pub authority: String,
    pub server_name: String,
    pub secure: bool,
}

#[derive(Clone, Debug, PartialEq, Eq)]
pub struct Channel {
    pub name: String,
    pub path_prefix: String,
    pub authorize: String,
    pub admission: String,
    pub message_buffer: usize,
    pub message_timeout_seconds: usize,
    pub max_channel_id_bytes: usize,
    pub max_subscribers: usize,
    pub transports: Vec<String>,
}

#[derive(Clone, Debug, PartialEq, Eq)]
pub struct Peer {
    pub name: String,
    pub channel: String,
    pub handler: String,
    pub label: String,
    pub max_message_bytes: usize,
    pub idle_timeout_seconds: usize,
}

/// `/__hoplite/nchan/{app}/{channel}/{step}`.
pub open spec fn channel_path(app_id: u64, channel: Seq<char>, step: Seq<char>) -> Seq<char> {
    "/__hoplite/nchan/"@ + decimal_chars(app_id as nat) + seq!['/'] + channel + seq!['/'] + step
}

impl Channel {
    fn step_path(&self, app_id: u64, step: &str) -> (path: String)
        ensures
            path@ == channel_path(app_id, self.name@, step@),
    {
        let mut path = owned("/__hoplite/nchan/");
        push_decimal(&mut path, app_id);
        push_str(&mut path, "/");
        push_str(&mut path, self.name.as_str());
        push_str(&mut path, "/");
        push_str(&mut path, step);
        proof {
            reveal_strlit("/");
            assert(path@ =~= channel_path(app_id, self.name@, step@));
        }
        path
    }

    /// The internal location Nchan asks before a subscriber joins.
    pub fn authorize_path(&self, app_id: u64) -> (path: String)
        ensures
            path@ == channel_path(app_id, self.name@, "authorize"@),
    {
        self.step_path(app_id, "authorize")
    }

    /// The internal location Nchan asks before a publisher's message is
    /// admitted.
    pub fn admit_path(&self, app_id: u64) -> (path: String)
        ensures
            path@ == channel_path(app_id, self.name@, "admit"@),
    {
        self.step_path(app_id, "admit")
    }
}

#[derive(Clone, Debug, PartialEq, Eq)]
pub struct App {
    pub id: u64,
    pub name: String,
    pub port: u16,
    pub hostnames: Vec<String>,
    pub routes: Vec<Route>,
    pub request_body: Option<RequestBodyPolicy>,
    pub proxies: Vec<Proxy>,
    pub channels: Vec<Channel>,
    pub peers: Vec<Peer>,
    pub openapi_path: Option<String>,
}

#[derive(Clone, Debug, PartialEq, Eq)]
pub struct Config {
    pub workers: usize,
    pub apps: Vec<App>,
}

} // verus!

verus! {

pub struct ProxyModel {
    pub path: Seq<char>,
    pub upstream: Seq<char>,
    pub authority: Seq<char>,
    pub server_name: Seq<char>,
    pub secure: bool,
}

impl View for Proxy {
    type V = ProxyModel;

    open spec fn view(&self) -> ProxyModel {
        ProxyModel {
            path: self.path@,
            upstream: self.upstream@,
            authority: self.authority@,
            server_name: self.server_name@,
            secure: self.secure,
        }
    }
}

pub open spec fn chars_in(text: Seq<char>, set: Seq<char>) -> bool {
    exists|i: int| 0 <= i < text.len() && set.contains(#[trigger] text[i])
}

pub open spec fn all_chars(text: Seq<char>, allowed: spec_fn(char) -> bool) -> bool {
    forall|i: int| 0 <= i < text.len() ==> allowed(#[trigger] text[i])
}

pub open spec fn is_ascii_alphanumeric(c: char) -> bool {
    ('a' <= c && c <= 'z') || ('A' <= c && c <= 'Z') || ('0' <= c && c <= '9')
}

pub open spec fn is_token_char(c: char) -> bool {
    is_ascii_alphanumeric(c) || c == '-' || c == '_' || c == '.'
}

/// A name of at most 128 characters drawn from `[A-Za-z0-9._-]`.
pub open spec fn is_token(value: Seq<char>) -> bool {
    0 < value.len() <= 128 && all_chars(value, |c: char| is_token_char(c))
}

fn alphanumeric(c: char) -> (r: bool)
    ensures
        r == is_ascii_alphanumeric(c),
{
    ('a' <= c && c <= 'z') || ('A' <= c && c <= 'Z') || ('0' <= c && c <= '9')
}

/// Whether any character of `text` is one of `set`.
fn contains_any(text: &[char], set: &[char]) -> (r: bool)
    ensures
        r == chars_in(text@, set@),
{
    let mut i: usize = 0;
    while i < text.len()
        invariant
            i <= text@.len(),
            forall|j: int| 0 <= j < i ==> !set@.contains(#[trigger] text@[j]),
        decreases text@.len() - i,
    {
        let mut k: usize = 0;
        while k < set.len()
            invariant
                k <= set@.len(),
                i < text@.len(),
                forall|m: int| 0 <= m < k ==> set@[m] != text@[i as int],
            decreases set@.len() - k,
        {
            if set[k] == text[i] {
                assert(set@.contains(text@[i as int]));
                return true;
            }
            k = k + 1;
        }
        assert(!set@.contains(text@[i as int]));
        i = i + 1;
    }
    false
}

/// `Ok` for a token, else `{context} is invalid`.
pub fn valid_token(value: &str, context: &str) -> (r: Result<(), String>)
    ensures
        match r {
            Ok(()) => is_token(value@),
            Err(message) => !is_token(value@) && message@ == context@ + " is invalid"@,
        },
{
    let chars = chars_of(value);
    let mut ok = chars.len() > 0 && chars.len() <= 128;
    let mut i: usize = 0;
    while ok && i < chars.len()
        invariant
            i <= chars@.len(),
            chars@ == value@,
            ok ==> 0 < chars@.len() <= 128,
            ok ==> forall|j: int| 0 <= j < i ==> is_token_char(#[trigger] chars@[j]),
            !ok ==> !is_token(value@),
        decreases chars@.len() - i,
    {
        let c = chars[i];
        if !(alphanumeric(c) || c == '-' || c == '_' || c == '.') {
            ok = false;
        }
        i = i + 1;
    }
    if ok {
        Ok(())
    } else {
        let mut message = owned(context);
        push_str(&mut message, " is invalid");
        Err(message)
    }
}

/// A TCP port between 1 and 65535.
pub fn valid_port(value: i64) -> (r: Result<u16, String>)
    ensures
        match r {
            Ok(port) => 1 <= value <= 65535 && port == value,
            Err(message) => !(1 <= value <= 65535) && message@ == "port must be between 1 and 65535"@,
        },
{
    if 1 <= value && value <= 65535 {
        Ok(value as u16)
    } else {
        Err(owned("port must be between 1 and 65535"))
    }
}

/// A count that is positive and fits a `usize`.
pub fn valid_positive_usize(value: i64) -> (r: Result<usize, String>)
    ensures
        match r {
            Ok(n) => 0 < value <= usize::MAX && n == value,
            Err(message) => !(0 < value <= usize::MAX) && message@ == "value must be positive"@,
        },
{
    if value > 0 && (value as u64) <= (usize::MAX as u64) {
        Ok(value as usize)
    } else {
        Err(owned("value must be positive"))
    }
}

/// The handler a value names: a var's qualified symbol, or a symbol that
/// is qualified.
pub open spec fn callable(value: HalValue) -> Option<Seq<char>> {
    match value {
        HalValue::Var(symbol, _) => Some(symbol@),
        HalValue::Symbol(name) => if name@.contains('/') {
            Some(name@)
        } else {
            None
        },
        _ => None,
    }
}

pub fn callable_name(value: &HalValue) -> (r: Result<String, String>)
    ensures
        match r {
            Ok(name) => callable(*value) == Some(name@),
            Err(message) => callable(*value) is None && message@
                == "handler must be a Var or qualified symbol"@,
        },
{
    match value {
        HalValue::Var(symbol, _) => Ok(owned(symbol.as_str())),
        HalValue::Symbol(name) => {
            let chars = chars_of(name.as_str());
            let slash: [char; 1] = ['/'];
            if contains_any(chars.as_slice(), slash.as_slice()) {
                proof {
                    let i = choose|i: int| 0 <= i < chars@.len() && slash@.contains(#[trigger] chars@[i]);
                    assert(name@[i] == '/');
                }
                Ok(owned(name.as_str()))
            } else {
                proof {
                    if name@.contains('/') {
                        let i = choose|i: int| 0 <= i < name@.len() && name@[i] == '/';
                        assert(slash@[0] == '/');
                        assert(slash@.contains(chars@[i]));
                    }
                }
                Err(owned("handler must be a Var or qualified symbol"))
            }
        },
        _ => Err(owned("handler must be a Var or qualified symbol")),
    }
}

/// The first refusal among the map's keys from entry `from` on: a key that
/// is not a keyword, or a keyword not in `allowed`.
pub open spec fn key_refusal(
    entries: Seq<(HalValue, HalValue)>,
    allowed: Seq<Seq<char>>,
    context: Seq<char>,
    from: int,
) -> Option<Seq<char>>
    decreases entries.len() - from,
{
    if from < 0 || from >= entries.len() {
        None
    } else {
        match entries[from].0 {
            HalValue::Keyword(name) => if !allowed.contains(name@) {
                Some(context + " has unsupported field :"@ + name@)
            } else {
                key_refusal(entries, allowed, context, from + 1)
            },
            _ => Some(context + " field keys must be keywords"@),
        }
    }
}

/// A map whose keys are all keywords among `allowed`.
pub open spec fn fields_check(value: HalValue, allowed: Seq<Seq<char>>, context: Seq<char>) -> Result<(), Seq<char>> {
    match map_entries(value) {
        None => Err(context + " must be a map"@),
        Some(entries) => match key_refusal(entries, allowed, context, 0) {
            Some(message) => Err(message),
            None => Ok(()),
        },
    }
}

pub open spec fn unit_result(r: Result<(), String>) -> Result<(), Seq<char>> {
    match r {
        Ok(()) => Ok(()),
        Err(message) => Err(message@),
    }
}

fn allowed_name(name: &String, allowed: &[&str]) -> (r: bool)
    ensures
        r == allowed@.map_values(|a: &str| a@).contains(name@),
{
    let ghost names = allowed@.map_values(|a: &str| a@);
    let chars = chars_of(name.as_str());
    let mut i: usize = 0;
    while i < allowed.len()
        invariant
            i <= allowed@.len(),
            names == allowed@.map_values(|a: &str| a@),
            chars@ == name@,
            forall|j: int| 0 <= j < i ==> names[j] != name@,
        decreases allowed@.len() - i,
    {
        let other = chars_of(allowed[i]);
        if same_chars(chars.as_slice(), other.as_slice()) {
            assert(names[i as int] == name@);
            return true;
        }
        i = i + 1;
    }
    false
}

/// Refuses a map with a key outside `allowed`.
pub fn reject_fields(value: &HalValue, allowed: &[&str], context: &str) -> (r: Result<(), String>)
    ensures
        unit_result(r) == fields_check(*value, allowed@.map_values(|a: &str| a@), context@),
{
    let ghost names = allowed@.map_values(|a: &str| a@);
    match value {
        HalValue::Mapping(entries) => {
            let mut i: usize = 0;
            while i < entries.len()
                invariant
                    i <= entries@.len(),
                    map_entries(*value) == Some(entries@),
                    names == allowed@.map_values(|a: &str| a@),
                    key_refusal(entries@, names, context@, 0) == key_refusal(entries@, names, context@, i as int),
                decreases entries@.len() - i,
            {
                match &entries[i].0 {
                    HalValue::Keyword(name) => {
                        if !allowed_name(name, allowed) {
                            let mut message = owned(context);
                            push_str(&mut message, " has unsupported field :");
                            push_str(&mut message, name.as_str());
                            return Err(message);
                        }
                    },
                    _ => {
                        let mut message = owned(context);
                        push_str(&mut message, " field keys must be keywords");
                        return Err(message);
                    },
                }
                i = i + 1;
            }
            Ok(())
        },
        _ => {
            let mut message = owned(context);
            push_str(&mut message, " must be a map");
            Err(message)
        },
    }
}

/// The text under a required key, `{context} requires :{key}` when it is
/// absent, or `{key} must be text`.
pub open spec fn required_text(value: HalValue, key: Seq<char>, context: Seq<char>) -> Result<Seq<char>, Seq<char>> {
    match field_value(value, key) {
        None => Err(context + " requires :"@ + key),
        Some(v) => match text_value(v) {
            Some(t) => Ok(t),
            None => Err(key + " must be text"@),
        },
    }
}

pub open spec fn text_result(r: Result<String, String>) -> Result<Seq<char>, Seq<char>> {
    match r {
        Ok(t) => Ok(t@),
        Err(message) => Err(message@),
    }
}

pub fn required_text_field(value: &HalValue, key: &str, context: &str) -> (r: Result<String, String>)
    ensures
        text_result(r) == required_text(*value, key@, context@),
{
    match field(value, key) {
        None => {
            let mut message = owned(context);
            push_str(&mut message, " requires :");
            push_str(&mut message, key);
            Err(message)
        },
        Some(v) => text(v, key),
    }
}

pub open spec fn adapter_keyword(adapter: RouteAdapter) -> Seq<char> {
    match adapter {
        RouteAdapter::Raw => "raw"@,
        RouteAdapter::Request => "request"@,
        RouteAdapter::RequestHta => "request+hta"@,
    }
}

/// The route adapter a keyword names (`request` when none is given).
pub open spec fn adapter_from(value: Option<Seq<char>>, context: Seq<char>) -> Result<RouteAdapter, Seq<char>> {
    let name = match value {
        Some(v) => v,
        None => "request"@,
    };
    if name == "raw"@ {
        Ok(RouteAdapter::Raw)
    } else if name == "request"@ {
        Ok(RouteAdapter::Request)
    } else if name == "request+hta"@ {
        Ok(RouteAdapter::RequestHta)
    } else {
        Err(context + " :route/adapter must be :raw, :request, or :request+hta; got :"@ + name)
    }
}

pub open spec fn adapter_result(r: Result<RouteAdapter, String>) -> Result<RouteAdapter, Seq<char>> {
    match r {
        Ok(a) => Ok(a),
        Err(message) => Err(message@),
    }
}

impl RouteAdapter {
    pub fn parse(value: Option<String>, context: &str) -> (r: Result<RouteAdapter, String>)
        ensures
            adapter_result(r) == adapter_from(
                match value {
                    Some(v) => Some(v@),
                    None => None,
                },
                context@,
            ),
    {
        let name = match value {
            Some(v) => v,
            None => owned("request"),
        };
        if same_text(name.as_str(), "raw") {
            Ok(RouteAdapter::Raw)
        } else if same_text(name.as_str(), "request") {
            Ok(RouteAdapter::Request)
        } else if same_text(name.as_str(), "request+hta") {
            Ok(RouteAdapter::RequestHta)
        } else {
            let mut message = owned(context);
            push_str(&mut message, " :route/adapter must be :raw, :request, or :request+hta; got :");
            push_str(&mut message, name.as_str());
            Err(message)
        }
    }

    pub fn keyword(&self) -> (name: &'static str)
        ensures
            name@ == adapter_keyword(*self),
    {
        match self {
            RouteAdapter::Raw => "raw",
            RouteAdapter::Request => "request",
            RouteAdapter::RequestHta => "request+hta",
        }
    }
}

} // verus!

verus! {

/// Some `/`-separated segment is `.` or `..`.
pub open spec fn has_dot_segment(path: Seq<char>) -> bool {
    exists|k: int|
        0 <= k < split_at(path, '/').len() && ((#[trigger] split_at(path, '/')[k]) == seq!['.']
            || split_at(path, '/')[k] == seq!['.', '.'])
}

pub open spec fn is_path_char(c: char) -> bool {
    is_ascii_alphanumeric(c) || c == '/' || c == '-' || c == '_' || c == '.' || c == '~'
}

pub open spec fn is_safe_proxy_path(value: Seq<char>) -> bool {
    all_chars(value, |c: char| is_path_char(c))
}

pub fn dot_segment(path: &[char]) -> (r: bool)
    ensures
        r == has_dot_segment(path@),
{
    let segments = split_chars(path, '/');
    let ghost all = segments@.map_values(|piece: Vec<char>| piece@);
    let dot: [char; 1] = ['.'];
    let dots: [char; 2] = ['.', '.'];
    assert(dot@ =~= seq!['.']);
    assert(dots@ =~= seq!['.', '.']);
    let mut k: usize = 0;
    while k < segments.len()
        invariant
            k <= segments@.len(),
            all == segments@.map_values(|piece: Vec<char>| piece@),
            all == split_at(path@, '/'),
            dot@ == seq!['.'],
            dots@ == seq!['.', '.'],
            forall|j: int| 0 <= j < k ==> all[j] != seq!['.'] && all[j] != seq!['.', '.'],
        decreases segments@.len() - k,
    {
        assert(all[k as int] == segments@[k as int]@);
        if same_chars(segments[k].as_slice(), dot.as_slice()) || same_chars(
            segments[k].as_slice(),
            dots.as_slice(),
        ) {
            return true;
        }
        k = k + 1;
    }
    false
}

pub fn safe_proxy_path(value: &[char]) -> (r: bool)
    ensures
        r == is_safe_proxy_path(value@),
{
    let mut i: usize = 0;
    while i < value.len()
        invariant
            i <= value@.len(),
            forall|j: int| 0 <= j < i ==> is_path_char(#[trigger] value@[j]),
        decreases value@.len() - i,
    {
        let c = value[i];
        if !(alphanumeric(c) || c == '/' || c == '-' || c == '_' || c == '.' || c == '~') {
            return false;
        }
        i = i + 1;
    }
    true
}

/// `:PORT` with a port between 1 and 65535.
pub open spec fn is_port_suffix(value: Seq<char>) -> bool {
    value.len() > 0 && value[0] == ':' && (parse_unsigned(value.skip(1), 65535) matches Some(
        port,
    ) && port != 0)
}

pub fn valid_port_suffix(value: &[char]) -> (r: bool)
    ensures
        r == is_port_suffix(value@),
{
    if value.len() == 0 || value[0] != ':' {
        return false;
    }
    let n = value.len();
    let rest = &value[1..n];
    assert(rest@ =~= value@.skip(1));
    match parse_unsigned_chars(rest, 65535) {
        Some(port) => port != 0,
        None => false,
    }
}

pub open spec fn count_char(text: Seq<char>, c: char) -> nat
    decreases text.len(),
{
    if text.len() == 0 {
        0
    } else {
        count_char(text.drop_last(), c) + if text.last() == c {
            1nat
        } else {
            0nat
        }
    }
}

pub open spec fn ascii_lower(c: char) -> char {
    if 'A' <= c && c <= 'Z' {
        ((c as u32) + 32) as char
    } else {
        c
    }
}

pub open spec fn is_host_char(c: char) -> bool {
    is_ascii_alphanumeric(c) || c == '-' || c == '.'
}

pub open spec fn is_digit(c: char) -> bool {
    '0' <= c && c <= '9'
}

/// A host name: non-empty, of `[A-Za-z0-9.-]`, not starting or ending with
/// `-` or `.`.
pub open spec fn is_host_name(host: Seq<char>) -> bool {
    host.len() > 0 && host[0] != '-' && host[0] != '.' && host.last() != '-' && host.last() != '.'
        && all_chars(host, |c: char| is_host_char(c))
}

pub open spec fn is_loopback_name(host: Seq<char>) -> bool {
    host.map_values(|c: char| ascii_lower(c)) == "localhost"@ || host == "127.0.0.1"@
}

/// The server name of an upstream authority and whether it is loopback, or
/// why the authority is refused.
pub open spec fn authority_check(authority: Seq<char>, context: Seq<char>) -> Result<(Seq<char>, bool), Seq<char>> {
    if authority.len() > 0 && authority[0] == '[' {
        match find_from(authority, seq![']'], 0) {
            None => Err(context + " :upstream has an invalid IPv6 authority"@),
            Some(close) => {
                let host = authority.subrange(1, close);
                let suffix = authority.skip(close + 1);
                if host != "::1"@ || (suffix.len() > 0 && !is_port_suffix(suffix)) {
                    Err(context + " :upstream has an unsupported IPv6 authority"@)
                } else {
                    Ok((host, true))
                }
            },
        }
    } else if count_char(authority, ':') > 1 {
        Err(context + " :upstream authority is invalid"@)
    } else {
        let (host, port) = match find_from(authority, seq![':'], 0) {
            Some(i) => (authority.take(i), Some(authority.skip(i + 1))),
            None => (authority, None),
        };
        if !is_host_name(host) || (port matches Some(p) && (p.len() == 0 || !all_chars(
            p,
            |c: char| is_digit(c),
        ))) {
            Err(context + " :upstream authority is invalid"@)
        } else if port matches Some(p) && !(parse_unsigned(p, 65535) matches Some(v) && v != 0) {
            Err(context + " :upstream port must be between 1 and 65535"@)
        } else {
            Ok((host, is_loopback_name(host)))
        }
    }
}

fn message_with(context: &str, suffix: &str) -> (message: String)
    ensures
        message@ == context@ + suffix@,
{
    let mut message = owned(context);
    push_str(&mut message, suffix);
    message
}

fn colon_count(text: &[char]) -> (n: usize)
    ensures
        n == count_char(text@, ':'),
{
    let mut n: usize = 0;
    let mut i: usize = 0;
    while i < text.len()
        invariant
            i <= text@.len(),
            n == count_char(text@.take(i as int), ':'),
            n <= i,
        decreases text@.len() - i,
    {
        assert(text@.take(i + 1).drop_last() =~= text@.take(i as int));
        if text[i] == ':' {
            n = n + 1;
        }
        i = i + 1;
    }
    assert(text@.take(i as int) =~= text@);
    n
}

fn all_digits(text: &[char]) -> (r: bool)
    ensures
        r == all_chars(text@, |c: char| is_digit(c)),
{
    let mut i: usize = 0;
    while i < text.len()
        invariant
            i <= text@.len(),
            forall|j: int| 0 <= j < i ==> is_digit(#[trigger] text@[j]),
        decreases text@.len() - i,
    {
        if !('0' <= text[i] && text[i] <= '9') {
            return false;
        }
        i = i + 1;
    }
    true
}

fn host_name(host: &[char]) -> (r: bool)
    ensures
        r == is_host_name(host@),
{
    let n = host.len();
    if n == 0 || host[0] == '-' || host[0] == '.' || host[n - 1] == '-' || host[n - 1] == '.' {
        return false;
    }
    let mut i: usize = 0;
    while i < n
        invariant
            n == host@.len(),
            i <= n,
            forall|j: int| 0 <= j < i ==> is_host_char(#[trigger] host@[j]),
        decreases n - i,
    {
        let c = host[i];
        if !(alphanumeric(c) || c == '-' || c == '.') {
            return false;
        }
        i = i + 1;
    }
    true
}

fn loopback_name(host: &[char]) -> (r: bool)
    ensures
        r == is_loopback_name(host@),
{
    let localhost: [char; 9] = ['l', 'o', 'c', 'a', 'l', 'h', 'o', 's', 't'];
    let numeric: [char; 9] = ['1', '2', '7', '.', '0', '.', '0', '.', '1'];
    proof {
        reveal_strlit("localhost");
        reveal_strlit("127.0.0.1");
        assert(localhost@ =~= "localhost"@);
        assert(numeric@ =~= "127.0.0.1"@);
    }
    let mut lower: Vec<char> = Vec::new();
    let mut i: usize = 0;
    while i < host.len()
        invariant
            i <= host@.len(),
            lower@ == host@.take(i as int).map_values(|c: char| ascii_lower(c)),
        decreases host@.len() - i,
    {
        let c = host[i];
        let l = if 'A' <= c && c <= 'Z' {
            ((c as u8) + 32) as char
        } else {
            c
        };
        lower.push(l);
        assert(lower@ =~= host@.take(i + 1).map_values(|c: char| ascii_lower(c)));
        i = i + 1;
    }
    assert(host@.take(i as int) =~= host@);
    same_chars(lower.as_slice(), localhost.as_slice()) || same_chars(host, numeric.as_slice())
}

pub open spec fn authority_result(r: Result<(String, bool), String>) -> Result<(Seq<char>, bool), Seq<char>> {
    match r {
        Ok((host, loopback)) => Ok((host@, loopback)),
        Err(message) => Err(message@),
    }
}

/// Checks an upstream's authority: `[::1]` with an optional port, or a
/// host name with an optional port; reports its server name and whether
/// it is loopback.
pub fn parse_proxy_authority(authority: &str, context: &str) -> (r: Result<(String, bool), String>)
    ensures
        authority_result(r) == authority_check(authority@, context@),
{
    let chars = chars_of(authority);
    let n = chars.len();
    if n > 0 && chars[0] == '[' {
        let close_bracket: [char; 1] = [']'];
        assert(close_bracket@ =~= seq![']']);
        let close = match find_chars(chars.as_slice(), close_bracket.as_slice(), 0) {
            Some(close) => close,
            None => return Err(message_with(context, " :upstream has an invalid IPv6 authority")),
        };
        proof {
            lemma_find_from_bounds(chars@, seq![']'], 0);
            if close == 0 {
                assert(chars@.subrange(0, 1)[0] == ']');
            }
        }
        let host = &chars.as_slice()[1..close];
        let suffix = &chars.as_slice()[close + 1..n];
        assert(host@ =~= chars@.subrange(1, close as int));
        assert(suffix@ =~= chars@.skip(close + 1));
        let loopback6: [char; 3] = [':', ':', '1'];
        proof {
            reveal_strlit("::1");
            assert(loopback6@ =~= "::1"@);
        }
        if !same_chars(host, loopback6.as_slice()) || (suffix.len() > 0 && !valid_port_suffix(
            suffix,
        )) {
            return Err(message_with(context, " :upstream has an unsupported IPv6 authority"));
        }
        return Ok((string_of(host), true));
    }
    if colon_count(chars.as_slice()) > 1 {
        return Err(message_with(context, " :upstream authority is invalid"));
    }
    let colon: [char; 1] = [':'];
    assert(colon@ =~= seq![':']);
    let (host_end, port_start) = match find_chars(chars.as_slice(), colon.as_slice(), 0) {
        Some(i) => {
            proof {
                lemma_find_from_bounds(chars@, seq![':'], 0);
            }
            (i, Some(i + 1))
        },
        None => (n, None),
    };
    let host = &chars.as_slice()[0..host_end];
    assert(host@ =~= (match find_from(chars@, seq![':'], 0) {
        Some(i) => chars@.take(i),
        None => chars@,
    }));
    let port_ok = match port_start {
        Some(start) => {
            let port = &chars.as_slice()[start..n];
            assert(port@ =~= chars@.skip(start as int));
            port.len() > 0 && all_digits(port)
        },
        None => true,
    };
    if !host_name(host) || !port_ok {
        return Err(message_with(context, " :upstream authority is invalid"));
    }
    match port_start {
        Some(start) => {
            let port = &chars.as_slice()[start..n];
            assert(port@ =~= chars@.skip(start as int));
            match parse_unsigned_chars(port, 65535) {
                Some(value) => {
                    if value == 0 {
                        return Err(message_with(context, " :upstream port must be between 1 and 65535"));
                    }
                },
                None => return Err(message_with(context, " :upstream port must be between 1 and 65535")),
            }
        },
        None => {},
    }
    Ok((string_of(host), loopback_name(host)))
}

pub open spec fn upstream_check(upstream: Seq<char>, context: Seq<char>) -> Result<(Seq<char>, Seq<char>, bool), Seq<char>> {
    if !"https://"@.is_prefix_of(upstream) && !"http://"@.is_prefix_of(upstream) {
        Err(context + " :upstream must use http:// or https://"@)
    } else {
        let secure = "https://"@.is_prefix_of(upstream);
        let remainder = if secure {
            upstream.skip(8)
        } else {
            upstream.skip(7)
        };
        let end = match find_from(remainder, seq!['/'], 0) {
            Some(i) => i,
            None => remainder.len() as int,
        };
        let authority = remainder.take(end);
        let path = remainder.skip(end);
        if authority.len() == 0 || chars_in(authority, seq!['@', '$', '{', '}', '\\']) || chars_in(
            path,
            seq!['$', '{', '}', '\\'],
        ) || has_dot_segment(path) || !is_safe_proxy_path(path) {
            Err(context + " :upstream must be a fixed origin and path"@)
        } else {
            match authority_check(authority, context) {
                Err(message) => Err(message),
                Ok((server_name, loopback)) => if !secure && !loopback {
                    Err(context + " remote upstreams must use https://"@)
                } else {
                    Ok((authority, server_name, secure))
                },
            }
        }
    }
}

pub open spec fn upstream_result(r: Result<(String, String, bool), String>) -> Result<(Seq<char>, Seq<char>, bool), Seq<char>> {
    match r {
        Ok((authority, server_name, secure)) => Ok((authority@, server_name@, secure)),
        Err(message) => Err(message@),
    }
}

fn has_prefix(text: &[char], prefix: &str) -> (r: bool)
    ensures
        r == prefix@.is_prefix_of(text@),
{
    let p = chars_of(prefix);
    if p.len() > text.len() {
        return false;
    }
    let m = p.len();
    let r = same_chars(&text[0..m], p.as_slice());
    assert(text@.subrange(0, m as int) =~= text@.take(m as int));
    proof {
        if prefix@.is_prefix_of(text@) {
            assert(text@.take(m as int) =~= p@);
        }
    }
    r
}

/// Checks a fixed upstream URL: `http://` (loopback only) or `https://`,
/// a fixed authority, and a fixed, safe path; reports the authority, the
/// TLS server name and whether the upstream is secure.
pub fn parse_proxy_upstream(upstream: &str, context: &str) -> (r: Result<(String, String, bool), String>)
    ensures
        upstream_result(r) == upstream_check(upstream@, context@),
{
    let chars = chars_of(upstream);
    let n = chars.len();
    let secure = has_prefix(chars.as_slice(), "https://");
    let plain = has_prefix(chars.as_slice(), "http://");
    if !secure && !plain {
        return Err(message_with(context, " :upstream must use http:// or https://"));
    }
    proof {
        reveal_strlit("https://");
        reveal_strlit("http://");
    }
    let start: usize = if secure {
        8
    } else {
        7
    };
    let remainder = &chars.as_slice()[start..n];
    assert(remainder@ =~= chars@.skip(start as int));
    let slash: [char; 1] = ['/'];
    assert(slash@ =~= seq!['/']);
    let end = match find_chars(remainder, slash.as_slice(), 0) {
        Some(i) => {
            proof {
                lemma_find_from_bounds(remainder@, seq!['/'], 0);
            }
            i
        },
        None => remainder.len(),
    };
    let m = remainder.len();
    let authority = &remainder[0..end];
    let path = &remainder[end..m];
    assert(authority@ =~= remainder@.take(end as int));
    assert(path@ =~= remainder@.skip(end as int));
    let authority_forbidden: [char; 5] = ['@', '$', '{', '}', '\\'];
    let path_forbidden: [char; 4] = ['$', '{', '}', '\\'];
    assert(authority_forbidden@ =~= seq!['@', '$', '{', '}', '\\']);
    assert(path_forbidden@ =~= seq!['$', '{', '}', '\\']);
    if authority.len() == 0 || contains_any(authority, authority_forbidden.as_slice())
        || contains_any(path, path_forbidden.as_slice()) || dot_segment(path) || !safe_proxy_path(
        path,
    ) {
        return Err(message_with(context, " :upstream must be a fixed origin and path"));
    }
    let authority_text = string_of(authority);
    let (server_name, loopback) = match parse_proxy_authority(authority_text.as_str(), context) {
        Ok(found) => found,
        Err(message) => return Err(message),
    };
    if !secure && !loopback {
        return Err(message_with(context, " remote upstreams must use https://"));
    }
    Ok((authority_text, server_name, secure))
}

} // verus!

verus! {

pub open spec fn is_proxy_prefix(path: Seq<char>) -> bool {
    &&& path.len() > 0 && path[0] == '/'
    &&& path.last() == '/'
    &&& path != "/"@
    &&& !chars_in(path, seq!['$', '{', '}', '\\'])
    &&& !has_dot_segment(path)
    &&& is_safe_proxy_path(path)
}

/// The proxy a `{:path .. :upstream ..}` map declares, or why it is
/// refused.
pub open spec fn proxy_check(value: HalValue, context: Seq<char>) -> Result<ProxyModel, Seq<char>> {
    match fields_check(value, seq!["path"@, "upstream"@], context) {
        Err(message) => Err(message),
        Ok(()) => match required_text(value, "path"@, context) {
            Err(message) => Err(message),
            Ok(path) => match required_text(value, "upstream"@, context) {
                Err(message) => Err(message),
                Ok(upstream) => if !is_proxy_prefix(path) {
                    Err(context + " :path must be a fixed absolute prefix ending in /"@)
                } else {
                    match upstream_check(upstream, context) {
                        Err(message) => Err(message),
                        Ok((authority, server_name, secure)) => Ok(
                            ProxyModel { path, upstream, authority, server_name, secure },
                        ),
                    }
                },
            },
        },
    }
}

pub open spec fn proxy_result(r: Result<Proxy, String>) -> Result<ProxyModel, Seq<char>> {
    match r {
        Ok(proxy) => Ok(proxy@),
        Err(message) => Err(message@),
    }
}

pub fn parse_proxy(value: &HalValue, context: &str) -> (r: Result<Proxy, String>)
    ensures
        proxy_result(r) == proxy_check(*value, context@),
{
    let allowed: [&str; 2] = ["path", "upstream"];
    assert(allowed@.map_values(|a: &str| a@) =~= seq!["path"@, "upstream"@]);
    match reject_fields(value, allowed.as_slice(), context) {
        Ok(()) => {},
        Err(message) => return Err(message),
    }
    let path = match required_text_field(value, "path", context) {
        Ok(path) => path,
        Err(message) => return Err(message),
    };
    let upstream = match required_text_field(value, "upstream", context) {
        Ok(upstream) => upstream,
        Err(message) => return Err(message),
    };
    let chars = chars_of(path.as_str());
    let n = chars.len();
    let forbidden: [char; 4] = ['$', '{', '}', '\\'];
    assert(forbidden@ =~= seq!['$', '{', '}', '\\']);
    let root: [char; 1] = ['/'];
    proof {
        reveal_strlit("/");
        assert(root@ =~= "/"@);
    }
    if n == 0 || chars[0] != '/' || chars[n - 1] != '/' || same_chars(chars.as_slice(), root.as_slice())
        || contains_any(chars.as_slice(), forbidden.as_slice()) || dot_segment(chars.as_slice())
        || !safe_proxy_path(chars.as_slice()) {
        return Err(message_with(context, " :path must be a fixed absolute prefix ending in /"));
    }
    let (authority, server_name, secure) = match parse_proxy_upstream(upstream.as_str(), context) {
        Ok(parts) => parts,
        Err(message) => return Err(message),
    };
    Ok(Proxy { path, upstream, authority, server_name, secure })
}

pub open spec fn proxy_models(proxies: Seq<Proxy>) -> Seq<ProxyModel> {
    proxies.map_values(|p: Proxy| p@)
}

/// Whether proxy `j`'s and proxy `index`'s paths overlap (one is a
/// prefix of the other).
pub open spec fn pair_overlaps(proxies: Seq<ProxyModel>, j: int, index: int) -> bool {
    proxies[j].path.is_prefix_of(proxies[index].path) || proxies[index].path.is_prefix_of(
        proxies[j].path,
    )
}

/// The first proxy below `bound` that overlaps proxy `index`.
pub open spec fn earliest_overlap(proxies: Seq<ProxyModel>, index: int, bound: int) -> Option<int>
    decreases bound,
{
    if bound <= 0 {
        None
    } else {
        match earliest_overlap(proxies, index, bound - 1) {
            Some(j) => Some(j),
            None => if pair_overlaps(proxies, bound - 1, index) {
                Some(bound - 1)
            } else {
                None
            },
        }
    }
}

/// The first overlapping pair among the first `count` proxies, found as
/// each proxy is compared with those declared before it.
pub open spec fn first_overlap(proxies: Seq<ProxyModel>, count: int) -> Option<(int, int)>
    decreases count,
{
    if count <= 0 {
        None
    } else {
        match first_overlap(proxies, count - 1) {
            Some(pair) => Some(pair),
            None => match earliest_overlap(proxies, count - 1, count - 1) {
                Some(j) => Some((j, count - 1)),
                None => None,
            },
        }
    }
}

proof fn lemma_earliest_overlap_stays(proxies: Seq<ProxyModel>, index: int, bound: int, later: int)
    requires
        0 <= bound <= later,
        earliest_overlap(proxies, index, bound) is Some,
    ensures
        earliest_overlap(proxies, index, later) == earliest_overlap(proxies, index, bound),
    decreases later - bound,
{
    if bound < later {
        lemma_earliest_overlap_stays(proxies, index, bound, later - 1);
    }
}

proof fn lemma_first_overlap_stays(proxies: Seq<ProxyModel>, count: int, later: int)
    requires
        0 <= count <= later,
        first_overlap(proxies, count) is Some,
    ensures
        first_overlap(proxies, later) == first_overlap(proxies, count),
    decreases later - count,
{
    if count < later {
        lemma_first_overlap_stays(proxies, count, later - 1);
    }
}

/// No two proxies of an app may have overlapping path prefixes.
pub open spec fn proxies_check(proxies: Seq<ProxyModel>, app_name: Seq<char>) -> Result<(), Seq<char>> {
    match first_overlap(proxies, proxies.len() as int) {
        None => Ok(()),
        Some((j, i)) => Err("Hoplite app "@ + debug_text(app_name) + " has overlapping proxy paths "@
            + debug_text(proxies[j].path) + " and "@ + debug_text(proxies[i].path)),
    }
}

fn path_prefix(a: &String, b: &String) -> (r: bool)
    ensures
        r == a@.is_prefix_of(b@),
{
    let x = chars_of(a.as_str());
    let y = chars_of(b.as_str());
    if x.len() > y.len() {
        return false;
    }
    let m = x.len();
    let r = same_chars(x.as_slice(), &y.as_slice()[0..m]);
    assert(y@.subrange(0, m as int) =~= y@.take(m as int));
    r
}

pub fn validate_proxies(proxies: &Vec<Proxy>, app_name: &str) -> (r: Result<(), String>)
    ensures
        unit_result(r) == proxies_check(proxy_models(proxies@), app_name@),
{
    let ghost models = proxy_models(proxies@);
    let mut index: usize = 0;
    while index < proxies.len()
        invariant
            index <= proxies@.len(),
            models == proxy_models(proxies@),
            first_overlap(models, index as int) is None,
        decreases proxies@.len() - index,
    {
        let mut other: usize = 0;
        while other < index
            invariant
                other <= index < proxies@.len(),
                models == proxy_models(proxies@),
                first_overlap(models, index as int) is None,
                earliest_overlap(models, index as int, other as int) is None,
            decreases index - other,
        {
            assert(models[other as int] == proxies@[other as int]@);
            assert(models[index as int] == proxies@[index as int]@);
            if path_prefix(&proxies[other].path, &proxies[index].path) || path_prefix(
                &proxies[index].path,
                &proxies[other].path,
            ) {
                proof {
                    assert(earliest_overlap(models, index as int, other + 1) == Some(other as int));
                    lemma_earliest_overlap_stays(models, index as int, other + 1, index as int);
                    assert(first_overlap(models, index + 1) == Some((other as int, index as int)));
                    lemma_first_overlap_stays(models, index + 1, models.len() as int);
                }
                let mut message = owned("Hoplite app ");
                push_str(&mut message, debug_quoted(app_name).as_str());
                push_str(&mut message, " has overlapping proxy paths ");
                push_str(&mut message, debug_quoted(proxies[other].path.as_str()).as_str());
                push_str(&mut message, " and ");
                push_str(&mut message, debug_quoted(proxies[index].path.as_str()).as_str());
                return Err(message);
            }
            other = other + 1;
        }
        assert(first_overlap(models, index + 1) is None);
        index = index + 1;
    }
    Ok(())
}

} // verus!

verus! {

/// A positive count that fits a `usize`.
pub open spec fn positive(n: i64) -> Result<usize, Seq<char>> {
    if 0 < n <= usize::MAX {
        Ok(n as usize)
    } else {
        Err("value must be positive"@)
    }
}

/// An optional positive count, with its default when absent.
pub open spec fn count_or(value: Option<i64>, default: usize) -> Result<usize, Seq<char>> {
    match value {
        Some(n) => positive(n),
        None => Ok(default),
    }
}

fn count_field(value: &HalValue, name: &str, default: usize) -> (r: Result<usize, String>)
    ensures
        match r {
            Ok(n) => count_or(number_field(*value, name@), default) == Ok::<usize, Seq<char>>(n),
            Err(message) => count_or(number_field(*value, name@), default) == Err::<usize, Seq<char>>(message@),
        },
{
    match number_field_of(value, name) {
        Some(n) => valid_positive_usize(n),
        None => Ok(default),
    }
}

/// The request-body limits of an app: 1 MiB and 64 KiB chunks unless set,
/// with chunks no larger than the body.
pub open spec fn request_body_check(value: Option<HalValue>, context: Seq<char>) -> Result<
    Option<RequestBodyPolicy>,
    Seq<char>,
> {
    match value {
        None => Ok(None),
        Some(v) => match fields_check(v, seq!["max-bytes"@, "max-chunk-bytes"@], context) {
            Err(message) => Err(message),
            Ok(()) => match count_or(number_field(v, "max-bytes"@), 1048576) {
                Err(message) => Err(message),
                Ok(max_bytes) => match count_or(number_field(v, "max-chunk-bytes"@), 65536) {
                    Err(message) => Err(message),
                    Ok(max_chunk_bytes) => if max_chunk_bytes > max_bytes {
                        Err(context + " request max-chunk-bytes exceeds max-bytes"@)
                    } else {
                        Ok(Some(RequestBodyPolicy { max_bytes, max_chunk_bytes }))
                    },
                },
            },
        },
    }
}

pub open spec fn body_result(r: Result<Option<RequestBodyPolicy>, String>) -> Result<
    Option<RequestBodyPolicy>,
    Seq<char>,
> {
    match r {
        Ok(policy) => Ok(policy),
        Err(message) => Err(message@),
    }
}

pub open spec fn optional_value(value: Option<&HalValue>) -> Option<HalValue> {
    match value {
        Some(v) => Some(*v),
        None => None,
    }
}

pub fn parse_request_body(value: Option<&HalValue>, context: &str) -> (r: Result<
    Option<RequestBodyPolicy>,
    String,
>)
    ensures
        body_result(r) == request_body_check(optional_value(value), context@),
{
    let v = match value {
        None => return Ok(None),
        Some(v) => v,
    };
    let allowed: [&str; 2] = ["max-bytes", "max-chunk-bytes"];
    assert(allowed@.map_values(|a: &str| a@) =~= seq!["max-bytes"@, "max-chunk-bytes"@]);
    match reject_fields(v, allowed.as_slice(), context) {
        Ok(()) => {},
        Err(message) => return Err(message),
    }
    let max_bytes = match count_field(v, "max-bytes", 1048576) {
        Ok(n) => n,
        Err(message) => return Err(message),
    };
    let max_chunk_bytes = match count_field(v, "max-chunk-bytes", 65536) {
        Ok(n) => n,
        Err(message) => return Err(message),
    };
    if max_chunk_bytes > max_bytes {
        return Err(message_with(context, " request max-chunk-bytes exceeds max-bytes"));
    }
    Ok(Some(RequestBodyPolicy { max_bytes, max_chunk_bytes }))
}

pub struct ChannelModel {
    pub name: Seq<char>,
    pub path_prefix: Seq<char>,
    pub authorize: Seq<char>,
    pub admission: Seq<char>,
    pub message_buffer: usize,
    pub message_timeout_seconds: usize,
    pub max_channel_id_bytes: usize,
    pub max_subscribers: usize,
    pub transports: Seq<Seq<char>>,
}

pub open spec fn texts(values: Seq<String>) -> Seq<Seq<char>> {
    values.map_values(|v: String| v@)
}

impl View for Channel {
    type V = ChannelModel;

    open spec fn view(&self) -> ChannelModel {
        ChannelModel {
            name: self.name@,
            path_prefix: self.path_prefix@,
            authorize: self.authorize@,
            admission: self.admission@,
            message_buffer: self.message_buffer,
            message_timeout_seconds: self.message_timeout_seconds,
            max_channel_id_bytes: self.max_channel_id_bytes,
            max_subscribers: self.max_subscribers,
            transports: texts(self.transports@),
        }
    }
}

/// The texts of the values, or the first that is not text.
pub open spec fn texts_of(values: Seq<HalValue>, context: Seq<char>, count: int) -> Result<Seq<Seq<char>>, Seq<char>>
    decreases count,
{
    if count <= 0 {
        Ok(Seq::empty())
    } else {
        match texts_of(values, context, count - 1) {
            Err(message) => Err(message),
            Ok(done) => match text_value(values[count - 1]) {
                Some(t) => Ok(done.push(t)),
                None => Err(context + " must be text"@),
            },
        }
    }
}

proof fn lemma_texts_error_stays(values: Seq<HalValue>, context: Seq<char>, count: int, later: int)
    requires
        0 <= count <= later,
        texts_of(values, context, count) is Err,
    ensures
        texts_of(values, context, later) == texts_of(values, context, count),
    decreases later - count,
{
    if count < later {
        lemma_texts_error_stays(values, context, count, later - 1);
    }
}

fn texts_from(values: &Vec<HalValue>, context: &str) -> (r: Result<Vec<String>, String>)
    ensures
        match r {
            Ok(list) => texts_of(values@, context@, values@.len() as int) == Ok::<Seq<Seq<char>>, Seq<char>>(texts(list@)),
            Err(message) => texts_of(values@, context@, values@.len() as int) == Err::<Seq<Seq<char>>, Seq<char>>(message@),
        },
{
    let mut list: Vec<String> = Vec::new();
    assert(texts(list@) =~= Seq::<Seq<char>>::empty());
    let mut i: usize = 0;
    while i < values.len()
        invariant
            i <= values@.len(),
            texts_of(values@, context@, i as int) == Ok::<Seq<Seq<char>>, Seq<char>>(texts(list@)),
        decreases values@.len() - i,
    {
        match text(&values[i], context) {
            Ok(t) => {
                let ghost before = list@;
                let ghost added = t@;
                list.push(t);
                assert(texts(list@) =~= texts(before).push(added));
            },
            Err(message) => {
                proof {
                    lemma_texts_error_stays(values@, context@, i + 1, values@.len() as int);
                }
                return Err(message);
            },
        }
        i = i + 1;
    }
    Ok(list)
}

/// The path's prefix before a trailing `/:channel`, when it is absolute.
pub open spec fn channel_prefix(path: Seq<char>) -> Option<Seq<char>> {
    if "/:channel"@.len() <= path.len() && path.skip(path.len() - 9) == "/:channel"@ {
        let prefix = path.take(path.len() - 9);
        if prefix.len() > 0 && prefix[0] == '/' {
            Some(prefix)
        } else {
            None
        }
    } else {
        None
    }
}

pub open spec fn has_double_dot(text: Seq<char>) -> bool {
    exists|i: int| 0 <= i < text.len() - 1 && text[i] == '.' && #[trigger] text[i + 1] == '.'
}

pub open spec fn is_transport(t: Seq<char>) -> bool {
    t == "websocket"@ || t == "eventsource"@
}

pub open spec fn required_callable(value: HalValue, key: Seq<char>, context: Seq<char>) -> Result<Seq<char>, Seq<char>> {
    match field_value(value, key) {
        None => Err(context + " requires :"@ + key),
        Some(v) => match callable(v) {
            Some(name) => Ok(name),
            None => Err("handler must be a Var or qualified symbol"@),
        },
    }
}

pub open spec fn token_check(value: Seq<char>, label: Seq<char>) -> Result<(), Seq<char>> {
    if is_token(value) {
        Ok(())
    } else {
        Err(label + " is invalid"@)
    }
}

pub open spec fn channel_transports(value: HalValue) -> Result<Seq<Seq<char>>, Seq<char>> {
    match sequence_field(value, "transports"@) {
        Some(items) => texts_of(items, "channel transport"@, items.len() as int),
        None => Ok(seq!["websocket"@, "eventsource"@]),
    }
}

/// The channel a `hoplite.core/channel` declaration describes, or why it is
/// refused.
pub open spec fn channel_check(value: HalValue, context: Seq<char>) -> Result<ChannelModel, Seq<char>> {
    if keyword_field(value, "hoplite/type"@) != Some("channel"@) {
        Err(context + " must be built with hoplite.core/channel"@)
    } else if let Err(message) = fields_check(
        value,
        seq![
            "hoplite/type"@, "name"@, "path"@, "profile"@, "authorize"@, "admit"@,
            "message-buffer"@, "message-timeout-seconds"@, "max-channel-id-bytes"@,
            "max-subscribers"@, "transports"@,
        ],
        context,
    ) {
        Err(message)
    } else if let Err(message) = required_text(value, "name"@, context) {
        Err(message)
    } else if let Err(message) = token_check(required_text(value, "name"@, context)->Ok_0, "channel name"@) {
        Err(message)
    } else if let Err(message) = required_text(value, "path"@, context) {
        Err(message)
    } else if channel_prefix(required_text(value, "path"@, context)->Ok_0) is None {
        Err(context + " :path must end with /:channel"@)
    } else if chars_in(channel_prefix(required_text(value, "path"@, context)->Ok_0)->0, seq!['$', '{', '}', '\\'])
        || has_double_dot(channel_prefix(required_text(value, "path"@, context)->Ok_0)->0) {
        Err(context + " :path contains dynamic or unsafe segments"@)
    } else if keyword_field(value, "profile"@) != Some("ephemeral"@) {
        Err(context + " :profile must be :ephemeral"@)
    } else if let Err(message) = required_callable(value, "authorize"@, context) {
        Err(message)
    } else if let Err(message) = required_callable(value, "admit"@, context) {
        Err(message)
    } else if let Err(message) = count_or(number_field(value, "message-buffer"@), 8) {
        Err(message)
    } else if let Err(message) = count_or(number_field(value, "message-timeout-seconds"@), 30) {
        Err(message)
    } else if let Err(message) = count_or(number_field(value, "max-channel-id-bytes"@), 128) {
        Err(message)
    } else if let Err(message) = count_or(number_field(value, "max-subscribers"@), 4) {
        Err(message)
    } else if let Err(message) = channel_transports(value) {
        Err(message)
    } else if channel_transports(value)->Ok_0.len() == 0 || exists|i: int|
        0 <= i < channel_transports(value)->Ok_0.len() && !is_transport(
            #[trigger] channel_transports(value)->Ok_0[i],
        ) {
        Err(context + " :transports must contain websocket and/or eventsource"@)
    } else {
        Ok(
            ChannelModel {
                name: required_text(value, "name"@, context)->Ok_0,
                path_prefix: channel_prefix(required_text(value, "path"@, context)->Ok_0)->0,
                authorize: required_callable(value, "authorize"@, context)->Ok_0,
                admission: required_callable(value, "admit"@, context)->Ok_0,
                message_buffer: count_or(number_field(value, "message-buffer"@), 8)->Ok_0,
                message_timeout_seconds: count_or(number_field(value, "message-timeout-seconds"@), 30)->Ok_0,
                max_channel_id_bytes: count_or(number_field(value, "max-channel-id-bytes"@), 128)->Ok_0,
                max_subscribers: count_or(number_field(value, "max-subscribers"@), 4)->Ok_0,
                transports: channel_transports(value)->Ok_0,
            },
        )
    }
}

pub open spec fn channel_result(r: Result<Channel, String>) -> Result<ChannelModel, Seq<char>> {
    match r {
        Ok(channel) => Ok(channel@),
        Err(message) => Err(message@),
    }
}

fn required_callable_field(value: &HalValue, key: &str, context: &str) -> (r: Result<String, String>)
    ensures
        text_result(r) == required_callable(*value, key@, context@),
{
    match field(value, key) {
        None => {
            let mut message = owned(context);
            push_str(&mut message, " requires :");
            push_str(&mut message, key);
            Err(message)
        },
        Some(v) => callable_name(v),
    }
}

fn keyword_field_is(value: &HalValue, key: &str, expected: &str) -> (r: bool)
    ensures
        r == (keyword_field(*value, key@) == Some(expected@)),
{
    match keyword_field_of(value, key) {
        Some(k) => same_text(k.as_str(), expected),
        None => false,
    }
}

fn double_dot(text: &[char]) -> (r: bool)
    ensures
        r == has_double_dot(text@),
{
    let n = text.len();
    let mut i: usize = 0;
    while n > 0 && i < n - 1
        invariant
            n == text@.len(),
            forall|j: int| 0 <= j < i && j < n - 1 ==> !(text@[j] == '.' && #[trigger] text@[j + 1] == '.'),
        decreases n - i,
    {
        if text[i] == '.' && text[i + 1] == '.' {
            return true;
        }
        i = i + 1;
    }
    false
}

pub fn parse_channel(value: &HalValue, context: &str) -> (r: Result<Channel, String>)
    ensures
        channel_result(r) == channel_check(*value, context@),
{
    if !keyword_field_is(value, "hoplite/type", "channel") {
        return Err(message_with(context, " must be built with hoplite.core/channel"));
    }
    let allowed: [&str; 11] = [
        "hoplite/type",
        "name",
        "path",
        "profile",
        "authorize",
        "admit",
        "message-buffer",
        "message-timeout-seconds",
        "max-channel-id-bytes",
        "max-subscribers",
        "transports",
    ];
    assert(allowed@.map_values(|a: &str| a@) =~= seq![
        "hoplite/type"@, "name"@, "path"@, "profile"@, "authorize"@, "admit"@,
        "message-buffer"@, "message-timeout-seconds"@, "max-channel-id-bytes"@,
        "max-subscribers"@, "transports"@,
    ]);
    match reject_fields(value, allowed.as_slice(), context) {
        Ok(()) => {},
        Err(message) => return Err(message),
    }
    let name = match required_text_field(value, "name", context) {
        Ok(name) => name,
        Err(message) => return Err(message),
    };
    match valid_token(name.as_str(), "channel name") {
        Ok(()) => {},
        Err(message) => return Err(message),
    }
    let path = match required_text_field(value, "path", context) {
        Ok(path) => path,
        Err(message) => return Err(message),
    };
    let chars = chars_of(path.as_str());
    let n = chars.len();
    let marker: [char; 9] = ['/', ':', 'c', 'h', 'a', 'n', 'n', 'e', 'l'];
    proof {
        reveal_strlit("/:channel");
        assert(marker@ =~= "/:channel"@);
    }
    if n < 9 || !same_chars(&chars.as_slice()[n - 9..n], marker.as_slice()) || n == 9 || chars[0] != '/' {
        proof {
            if n >= 9 {
                assert(chars@.subrange(n - 9, n as int) =~= chars@.skip(n - 9));
            }
        }
        return Err(message_with(context, " :path must end with /:channel"));
    }
    assert(chars@.subrange(n - 9, n as int) =~= chars@.skip(n - 9));
    let prefix = &chars.as_slice()[0..n - 9];
    assert(prefix@ =~= chars@.take(n - 9));
    let forbidden: [char; 4] = ['$', '{', '}', '\\'];
    assert(forbidden@ =~= seq!['$', '{', '}', '\\']);
    if contains_any(prefix, forbidden.as_slice()) || double_dot(prefix) {
        return Err(message_with(context, " :path contains dynamic or unsafe segments"));
    }
    if !keyword_field_is(value, "profile", "ephemeral") {
        return Err(message_with(context, " :profile must be :ephemeral"));
    }
    let authorize = match required_callable_field(value, "authorize", context) {
        Ok(handler) => handler,
        Err(message) => return Err(message),
    };
    let admission = match required_callable_field(value, "admit", context) {
        Ok(handler) => handler,
        Err(message) => return Err(message),
    };
    let message_buffer = match count_field(value, "message-buffer", 8) {
        Ok(n) => n,
        Err(message) => return Err(message),
    };
    let message_timeout_seconds = match count_field(value, "message-timeout-seconds", 30) {
        Ok(n) => n,
        Err(message) => return Err(message),
    };
    let max_channel_id_bytes = match count_field(value, "max-channel-id-bytes", 128) {
        Ok(n) => n,
        Err(message) => return Err(message),
    };
    let max_subscribers = match count_field(value, "max-subscribers", 4) {
        Ok(n) => n,
        Err(message) => return Err(message),
    };
    let transports = match sequence_field_of(value, "transports") {
        Some(items) => match texts_from(items, "channel transport") {
            Ok(list) => list,
            Err(message) => return Err(message),
        },
        None => {
            let list = vec![owned("websocket"), owned("eventsource")];
            assert(texts(list@) =~= seq!["websocket"@, "eventsource"@]);
            list
        },
    };
    let mut i: usize = 0;
    let mut accepted = transports.len() > 0;
    while accepted && i < transports.len()
        invariant
            i <= transports@.len(),
            accepted ==> transports@.len() > 0,
            accepted ==> forall|j: int| 0 <= j < i ==> is_transport(#[trigger] texts(transports@)[j]),
            !accepted ==> (texts(transports@).len() == 0 || exists|j: int|
                0 <= j < texts(transports@).len() && !is_transport(#[trigger] texts(transports@)[j])),
        decreases transports@.len() - i,
    {
        assert(texts(transports@)[i as int] == transports@[i as int]@);
        if !(same_text(transports[i].as_str(), "websocket") || same_text(
            transports[i].as_str(),
            "eventsource",
        )) {
            accepted = false;
        }
        i = i + 1;
    }
    if !accepted {
        return Err(message_with(context, " :transports must contain websocket and/or eventsource"));
    }
    let path_prefix = string_of(prefix);
    Ok(
        Channel {
            name,
            path_prefix,
            authorize,
            admission,
            message_buffer,
            message_timeout_seconds,
            max_channel_id_bytes,
            max_subscribers,
            transports,
        },
    )
}

} // verus!

verus! {

pub struct PeerModel {
    pub name: Seq<char>,
    pub channel: Seq<char>,
    pub handler: Seq<char>,
    pub label: Seq<char>,
    pub max_message_bytes: usize,
    pub idle_timeout_seconds: usize,
}

impl View for Peer {
    type V = PeerModel;

    open spec fn view(&self) -> PeerModel {
        PeerModel {
            name: self.name@,
            channel: self.channel@,
            handler: self.handler@,
            label: self.label@,
            max_message_bytes: self.max_message_bytes,
            idle_timeout_seconds: self.idle_timeout_seconds,
        }
    }
}

pub open spec fn channel_models(channels: Seq<Channel>) -> Seq<ChannelModel> {
    channels.map_values(|c: Channel| c@)
}

pub open spec fn names_channel(channels: Seq<ChannelModel>, name: Seq<char>) -> bool {
    exists|i: int| 0 <= i < channels.len() && (#[trigger] channels[i]).name == name
}

/// The peer a `hoplite.core/peer` declaration describes, checked against
/// the app's channels, or why it is refused.
pub open spec fn peer_check(value: HalValue, channels: Seq<ChannelModel>, context: Seq<char>) -> Result<
    PeerModel,
    Seq<char>,
> {
    if keyword_field(value, "hoplite/type"@) != Some("peer"@) {
        Err(context + " must be built with hoplite.core/peer"@)
    } else if let Err(message) = fields_check(
        value,
        seq![
            "hoplite/type"@, "name"@, "channel"@, "handler"@, "label"@, "max-message-bytes"@,
            "idle-timeout-seconds"@,
        ],
        context,
    ) {
        Err(message)
    } else if let Err(message) = required_text(value, "name"@, context) {
        Err(message)
    } else if let Err(message) = token_check(required_text(value, "name"@, context)->Ok_0, "peer name"@) {
        Err(message)
    } else if let Err(message) = required_text(value, "channel"@, context) {
        Err(message)
    } else if !names_channel(channels, required_text(value, "channel"@, context)->Ok_0) {
        Err(context + " references unknown channel "@ + debug_text(
            required_text(value, "channel"@, context)->Ok_0,
        ))
    } else if let Err(message) = required_callable(value, "handler"@, context) {
        Err(message)
    } else if let Err(message) = required_text(value, "label"@, context) {
        Err(message)
    } else if let Err(message) = token_check(required_text(value, "label"@, context)->Ok_0, "peer label"@) {
        Err(message)
    } else if let Err(message) = count_or(number_field(value, "max-message-bytes"@), 65536) {
        Err(message)
    } else if let Err(message) = count_or(number_field(value, "idle-timeout-seconds"@), 30) {
        Err(message)
    } else {
        Ok(
            PeerModel {
                name: required_text(value, "name"@, context)->Ok_0,
                channel: required_text(value, "channel"@, context)->Ok_0,
                handler: required_callable(value, "handler"@, context)->Ok_0,
                label: required_text(value, "label"@, context)->Ok_0,
                max_message_bytes: count_or(number_field(value, "max-message-bytes"@), 65536)->Ok_0,
                idle_timeout_seconds: count_or(number_field(value, "idle-timeout-seconds"@), 30)->Ok_0,
            },
        )
    }
}

pub open spec fn peer_result(r: Result<Peer, String>) -> Result<PeerModel, Seq<char>> {
    match r {
        Ok(peer) => Ok(peer@),
        Err(message) => Err(message@),
    }
}

pub fn parse_peer(value: &HalValue, channels: &Vec<Channel>, context: &str) -> (r: Result<Peer, String>)
    ensures
        peer_result(r) == peer_check(*value, channel_models(channels@), context@),
{
    if !keyword_field_is(value, "hoplite/type", "peer") {
        return Err(message_with(context, " must be built with hoplite.core/peer"));
    }
    let allowed: [&str; 7] = [
        "hoplite/type",
        "name",
        "channel",
        "handler",
        "label",
        "max-message-bytes",
        "idle-timeout-seconds",
    ];
    assert(allowed@.map_values(|a: &str| a@) =~= seq![
        "hoplite/type"@, "name"@, "channel"@, "handler"@, "label"@, "max-message-bytes"@,
        "idle-timeout-seconds"@,
    ]);
    match reject_fields(value, allowed.as_slice(), context) {
        Ok(()) => {},
        Err(message) => return Err(message),
    }
    let name = match required_text_field(value, "name", context) {
        Ok(name) => name,
        Err(message) => return Err(message),
    };
    match valid_token(name.as_str(), "peer name") {
        Ok(()) => {},
        Err(message) => return Err(message),
    }
    let channel = match required_text_field(value, "channel", context) {
        Ok(channel) => channel,
        Err(message) => return Err(message),
    };
    let ghost models = channel_models(channels@);
    let mut known = false;
    let mut i: usize = 0;
    while i < channels.len()
        invariant
            i <= channels@.len(),
            models == channel_models(channels@),
            known == exists|j: int| 0 <= j < i && (#[trigger] models[j]).name == channel@,
        decreases channels@.len() - i,
    {
        assert(models[i as int] == channels@[i as int]@);
        if same_text(channels[i].name.as_str(), channel.as_str()) {
            known = true;
        }
        i = i + 1;
    }
    if !known {
        let mut message = owned(context);
        push_str(&mut message, " references unknown channel ");
        push_str(&mut message, debug_quoted(channel.as_str()).as_str());
        return Err(message);
    }
    let handler = match required_callable_field(value, "handler", context) {
        Ok(handler) => handler,
        Err(message) => return Err(message),
    };
    let label = match required_text_field(value, "label", context) {
        Ok(label) => label,
        Err(message) => return Err(message),
    };
    match valid_token(label.as_str(), "peer label") {
        Ok(()) => {},
        Err(message) => return Err(message),
    }
    let max_message_bytes = match count_field(value, "max-message-bytes", 65536) {
        Ok(n) => n,
        Err(message) => return Err(message),
    };
    let idle_timeout_seconds = match count_field(value, "idle-timeout-seconds", 30) {
        Ok(n) => n,
        Err(message) => return Err(message),
    };
    Ok(Peer { name, channel, handler, label, max_message_bytes, idle_timeout_seconds })
}

} // verus!

verus! {

pub struct RouteModel {
    pub method: Seq<char>,
    pub path: Seq<char>,
    pub handler: Seq<char>,
    pub name: Option<Seq<char>>,
    pub summary: Option<Seq<char>>,
    pub adapter: RouteAdapter,
}

pub open spec fn optional_chars(value: Option<String>) -> Option<Seq<char>> {
    match value {
        Some(t) => Some(t@),
        None => None,
    }
}

impl View for Route {
    type V = RouteModel;

    open spec fn view(&self) -> RouteModel {
        RouteModel {
            method: self.method@,
            path: self.path@,
            handler: self.handler@,
            name: optional_chars(self.name),
            summary: optional_chars(self.summary),
            adapter: self.adapter,
        }
    }
}

pub open spec fn route_models(routes: Seq<Route>) -> Seq<RouteModel> {
    routes.map_values(|r: Route| r@)
}

/// A nested resource path under its parent's, with one `/` between them.
pub open spec fn joined_path(parent: Seq<char>, path: Seq<char>) -> Seq<char> {
    if parent.len() == 0 {
        path
    } else if path.len() == 0 {
        parent
    } else if parent.last() == '/' && path[0] == '/' {
        parent + path.skip(1)
    } else {
        parent + path
    }
}

pub fn join_path(parent: &str, path: &str) -> (joined: String)
    ensures
        joined@ == joined_path(parent@, path@),
{
    let p = chars_of(parent);
    let c = chars_of(path);
    if p.len() == 0 {
        return owned(path);
    }
    if c.len() == 0 {
        return owned(parent);
    }
    let mut joined = owned(parent);
    if p[p.len() - 1] == '/' && c[0] == '/' {
        let n = c.len();
        let rest = string_of(&c.as_slice()[1..n]);
        assert(rest@ =~= path@.skip(1));
        push_str(&mut joined, rest.as_str());
    } else {
        push_str(&mut joined, path);
    }
    joined
}

/// The operation keys a resource may declare, in the order routes are
/// emitted, with their HTTP method names.
pub open spec fn operation_key(k: int) -> Seq<char> {
    if k == 0 {
        "get"@
    } else if k == 1 {
        "post"@
    } else if k == 2 {
        "put"@
    } else if k == 3 {
        "patch"@
    } else if k == 4 {
        "delete"@
    } else if k == 5 {
        "head"@
    } else {
        "options"@
    }
}

pub open spec fn operation_method(k: int) -> Seq<char> {
    if k == 0 {
        "GET"@
    } else if k == 1 {
        "POST"@
    } else if k == 2 {
        "PUT"@
    } else if k == 3 {
        "PATCH"@
    } else if k == 4 {
        "DELETE"@
    } else if k == 5 {
        "HEAD"@
    } else {
        "OPTIONS"@
    }
}

/// The route of one declared operation, or why it is refused.
pub open spec fn operation_route(
    operation: HalValue,
    k: int,
    full: Seq<char>,
    adapter: RouteAdapter,
) -> Result<RouteModel, Seq<char>> {
    let context = debug_text(operation_key(k)) + " operation at "@ + debug_text(full);
    match field_value(operation, "handler"@) {
        None => Err(context + " requires :handler"@),
        Some(handler) => if field_value(operation, "route/auth"@) is Some {
            Err(context
                + " :route/auth is not a Hoplite transport field; authorize inside the HAL handler"@)
        } else {
            match callable(handler) {
                None => Err("handler must be a Var or qualified symbol"@),
                Some(name) => match adapter_from(
                    Some(
                        match keyword_field(operation, "route/adapter"@) {
                            Some(a) => a,
                            None => adapter_keyword(adapter),
                        },
                    ),
                    context,
                ) {
                    Err(message) => Err(message),
                    Ok(route_adapter) => Ok(
                        RouteModel {
                            method: operation_method(k),
                            path: full,
                            handler: name,
                            name: text_field(operation, "name"@),
                            summary: text_field(operation, "summary"@),
                            adapter: route_adapter,
                        },
                    ),
                },
            }
        },
    }
}

/// The routes of the first `count` operation keys that the data declares.
pub open spec fn operation_routes(
    data: HalValue,
    full: Seq<char>,
    adapter: RouteAdapter,
    count: int,
) -> Result<Seq<RouteModel>, Seq<char>>
    decreases count,
{
    if count <= 0 {
        Ok(Seq::empty())
    } else {
        match operation_routes(data, full, adapter, count - 1) {
            Err(message) => Err(message),
            Ok(routes) => match field_value(data, operation_key(count - 1)) {
                None => Ok(routes),
                Some(operation) => match operation_route(operation, count - 1, full, adapter) {
                    Err(message) => Err(message),
                    Ok(route) => Ok(routes.push(route)),
                },
            },
        }
    }
}

pub open spec fn item_count(value: HalValue) -> nat {
    match sequence_items(value) {
        Some(items) => items.len(),
        None => 0,
    }
}

/// The routes a resource declares, depth first: its own operations, then
/// each nested resource under its path.
pub open spec fn resource_routes(value: HalValue, parent: Seq<char>, adapter: RouteAdapter) -> Result<
    Seq<RouteModel>,
    Seq<char>,
>
    decreases value, 1nat, 0nat,
{
    match sequence_items(value) {
        None => Err("resource must be a vector"@),
        Some(items) => if items.len() == 0 {
            Err("resource requires a path"@)
        } else {
            match text_value(items[0]) {
                None => Err("resource path"@ + " must be text"@),
                Some(path) => if path.len() != 0 && path[0] != '/' {
                    Err("resource path "@ + debug_text(path) + " must start with /"@)
                } else {
                    let full = joined_path(parent, path);
                    let has_data = items.len() > 1 && map_entries(items[1]) is Some;
                    match (if has_data {
                        operation_routes(items[1], full, adapter, 7)
                    } else {
                        Ok(Seq::empty())
                    }) {
                        Err(message) => Err(message),
                        Ok(own) => match child_routes(
                            value,
                            if has_data {
                                2
                            } else {
                                1
                            },
                            full,
                            adapter,
                        ) {
                            Err(message) => Err(message),
                            Ok(nested) => Ok(own + nested),
                        },
                    }
                },
            }
        },
    }
}

/// The routes of the nested resources from item `index` on.
pub open spec fn child_routes(owner: HalValue, index: nat, parent: Seq<char>, adapter: RouteAdapter) -> Result<
    Seq<RouteModel>,
    Seq<char>,
>
    decreases owner, 0nat, item_count(owner) - index,
{
    match sequence_items(owner) {
        None => Ok(Seq::empty()),
        Some(items) => if index >= items.len() {
            Ok(Seq::empty())
        } else {
            proof {
                match owner {
                    HalValue::List(v) => {
                        assert(decreases_to!(owner => v));
                        assert(decreases_to!(v => v@));
                        assert(decreases_to!(v@ => v@[index as int]));
                    },
                    HalValue::Vector(v) => {
                        assert(decreases_to!(owner => v));
                        assert(decreases_to!(v => v@));
                        assert(decreases_to!(v@ => v@[index as int]));
                    },
                    _ => {},
                }
            }
            match resource_routes(items[index as int], parent, adapter) {
                Err(message) => Err(message),
                Ok(first) => match child_routes(owner, index + 1, parent, adapter) {
                    Err(message) => Err(message),
                    Ok(rest) => Ok(first + rest),
                },
            }
        },
    }
}

} // verus!

verus! {

pub open spec fn routes_result(r: Result<(), String>, expected: Result<Seq<RouteModel>, Seq<char>>, before: Seq<RouteModel>, after: Seq<RouteModel>) -> bool {
    match expected {
        Ok(routes) => r is Ok && after == before + routes,
        Err(message) => r matches Err(m) && m@ == message,
    }
}

fn operation_route_of(
    operation: &HalValue,
    k: usize,
    key: &str,
    method: &str,
    full: &String,
    adapter: RouteAdapter,
) -> (r: Result<Route, String>)
    requires
        k < 7,
        key@ == operation_key(k as int),
        method@ == operation_method(k as int),
    ensures
        match operation_route(*operation, k as int, full@, adapter) {
            Ok(route) => r matches Ok(found) && found@ == route,
            Err(message) => r matches Err(m) && m@ == message,
        },
{
    let mut context = debug_quoted(key);
    push_str(&mut context, " operation at ");
    push_str(&mut context, debug_quoted(full.as_str()).as_str());
    let handler = match field(operation, "handler") {
        None => return Err(message_with(context.as_str(), " requires :handler")),
        Some(handler) => handler,
    };
    if field(operation, "route/auth").is_some() {
        return Err(
            message_with(
                context.as_str(),
                " :route/auth is not a Hoplite transport field; authorize inside the HAL handler",
            ),
        );
    }
    let name = match callable_name(handler) {
        Ok(name) => name,
        Err(message) => return Err(message),
    };
    let keyword = match keyword_field_of(operation, "route/adapter") {
        Some(k) => k,
        None => owned(adapter.keyword()),
    };
    let route_adapter = match RouteAdapter::parse(Some(keyword), context.as_str()) {
        Ok(a) => a,
        Err(message) => return Err(message),
    };
    Ok(
        Route {
            method: owned(method),
            path: owned(full.as_str()),
            handler: name,
            name: text_field_of(operation, "name"),
            summary: text_field_of(operation, "summary"),
            adapter: route_adapter,
        },
    )
}

/// Appends the routes a resource declares, depth first, with paths joined
/// under `parent`. On a refusal the routes already appended stay.
pub fn flatten_resource(
    value: &HalValue,
    parent: &str,
    default_adapter: RouteAdapter,
    output: &mut Vec<Route>,
) -> (r: Result<(), String>)
    ensures
        routes_result(
            r,
            resource_routes(*value, parent@, default_adapter),
            route_models(old(output)@),
            route_models(final(output)@),
        ),
        route_models(old(output)@).is_prefix_of(route_models(final(output)@)),
    decreases value,
{
    let ghost start = route_models(output@);
    let items = match sequence(value) {
        None => return Err(owned("resource must be a vector")),
        Some(items) => items,
    };
    if items.len() == 0 {
        return Err(owned("resource requires a path"));
    }
    let path = match text(&items[0], "resource path") {
        Ok(path) => path,
        Err(message) => return Err(message),
    };
    let path_chars = chars_of(path.as_str());
    if path_chars.len() != 0 && path_chars[0] != '/' {
        let mut message = owned("resource path ");
        push_str(&mut message, debug_quoted(path.as_str()).as_str());
        push_str(&mut message, " must start with /");
        return Err(message);
    }
    let full = join_path(parent, path.as_str());
    let has_data = items.len() > 1 && match &items[1] {
        HalValue::Mapping(_) => true,
        _ => false,
    };
    if has_data {
        let keys: [&str; 7] = ["get", "post", "put", "patch", "delete", "head", "options"];
        let methods: [&str; 7] = ["GET", "POST", "PUT", "PATCH", "DELETE", "HEAD", "OPTIONS"];
        let data = &items[1];
        assert(route_models(output@).skip(start.len() as int) =~= Seq::<RouteModel>::empty());
        let mut k: usize = 0;
        while k < 7
            invariant
                k <= 7,
                start == route_models(old(output)@),
                sequence_items(*value) == Some(items@),
                items@.len() > 1 && *data == items@[1] && map_entries(items@[1]) is Some,
                text_value(items@[0]) == Some(path@),
                !(path@.len() != 0 && path@[0] != '/'),
                full@ == joined_path(parent@, path@),
                keys@.len() == 7 && methods@.len() == 7,
                forall|j: int| 0 <= j < 7 ==> (#[trigger] keys@[j])@ == operation_key(j),
                forall|j: int| 0 <= j < 7 ==> (#[trigger] methods@[j])@ == operation_method(j),
                operation_routes(*data, full@, default_adapter, k as int) == Ok::<Seq<RouteModel>, Seq<char>>(
                    route_models(output@).skip(start.len() as int),
                ),
                start.is_prefix_of(route_models(output@)),
            decreases 7 - k,
        {
            match field(data, keys[k]) {
                None => {},
                Some(operation) => {
                    match operation_route_of(operation, k, keys[k], methods[k], &full, default_adapter) {
                        Ok(route) => {
                            let ghost before = route_models(output@);
                            output.push(route);
                            assert(route_models(output@) =~= before.push(route@));
                            assert(route_models(output@).skip(start.len() as int) =~= before.skip(
                                start.len() as int,
                            ).push(route@));
                        },
                        Err(message) => {
                            proof {
                                lemma_operations_error_stays(*data, full@, default_adapter, k + 1, 7);
                            }
                            return Err(message);
                        },
                    }
                },
            }
            k = k + 1;
        }
    }
    let ghost own = route_models(output@).skip(start.len() as int);
    proof {
        if !has_data {
            assert(own =~= Seq::<RouteModel>::empty());
        }
        assert(route_models(output@).skip(start.len() as int).take(own.len() as int) =~= own);
        assert(route_models(output@).skip((start.len() + own.len()) as int) =~= Seq::<RouteModel>::empty());
    }
    let first_child: usize = if has_data {
        2
    } else {
        1
    };
    let mut i: usize = first_child;
    while i < items.len()
        invariant
            first_child <= i <= items@.len(),
            start == route_models(old(output)@),
            sequence_items(*value) == Some(items@),
            items@.len() > 0,
            text_value(items@[0]) == Some(path@),
            !(path@.len() != 0 && path@[0] != '/'),
            full@ == joined_path(parent@, path@),
            has_data == (items@.len() > 1 && map_entries(items@[1]) is Some),
            first_child == (if has_data { 2usize } else { 1usize }),
            has_data ==> operation_routes(items@[1], full@, default_adapter, 7) == Ok::<Seq<RouteModel>, Seq<char>>(own),
            !has_data ==> own == Seq::<RouteModel>::empty(),
            start.is_prefix_of(route_models(output@)),
            own.len() <= route_models(output@).len() - start.len(),
            route_models(output@).skip(start.len() as int).take(own.len() as int) == own,
            match child_routes(*value, i as nat, full@, default_adapter) {
                Ok(rest) => child_routes(*value, first_child as nat, full@, default_adapter) == Ok::<Seq<RouteModel>, Seq<char>>(
                    route_models(output@).skip((start.len() + own.len()) as int) + rest,
                ),
                Err(e) => child_routes(*value, first_child as nat, full@, default_adapter) == Err::<Seq<RouteModel>, Seq<char>>(e),
            },
        decreases items@.len() - i,
    {
        proof {
            let owner = *value;
            match owner {
                HalValue::List(v) => {
                    assert(decreases_to!(owner => v));
                    assert(decreases_to!(v => v@));
                    assert(decreases_to!(v@ => v@[i as int]));
                },
                HalValue::Vector(v) => {
                    assert(decreases_to!(owner => v));
                    assert(decreases_to!(v => v@));
                    assert(decreases_to!(v@ => v@[i as int]));
                },
                _ => {},
            }
        }
        let ghost before = route_models(output@);
        let result = flatten_resource(&items[i], full.as_str(), default_adapter, output);
        match result {
            Ok(()) => {},
            Err(message) => {
                return Err(message);
            },
        }
        proof {
            let added = route_models(output@).skip(before.len() as int);
            assert(route_models(output@) =~= before + added);
            let routes = resource_routes(items@[i as int], full@, default_adapter)->Ok_0;
            assert(route_models(output@) == before + routes);
            assert(added =~= routes);
            assert(resource_routes(items@[i as int], full@, default_adapter) == Ok::<Seq<RouteModel>, Seq<char>>(added));
            let done = before.skip((start.len() + own.len()) as int);
            match child_routes(*value, (i + 1) as nat, full@, default_adapter) {
                Ok(rest) => {
                    assert(child_routes(*value, i as nat, full@, default_adapter) == Ok::<Seq<RouteModel>, Seq<char>>(added + rest));
                    assert(done + (added + rest) =~= (done + added) + rest);
                },
                Err(e) => {
                    assert(child_routes(*value, i as nat, full@, default_adapter) == Err::<Seq<RouteModel>, Seq<char>>(e));
                },
            }
            assert(route_models(output@).skip((start.len() + own.len()) as int) =~= before.skip((start.len() + own.len()) as int) + added);
            assert(route_models(output@).skip(start.len() as int).take(own.len() as int) =~= before.skip(start.len() as int).take(own.len() as int));
        }
        i = i + 1;
    }
    proof {
        let done = route_models(output@).skip((start.len() + own.len()) as int);
        assert(child_routes(*value, i as nat, full@, default_adapter) == Ok::<Seq<RouteModel>, Seq<char>>(Seq::empty()));
        assert(done + Seq::<RouteModel>::empty() =~= done);
        assert(resource_routes(*value, parent@, default_adapter) == Ok::<Seq<RouteModel>, Seq<char>>(own + done));
        assert(route_models(output@).skip(start.len() as int) =~= own + route_models(output@).skip((start.len() + own.len()) as int));
        assert(route_models(output@) =~= start + own + route_models(output@).skip((start.len() + own.len()) as int));
        assert(route_models(output@) =~= start + (own + done));
        assert(start == route_models(old(output)@));
    }
    Ok(())
}

proof fn lemma_operations_error_stays(data: HalValue, full: Seq<char>, adapter: RouteAdapter, count: int, later: int)
    requires
        0 <= count <= later,
        operation_routes(data, full, adapter, count) is Err,
    ensures
        operation_routes(data, full, adapter, later) == operation_routes(data, full, adapter, count),
    decreases later - count,
{
    if count < later {
        lemma_operations_error_stays(data, full, adapter, count, later - 1);
    }
}

} // verus!

verus! {

pub struct AppModel {
    pub id: u64,
    pub name: Seq<char>,
    pub port: u16,
    pub hostnames: Seq<Seq<char>>,
    pub routes: Seq<RouteModel>,
    pub request_body: Option<RequestBodyPolicy>,
    pub proxies: Seq<ProxyModel>,
    pub channels: Seq<ChannelModel>,
    pub peers: Seq<PeerModel>,
    pub openapi_path: Option<Seq<char>>,
}

pub open spec fn peer_models(peers: Seq<Peer>) -> Seq<PeerModel> {
    peers.map_values(|p: Peer| p@)
}

impl View for App {
    type V = AppModel;

    open spec fn view(&self) -> AppModel {
        AppModel {
            id: self.id,
            name: self.name@,
            port: self.port,
            hostnames: texts(self.hostnames@),
            routes: route_models(self.routes@),
            request_body: self.request_body,
            proxies: proxy_models(self.proxies@),
            channels: channel_models(self.channels@),
            peers: peer_models(self.peers@),
            openapi_path: optional_chars(self.openapi_path),
        }
    }
}

/// Each item read in turn with its numbered context, or the first refusal.
pub open spec fn parse_each<T>(
    items: Seq<HalValue>,
    count: int,
    context: Seq<char>,
    parse: spec_fn(HalValue, Seq<char>) -> Result<T, Seq<char>>,
) -> Result<Seq<T>, Seq<char>>
    decreases count,
{
    if count <= 0 {
        Ok(Seq::empty())
    } else {
        match parse_each(items, count - 1, context, parse) {
            Err(message) => Err(message),
            Ok(done) => match parse(items[count - 1], context + decimal_chars((count - 1) as nat)) {
                Err(message) => Err(message),
                Ok(item) => Ok(done.push(item)),
            },
        }
    }
}

proof fn lemma_parse_each_error_stays<T>(
    items: Seq<HalValue>,
    count: int,
    later: int,
    context: Seq<char>,
    parse: spec_fn(HalValue, Seq<char>) -> Result<T, Seq<char>>,
)
    requires
        0 <= count <= later,
        parse_each(items, count, context, parse) is Err,
    ensures
        parse_each(items, later, context, parse) == parse_each(items, count, context, parse),
    decreases later - count,
{
    if count < later {
        lemma_parse_each_error_stays(items, count, later - 1, context, parse);
    }
}

pub open spec fn listed(value: HalValue, key: Seq<char>) -> Seq<HalValue> {
    match sequence_field(value, key) {
        Some(items) => items,
        None => Seq::empty(),
    }
}

pub open spec fn trimmed_slashes(path: Seq<char>) -> Seq<char>
    decreases path.len(),
{
    if path.len() > 0 && path.last() == '/' {
        trimmed_slashes(path.drop_last())
    } else {
        path
    }
}

pub open spec fn channel_overlaps_proxy(channel: ChannelModel, proxy: ProxyModel) -> bool {
    trimmed_slashes(proxy.path).is_prefix_of(channel.path_prefix) || channel.path_prefix.is_prefix_of(
        proxy.path,
    )
}

pub open spec fn channel_duplicated(channels: Seq<ChannelModel>, index: int) -> bool {
    exists|j: int|
        0 <= j < index && ((#[trigger] channels[j]).name == channels[index].name || channels[j].path_prefix
            == channels[index].path_prefix)
}

pub open spec fn channel_conflicts(channels: Seq<ChannelModel>, proxies: Seq<ProxyModel>, index: int) -> bool {
    channel_duplicated(channels, index) || exists|p: int|
        0 <= p < proxies.len() && channel_overlaps_proxy(channels[index], #[trigger] proxies[p])
}

/// The first channel (in order) that repeats an earlier one or overlaps a
/// proxy.
pub open spec fn first_channel_conflict(channels: Seq<ChannelModel>, proxies: Seq<ProxyModel>, count: int) -> Option<int>
    decreases count,
{
    if count <= 0 {
        None
    } else {
        match first_channel_conflict(channels, proxies, count - 1) {
            Some(i) => Some(i),
            None => if channel_conflicts(channels, proxies, count - 1) {
                Some(count - 1)
            } else {
                None
            },
        }
    }
}

pub open spec fn peer_duplicated(peers: Seq<PeerModel>, index: int) -> bool {
    exists|j: int| 0 <= j < index && (#[trigger] peers[j]).name == peers[index].name
}

pub open spec fn first_duplicate_peer(peers: Seq<PeerModel>, count: int) -> Option<int>
    decreases count,
{
    if count <= 0 {
        None
    } else {
        match first_duplicate_peer(peers, count - 1) {
            Some(i) => Some(i),
            None => if peer_duplicated(peers, count - 1) {
                Some(count - 1)
            } else {
                None
            },
        }
    }
}

/// The routes of the resources from item 0 to `count`, in order.
pub open spec fn resources_routes(resources: Seq<HalValue>, adapter: RouteAdapter, count: int) -> Result<Seq<RouteModel>, Seq<char>>
    decreases count,
{
    if count <= 0 {
        Ok(Seq::empty())
    } else {
        match resources_routes(resources, adapter, count - 1) {
            Err(message) => Err(message),
            Ok(done) => match resource_routes(resources[count - 1], Seq::empty(), adapter) {
                Err(message) => Err(message),
                Ok(more) => Ok(done + more),
            },
        }
    }
}

/// The two internal routes Nchan consults for each channel.
pub open spec fn channel_route_list(channels: Seq<ChannelModel>, id: u64) -> Seq<RouteModel>
    decreases channels.len(),
{
    if channels.len() == 0 {
        Seq::empty()
    } else {
        let channel = channels.last();
        channel_route_list(channels.drop_last(), id).push(
            RouteModel {
                method: "GET"@,
                path: channel_path(id, channel.name, "authorize"@),
                handler: channel.authorize,
                name: Some(channel.name + "/authorize"@),
                summary: None,
                adapter: RouteAdapter::Request,
            },
        ).push(
            RouteModel {
                method: "POST"@,
                path: channel_path(id, channel.name, "admit"@),
                handler: channel.admission,
                name: Some(channel.name + "/admit"@),
                summary: None,
                adapter: RouteAdapter::Request,
            },
        )
    }
}

pub open spec fn app_name(value: HalValue, id: u64) -> Seq<char> {
    match text_field(value, "name"@) {
        Some(name) => name,
        None => "app-"@ + decimal_chars(id as nat),
    }
}

pub open spec fn handler_routes(value: HalValue, name: Seq<char>, adapter: RouteAdapter) -> Result<Seq<RouteModel>, Seq<char>> {
    match field_value(value, "handler"@) {
        None => Ok(Seq::empty()),
        Some(handler) => match callable(handler) {
            None => Err("handler must be a Var or qualified symbol"@),
            Some(h) => Ok(
                seq![
                    RouteModel {
                        method: "ANY"@,
                        path: "/*path"@,
                        handler: h,
                        name: Some(name + "/handler"@),
                        summary: None,
                        adapter,
                    },
                ],
            ),
        },
    }
}

pub open spec fn openapi_path_of(value: HalValue, production: bool) -> Option<Seq<char>> {
    match (match field_value(value, "openapi"@) {
        Some(openapi) => text_field(openapi, "path"@),
        None => None,
    }) {
        Some(path) => Some(path),
        None => if production {
            None
        } else {
            Some("/openapi.json"@)
        },
    }
}

/// An app's name, the context its refusals are reported in, its default
/// route adapter and its request-body policy, or the first refusal.
pub open spec fn app_header(value: HalValue, id: u64) -> Result<
    (Seq<char>, Seq<char>, RouteAdapter, Option<RequestBodyPolicy>),
    Seq<char>,
> {
    let name = app_name(value, id);
    let context = "Hoplite app "@ + debug_text(name);
    if keyword_field(value, "hoplite/type"@) != Some("application"@) {
        Err("app instance :app must be a hoplite.core/app"@)
    } else {
        match adapter_from(keyword_field(value, "route/adapter"@), context) {
            Err(message) => Err(message),
            Ok(adapter) => match request_body_check(field_value(value, "request/body"@), context) {
                Err(message) => Err(message),
                Ok(body) => Ok((name, context, adapter, body)),
            },
        }
    }
}

pub open spec fn app_proxies(value: HalValue, context: Seq<char>) -> Result<Seq<ProxyModel>, Seq<char>> {
    parse_each(
        listed(value, "proxies"@),
        listed(value, "proxies"@).len() as int,
        context + " proxy "@,
        |item: HalValue, c: Seq<char>| proxy_check(item, c),
    )
}

pub open spec fn app_channels(value: HalValue, context: Seq<char>) -> Result<Seq<ChannelModel>, Seq<char>> {
    parse_each(
        listed(value, "channels"@),
        listed(value, "channels"@).len() as int,
        context + " channel "@,
        |item: HalValue, c: Seq<char>| channel_check(item, c),
    )
}

pub open spec fn app_peers(value: HalValue, channels: Seq<ChannelModel>, context: Seq<char>) -> Result<Seq<PeerModel>, Seq<char>> {
    parse_each(
        listed(value, "peers"@),
        listed(value, "peers"@).len() as int,
        context + " peer "@,
        |item: HalValue, c: Seq<char>| peer_check(item, channels, c),
    )
}

/// An app's proxies, channels and peers, each read in order and checked
/// against the others, or the first refusal.
pub open spec fn app_components(value: HalValue, name: Seq<char>, context: Seq<char>) -> Result<
    (Seq<ProxyModel>, Seq<ChannelModel>, Seq<PeerModel>),
    Seq<char>,
> {
    match app_proxies(value, context) {
        Err(message) => Err(message),
        Ok(proxies) => match proxies_check(proxies, name) {
            Err(message) => Err(message),
            Ok(()) => match app_channels(value, context) {
                Err(message) => Err(message),
                Ok(channels) => match first_channel_conflict(channels, proxies, channels.len() as int) {
                    Some(i) => if channel_duplicated(channels, i) {
                        Err(context + " has a duplicate channel name or path"@)
                    } else {
                        Err(context + " channel "@ + debug_text(channels[i].name) + " overlaps a proxy path"@)
                    },
                    None => match app_peers(value, channels, context) {
                        Err(message) => Err(message),
                        Ok(peers) => if first_duplicate_peer(peers, peers.len() as int) is Some {
                            Err(context + " has a duplicate peer name"@)
                        } else {
                            Ok((proxies, channels, peers))
                        },
                    },
                },
            },
        },
    }
}

/// The catch-all handler's route, then the resources' routes, then the
/// channels' internal routes.
pub open spec fn app_routes(value: HalValue, name: Seq<char>, adapter: RouteAdapter, channels: Seq<ChannelModel>, id: u64) -> Result<
    Seq<RouteModel>,
    Seq<char>,
> {
    match handler_routes(value, name, adapter) {
        Err(message) => Err(message),
        Ok(handler) => match resources_routes(
            listed(value, "resources"@),
            adapter,
            listed(value, "resources"@).len() as int,
        ) {
            Err(message) => Err(message),
            Ok(resources) => Ok(handler + resources + channel_route_list(channels, id)),
        },
    }
}

/// The app a `hoplite.core/app` value declares, or the first refusal.
pub open spec fn app_check(value: HalValue, id: u64, port: u16, hostnames: Seq<Seq<char>>, production: bool) -> Result<
    AppModel,
    Seq<char>,
> {
    match app_header(value, id) {
        Err(message) => Err(message),
        Ok((name, context, adapter, request_body)) => match app_components(value, name, context) {
            Err(message) => Err(message),
            Ok((proxies, channels, peers)) => match app_routes(value, name, adapter, channels, id) {
                Err(message) => Err(message),
                Ok(routes) => if routes.len() == 0 {
                    Err(context + " has no resource operations"@)
                } else if request_body is Some && exists|i: int|
                    0 <= i < routes.len() && (#[trigger] routes[i]).adapter == RouteAdapter::RequestHta {
                    Err(context + " cannot combine :request/body with :request+hta routes"@)
                } else {
                    Ok(
                        AppModel {
                            id,
                            name,
                            port,
                            hostnames,
                            routes,
                            request_body,
                            proxies,
                            channels,
                            peers,
                            openapi_path: openapi_path_of(value, production),
                        },
                    )
                },
            },
        },
    }
}

} // verus!

verus! {

fn numbered(context: &String, index: usize) -> (c: String)
    ensures
        c@ == context@ + decimal_chars(index as nat),
{
    let mut c = owned(context.as_str());
    push_decimal(&mut c, index as u64);
    c
}

fn parse_proxies(items: &Vec<HalValue>, context: &String) -> (r: Result<Vec<Proxy>, String>)
    ensures
        match r {
            Ok(list) => parse_each(items@, items@.len() as int, context@, |item: HalValue, c: Seq<char>| proxy_check(item, c))
                == Ok::<Seq<ProxyModel>, Seq<char>>(proxy_models(list@)),
            Err(message) => parse_each(items@, items@.len() as int, context@, |item: HalValue, c: Seq<char>| proxy_check(item, c))
                == Err::<Seq<ProxyModel>, Seq<char>>(message@),
        },
{
    let ghost parse = |item: HalValue, c: Seq<char>| proxy_check(item, c);
    let mut list: Vec<Proxy> = Vec::new();
    assert(proxy_models(list@) =~= Seq::<ProxyModel>::empty());
    let mut i: usize = 0;
    while i < items.len()
        invariant
            i <= items@.len(),
            parse == (|item: HalValue, c: Seq<char>| proxy_check(item, c)),
            parse_each(items@, i as int, context@, parse) == Ok::<Seq<ProxyModel>, Seq<char>>(proxy_models(list@)),
        decreases items@.len() - i,
    {
        let c = numbered(context, i);
        match parse_proxy(&items[i], c.as_str()) {
            Ok(proxy) => {
                let ghost before = list@;
                let ghost model = proxy@;
                list.push(proxy);
                assert(proxy_models(list@) =~= proxy_models(before).push(model));
            },
            Err(message) => {
                proof {
                    lemma_parse_each_error_stays(items@, i + 1, items@.len() as int, context@, parse);
                }
                return Err(message);
            },
        }
        i = i + 1;
    }
    Ok(list)
}

fn parse_channels(items: &Vec<HalValue>, context: &String) -> (r: Result<Vec<Channel>, String>)
    ensures
        match r {
            Ok(list) => parse_each(items@, items@.len() as int, context@, |item: HalValue, c: Seq<char>| channel_check(item, c))
                == Ok::<Seq<ChannelModel>, Seq<char>>(channel_models(list@)),
            Err(message) => parse_each(items@, items@.len() as int, context@, |item: HalValue, c: Seq<char>| channel_check(item, c))
                == Err::<Seq<ChannelModel>, Seq<char>>(message@),
        },
{
    let ghost parse = |item: HalValue, c: Seq<char>| channel_check(item, c);
    let mut list: Vec<Channel> = Vec::new();
    assert(channel_models(list@) =~= Seq::<ChannelModel>::empty());
    let mut i: usize = 0;
    while i < items.len()
        invariant
            i <= items@.len(),
            parse == (|item: HalValue, c: Seq<char>| channel_check(item, c)),
            parse_each(items@, i as int, context@, parse) == Ok::<Seq<ChannelModel>, Seq<char>>(channel_models(list@)),
        decreases items@.len() - i,
    {
        let c = numbered(context, i);
        match parse_channel(&items[i], c.as_str()) {
            Ok(channel) => {
                let ghost before = list@;
                let ghost model = channel@;
                list.push(channel);
                assert(channel_models(list@) =~= channel_models(before).push(model));
            },
            Err(message) => {
                proof {
                    lemma_parse_each_error_stays(items@, i + 1, items@.len() as int, context@, parse);
                }
                return Err(message);
            },
        }
        i = i + 1;
    }
    Ok(list)
}

fn parse_peers(items: &Vec<HalValue>, channels: &Vec<Channel>, context: &String) -> (r: Result<Vec<Peer>, String>)
    ensures
        match r {
            Ok(list) => parse_each(items@, items@.len() as int, context@, |item: HalValue, c: Seq<char>| peer_check(item, channel_models(channels@), c))
                == Ok::<Seq<PeerModel>, Seq<char>>(peer_models(list@)),
            Err(message) => parse_each(items@, items@.len() as int, context@, |item: HalValue, c: Seq<char>| peer_check(item, channel_models(channels@), c))
                == Err::<Seq<PeerModel>, Seq<char>>(message@),
        },
{
    let ghost parse = |item: HalValue, c: Seq<char>| peer_check(item, channel_models(channels@), c);
    let mut list: Vec<Peer> = Vec::new();
    assert(peer_models(list@) =~= Seq::<PeerModel>::empty());
    let mut i: usize = 0;
    while i < items.len()
        invariant
            i <= items@.len(),
            parse == (|item: HalValue, c: Seq<char>| peer_check(item, channel_models(channels@), c)),
            parse_each(items@, i as int, context@, parse) == Ok::<Seq<PeerModel>, Seq<char>>(peer_models(list@)),
        decreases items@.len() - i,
    {
        let c = numbered(context, i);
        match parse_peer(&items[i], channels, c.as_str()) {
            Ok(peer) => {
                let ghost before = list@;
                let ghost model = peer@;
                list.push(peer);
                assert(peer_models(list@) =~= peer_models(before).push(model));
            },
            Err(message) => {
                proof {
                    lemma_parse_each_error_stays(items@, i + 1, items@.len() as int, context@, parse);
                }
                return Err(message);
            },
        }
        i = i + 1;
    }
    Ok(list)
}

fn trim_slashes(path: &String) -> (trimmed: Vec<char>)
    ensures
        trimmed@ == trimmed_slashes(path@),
{
    let chars = chars_of(path.as_str());
    let mut n = chars.len();
    assert(chars@.take(n as int) =~= chars@);
    while n > 0 && chars[n - 1] == '/'
        invariant
            n <= chars@.len(),
            chars@ == path@,
            trimmed_slashes(path@) == trimmed_slashes(chars@.take(n as int)),
        decreases n,
    {
        assert(chars@.take(n as int).drop_last() =~= chars@.take(n - 1));
        n = n - 1;
    }
    let trimmed = vstd::slice::slice_to_vec(&chars.as_slice()[0..n]);
    assert(trimmed@ =~= chars@.take(n as int));
    trimmed
}

fn starts_with_chars(text: &[char], prefix: &[char]) -> (r: bool)
    ensures
        r == prefix@.is_prefix_of(text@),
{
    if prefix.len() > text.len() {
        return false;
    }
    let m = prefix.len();
    let r = same_chars(prefix, &text[0..m]);
    assert(text@.subrange(0, m as int) =~= text@.take(m as int));
    r
}

fn check_channels(channels: &Vec<Channel>, proxies: &Vec<Proxy>, context: &String) -> (r: Result<(), String>)
    ensures
        match first_channel_conflict(channel_models(channels@), proxy_models(proxies@), channels@.len() as int) {
            None => r is Ok,
            Some(i) => r matches Err(m) && m@ == (if channel_duplicated(channel_models(channels@), i) {
                context@ + " has a duplicate channel name or path"@
            } else {
                context@ + " channel "@ + debug_text(channel_models(channels@)[i].name) + " overlaps a proxy path"@
            }),
        },
{
    let ghost cs = channel_models(channels@);
    let ghost ps = proxy_models(proxies@);
    let mut index: usize = 0;
    while index < channels.len()
        invariant
            index <= channels@.len(),
            cs == channel_models(channels@),
            ps == proxy_models(proxies@),
            first_channel_conflict(cs, ps, index as int) is None,
        decreases channels@.len() - index,
    {
        let channel = &channels[index];
        assert(cs[index as int] == channel@);
        let mut duplicate = false;
        let mut j: usize = 0;
        while j < index
            invariant
                j <= index < channels@.len(),
                cs == channel_models(channels@),
                cs[index as int] == channel@,
                duplicate == exists|k: int| 0 <= k < j && ((#[trigger] cs[k]).name == cs[index as int].name
                    || cs[k].path_prefix == cs[index as int].path_prefix),
            decreases index - j,
        {
            assert(cs[j as int] == channels@[j as int]@);
            if same_text(channels[j].name.as_str(), channel.name.as_str()) || same_text(
                channels[j].path_prefix.as_str(),
                channel.path_prefix.as_str(),
            ) {
                duplicate = true;
            }
            j = j + 1;
        }
        if duplicate {
            proof {
                lemma_first_conflict_found(cs, ps, index as int);
            }
            return Err(message_with(context.as_str(), " has a duplicate channel name or path"));
        }
        let prefix_chars = chars_of(channel.path_prefix.as_str());
        let mut overlap = false;
        let mut p: usize = 0;
        while p < proxies.len()
            invariant
                p <= proxies@.len(),
                ps == proxy_models(proxies@),
                cs[index as int] == channel@,
                index < cs.len(),
                prefix_chars@ == channel.path_prefix@,
                overlap == exists|k: int| 0 <= k < p && channel_overlaps_proxy(cs[index as int], #[trigger] ps[k]),
            decreases proxies@.len() - p,
        {
            assert(ps[p as int] == proxies@[p as int]@);
            let trimmed = trim_slashes(&proxies[p].path);
            let path_chars = chars_of(proxies[p].path.as_str());
            if starts_with_chars(prefix_chars.as_slice(), trimmed.as_slice()) || starts_with_chars(
                path_chars.as_slice(),
                prefix_chars.as_slice(),
            ) {
                overlap = true;
            }
            p = p + 1;
        }
        if overlap {
            proof {
                lemma_first_conflict_found(cs, ps, index as int);
            }
            let mut message = owned(context.as_str());
            push_str(&mut message, " channel ");
            push_str(&mut message, debug_quoted(channel.name.as_str()).as_str());
            push_str(&mut message, " overlaps a proxy path");
            return Err(message);
        }
        index = index + 1;
    }
    Ok(())
}

proof fn lemma_first_conflict_found(cs: Seq<ChannelModel>, ps: Seq<ProxyModel>, index: int)
    requires
        0 <= index < cs.len(),
        first_channel_conflict(cs, ps, index) is None,
        channel_conflicts(cs, ps, index),
    ensures
        first_channel_conflict(cs, ps, cs.len() as int) == Some(index),
    decreases cs.len() - index,
{
    lemma_first_conflict_stays(cs, ps, index + 1, cs.len() as int);
}

proof fn lemma_first_conflict_stays(cs: Seq<ChannelModel>, ps: Seq<ProxyModel>, count: int, later: int)
    requires
        0 <= count <= later,
        first_channel_conflict(cs, ps, count) is Some,
    ensures
        first_channel_conflict(cs, ps, later) == first_channel_conflict(cs, ps, count),
    decreases later - count,
{
    if count < later {
        lemma_first_conflict_stays(cs, ps, count, later - 1);
    }
}

fn check_peers(peers: &Vec<Peer>, context: &String) -> (r: Result<(), String>)
    ensures
        match first_duplicate_peer(peer_models(peers@), peers@.len() as int) {
            None => r is Ok,
            Some(_) => r matches Err(m) && m@ == context@ + " has a duplicate peer name"@,
        },
{
    let ghost models = peer_models(peers@);
    let mut index: usize = 0;
    while index < peers.len()
        invariant
            index <= peers@.len(),
            models == peer_models(peers@),
            first_duplicate_peer(models, index as int) is None,
        decreases peers@.len() - index,
    {
        let mut j: usize = 0;
        while j < index
            invariant
                j <= index < peers@.len(),
                models == peer_models(peers@),
                forall|k: int| 0 <= k < j ==> (#[trigger] models[k]).name != models[index as int].name,
            decreases index - j,
        {
            assert(models[j as int] == peers@[j as int]@);
            assert(models[index as int] == peers@[index as int]@);
            if same_text(peers[j].name.as_str(), peers[index].name.as_str()) {
                proof {
                    assert(peer_duplicated(models, index as int));
                    lemma_first_peer_stays(models, index + 1, models.len() as int);
                }
                return Err(message_with(context.as_str(), " has a duplicate peer name"));
            }
            j = j + 1;
        }
        index = index + 1;
    }
    Ok(())
}

proof fn lemma_first_peer_stays(peers: Seq<PeerModel>, count: int, later: int)
    requires
        0 <= count <= later,
        first_duplicate_peer(peers, count) is Some,
    ensures
        first_duplicate_peer(peers, later) == first_duplicate_peer(peers, count),
    decreases later - count,
{
    if count < later {
        lemma_first_peer_stays(peers, count, later - 1);
    }
}

} // verus!

verus! {

pub open spec fn app_result(r: Result<App, String>) -> Result<AppModel, Seq<char>> {
    match r {
        Ok(app) => Ok(app@),
        Err(message) => Err(message@),
    }
}

fn listed_of<'a>(value: &'a HalValue, key: &str, empty: &'a Vec<HalValue>) -> (items: &'a Vec<HalValue>)
    requires
        empty@.len() == 0,
    ensures
        items@ == listed(*value, key@),
{
    match sequence_field_of(value, key) {
        Some(items) => items,
        None => empty,
    }
}

proof fn lemma_resources_error_stays(resources: Seq<HalValue>, adapter: RouteAdapter, count: int, later: int)
    requires
        0 <= count <= later,
        resources_routes(resources, adapter, count) is Err,
    ensures
        resources_routes(resources, adapter, later) == resources_routes(resources, adapter, count),
    decreases later - count,
{
    if count < later {
        lemma_resources_error_stays(resources, adapter, count, later - 1);
    }
}

fn push_channel_routes(channels: &Vec<Channel>, id: u64, routes: &mut Vec<Route>)
    ensures
        route_models(final(routes)@) == route_models(old(routes)@) + channel_route_list(
            channel_models(channels@),
            id,
        ),
{
    let ghost start = route_models(routes@);
    let ghost models = channel_models(channels@);
    let mut i: usize = 0;
    assert(models.take(0) =~= Seq::<ChannelModel>::empty());
    assert(route_models(routes@) =~= start + channel_route_list(models.take(0), id));
    while i < channels.len()
        invariant
            i <= channels@.len(),
            models == channel_models(channels@),
            start == route_models(old(routes)@),
            route_models(routes@) == start + channel_route_list(models.take(i as int), id),
        decreases channels@.len() - i,
    {
        let channel = &channels[i];
        assert(models[i as int] == channel@);
        let ghost before = route_models(routes@);
        let mut authorize_name = owned(channel.name.as_str());
        push_str(&mut authorize_name, "/authorize");
        let authorize = Route {
            method: owned("GET"),
            path: channel.authorize_path(id),
            handler: owned(channel.authorize.as_str()),
            name: Some(authorize_name),
            summary: None,
            adapter: RouteAdapter::Request,
        };
        let mut admission_name = owned(channel.name.as_str());
        push_str(&mut admission_name, "/admit");
        let admission = Route {
            method: owned("POST"),
            path: channel.admit_path(id),
            handler: owned(channel.admission.as_str()),
            name: Some(admission_name),
            summary: None,
            adapter: RouteAdapter::Request,
        };
        let ghost first = authorize@;
        let ghost second = admission@;
        routes.push(authorize);
        routes.push(admission);
        proof {
            assert(models.take(i + 1).drop_last() =~= models.take(i as int));
            assert(route_models(routes@) =~= before.push(first).push(second));
            assert(channel_route_list(models.take(i + 1), id) =~= channel_route_list(models.take(i as int), id).push(first).push(second));
        }
        i = i + 1;
    }
    assert(models.take(i as int) =~= models);
}

fn read_app_header(value: &HalValue, id: u64) -> (r: Result<(String, String, RouteAdapter, Option<RequestBodyPolicy>), String>)
    ensures
        match app_header(*value, id) {
            Ok((name, context, adapter, body)) => r matches Ok((n, c, a, b)) && n@ == name && c@ == context && a == adapter && b == body,
            Err(message) => r matches Err(m) && m@ == message,
        },
{
    if !keyword_field_is(value, "hoplite/type", "application") {
        return Err(owned("app instance :app must be a hoplite.core/app"));
    }
    let name = match text_field_of(value, "name") {
        Some(name) => name,
        None => {
            let mut name = owned("app-");
            push_decimal(&mut name, id);
            name
        },
    };
    let mut context = owned("Hoplite app ");
    push_str(&mut context, debug_quoted(name.as_str()).as_str());
    let adapter = match RouteAdapter::parse(keyword_field_of(value, "route/adapter"), context.as_str()) {
        Ok(adapter) => adapter,
        Err(message) => return Err(message),
    };
    let body = match parse_request_body(field(value, "request/body"), context.as_str()) {
        Ok(policy) => policy,
        Err(message) => return Err(message),
    };
    Ok((name, context, adapter, body))
}

fn read_app_components(value: &HalValue, name: &String, context: &String) -> (r: Result<(Vec<Proxy>, Vec<Channel>, Vec<Peer>), String>)
    ensures
        match app_components(*value, name@, context@) {
            Ok((proxies, channels, peers)) => r matches Ok((p, c, q)) && proxy_models(p@) == proxies
                && channel_models(c@) == channels && peer_models(q@) == peers,
            Err(message) => r matches Err(m) && m@ == message,
        },
{
    let empty: Vec<HalValue> = Vec::new();
    let proxy_items = listed_of(value, "proxies", &empty);
    let proxy_context = message_with(context.as_str(), " proxy ");
    let proxies = match parse_proxies(proxy_items, &proxy_context) {
        Ok(list) => list,
        Err(message) => return Err(message),
    };
    match validate_proxies(&proxies, name.as_str()) {
        Ok(()) => {},
        Err(message) => return Err(message),
    }
    let channel_items = listed_of(value, "channels", &empty);
    let channel_context = message_with(context.as_str(), " channel ");
    let channels = match parse_channels(channel_items, &channel_context) {
        Ok(list) => list,
        Err(message) => return Err(message),
    };
    match check_channels(&channels, &proxies, context) {
        Ok(()) => {},
        Err(message) => return Err(message),
    }
    let peer_items = listed_of(value, "peers", &empty);
    let peer_context = message_with(context.as_str(), " peer ");
    let peers = match parse_peers(peer_items, &channels, &peer_context) {
        Ok(list) => list,
        Err(message) => return Err(message),
    };
    match check_peers(&peers, context) {
        Ok(()) => {},
        Err(message) => return Err(message),
    }
    Ok((proxies, channels, peers))
}

fn read_app_routes(value: &HalValue, name: &String, adapter: RouteAdapter, channels: &Vec<Channel>, id: u64) -> (r: Result<Vec<Route>, String>)
    ensures
        match app_routes(*value, name@, adapter, channel_models(channels@), id) {
            Ok(routes) => r matches Ok(list) && route_models(list@) == routes,
            Err(message) => r matches Err(m) && m@ == message,
        },
{
    let mut routes: Vec<Route> = Vec::new();
    match field(value, "handler") {
        Some(handler) => {
            let handler_name = match callable_name(handler) {
                Ok(h) => h,
                Err(message) => return Err(message),
            };
            let mut route_name = owned(name.as_str());
            push_str(&mut route_name, "/handler");
            let route = Route {
                method: owned("ANY"),
                path: owned("/*path"),
                handler: handler_name,
                name: Some(route_name),
                summary: None,
                adapter,
            };
            let ghost model = route@;
            routes.push(route);
            assert(route_models(routes@) =~= seq![model]);
        },
        None => {
            assert(route_models(routes@) =~= Seq::<RouteModel>::empty());
        },
    }
    let ghost handler_part = route_models(routes@);
    assert(handler_routes(*value, name@, adapter) == Ok::<Seq<RouteModel>, Seq<char>>(handler_part));
    let empty: Vec<HalValue> = Vec::new();
    let resources = listed_of(value, "resources", &empty);
    let mut i: usize = 0;
    assert(route_models(routes@).skip(handler_part.len() as int) =~= Seq::<RouteModel>::empty());
    while i < resources.len()
        invariant
            i <= resources@.len(),
            handler_part.is_prefix_of(route_models(routes@)),
            handler_routes(*value, name@, adapter) == Ok::<Seq<RouteModel>, Seq<char>>(handler_part),
            resources@ == listed(*value, "resources"@),
            resources_routes(resources@, adapter, i as int) == Ok::<Seq<RouteModel>, Seq<char>>(
                route_models(routes@).skip(handler_part.len() as int),
            ),
        decreases resources@.len() - i,
    {
        let ghost before = route_models(routes@);
        proof {
            reveal_strlit("");
            assert(""@ =~= Seq::<char>::empty());
        }
        match flatten_resource(&resources[i], "", adapter, &mut routes) {
            Ok(()) => {},
            Err(message) => {
                proof {
                    lemma_resources_error_stays(resources@, adapter, i + 1, resources@.len() as int);
                }
                return Err(message);
            },
        }
        proof {
            let more = resource_routes(resources@[i as int], Seq::empty(), adapter)->Ok_0;
            assert(route_models(routes@) == before + more);
            assert(route_models(routes@).skip(handler_part.len() as int) =~= before.skip(handler_part.len() as int) + more);
        }
        i = i + 1;
    }
    let ghost resource_part = route_models(routes@).skip(handler_part.len() as int);
    assert(route_models(routes@) =~= handler_part + resource_part);
    push_channel_routes(channels, id, &mut routes);
    Ok(routes)
}

/// Reads one `hoplite.core/app` declaration into the app it declares,
/// with its id, listening port and host names: proxies, channels and peers
/// checked against each other, and routes gathered from the catch-all
/// handler, the resources and the channels.
pub fn parse_app(value: &HalValue, id: u64, port: u16, hostnames: Vec<String>, production: bool) -> (r: Result<App, String>)
    ensures
        app_result(r) == app_check(*value, id, port, texts(hostnames@), production),
{
    let (name, context, default_adapter, request_body) = match read_app_header(value, id) {
        Ok(header) => header,
        Err(message) => return Err(message),
    };
    let (proxies, channels, peers) = match read_app_components(value, &name, &context) {
        Ok(parts) => parts,
        Err(message) => return Err(message),
    };
    let routes = match read_app_routes(value, &name, default_adapter, &channels, id) {
        Ok(routes) => routes,
        Err(message) => return Err(message),
    };
    if routes.len() == 0 {
        return Err(message_with(context.as_str(), " has no resource operations"));
    }
    if request_body.is_some() {
        let mut k: usize = 0;
        while k < routes.len()
            invariant
                k <= routes@.len(),
                routes@.len() > 0,
                request_body is Some,
                app_header(*value, id) == Ok::<_, Seq<char>>((name@, context@, default_adapter, request_body)),
                app_components(*value, name@, context@) == Ok::<_, Seq<char>>((proxy_models(proxies@), channel_models(channels@), peer_models(peers@))),
                app_routes(*value, name@, default_adapter, channel_models(channels@), id) == Ok::<_, Seq<char>>(route_models(routes@)),
                forall|j: int| 0 <= j < k ==> (#[trigger] route_models(routes@)[j]).adapter != RouteAdapter::RequestHta,
            decreases routes@.len() - k,
        {
            assert(route_models(routes@)[k as int] == routes@[k as int]@);
            if routes[k].adapter == RouteAdapter::RequestHta {
                assert(route_models(routes@)[k as int].adapter == RouteAdapter::RequestHta);
                return Err(message_with(context.as_str(), " cannot combine :request/body with :request+hta routes"));
            }
            k = k + 1;
        }
    }
    let configured = match field(value, "openapi") {
        Some(openapi) => text_field_of(openapi, "path"),
        None => None,
    };
    let openapi_path = match configured {
        Some(path) => Some(path),
        None => if production {
            None
        } else {
            Some(owned("/openapi.json"))
        },
    };
    Ok(
        App {
            id,
            name,
            port,
            hostnames,
            routes,
            request_body,
            proxies,
            channels,
            peers,
            openapi_path,
        },
    )
}

} // verus!

verus! {

pub struct ConfigModel {
    pub workers: usize,
    pub apps: Seq<AppModel>,
}

pub open spec fn app_models(apps: Seq<App>) -> Seq<AppModel> {
    apps.map_values(|a: App| a@)
}

impl View for Config {
    type V = ConfigModel;

    open spec fn view(&self) -> ConfigModel {
        ConfigModel { workers: self.workers, apps: app_models(self.apps@) }
    }
}

pub open spec fn instance_conflict(apps: Seq<AppModel>, index: int) -> Option<Seq<char>> {
    if exists|j: int| 0 <= j < index && (#[trigger] apps[j]).name == apps[index].name {
        Some("duplicate app id "@ + debug_text(apps[index].name))
    } else if apps[index].hostnames.len() == 0 && exists|j: int|
        0 <= j < index && (#[trigger] apps[j]).port == apps[index].port && apps[j].hostnames.len() == 0 {
        Some("multiple default apps listen on port "@ + decimal_chars(apps[index].port as nat))
    } else {
        None
    }
}

/// Apps must have distinct names, and at most one app without host names
/// may listen on a port.
pub open spec fn instances_check(apps: Seq<AppModel>, count: int) -> Result<(), Seq<char>>
    decreases count,
{
    if count <= 0 {
        Ok(())
    } else {
        match instances_check(apps, count - 1) {
            Err(message) => Err(message),
            Ok(()) => match instance_conflict(apps, count - 1) {
                Some(message) => Err(message),
                None => Ok(()),
            },
        }
    }
}

proof fn lemma_instances_error_stays(apps: Seq<AppModel>, count: int, later: int)
    requires
        0 <= count <= later,
        instances_check(apps, count) is Err,
    ensures
        instances_check(apps, later) == instances_check(apps, count),
    decreases later - count,
{
    if count < later {
        lemma_instances_error_stays(apps, count, later - 1);
    }
}

pub fn validate_instances(apps: &Vec<App>) -> (r: Result<(), String>)
    ensures
        unit_result(r) == instances_check(app_models(apps@), apps@.len() as int),
{
    let ghost models = app_models(apps@);
    let mut index: usize = 0;
    while index < apps.len()
        invariant
            index <= apps@.len(),
            models == app_models(apps@),
            instances_check(models, index as int) == Ok::<(), Seq<char>>(()),
        decreases apps@.len() - index,
    {
        assert(models[index as int] == apps@[index as int]@);
        let app = &apps[index];
        let mut duplicate = false;
        let mut shared_port = false;
        let mut j: usize = 0;
        while j < index
            invariant
                j <= index < apps@.len(),
                models == app_models(apps@),
                models[index as int] == app@,
                duplicate == exists|k: int| 0 <= k < j && (#[trigger] models[k]).name == models[index as int].name,
                shared_port == exists|k: int|
                    0 <= k < j && (#[trigger] models[k]).port == models[index as int].port && models[k].hostnames.len() == 0,
            decreases index - j,
        {
            assert(models[j as int] == apps@[j as int]@);
            if same_text(apps[j].name.as_str(), app.name.as_str()) {
                duplicate = true;
            }
            if apps[j].port == app.port && apps[j].hostnames.len() == 0 {
                shared_port = true;
            }
            j = j + 1;
        }
        if duplicate {
            let mut message = owned("duplicate app id ");
            push_str(&mut message, debug_quoted(app.name.as_str()).as_str());
            proof {
                lemma_instances_error_stays(models, index + 1, models.len() as int);
            }
            return Err(message);
        }
        if app.hostnames.len() == 0 && shared_port {
            let mut message = owned("multiple default apps listen on port ");
            push_decimal(&mut message, app.port as u64);
            proof {
                lemma_instances_error_stays(models, index + 1, models.len() as int);
            }
            return Err(message);
        }
        index = index + 1;
    }
    Ok(())
}

/// The value a var holds, or the value itself.
pub open spec fn dereferenced(value: HalValue) -> HalValue {
    match value {
        HalValue::Var(_, inner) => *inner,
        other => other,
    }
}

/// The port of the `index`-th instance when it sets none: the default for
/// the first, and the default plus the index (saturating) for the others.
pub open spec fn instance_port(default_port: u16, index: int) -> u16 {
    if index == 0 {
        default_port
    } else {
        let sum = default_port as int + (index as u16) as int;
        if sum > 65535 {
            65535
        } else {
            sum as u16
        }
    }
}

/// The app of one instance map: its `:app`, id, port and host names, and
/// its `:id` as the app's name when given.
pub open spec fn instance_check(instance: HalValue, index: int, default_port: u16, production: bool) -> Result<AppModel, Seq<char>> {
    match field_value(instance, "app"@) {
        None => Err("app instance requires :app"@),
        Some(app_value) => match (match number_field(instance, "port"@) {
            Some(n) => if 1 <= n <= 65535 {
                Ok(n as u16)
            } else {
                Err("port must be between 1 and 65535"@)
            },
            None => Ok(instance_port(default_port, index)),
        }) {
            Err(message) => Err(message),
            Ok(port) => match texts_of(listed(instance, "hostnames"@), "hostname"@, listed(instance, "hostnames"@).len() as int) {
                Err(message) => Err(message),
                Ok(hostnames) => match app_check(dereferenced(app_value), (index + 1) as u64, port, hostnames, production) {
                    Err(message) => Err(message),
                    Ok(app) => Ok(
                        match text_field(instance, "id"@) {
                            Some(name) => AppModel { name, ..app },
                            None => app,
                        },
                    ),
                },
            },
        },
    }
}

pub open spec fn instances_apps(items: Seq<HalValue>, count: int, default_port: u16, production: bool) -> Result<Seq<AppModel>, Seq<char>>
    decreases count,
{
    if count <= 0 {
        Ok(Seq::empty())
    } else {
        match instances_apps(items, count - 1, default_port, production) {
            Err(message) => Err(message),
            Ok(done) => match instance_check(items[count - 1], count - 1, default_port, production) {
                Err(message) => Err(message),
                Ok(app) => Ok(done.push(app)),
            },
        }
    }
}

proof fn lemma_instances_apps_error_stays(items: Seq<HalValue>, count: int, later: int, default_port: u16, production: bool)
    requires
        0 <= count <= later,
        instances_apps(items, count, default_port, production) is Err,
    ensures
        instances_apps(items, later, default_port, production) == instances_apps(items, count, default_port, production),
    decreases later - count,
{
    if count < later {
        lemma_instances_apps_error_stays(items, count, later - 1, default_port, production);
    }
}

/// The configuration a `hoplite.internal/config` value declares: a
/// positive worker count and one app per instance, at least one, with
/// distinct names and at most one default app per port.
pub open spec fn config_check(value: HalValue, default_port: u16, default_workers: usize, production: bool) -> Result<ConfigModel, Seq<char>> {
    match (match number_field(value, "worker-processes"@) {
        Some(n) => if 0 <= n <= usize::MAX {
            Ok(n as usize)
        } else {
            Err("worker-processes must be positive"@)
        },
        None => Ok(default_workers),
    }) {
        Err(message) => Err(message),
        Ok(workers) => if workers == 0 {
            Err("worker-processes must be positive"@)
        } else {
            match sequence_field(value, "apps"@) {
                None => Err("internal config requires :apps"@),
                Some(items) => match instances_apps(items, items.len() as int, default_port, production) {
                    Err(message) => Err(message),
                    Ok(apps) => if apps.len() == 0 {
                        Err("internal config must contain at least one app"@)
                    } else {
                        match instances_check(apps, apps.len() as int) {
                            Err(message) => Err(message),
                            Ok(()) => Ok(ConfigModel { workers, apps }),
                        }
                    },
                },
            }
        },
    }
}

pub open spec fn config_result(r: Result<Config, String>) -> Result<ConfigModel, Seq<char>> {
    match r {
        Ok(config) => Ok(config@),
        Err(message) => Err(message@),
    }
}

fn read_instance(instance: &HalValue, index: usize, default_port: u16, production: bool) -> (r: Result<App, String>)
    requires
        index < u64::MAX,
    ensures
        app_result(r) == instance_check(*instance, index as int, default_port, production),
{
    let app_value = match field(instance, "app") {
        None => return Err(owned("app instance requires :app")),
        Some(app_value) => app_value,
    };
    let app_value = match app_value {
        HalValue::Var(_, inner) => &**inner,
        other => other,
    };
    let port = match number_field_of(instance, "port") {
        Some(n) => match valid_port(n) {
            Ok(port) => port,
            Err(message) => return Err(message),
        },
        None => if index == 0 {
            default_port
        } else {
            default_port.saturating_add(index as u16)
        },
    };
    let empty: Vec<HalValue> = Vec::new();
    let host_items = listed_of(instance, "hostnames", &empty);
    let hostnames = match texts_from(host_items, "hostname") {
        Ok(list) => list,
        Err(message) => return Err(message),
    };
    let mut app = match parse_app(app_value, (index as u64) + 1, port, hostnames, production) {
        Ok(app) => app,
        Err(message) => return Err(message),
    };
    match text_field_of(instance, "id") {
        Some(name) => {
            app.name = name;
        },
        None => {},
    }
    Ok(app)
}

/// Reads a `hoplite.internal/config` value.
pub fn parse_config(value: &HalValue, default_port: u16, default_workers: usize, production: bool) -> (r: Result<Config, String>)
    ensures
        config_result(r) == config_check(*value, default_port, default_workers, production),
{
    let workers = match number_field_of(value, "worker-processes") {
        Some(n) => {
            if n >= 0 && (n as u64) <= (usize::MAX as u64) {
                n as usize
            } else {
                return Err(owned("worker-processes must be positive"));
            }
        },
        None => default_workers,
    };
    if workers == 0 {
        return Err(owned("worker-processes must be positive"));
    }
    let items = match sequence_field_of(value, "apps") {
        None => return Err(owned("internal config requires :apps")),
        Some(items) => items,
    };
    let mut apps: Vec<App> = Vec::new();
    assert(app_models(apps@) =~= Seq::<AppModel>::empty());
    let mut index: usize = 0;
    while index < items.len()
        invariant
            index <= items@.len(),
            sequence_field(*value, "apps"@) == Some(items@),
            workers != 0,
            config_check(*value, default_port, default_workers, production) == (match instances_apps(items@, items@.len() as int, default_port, production) {
                Err(message) => Err(message),
                Ok(apps) => if apps.len() == 0 {
                    Err("internal config must contain at least one app"@)
                } else {
                    match instances_check(apps, apps.len() as int) {
                        Err(message) => Err(message),
                        Ok(()) => Ok(ConfigModel { workers, apps }),
                    }
                },
            }),
            instances_apps(items@, index as int, default_port, production) == Ok::<Seq<AppModel>, Seq<char>>(app_models(apps@)),
        decreases items@.len() - index,
    {
        assert(index < items@.len() <= usize::MAX <= u64::MAX);
        match read_instance(&items[index], index, default_port, production) {
            Ok(app) => {
                let ghost before = apps@;
                let ghost model = app@;
                apps.push(app);
                assert(app_models(apps@) =~= app_models(before).push(model));
            },
            Err(message) => {
                proof {
                    lemma_instances_apps_error_stays(items@, index + 1, items@.len() as int, default_port, production);
                }
                return Err(message);
            },
        }
        index = index + 1;
    }
    if apps.len() == 0 {
        return Err(owned("internal config must contain at least one app"));
    }
    match validate_instances(&apps) {
        Ok(()) => {},
        Err(message) => return Err(message),
    }
    Ok(Config { workers, apps })
}

/// What a profile's main value declares: one app (with the default port
/// and workers) or an internal configuration.
pub open spec fn root_check(value: HalValue, default_port: u16, default_workers: usize, production: bool) -> Result<ConfigModel, Seq<char>> {
    if keyword_field(value, "hoplite/type"@) == Some("application"@) {
        match app_check(value, 1, default_port, Seq::empty(), production) {
            Err(message) => Err(message),
            Ok(app) => Ok(ConfigModel { workers: default_workers, apps: seq![app] }),
        }
    } else if keyword_field(value, "hoplite/type"@) == Some("config"@) {
        config_check(value, default_port, default_workers, production)
    } else {
        Err("profile main must evaluate to hoplite.core/app or hoplite.internal/config"@)
    }
}

pub fn parse_root(value: &HalValue, default_port: u16, default_workers: usize, production: bool) -> (r: Result<Config, String>)
    ensures
        config_result(r) == root_check(*value, default_port, default_workers, production),
{
    if keyword_field_is(value, "hoplite/type", "application") {
        let hostnames: Vec<String> = Vec::new();
        assert(texts(hostnames@) =~= Seq::<Seq<char>>::empty());
        let app = match parse_app(value, 1, default_port, hostnames, production) {
            Ok(app) => app,
            Err(message) => return Err(message),
        };
        let ghost model = app@;
        let apps = vec![app];
        assert(app_models(apps@) =~= seq![model]);
        Ok(Config { workers: default_workers, apps })
    } else if keyword_field_is(value, "hoplite/type", "config") {
        parse_config(value, default_port, default_workers, production)
    } else {
        Err(owned("profile main must evaluate to hoplite.core/app or hoplite.internal/config"))
    }
}

} // verus!

verus! {

/// Whatever a proxy declaration holds, an accepted upstream that is not
/// TLS-verified reaches a loopback host only.
pub proof fn law_plain_upstreams_are_loopback(value: HalValue, context: Seq<char>)
    ensures
        proxy_check(value, context) matches Ok(p) ==> (!p.secure ==> (p.server_name == "::1"@
            || is_loopback_name(p.server_name))),
{
}

} // verus!

verus! {

pub open spec fn is_name_byte(b: u8) -> bool {
    (48 <= b <= 57) || (65 <= b <= 90) || (97 <= b <= 122) || b == 95
}

/// The end of the run of name bytes (`[A-Za-z0-9_]`) that starts at `from`.
pub open spec fn name_end(bytes: Seq<u8>, from: int) -> int
    decreases bytes.len() - from,
{
    if from < 0 || from >= bytes.len() || !is_name_byte(bytes[from]) {
        from
    } else {
        name_end(bytes, from + 1)
    }
}

pub open spec fn byte_chars(bytes: Seq<u8>) -> Seq<char> {
    bytes.map_values(|b: u8| b as char)
}

pub open spec fn is_star_path(bytes: Seq<u8>, at: int) -> bool {
    at + 5 <= bytes.len() && bytes.subrange(at, at + 5) == seq![42u8, 112u8, 97u8, 116u8, 104u8]
}

/// The OpenAPI form of a route path from byte `from` on: `:name` becomes
/// `{name}`, `*path` becomes `{path}`, and every other byte is kept.
pub open spec fn openapi_template(bytes: Seq<u8>, from: int) -> Seq<char>
    decreases bytes.len() - from,
{
    if from < 0 || from >= bytes.len() {
        Seq::empty()
    } else if bytes[from] == 58u8 {
        let end = name_end(bytes, from + 1);
        proof {
            lemma_name_end_bounds(bytes, from + 1);
        }
        seq!['{'] + byte_chars(bytes.subrange(from + 1, end)) + seq!['}'] + openapi_template(bytes, end)
    } else if is_star_path(bytes, from) {
        "{path}"@ + openapi_template(bytes, from + 5)
    } else {
        seq![bytes[from] as char] + openapi_template(bytes, from + 1)
    }
}

pub proof fn lemma_name_end_bounds(bytes: Seq<u8>, from: int)
    ensures
        0 <= from <= bytes.len() ==> from <= name_end(bytes, from) <= bytes.len(),
    decreases bytes.len() - from,
{
    if 0 <= from < bytes.len() && is_name_byte(bytes[from]) {
        lemma_name_end_bounds(bytes, from + 1);
    }
}

/// The OpenAPI path template of a route path.
pub fn openapi_path(path: &str) -> (template: String)
    ensures
        template@ == openapi_template(encode_utf8(path@), 0),
{
    let bytes = path.as_bytes();
    let n = bytes.len();
    let mut output = String::new();
    let mut index: usize = 0;
    assert(output@ + openapi_template(bytes@, 0) =~= openapi_template(bytes@, 0));
    while index < n
        invariant
            n == bytes@.len(),
            index <= n,
            bytes@ == encode_utf8(path@),
            output@ + openapi_template(bytes@, index as int) == openapi_template(bytes@, 0),
        decreases n - index,
    {
        let ghost before = output@;
        let ghost at = index as int;
        if bytes[index] == 58u8 {
            let start = index + 1;
            let mut end = start;
            while end < n && ((48u8 <= bytes[end] && bytes[end] <= 57u8) || (65u8 <= bytes[end]
                && bytes[end] <= 90u8) || (97u8 <= bytes[end] && bytes[end] <= 122u8) || bytes[end]
                == 95u8)
                invariant
                    n == bytes@.len(),
                    start <= end <= n,
                    name_end(bytes@, start as int) == name_end(bytes@, end as int),
                decreases n - end,
            {
                end = end + 1;
            }
            push_char(&mut output, '{');
            let mut k = start;
            while k < end
                invariant
                    start <= k <= end <= n,
                    n == bytes@.len(),
                    output@ == before.push('{') + byte_chars(bytes@.subrange(start as int, k as int)),
                decreases end - k,
            {
                push_char(&mut output, bytes[k] as char);
                assert(byte_chars(bytes@.subrange(start as int, k + 1)) =~= byte_chars(
                    bytes@.subrange(start as int, k as int),
                ).push(bytes@[k as int] as char));
                k = k + 1;
            }
            push_char(&mut output, '}');
            proof {
                lemma_name_end_bounds(bytes@, start as int);
                let piece = seq!['{'] + byte_chars(bytes@.subrange(start as int, end as int)) + seq!['}'];
                assert(output@ =~= before + piece);
                assert(openapi_template(bytes@, at) == piece + openapi_template(bytes@, end as int));
                assert(output@ + openapi_template(bytes@, end as int) =~= before + (piece + openapi_template(bytes@, end as int)));
            }
            index = end;
        } else if n - index >= 5 && bytes[index] == 42u8 && bytes[index + 1] == 112u8 && bytes[index
            + 2] == 97u8 && bytes[index + 3] == 116u8 && bytes[index + 4] == 104u8 {
            assert(bytes@.subrange(index as int, index + 5) =~= seq![42u8, 112u8, 97u8, 116u8, 104u8]);
            push_str(&mut output, "{path}");
            index = index + 5;
            proof {
                assert(openapi_template(bytes@, at) == "{path}"@ + openapi_template(bytes@, index as int));
                assert(output@ + openapi_template(bytes@, index as int) =~= before + ("{path}"@ + openapi_template(bytes@, index as int)));
            }
        } else {
            proof {
                if is_star_path(bytes@, index as int) {
                    assert(bytes@.subrange(index as int, index + 5)[0] == bytes@[index as int]);
                    assert(bytes@.subrange(index as int, index + 5)[1] == bytes@[index + 1]);
                    assert(bytes@.subrange(index as int, index + 5)[2] == bytes@[index + 2]);
                    assert(bytes@.subrange(index as int, index + 5)[3] == bytes@[index + 3]);
                    assert(bytes@.subrange(index as int, index + 5)[4] == bytes@[index + 4]);
                }
            }
            push_char(&mut output, bytes[index] as char);
            index = index + 1;
            proof {
                assert(openapi_template(bytes@, at) == seq![bytes@[at] as char] + openapi_template(bytes@, index as int));
                assert(output@ + openapi_template(bytes@, index as int) =~= before + (seq![bytes@[at] as char] + openapi_template(bytes@, index as int)));
            }
        }
    }
    assert(output@ + openapi_template(bytes@, index as int) =~= output@);
    output
}


/// Whether a byte may stand in a path parameter's name: an ASCII letter, an
/// ASCII digit or `_`.
proof fn lemma_name_end_is_run_end(bytes: Seq<u8>, from: int, end: int)
    requires
        0 <= from <= end <= bytes.len(),
        forall|j: int| from <= j < end ==> #[trigger] is_name_byte(bytes[j]),
        end == bytes.len() || !is_name_byte(bytes[end]),
    ensures
        name_end(bytes, from) == end,
    decreases end - from,
{
    if from < end {
        lemma_name_end_is_run_end(bytes, from + 1, end);
    }
}

/// A `:` parameter becomes `{`, its whole name, `}`: the name is the
/// longest run of ASCII letters, digits and `_` after the `:`, and the
/// template goes on right after it.
pub proof fn law_parameters_keep_their_whole_name(bytes: Seq<u8>, from: int, end: int)
    requires
        0 <= from < end <= bytes.len(),
        bytes[from] == 58u8,
        forall|j: int|
            from < j < end ==> {
                let b = #[trigger] bytes[j];
                (48 <= b <= 57) || (65 <= b <= 90) || (97 <= b <= 122) || b == 95
            },
        end == bytes.len() || !({
            let b = bytes[end];
            (48 <= b <= 57) || (65 <= b <= 90) || (97 <= b <= 122) || b == 95
        }),
    ensures
        openapi_template(bytes, from) == seq!['{'] + byte_chars(bytes.subrange(from + 1, end)) + seq!['}']
            + openapi_template(bytes, end),
{
    assert forall|j: int| from + 1 <= j < end implies #[trigger] is_name_byte(bytes[j]) by {
        assert(from < j);
    }
    lemma_name_end_is_run_end(bytes, from + 1, end);
}

} // verus!
