//! Handler responses: the map a handler returns read as a status, headers
//! and a body, and the maps the runtime builds for responses and errors.

use vstd::prelude::*;
use vstd::utf8::encode_utf8;
use crate::hal::{HalValue, is_keyword, keyword_is, map_entries};
use crate::text::owned;

verus! {

/// A response as the server sends it.
#[derive(Debug)]
pub struct NativeResponse {
    pub status: u16,
    pub headers: Vec<(String, String)>,
    pub body: Vec<u8>,
}

pub struct ResponseModel {
    pub status: u16,
    pub headers: Seq<(Seq<char>, Seq<char>)>,
    pub body: Seq<u8>,
}

pub open spec fn header_pairs(headers: Seq<(String, String)>) -> Seq<(Seq<char>, Seq<char>)> {
    headers.map_values(|h: (String, String)| (h.0@, h.1@))
}

impl View for NativeResponse {
    type V = ResponseModel;

    open spec fn view(&self) -> ResponseModel {
        ResponseModel { status: self.status, headers: header_pairs(self.headers@), body: self.body@ }
    }
}

/// The name of a header: a string or a keyword.
pub open spec fn header_name(key: HalValue) -> Option<Seq<char>> {
    match key {
        HalValue::String(s) => Some(s@),
        HalValue::Keyword(s) => Some(s@),
        _ => None,
    }
}

/// The headers of a header map's entries, or the first entry refused.
pub open spec fn header_entries(entries: Seq<(HalValue, HalValue)>) -> Result<Seq<(Seq<char>, Seq<char>)>, Seq<char>>
    decreases entries.len(),
{
    if entries.len() == 0 {
        Ok(Seq::empty())
    } else {
        match header_entries(entries.drop_last()) {
            Err(m) => Err(m),
            Ok(before) => match header_name(entries.last().0) {
                None => Err("Hoplite response header names must be text"@),
                Some(name) => match entries.last().1 {
                    HalValue::String(v) => Ok(before.push((name, v@))),
                    _ => Err("Hoplite response header values must be strings"@),
                },
            },
        }
    }
}

/// The headers of a response: none where it has none.
pub open spec fn headers_spec(value: Option<HalValue>) -> Result<Seq<(Seq<char>, Seq<char>)>, Seq<char>> {
    match value {
        None => Ok(Seq::empty()),
        Some(v) => match map_entries(v) {
            None => Err("Hoplite response headers must be a map"@),
            Some(entries) => header_entries(entries),
        },
    }
}

/// The value under the keyword `name`: the last entry with that key.
pub open spec fn last_field(entries: Seq<(HalValue, HalValue)>, name: Seq<char>) -> Option<HalValue>
    decreases entries.len(),
{
    if entries.len() == 0 {
        None
    } else if is_keyword(entries.last().0, name) {
        Some(entries.last().1)
    } else {
        last_field(entries.drop_last(), name)
    }
}

pub open spec fn status_spec(value: Option<HalValue>) -> Result<u16, Seq<char>> {
    match value {
        None => Ok(200u16),
        Some(HalValue::Number(n)) => if 100 <= n <= 599 {
            Ok(n as u16)
        } else {
            Err("Hoplite response status must be between 100 and 599"@)
        },
        Some(_) => Err("Hoplite response status must be a number"@),
    }
}

pub open spec fn body_spec(value: Option<HalValue>) -> Result<Seq<u8>, Seq<char>> {
    match value {
        None => Ok(Seq::empty()),
        Some(HalValue::Nil) => Ok(Seq::empty()),
        Some(HalValue::String(s)) => Ok(encode_utf8(s@)),
        Some(HalValue::Bytes(b)) => Ok(b@),
        Some(_) => Err("Hoplite response body must be a string or bytes"@),
    }
}

/// What a handler's returned value means as a response: its status (200
/// where absent), its body (empty where absent or nil) and its headers,
/// refused in that order.
pub open spec fn response_spec(value: HalValue) -> Result<ResponseModel, Seq<char>> {
    match map_entries(value) {
        None => Err("Hoplite handler must return a response map"@),
        Some(entries) => match status_spec(last_field(entries, "status"@)) {
            Err(m) => Err(m),
            Ok(status) => match body_spec(last_field(entries, "body"@)) {
                Err(m) => Err(m),
                Ok(body) => match headers_spec(last_field(entries, "headers"@)) {
                    Err(m) => Err(m),
                    Ok(headers) => Ok(ResponseModel { status, headers, body }),
                },
            },
        },
    }
}

pub open spec fn response_view(r: Result<NativeResponse, String>) -> Result<ResponseModel, Seq<char>> {
    match r {
        Ok(response) => Ok(response@),
        Err(m) => Err(m@),
    }
}

fn copy_text(text: &String) -> (copy: String)
    ensures
        copy@ == text@,
{
    text.clone()
}

/// The headers of a response map's `headers` value.
pub fn response_headers(value: Option<&HalValue>) -> (r: Result<Vec<(String, String)>, String>)
    ensures
        match r {
            Ok(headers) => headers_spec(match value {
                Some(v) => Some(*v),
                None => None,
            }) == Ok::<Seq<(Seq<char>, Seq<char>)>, Seq<char>>(header_pairs(headers@)),
            Err(m) => headers_spec(match value {
                Some(v) => Some(*v),
                None => None,
            }) == Err::<Seq<(Seq<char>, Seq<char>)>, Seq<char>>(m@),
        },
{
    let header_map = match value {
        None => {
            let headers: Vec<(String, String)> = Vec::new();
            assert(header_pairs(headers@) =~= Seq::<(Seq<char>, Seq<char>)>::empty());
            return Ok(headers);
        },
        Some(header_map) => header_map,
    };
    let entries = match header_map {
        HalValue::Mapping(entries) => entries,
        _ => {
            return Err(owned("Hoplite response headers must be a map"));
        },
    };
    let mut headers: Vec<(String, String)> = Vec::new();
    let mut i: usize = 0;
    assert(entries@.take(0) =~= Seq::<(HalValue, HalValue)>::empty());
    assert(header_pairs(headers@) =~= Seq::<(Seq<char>, Seq<char>)>::empty());
    while i < entries.len()
        invariant
            value matches Some(v) && map_entries(*v) == Some(entries@),
            i <= entries@.len(),
            header_entries(entries@.take(i as int)) == Ok::<Seq<(Seq<char>, Seq<char>)>, Seq<char>>(
                header_pairs(headers@),
            ),
        decreases entries@.len() - i,
    {
        assert(entries@.take(i + 1).drop_last() =~= entries@.take(i as int));
        assert(entries@.take(i + 1).last() == entries@[i as int]);
        let (key, item) = &entries[i];
        let name = match key {
            HalValue::String(s) => copy_text(s),
            HalValue::Keyword(s) => copy_text(s),
            _ => {
                assert(header_entries(entries@.take(i + 1)) == Err::<Seq<(Seq<char>, Seq<char>)>, Seq<char>>(
                    "Hoplite response header names must be text"@,
                ));
                proof {
                    lemma_header_refusal_persists(entries@, i + 1);
                }
                return Err(owned("Hoplite response header names must be text"));
            },
        };
        let text = match item {
            HalValue::String(s) => copy_text(s),
            _ => {
                assert(header_entries(entries@.take(i + 1)) == Err::<Seq<(Seq<char>, Seq<char>)>, Seq<char>>(
                    "Hoplite response header values must be strings"@,
                ));
                proof {
                    lemma_header_refusal_persists(entries@, i + 1);
                }
                return Err(owned("Hoplite response header values must be strings"));
            },
        };
        let ghost before = header_pairs(headers@);
        headers.push((name, text));
        assert(header_pairs(headers@) =~= before.push((name@, text@)));
        i = i + 1;
    }
    assert(entries@.take(i as int) =~= entries@);
    Ok(headers)
}

/// A refused prefix of a header map refuses the whole map.
proof fn lemma_header_refusal_persists(entries: Seq<(HalValue, HalValue)>, k: int)
    requires
        0 <= k <= entries.len(),
        header_entries(entries.take(k)) is Err,
    ensures
        header_entries(entries) == header_entries(entries.take(k)),
    decreases entries.len(),
{
    if k == entries.len() {
        assert(entries.take(k) =~= entries);
    } else {
        assert(entries.drop_last().take(k) =~= entries.take(k));
        lemma_header_refusal_persists(entries.drop_last(), k);
    }
}

/// The index of the last entry whose key is the keyword `name`.
fn last_field_index(entries: &Vec<(HalValue, HalValue)>, name: &str) -> (r: Option<usize>)
    ensures
        match r {
            Some(i) => i < entries@.len() && last_field(entries@, name@) == Some(entries@[i as int].1),
            None => last_field(entries@, name@) is None,
        },
{
    let mut i: usize = entries.len();
    assert(entries@.take(i as int) =~= entries@);
    while i > 0
        invariant
            i <= entries@.len(),
            last_field(entries@, name@) == last_field(entries@.take(i as int), name@),
        decreases i,
    {
        assert(entries@.take(i as int).drop_last() =~= entries@.take(i - 1));
        assert(entries@.take(i as int).last() == entries@[i - 1]);
        if keyword_is(&entries[i - 1].0, name) {
            return Some(i - 1);
        }
        i = i - 1;
    }
    None
}

pub(crate) fn string_bytes(text: &String) -> (bytes: Vec<u8>)
    ensures
        bytes@ == encode_utf8(text@),
{
    let slice = text.as_str().as_bytes();
    let mut bytes: Vec<u8> = Vec::new();
    let mut i: usize = 0;
    while i < slice.len()
        invariant
            i <= slice@.len(),
            slice@ == encode_utf8(text@),
            bytes@ == slice@.take(i as int),
        decreases slice@.len() - i,
    {
        bytes.push(slice[i]);
        assert(bytes@ =~= slice@.take(i + 1));
        i = i + 1;
    }
    assert(slice@.take(i as int) =~= slice@);
    bytes
}

fn copy_bytes(source: &Vec<u8>) -> (bytes: Vec<u8>)
    ensures
        bytes@ == source@,
{
    let mut bytes: Vec<u8> = Vec::new();
    let mut i: usize = 0;
    while i < source.len()
        invariant
            i <= source@.len(),
            bytes@ == source@.take(i as int),
        decreases source@.len() - i,
    {
        bytes.push(source[i]);
        assert(bytes@ =~= source@.take(i + 1));
        i = i + 1;
    }
    assert(source@.take(i as int) =~= source@);
    bytes
}

/// The response a handler's returned map describes, or why it describes
/// none.
pub fn native_response(value: &HalValue) -> (r: Result<NativeResponse, String>)
    ensures
        response_view(r) == response_spec(*value),
{
    let entries = match value {
        HalValue::Mapping(entries) => entries,
        _ => {
            return Err(owned("Hoplite handler must return a response map"));
        },
    };
    let status: u16 = match last_field_index(entries, "status") {
        None => 200,
        Some(i) => match &entries[i].1 {
            HalValue::Number(n) => {
                if 100 <= *n && *n <= 599 {
                    *n as u16
                } else {
                    return Err(owned("Hoplite response status must be between 100 and 599"));
                }
            },
            _ => {
                return Err(owned("Hoplite response status must be a number"));
            },
        },
    };
    let body: Vec<u8> = match last_field_index(entries, "body") {
        None => Vec::new(),
        Some(i) => match &entries[i].1 {
            HalValue::Nil => Vec::new(),
            HalValue::String(s) => string_bytes(s),
            HalValue::Bytes(b) => copy_bytes(b),
            _ => {
                return Err(owned("Hoplite response body must be a string or bytes"));
            },
        },
    };
    let headers = match last_field_index(entries, "headers") {
        None => response_headers(None),
        Some(i) => response_headers(Some(&entries[i].1)),
    };
    match headers {
        Ok(headers) => Ok(NativeResponse { status, headers, body }),
        Err(m) => Err(m),
    }
}

/// An entry of string name and string value that carries this header.
pub open spec fn string_pair(pair: (HalValue, HalValue), header: (Seq<char>, Seq<char>)) -> bool {
    &&& pair.0 matches HalValue::String(k) && k@ == header.0
    &&& pair.1 matches HalValue::String(v) && v@ == header.1
}

/// The map the runtime hands back for a response: `:status`, `:headers`
/// (string names to string values) and `:body` (bytes), in that order.
pub open spec fn describes_response(value: HalValue, response: ResponseModel) -> bool {
    match value {
        HalValue::Mapping(entries) => {
            &&& entries@.len() == 3
            &&& is_keyword(entries@[0].0, "status"@)
            &&& entries@[0].1 == HalValue::Number(response.status as i64)
            &&& is_keyword(entries@[1].0, "headers"@)
            &&& entries@[1].1 matches HalValue::Mapping(pairs) && pairs@.len() == response.headers.len() && forall|i: int|
                0 <= i < pairs@.len() ==> string_pair(#[trigger] pairs@[i], response.headers[i])
            &&& is_keyword(entries@[2].0, "body"@)
            &&& entries@[2].1 matches HalValue::Bytes(b) && b@ == response.body
        },
        _ => false,
    }
}

/// The map value of a response.
pub fn response_value(response: &NativeResponse) -> (value: HalValue)
    ensures
        describes_response(value, response@),
{
    let mut pairs: Vec<(HalValue, HalValue)> = Vec::new();
    let mut i: usize = 0;
    while i < response.headers.len()
        invariant
            i <= response.headers@.len(),
            pairs@.len() == i,
            forall|j: int| 0 <= j < i ==> string_pair(#[trigger] pairs@[j], header_pairs(response.headers@)[j]),
        decreases response.headers@.len() - i,
    {
        let name = copy_text(&response.headers[i].0);
        let text = copy_text(&response.headers[i].1);
        pairs.push((HalValue::String(name), HalValue::String(text)));
        i = i + 1;
    }
    let mut entries: Vec<(HalValue, HalValue)> = Vec::new();
    entries.push((HalValue::Keyword(owned("status")), HalValue::Number(response.status as i64)));
    entries.push((HalValue::Keyword(owned("headers")), HalValue::Mapping(pairs)));
    entries.push((HalValue::Keyword(owned("body")), HalValue::Bytes(copy_bytes(&response.body))));
    HalValue::Mapping(entries)
}

/// A plain-text response map of a status and a body, such as the runtime's
/// `404` for a request no route serves.
pub fn plain_response(status: i64, body: &str) -> (value: HalValue)
    ensures
        value matches HalValue::Mapping(entries) && entries@.len() == 3 && is_keyword(entries@[0].0, "status"@)
            && entries@[0].1 == HalValue::Number(status) && is_keyword(entries@[1].0, "headers"@)
            && (entries@[1].1 matches HalValue::Mapping(pairs) && pairs@.len() == 1 && (pairs@[0].0 matches HalValue::String(k)
            && k@ == "content-type"@) && (pairs@[0].1 matches HalValue::String(v) && v@ == "text/plain"@))
            && is_keyword(entries@[2].0, "body"@) && (entries@[2].1 matches HalValue::String(b) && b@ == body@),
{
    let mut pairs: Vec<(HalValue, HalValue)> = Vec::new();
    pairs.push((HalValue::String(owned("content-type")), HalValue::String(owned("text/plain"))));
    let mut entries: Vec<(HalValue, HalValue)> = Vec::new();
    entries.push((HalValue::Keyword(owned("status")), HalValue::Number(status)));
    entries.push((HalValue::Keyword(owned("headers")), HalValue::Mapping(pairs)));
    entries.push((HalValue::Keyword(owned("body")), HalValue::String(owned(body))));
    HalValue::Mapping(entries)
}

/// The error map the runtime settles a failed work with.
pub fn error_value(code: &str, message: String) -> (value: HalValue)
    ensures
        value matches HalValue::Mapping(entries) && entries@.len() == 4 && is_keyword(entries@[0].0, "code"@)
            && is_keyword(entries@[0].1, code@) && is_keyword(entries@[1].0, "message"@)
            && (entries@[1].1 matches HalValue::String(m) && m@ == message@) && is_keyword(entries@[2].0, "origin"@)
            && is_keyword(entries@[2].1, "hoplite"@) && is_keyword(entries@[3].0, "retryable"@)
            && entries@[3].1 == HalValue::Bool(false),
{
    let mut entries: Vec<(HalValue, HalValue)> = Vec::new();
    entries.push((HalValue::Keyword(owned("code")), HalValue::Keyword(owned(code))));
    entries.push((HalValue::Keyword(owned("message")), HalValue::String(message)));
    entries.push((HalValue::Keyword(owned("origin")), HalValue::Keyword(owned("hoplite"))));
    entries.push((HalValue::Keyword(owned("retryable")), HalValue::Bool(false)));
    HalValue::Mapping(entries)
}

/// Reading back the map of a response gives the response again.
pub proof fn law_response_round_trip(value: HalValue, response: ResponseModel)
    requires
        describes_response(value, response),
        100 <= response.status <= 599,
    ensures
        response_spec(value) == Ok::<ResponseModel, Seq<char>>(response),
{
    let entries = map_entries(value)->0;
    let e2 = entries.drop_last();
    let e1 = e2.drop_last();
    assert(e2.last() == entries[1]);
    assert(e1.last() == entries[0]);
    lemma_keyword_distinct();
    assert(e1.drop_last() =~= Seq::<(HalValue, HalValue)>::empty());
    assert(!is_keyword(entries[2].0, "status"@));
    assert(!is_keyword(entries[1].0, "status"@));
    assert(!is_keyword(entries[2].0, "headers"@));
    assert(last_field(e1, "status"@) == Some(entries[0].1));
    assert(last_field(e2, "status"@) == last_field(e1, "status"@));
    assert(last_field(entries, "status"@) == Some(entries[0].1));
    assert(last_field(entries, "body"@) == Some(entries[2].1));
    assert(last_field(e2, "headers"@) == Some(entries[1].1));
    assert(last_field(entries, "headers"@) == Some(entries[1].1));
    let pairs = match entries[1].1 {
        HalValue::Mapping(pairs) => pairs@,
        _ => Seq::empty(),
    };
    lemma_header_entries_of_strings(pairs, response.headers);
    assert(header_entries(pairs) == Ok::<Seq<(Seq<char>, Seq<char>)>, Seq<char>>(response.headers));
}

proof fn lemma_keyword_distinct()
    ensures
        "status"@ != "body"@,
        "status"@ != "headers"@,
        "body"@ != "headers"@,
{
    reveal_strlit("status");
    reveal_strlit("body");
    reveal_strlit("headers");
    assert("status"@.len() != "body"@.len());
    assert("status"@[0] != "headers"@[0]);
    assert("body"@.len() != "headers"@.len());
}

proof fn lemma_header_entries_of_strings(pairs: Seq<(HalValue, HalValue)>, headers: Seq<(Seq<char>, Seq<char>)>)
    requires
        pairs.len() == headers.len(),
        forall|i: int| 0 <= i < pairs.len() ==> string_pair(#[trigger] pairs[i], headers[i]),
    ensures
        header_entries(pairs) == Ok::<Seq<(Seq<char>, Seq<char>)>, Seq<char>>(headers),
    decreases pairs.len(),
{
    if pairs.len() > 0 {
        let n = pairs.len() - 1;
        assert forall|i: int| 0 <= i < pairs.drop_last().len() implies string_pair(
            #[trigger] pairs.drop_last()[i],
            headers.drop_last()[i],
        ) by {
            assert(pairs.drop_last()[i] == pairs[i]);
            assert(string_pair(pairs[i], headers[i]));
        }
        lemma_header_entries_of_strings(pairs.drop_last(), headers.drop_last());
        assert(string_pair(pairs[n], headers[n]));
        assert(headers.drop_last().push(headers[n]) =~= headers);
    } else {
        assert(headers =~= Seq::<(Seq<char>, Seq<char>)>::empty());
    }
}

} // verus!
