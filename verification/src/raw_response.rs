//! Raw responses: a handler starts a response with a status and headers,
//! writes its body in pieces and finishes it. Each request has at most one
//! response in progress.

use std::collections::HashMap;
use vstd::prelude::*;
use vstd::utf8::encode_utf8;
use crate::hal::HalValue;
use crate::response::{header_pairs, headers_spec, response_headers, string_bytes, NativeResponse, ResponseModel};
use crate::text::owned;

verus! {

broadcast use vstd::std_specs::hash::group_hash_axioms;

/// The status a raw response starts with: a number from 100 to 599.
pub open spec fn raw_status_spec(value: HalValue) -> Result<u16, Seq<char>> {
    match value {
        HalValue::Number(n) => if 100 <= n <= 599 {
            Ok(n as u16)
        } else {
            Err("raw/start! status must be between 100 and 599"@)
        },
        _ => Err("raw/start! status must be a number"@),
    }
}

/// Reads the status of a raw response.
pub fn raw_status(value: &HalValue) -> (r: Result<u16, String>)
    ensures
        match r {
            Ok(status) => raw_status_spec(*value) == Ok::<u16, Seq<char>>(status),
            Err(m) => raw_status_spec(*value) == Err::<u16, Seq<char>>(m@),
        },
{
    match value {
        HalValue::Number(n) => if 100 <= *n && *n <= 599 {
            Ok(*n as u16)
        } else {
            Err(owned("raw/start! status must be between 100 and 599"))
        },
        _ => Err(owned("raw/start! status must be a number")),
    }
}

/// The bytes a raw write appends: a string's UTF-8 encoding or a byte
/// string's bytes.
pub open spec fn raw_chunk_spec(value: HalValue) -> Result<Seq<u8>, Seq<char>> {
    match value {
        HalValue::String(s) => Ok(encode_utf8(s@)),
        HalValue::Bytes(b) => Ok(b@),
        _ => Err("raw/write! expects a string or bytes"@),
    }
}

fn raw_chunk(value: &HalValue) -> (r: Result<Vec<u8>, String>)
    ensures
        match r {
            Ok(bytes) => raw_chunk_spec(*value) == Ok::<Seq<u8>, Seq<char>>(bytes@),
            Err(m) => raw_chunk_spec(*value) == Err::<Seq<u8>, Seq<char>>(m@),
        },
{
    match value {
        HalValue::String(s) => Ok(string_bytes(s)),
        HalValue::Bytes(b) => Ok(vstd::slice::slice_to_vec(b.as_slice())),
        _ => Err(owned("raw/write! expects a string or bytes")),
    }
}

pub open spec fn started_message() -> Seq<char> {
    "raw/response-started: response already started"@
}

pub open spec fn not_started_message() -> Seq<char> {
    "raw/response-not-started: call start! first"@
}

/// The responses in progress, by request.
pub struct RawBuilders {
    builders: HashMap<u64, NativeResponse>,
}

impl View for RawBuilders {
    type V = Map<u64, ResponseModel>;

    closed spec fn view(&self) -> Map<u64, ResponseModel> {
        self.builders@.map_values(|r: NativeResponse| r@)
    }
}

impl RawBuilders {
    pub fn new() -> (builders: Self)
        ensures
            builders@ == Map::<u64, ResponseModel>::empty(),
    {
        let builders = RawBuilders { builders: HashMap::new() };
        assert(builders@ =~= Map::<u64, ResponseModel>::empty());
        builders
    }

    /// Whether `request` has a response in progress.
    pub fn started(&self, request: u64) -> (r: bool)
        ensures
            r == self@.contains_key(request),
    {
        self.builders.contains_key(&request)
    }

    /// Starts the response of `request`. A bad status or bad headers leave
    /// every response as it was. Otherwise the response starts afresh with
    /// an empty body; if one was already in progress it is replaced all the
    /// same, and the start is refused.
    pub fn start(&mut self, request: u64, status: &HalValue, headers: &HalValue) -> (r: Result<(), String>)
        ensures
            match raw_status_spec(*status) {
                Err(m) => (r matches Err(e) && e@ == m) && final(self)@ == old(self)@,
                Ok(code) => match headers_spec(Some(*headers)) {
                    Err(m) => (r matches Err(e) && e@ == m) && final(self)@ == old(self)@,
                    Ok(pairs) => {
                        &&& final(self)@ == old(self)@.insert(
                            request,
                            ResponseModel { status: code, headers: pairs, body: Seq::empty() },
                        )
                        &&& r is Ok <==> !old(self)@.contains_key(request)
                        &&& r matches Err(m) ==> m@ == started_message()
                    },
                },
            },
    {
        let code = match raw_status(status) {
            Ok(code) => code,
            Err(m) => return Err(m),
        };
        let pairs = match response_headers(Some(headers)) {
            Ok(pairs) => pairs,
            Err(m) => return Err(m),
        };
        let ghost before = self.builders@;
        let ghost model = ResponseModel { status: code, headers: header_pairs(pairs@), body: Seq::empty() };
        let builder = NativeResponse { status: code, headers: pairs, body: Vec::new() };
        assert(builder@ =~= model);
        let previous = self.builders.insert(request, builder);
        assert(self@ =~= old(self)@.insert(request, model));
        match previous {
            Some(_) => Err(owned("raw/response-started: response already started")),
            None => Ok(()),
        }
    }

    /// Appends to the body of the response in progress for `request`.
    pub fn write(&mut self, request: u64, chunk: &HalValue) -> (r: Result<(), String>)
        ensures
            match raw_chunk_spec(*chunk) {
                Err(m) => (r matches Err(e) && e@ == m) && final(self)@ == old(self)@,
                Ok(bytes) => if old(self)@.contains_key(request) {
                    let current = old(self)@[request];
                    &&& r is Ok
                    &&& final(self)@ == old(self)@.insert(
                        request,
                        ResponseModel { body: current.body + bytes, ..current },
                    )
                } else {
                    &&& r matches Err(m) && m@ == not_started_message()
                    &&& final(self)@ == old(self)@
                },
            },
    {
        let bytes = match raw_chunk(chunk) {
            Ok(bytes) => bytes,
            Err(m) => return Err(m),
        };
        match self.builders.remove(&request) {
            None => {
                assert(self.builders@ =~= old(self).builders@);
                Err(owned("raw/response-not-started: call start! first"))
            },
            Some(mut builder) => {
                let ghost current = builder@;
                let mut i: usize = 0;
                while i < bytes.len()
                    invariant
                        i <= bytes@.len(),
                        builder@ == (ResponseModel { body: current.body + bytes@.take(i as int), ..current }),
                    decreases bytes@.len() - i,
                {
                    builder.body.push(bytes[i]);
                    i = i + 1;
                    assert(current.body + bytes@.take(i as int) =~= (current.body + bytes@.take(i - 1)).push(
                        bytes@[i - 1],
                    ));
                }
                assert(bytes@.take(i as int) =~= bytes@);
                let ghost updated = builder@;
                self.builders.insert(request, builder);
                assert(self.builders@ =~= old(self).builders@.insert(request, self.builders@[request]));
                assert(self@ =~= old(self)@.insert(request, updated));
                Ok(())
            },
        }
    }

    /// Finishes the response in progress for `request`, handing it back.
    pub fn finish(&mut self, request: u64) -> (r: Result<NativeResponse, String>)
        ensures
            old(self)@.contains_key(request) ==> (r matches Ok(response) && response@ == old(self)@[request]
                && final(self)@ == old(self)@.remove(request)),
            !old(self)@.contains_key(request) ==> (r matches Err(m) && m@ == not_started_message()
                && final(self)@ == old(self)@),
    {
        match self.builders.remove(&request) {
            None => {
                assert(self.builders@ =~= old(self).builders@);
                Err(owned("raw/response-not-started: call start! first"))
            },
            Some(builder) => {
                assert(self@ =~= old(self)@.remove(request));
                Ok(builder)
            },
        }
    }
}

} // verus!
