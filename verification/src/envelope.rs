//! The exact request and reply envelopes that pass between a console
//! client, its supervisor, the sandboxed evaluator and the application's
//! command broker, and the decisions each side takes on them.

use vstd::prelude::*;
use vstd::utf8::encode_utf8;
use crate::console::{
    call_spec, failure, failure_holds, grant_check_spec, grant_model, grant_spec,
    granted_spec, key_text, keyword_entry, map_get, map_get_spec, plain_encodings, plain_result,
    string_value, string_value_spec, success, success_holds, text_value_is, CommandSet,
    ConsoleGrant, ConsoleLimits, GrantModel, REQUEST_PROTOCOL,
};
use crate::hal::{map_entries, HalValue};
use crate::sandbox::WaitEvent;
use crate::text_set::{lemma_sorted_of, sorted_of};
use crate::text::{owned, push_str, same_text};

verus! {

/// The text of a map field that is a keyword or string.
pub open spec fn field_text(value: HalValue, name: Seq<char>) -> Option<Seq<char>> {
    match map_get_spec(value, name) {
        Some(field) => key_text(field),
        None => None,
    }
}

pub open spec fn entry_count(value: HalValue) -> Option<nat> {
    match map_entries(value) {
        Some(entries) => Some(entries.len()),
        None => None,
    }
}

pub open spec fn plain(r: Result<(), String>) -> Result<(), Seq<char>> {
    match r {
        Ok(()) => Ok(()),
        Err(m) => Err(m@),
    }
}

fn field_text_of(value: &HalValue, name: &str) -> (r: Option<String>)
    ensures
        match r {
            Some(text) => field_text(*value, name@) == Some(text@),
            None => field_text(*value, name@) is None,
        },
{
    match map_get(value, name) {
        Some(field) => match string_value(field) {
            Ok(text) => Some(text),
            Err(_) => None,
        },
        None => None,
    }
}

fn field_is(value: &HalValue, name: &str, expected: &str) -> (r: bool)
    ensures
        r == (field_text(*value, name@) == Some(expected@)),
{
    match field_text_of(value, name) {
        Some(text) => same_text(text.as_str(), expected),
        None => false,
    }
}

fn count_entries(value: &HalValue) -> (r: Option<usize>)
    ensures
        match r {
            Some(n) => entry_count(*value) == Some(n as nat),
            None => entry_count(*value) is None,
        },
{
    match value {
        HalValue::Mapping(entries) => Some(entries.len()),
        _ => None,
    }
}

/// The text before the first `:` of an error, or the whole error.
pub open spec fn error_code_spec(error: Seq<char>) -> Seq<char>
    decreases error.len(),
{
    if error.len() == 0 || error[0] == ':' {
        Seq::empty()
    } else {
        seq![error[0]] + error_code_spec(error.drop_first())
    }
}

/// The code of a console error: the text before its first `:`.
pub fn error_code(error: &str) -> (code: String)
    ensures
        code@ == error_code_spec(error@),
{
    let chars = crate::text::chars_of(error);
    let mut code = String::new();
    let mut i: usize = 0;
    assert(error@.skip(0) =~= error@);
    while i < chars.len() && chars[i] != ':'
        invariant
            i <= chars@.len(),
            chars@ == error@,
            error_code_spec(error@) == code@ + error_code_spec(error@.skip(i as int)),
        decreases chars@.len() - i,
    {
        assert(error@.skip(i as int).drop_first() =~= error@.skip(i + 1));
        crate::text::push_char(&mut code, chars[i]);
        i = i + 1;
        assert(code@ + error_code_spec(error@.skip(i as int)) =~= error_code_spec(error@));
    }
    code
}

// ---------------------------------------------------------------------------
// Client to supervisor
// ---------------------------------------------------------------------------

/// An evaluation request is exactly `{:op "eval" :source <string>}` with a
/// source of at most `maximum_source` bytes.
pub open spec fn eval_request_spec(request: HalValue, maximum_source: usize) -> Result<(), Seq<char>> {
    match entry_count(request) {
        None => Err("hoplite.console/request-invalid: evaluation request must be a map"@),
        Some(n) => if n != 2 {
            Err("hoplite.console/request-invalid: evaluation request must contain exactly op and source"@)
        } else if field_text(request, "op"@) != Some("eval"@) {
            Err("hoplite.console/request-invalid: unsupported evaluation operation"@)
        } else {
            match map_get_spec(request, "source"@) {
                Some(HalValue::String(source)) => if encode_utf8(source@).len() > maximum_source {
                    Err("hoplite.console/source-too-large"@)
                } else {
                    Ok(())
                },
                _ => Err("hoplite.console/request-invalid: source must be a string"@),
            }
        },
    }
}

pub fn validate_eval_request(request: &HalValue, maximum_source: usize) -> (r: Result<(), String>)
    ensures
        plain(r) == eval_request_spec(*request, maximum_source),
{
    let n = match count_entries(request) {
        Some(n) => n,
        None => return Err(owned("hoplite.console/request-invalid: evaluation request must be a map")),
    };
    if n != 2 {
        return Err(owned("hoplite.console/request-invalid: evaluation request must contain exactly op and source"));
    }
    if !field_is(request, "op", "eval") {
        return Err(owned("hoplite.console/request-invalid: unsupported evaluation operation"));
    }
    match map_get(request, "source") {
        Some(HalValue::String(source)) => if source.as_str().as_bytes().len() > maximum_source {
            Err(owned("hoplite.console/source-too-large"))
        } else {
            Ok(())
        },
        _ => Err(owned("hoplite.console/request-invalid: source must be a string")),
    }
}

/// A cancellation is exactly `{:op "cancel"}`.
pub open spec fn cancel_request_spec(value: HalValue) -> bool {
    entry_count(value) == Some(1nat) && field_text(value, "op"@) == Some("cancel"@)
}

pub fn cancel_request(value: &HalValue) -> (r: bool)
    ensures
        r == cancel_request_spec(*value),
{
    match count_entries(value) {
        Some(n) => n == 1 && field_is(value, "op", "cancel"),
        None => false,
    }
}

/// What the supervisor answers a client that writes while an evaluation
/// is running: a cancellation cancels it; anything else is refused.
pub fn cancellation_reply(cancellation: Option<&HalValue>) -> (reply: HalValue)
    ensures
        match cancellation {
            Some(request) if cancel_request_spec(*request) => failure_holds(
                reply,
                "hoplite.console/evaluation-cancelled"@,
                "active evaluation was cancelled"@,
            ),
            _ => failure_holds(
                reply,
                "hoplite.console/evaluation-active"@,
                "only one evaluation may be active on a console connection"@,
            ),
        },
{
    let cancelled = match cancellation {
        Some(request) => cancel_request(request),
        None => false,
    };
    if cancelled {
        failure("hoplite.console/evaluation-cancelled", "active evaluation was cancelled")
    } else {
        failure(
            "hoplite.console/evaluation-active",
            "only one evaluation may be active on a console connection",
        )
    }
}

// ---------------------------------------------------------------------------
// Replies
// ---------------------------------------------------------------------------

/// The failure text of a `{:ok false :error {..}}` reply: the code (or
/// `hoplite.console/call-failed`), `: `, and the message (or the code).
pub open spec fn reply_failure_text(error: HalValue) -> Seq<char> {
    let code = match field_text(error, "code"@) {
        Some(code) => code,
        None => "hoplite.console/call-failed"@,
    };
    let message = match field_text(error, "message"@) {
        Some(message) => message,
        None => code,
    };
    code + ": "@ + message
}

/// What a reply carries: the value of `{:ok true :value v}`, or the
/// failure of `{:ok false :error e}`; the three texts name a reply that
/// lacks its value, its error, or a boolean `:ok`.
pub open spec fn reply_spec(
    response: HalValue,
    missing_value: Seq<char>,
    missing_error: Seq<char>,
    missing_ok: Seq<char>,
) -> Result<HalValue, Seq<char>> {
    match map_get_spec(response, "ok"@) {
        Some(HalValue::Bool(true)) => match map_get_spec(response, "value"@) {
            Some(value) => Ok(value),
            None => Err(missing_value),
        },
        Some(HalValue::Bool(false)) => match map_get_spec(response, "error"@) {
            Some(error) => Err(reply_failure_text(error)),
            None => Err(missing_error),
        },
        _ => Err(missing_ok),
    }
}

pub open spec fn reply_result(r: Result<&HalValue, String>) -> Result<HalValue, Seq<char>> {
    match r {
        Ok(value) => Ok(*value),
        Err(m) => Err(m@),
    }
}

fn reply_value<'a>(response: &'a HalValue, missing_value: &str, missing_error: &str, missing_ok: &str) -> (r: Result<&'a HalValue, String>)
    ensures
        reply_result(r) == reply_spec(*response, missing_value@, missing_error@, missing_ok@),
{
    match map_get(response, "ok") {
        Some(HalValue::Bool(true)) => match map_get(response, "value") {
            Some(value) => Ok(value),
            None => Err(owned(missing_value)),
        },
        Some(HalValue::Bool(false)) => {
            let error = match map_get(response, "error") {
                Some(error) => error,
                None => return Err(owned(missing_error)),
            };
            let code = match field_text_of(error, "code") {
                Some(code) => code,
                None => owned("hoplite.console/call-failed"),
            };
            let message = match field_text_of(error, "message") {
                Some(message) => message,
                None => code.clone(),
            };
            let mut text = code;
            push_str(&mut text, ": ");
            push_str(&mut text, message.as_str());
            Err(text)
        },
        _ => Err(owned(missing_ok)),
    }
}

/// The value of an evaluator or broker reply to the supervisor.
pub fn response_result(response: &HalValue) -> (r: Result<&HalValue, String>)
    ensures
        reply_result(r) == reply_spec(
            *response,
            "console response is missing its value"@,
            "console response is missing its error"@,
            "console response is missing boolean ok"@,
        ),
{
    reply_value(
        response,
        "console response is missing its value",
        "console response is missing its error",
        "console response is missing boolean ok",
    )
}

/// The value of the supervisor's reply to a call from the evaluator.
pub fn broker_result(response: &HalValue) -> (r: Result<&HalValue, String>)
    ensures
        reply_result(r) == reply_spec(
            *response,
            "hoplite.console/broker-response-invalid: missing value"@,
            "hoplite.console/broker-response-invalid: missing error"@,
            "hoplite.console/broker-response-invalid: missing boolean ok"@,
        ),
{
    reply_value(
        response,
        "hoplite.console/broker-response-invalid: missing value",
        "hoplite.console/broker-response-invalid: missing error",
        "hoplite.console/broker-response-invalid: missing boolean ok",
    )
}

// ---------------------------------------------------------------------------
// The application's command broker
// ---------------------------------------------------------------------------

pub open spec fn broker_field(name: Seq<char>) -> bool {
    name == "op"@ || name == "grant"@ || name == "command"@ || name == "input"@
}

/// The refusal of the first key, from `from` on, that is not text or not a
/// field of a broker call.
pub open spec fn broker_key_error(entries: Seq<(HalValue, HalValue)>, from: int) -> Option<Seq<char>>
    decreases entries.len() - from,
{
    if from < 0 || from >= entries.len() {
        None
    } else {
        match key_text(entries[from].0) {
            None => Some("hoplite.console/request-invalid: application broker keys must be text"@),
            Some(name) => if !broker_field(name) {
                Some(
                    "hoplite.console/request-invalid: unsupported application broker field "@
                        + crate::text::debug_text(name),
                )
            } else {
                broker_key_error(entries, from + 1)
            },
        }
    }
}

/// A call to the application's broker is exactly `{:op "call" :grant ..
/// :command .. :input ..}`.
pub open spec fn call_request_spec(request: HalValue) -> Result<(), Seq<char>> {
    match map_entries(request) {
        None => Err("hoplite.console/request-invalid: application broker request must be a map"@),
        Some(entries) => if entries.len() != 4 {
            Err(
                "hoplite.console/request-invalid: application broker request must contain exactly op, grant, command and input"@,
            )
        } else {
            match broker_key_error(entries, 0) {
                Some(m) => Err(m),
                None => if field_text(request, "op"@) != Some("call"@) {
                    Err("hoplite.console/operation-unlisted"@)
                } else if map_get_spec(request, "grant"@) is None || map_get_spec(request, "command"@) is None
                    || map_get_spec(request, "input"@) is None {
                    Err("hoplite.console/request-invalid: application broker call is incomplete"@)
                } else {
                    Ok(())
                },
            }
        },
    }
}

pub fn validate_call_request(request: &HalValue) -> (r: Result<(), String>)
    ensures
        plain(r) == call_request_spec(*request),
{
    let entries = match request {
        HalValue::Mapping(entries) => entries,
        _ => return Err(owned("hoplite.console/request-invalid: application broker request must be a map")),
    };
    if entries.len() != 4 {
        return Err(owned("hoplite.console/request-invalid: application broker request must contain exactly op, grant, command and input"));
    }
    let mut i: usize = 0;
    while i < entries.len()
        invariant
            i <= entries@.len(),
            *request == HalValue::Mapping(*entries),
            entries@.len() == 4,
            broker_key_error(entries@, 0) == broker_key_error(entries@, i as int),
        decreases entries@.len() - i,
    {
        let name = match string_value(&entries[i].0) {
            Ok(name) => name,
            Err(_) => return Err(owned("hoplite.console/request-invalid: application broker keys must be text")),
        };
        let n = name.as_str();
        if !(same_text(n, "op") || same_text(n, "grant") || same_text(n, "command") || same_text(n, "input")) {
            let mut m = owned("hoplite.console/request-invalid: unsupported application broker field ");
            push_str(&mut m, crate::text::debug_quoted(n).as_str());
            return Err(m);
        }
        i = i + 1;
    }
    if !field_is(request, "op", "call") {
        return Err(owned("hoplite.console/operation-unlisted"));
    }
    if map_get(request, "grant").is_none() || map_get(request, "command").is_none() || map_get(
        request,
        "input",
    ).is_none() {
        return Err(owned("hoplite.console/request-invalid: application broker call is incomplete"));
    }
    Ok(())
}

/// The envelope a prepared HAL command function receives: `{:grant ..
/// :command .. :input ..}`.
pub open spec fn call_envelope_holds(envelope: HalValue, grant: HalValue, command: Seq<char>, input: HalValue) -> bool {
    match envelope {
        HalValue::Mapping(entries) => {
            let e = entries@;
            &&& e.len() == 3
            &&& keyword_entry(e[0], "grant"@) && e[0].1 == grant
            &&& keyword_entry(e[1], "command"@) && text_value_is(e[1].1, command)
            &&& keyword_entry(e[2], "input"@) && e[2].1 == input
        },
        _ => false,
    }
}

pub fn call_envelope(grant: HalValue, command: &str, input: HalValue) -> (envelope: HalValue)
    ensures
        call_envelope_holds(envelope, grant, command@, input),
{
    HalValue::Mapping(vec![
        (HalValue::Keyword(owned("grant")), grant),
        (HalValue::Keyword(owned("command")), HalValue::String(owned(command))),
        (HalValue::Keyword(owned("input")), input),
    ])
}

/// A bounded, immutable command result: the handler's failure, the
/// encoder's refusal, a result over `maximum` encoded bytes, or the value.
pub open spec fn command_result_spec(result: Result<HalValue, Seq<char>>, encoded: Result<usize, Seq<char>>, maximum: usize) -> Result<HalValue, Seq<char>> {
    match result {
        Err(m) => Err(m),
        Ok(value) => match encoded {
            Err(error) => Err("hoplite.console/result-not-immutable: "@ + error),
            Ok(length) => if length > maximum {
                Err("hoplite.console/result-too-large"@)
            } else {
                Ok(value)
            },
        },
    }
}

pub open spec fn value_result(r: Result<HalValue, String>) -> Result<HalValue, Seq<char>> {
    match r {
        Ok(v) => Ok(v),
        Err(m) => Err(m@),
    }
}

/// Checks what a command returned; `encoded` is its encoded length, or the
/// encoder's refusal.
pub fn command_result(result: Result<HalValue, String>, encoded: Result<usize, String>, maximum: usize) -> (r: Result<HalValue, String>)
    ensures
        value_result(r) == command_result_spec(value_result(result), plain_result(encoded), maximum),
{
    let value = match result {
        Err(m) => return Err(m),
        Ok(value) => value,
    };
    match encoded {
        Err(error) => {
            let mut m = owned("hoplite.console/result-not-immutable: ");
            push_str(&mut m, error.as_str());
            Err(m)
        },
        Ok(length) => if length > maximum {
            Err(owned("hoplite.console/result-too-large"))
        } else {
            Ok(value)
        },
    }
}

/// The reply for a result: its value, or a failure under the error's code.
pub fn result_reply(result: Result<HalValue, String>) -> (reply: HalValue)
    ensures
        match result {
            Ok(value) => success_holds(reply, value),
            Err(error) => failure_holds(reply, error_code_spec(error@), error@),
        },
{
    match result {
        Ok(value) => success(value),
        Err(error) => {
            let code = error_code(error.as_str());
            failure(code.as_str(), error.as_str())
        },
    }
}

// ---------------------------------------------------------------------------
// The evaluator
// ---------------------------------------------------------------------------

/// A client call from the evaluator is exactly `{:protocol .. :command ..
/// :input ..}` under the request protocol, with a command of 1 to 128
/// bytes and an immutable input (`input_encoding`: the encoder's refusal,
/// if any).
pub open spec fn client_call_spec(request: HalValue, input_encoding: Result<(), Seq<char>>) -> Result<(), Seq<char>> {
    match entry_count(request) {
        None => Err("hoplite.console/request-invalid: request must be a map"@),
        Some(n) => if n != 3 {
            Err("hoplite.console/request-invalid: request must contain exactly protocol, command and input"@)
        } else {
            match map_get_spec(request, "protocol"@) {
                None => Err("hoplite.console/request-invalid: missing protocol"@),
                Some(protocol) => match string_value_spec(protocol) {
                    Err(m) => Err(m),
                    Ok(protocol) => if protocol != REQUEST_PROTOCOL@ {
                        Err("hoplite.console/request-invalid: unsupported request protocol"@)
                    } else {
                        match map_get_spec(request, "command"@) {
                            None => Err("hoplite.console/request-invalid: missing command"@),
                            Some(command) => match string_value_spec(command) {
                                Err(m) => Err(m),
                                Ok(command) => if command.len() == 0 || encode_utf8(command).len() > 128 {
                                    Err("hoplite.console/request-invalid: invalid command name"@)
                                } else if map_get_spec(request, "input"@) is None {
                                    Err("hoplite.console/request-invalid: missing input"@)
                                } else {
                                    match input_encoding {
                                        Err(error) => Err("hoplite.console/input-not-immutable: "@ + error),
                                        Ok(()) => Ok(()),
                                    }
                                },
                            },
                        }
                    },
                },
            }
        },
    }
}

pub fn validate_client_call(request: &HalValue, input_encoding: Result<(), String>) -> (r: Result<(), String>)
    ensures
        plain(r) == client_call_spec(*request, plain(input_encoding)),
{
    let n = match count_entries(request) {
        Some(n) => n,
        None => return Err(owned("hoplite.console/request-invalid: request must be a map")),
    };
    if n != 3 {
        return Err(owned("hoplite.console/request-invalid: request must contain exactly protocol, command and input"));
    }
    let protocol = match map_get(request, "protocol") {
        Some(protocol) => protocol,
        None => return Err(owned("hoplite.console/request-invalid: missing protocol")),
    };
    let protocol = match string_value(protocol) {
        Ok(text) => text,
        Err(m) => return Err(m),
    };
    if !same_text(protocol.as_str(), REQUEST_PROTOCOL) {
        return Err(owned("hoplite.console/request-invalid: unsupported request protocol"));
    }
    let command = match map_get(request, "command") {
        Some(command) => command,
        None => return Err(owned("hoplite.console/request-invalid: missing command")),
    };
    let command = match string_value(command) {
        Ok(text) => text,
        Err(m) => return Err(m),
    };
    let size = command.as_str().as_bytes().len();
    if size == 0 || size > 128 {
        proof {
            if command@.len() > 0 {
                crate::text::lemma_encode_nonempty(command@);
            }
        }
        return Err(owned("hoplite.console/request-invalid: invalid command name"));
    }
    if map_get(request, "input").is_none() {
        return Err(owned("hoplite.console/request-invalid: missing input"));
    }
    match input_encoding {
        Err(error) => {
            let mut m = owned("hoplite.console/input-not-immutable: ");
            push_str(&mut m, error.as_str());
            Err(m)
        },
        Ok(()) => Ok(()),
    }
}

// ---------------------------------------------------------------------------
// Evaluation requests in the evaluator
// ---------------------------------------------------------------------------

/// What the evaluator does with a request.
pub enum EvaluatorStep<'a> {
    /// Evaluate this source.
    Evaluate(&'a str),
    /// Answer with this failure.
    Reply(HalValue),
}

/// The evaluator evaluates only `{:op "eval" :source <string>}` of at most
/// the configured source size; anything else is answered with a failure.
pub fn evaluator_step<'a>(request: &'a HalValue, limits: ConsoleLimits) -> (step: EvaluatorStep<'a>)
    ensures
        field_text(*request, "op"@) != Some("eval"@) ==> (step matches EvaluatorStep::Reply(reply) && failure_holds(
            reply,
            "hoplite.console/evaluation-operation-unlisted"@,
            "the evaluator accepts only eval requests"@,
        )),
        field_text(*request, "op"@) == Some("eval"@) ==> match map_get_spec(*request, "source"@) {
            Some(HalValue::String(source)) => if encode_utf8(source@).len() > limits.source_bytes {
                step matches EvaluatorStep::Reply(reply) && failure_holds(
                    reply,
                    "hoplite.console/source-too-large"@,
                    "evaluation source exceeds the configured limit"@,
                )
            } else {
                step matches EvaluatorStep::Evaluate(text) && text@ == source@
            },
            _ => step matches EvaluatorStep::Reply(reply) && failure_holds(
                reply,
                "hoplite.console/source-invalid"@,
                "evaluation source must be a string"@,
            ),
        },
{
    if !field_is(request, "op", "eval") {
        return EvaluatorStep::Reply(
            failure("hoplite.console/evaluation-operation-unlisted", "the evaluator accepts only eval requests"),
        );
    }
    match map_get(request, "source") {
        Some(HalValue::String(source)) => if source.as_str().as_bytes().len() > limits.source_bytes {
            EvaluatorStep::Reply(
                failure("hoplite.console/source-too-large", "evaluation source exceeds the configured limit"),
            )
        } else {
            EvaluatorStep::Evaluate(source.as_str())
        },
        _ => EvaluatorStep::Reply(failure("hoplite.console/source-invalid", "evaluation source must be a string")),
    }
}

/// The evaluator's reply to an evaluation.
pub fn evaluation_reply(result: Result<HalValue, String>) -> (reply: HalValue)
    ensures
        match result {
            Ok(value) => success_holds(reply, value),
            Err(error) => failure_holds(reply, "hoplite.console/evaluation-failed"@, error@),
        },
{
    match result {
        Ok(value) => success(value),
        Err(error) => failure("hoplite.console/evaluation-failed", error.as_str()),
    }
}

/// What replaces an evaluation reply that cannot be sent: `None` where its
/// encoding (`encoded`: its length, or the encoder's refusal) fits the
/// limit, else the failure to send instead.
pub fn bounded_reply(encoded: Result<usize, String>, maximum: usize) -> (replacement: Option<HalValue>)
    ensures
        match encoded {
            Ok(length) => if length <= maximum {
                replacement is None
            } else {
                replacement matches Some(reply) && failure_holds(
                    reply,
                    "hoplite.console/result-too-large"@,
                    "evaluation result exceeds the configured limit"@,
                )
            },
            Err(error) => replacement matches Some(reply) && failure_holds(
                reply,
                "hoplite.console/live-result-rejected"@,
                "evaluation returned a non-transferable live value: "@ + error@,
            ),
        },
{
    match encoded {
        Ok(length) => if length <= maximum {
            None
        } else {
            Some(failure("hoplite.console/result-too-large", "evaluation result exceeds the configured limit"))
        },
        Err(error) => {
            let mut m = owned("evaluation returned a non-transferable live value: ");
            push_str(&mut m, error.as_str());
            Some(failure("hoplite.console/live-result-rejected", m.as_str()))
        },
    }
}

pub const EVALUATOR_READY_PROTOCOL: &'static str = "hoplite.console-evaluator-ready/0-alpha";
pub const CONNECTION_READY_PROTOCOL: &'static str = "hoplite.console-ready/0-alpha";

/// The evaluator's handshake: `{:ok true :value {:protocol ..
/// :namespace .. :authority :zero}}`.
pub fn evaluator_ready(namespace: &str) -> (reply: HalValue)
    ensures
        reply matches HalValue::Mapping(entries) && entries@.len() == 2 && (match entries@[1].1 {
            HalValue::Mapping(fields) => {
                let f = fields@;
                &&& f.len() == 3
                &&& keyword_entry(f[0], "protocol"@) && text_value_is(f[0].1, EVALUATOR_READY_PROTOCOL@)
                &&& keyword_entry(f[1], "namespace"@) && text_value_is(f[1].1, namespace@)
                &&& keyword_entry(f[2], "authority"@)
                &&& (f[2].1 matches HalValue::Keyword(k) && k@ == "zero"@)
            },
            _ => false,
        }),
        success_holds(reply, reply->Mapping_0@[1].1),
{
    success(
        HalValue::Mapping(vec![
            (HalValue::Keyword(owned("protocol")), HalValue::String(owned(EVALUATOR_READY_PROTOCOL))),
            (HalValue::Keyword(owned("namespace")), HalValue::String(owned(namespace))),
            (HalValue::Keyword(owned("authority")), HalValue::Keyword(owned("zero"))),
        ]),
    )
}

// ---------------------------------------------------------------------------
// The supervisor's connection
// ---------------------------------------------------------------------------

/// What the supervisor does when a wait ends before the evaluator's
/// handshake: read the handshake, or give up (stopping the evaluator).
pub fn startup_step(event: WaitEvent) -> (r: Result<(), String>)
    ensures
        match event {
            WaitEvent::EvaluatorReadable => r is Ok,
            WaitEvent::ClientClosed => r matches Err(m) && m@ == "console client disconnected during evaluator startup"@,
            WaitEvent::ClientReadable => r matches Err(m) && m@ == "console client sent source before the ready handshake"@,
            WaitEvent::Timeout => r matches Err(m) && m@ == "console evaluator startup timed out"@,
            WaitEvent::EvaluatorClosed => r matches Err(m) && m@ == "console evaluator terminated during startup"@,
        },
{
    match event {
        WaitEvent::EvaluatorReadable => Ok(()),
        WaitEvent::ClientClosed => Err(owned("console client disconnected during evaluator startup")),
        WaitEvent::ClientReadable => Err(owned("console client sent source before the ready handshake")),
        WaitEvent::Timeout => Err(owned("console evaluator startup timed out")),
        WaitEvent::EvaluatorClosed => Err(owned("console evaluator terminated during startup")),
    }
}

/// The evaluator's handshake value must name the evaluator-ready protocol.
pub fn check_ready_handshake(value: &HalValue) -> (r: Result<(), String>)
    ensures
        match r {
            Ok(()) => field_text(*value, "protocol"@) == Some(EVALUATOR_READY_PROTOCOL@),
            Err(m) => field_text(*value, "protocol"@) != Some(EVALUATOR_READY_PROTOCOL@) && m@
                == "console evaluator returned an invalid startup handshake"@,
        },
{
    if !field_is(value, "protocol", EVALUATOR_READY_PROTOCOL) {
        return Err(owned("console evaluator returned an invalid startup handshake"));
    }
    Ok(())
}

/// What the supervisor does when a wait ends during an evaluation.
#[derive(Debug)]
pub enum EvaluationStep {
    /// Read the evaluator's result and relay it to the client.
    RelayResult,
    /// Read what the client sent, answer it with `cancellation_reply`, and
    /// close.
    AnswerClient,
    /// The client went away: close.
    Close,
    /// Send the client this failure and close.
    Fail(HalValue),
}

pub fn evaluation_step(event: WaitEvent) -> (step: EvaluationStep)
    ensures
        match event {
            WaitEvent::EvaluatorReadable => step is RelayResult,
            WaitEvent::ClientClosed => step is Close,
            WaitEvent::ClientReadable => step is AnswerClient,
            WaitEvent::Timeout => step matches EvaluationStep::Fail(reply) && failure_holds(
                reply,
                "hoplite.console/evaluation-timeout"@,
                "evaluation exceeded its configured wall-clock limit"@,
            ),
            WaitEvent::EvaluatorClosed => step matches EvaluationStep::Fail(reply) && failure_holds(
                reply,
                "hoplite.console/evaluator-terminated"@,
                "evaluator exited or violated a resource policy"@,
            ),
        },
{
    match event {
        WaitEvent::EvaluatorReadable => EvaluationStep::RelayResult,
        WaitEvent::ClientClosed => EvaluationStep::Close,
        WaitEvent::ClientReadable => EvaluationStep::AnswerClient,
        WaitEvent::Timeout => EvaluationStep::Fail(
            failure("hoplite.console/evaluation-timeout", "evaluation exceeded its configured wall-clock limit"),
        ),
        WaitEvent::EvaluatorClosed => EvaluationStep::Fail(
            failure("hoplite.console/evaluator-terminated", "evaluator exited or violated a resource policy"),
        ),
    }
}

/// The supervisor's greeting once the evaluator is ready: the protocol and
/// the connection's limits.
pub fn connection_ready(limits: ConsoleLimits) -> (reply: HalValue)
    ensures
        reply matches HalValue::Mapping(entries) && entries@.len() == 2 && (match entries@[1].1 {
            HalValue::Mapping(fields) => {
                let f = fields@;
                &&& f.len() == 5
                &&& keyword_entry(f[0], "protocol"@) && text_value_is(f[0].1, CONNECTION_READY_PROTOCOL@)
                &&& keyword_entry(f[1], "source-bytes"@) && f[1].1 == HalValue::Number(limits.source_bytes as i64)
                &&& keyword_entry(f[2], "result-bytes"@) && f[2].1 == HalValue::Number(limits.result_bytes as i64)
                &&& keyword_entry(f[3], "evaluation-millis"@) && f[3].1 == HalValue::Number(
                    limits.evaluation_millis as i64,
                )
                &&& keyword_entry(f[4], "memory-bytes"@) && f[4].1 == HalValue::Number(limits.memory_bytes as i64)
            },
            _ => false,
        }),
        success_holds(reply, reply->Mapping_0@[1].1),
{
    success(
        HalValue::Mapping(vec![
            (HalValue::Keyword(owned("protocol")), HalValue::String(owned(CONNECTION_READY_PROTOCOL))),
            (HalValue::Keyword(owned("source-bytes")), HalValue::Number(limits.source_bytes as i64)),
            (HalValue::Keyword(owned("result-bytes")), HalValue::Number(limits.result_bytes as i64)),
            (HalValue::Keyword(owned("evaluation-millis")), HalValue::Number(limits.evaluation_millis as i64)),
            (HalValue::Keyword(owned("memory-bytes")), HalValue::Number(limits.memory_bytes as i64)),
        ]),
    )
}

// ---------------------------------------------------------------------------
// Calls from the evaluator, in the supervisor
// ---------------------------------------------------------------------------

/// The command and input of a well-formed client call, as the evaluator
/// passes it on: `{:op "call" :request {:protocol .. :command .. :input ..}}`.
pub open spec fn forwarded_call_spec(request: HalValue) -> Result<(Seq<char>, HalValue), Seq<char>> {
    if entry_count(request) != Some(2nat) {
        Err("hoplite.console/request-invalid"@)
    } else {
        match map_get_spec(request, "request"@) {
            None => Err("hoplite.console/request-invalid"@),
            Some(client) => if entry_count(client) != Some(3nat) {
                Err("hoplite.console/request-invalid"@)
            } else {
                match map_get_spec(client, "protocol"@) {
                    None => Err("hoplite.console/request-invalid"@),
                    Some(protocol) => match string_value_spec(protocol) {
                        Err(m) => Err(m),
                        Ok(protocol) => if protocol != REQUEST_PROTOCOL@ {
                            Err("hoplite.console/request-invalid"@)
                        } else {
                            match map_get_spec(client, "command"@) {
                                None => Err("hoplite.console/request-invalid"@),
                                Some(command) => match string_value_spec(command) {
                                    Err(m) => Err(m),
                                    Ok(command) => match map_get_spec(client, "input"@) {
                                        None => Err("hoplite.console/request-invalid"@),
                                        Some(input) => Ok((command, input)),
                                    },
                                },
                            }
                        },
                    },
                }
            },
        }
    }
}

/// What the supervisor does with a request from the evaluator.
pub enum BrokerStep<'a> {
    /// Answer with the descriptors the console is granted.
    Granted(Vec<&'a HalValue>),
    /// Pass the validated call to the application's broker.
    Forward { command: String, input: &'a HalValue },
    /// Answer with this failure.
    Refused(String),
}

/// Where the supervisor takes an evaluator request: `commands` lists the
/// granted descriptors; `call` is checked against the command set and the
/// grant (`encodable` and `encoded` describe the call's input) and passed
/// on; anything else is refused.
pub open spec fn broker_step_holds(
    set: crate::console::CommandSetView,
    grant: ConsoleGrant,
    request: HalValue,
    limits: ConsoleLimits,
    encodable: Seq<bool>,
    encoded: Result<usize, Seq<char>>,
    step: BrokerStep,
) -> bool {
    match map_get_spec(request, "op"@) {
        None => step matches BrokerStep::Refused(m) && m@ == "hoplite.console/operation-unlisted"@,
        Some(op) => match string_value_spec(op) {
            Err(e) => step matches BrokerStep::Refused(m) && m@ == e,
            Ok(op) => if op == "commands"@ {
                if entry_count(request) != Some(1nat) {
                    step matches BrokerStep::Refused(m) && m@ == "hoplite.console/commands-invalid"@
                } else {
                    step matches BrokerStep::Granted(values) && values@.len() == granted_spec(
                        set,
                        grant.commands@.to_set(),
                        grant.write,
                    ).len() && forall|i: int|
                        0 <= i < values@.len() ==> *values@[i] == granted_spec(
                            set,
                            grant.commands@.to_set(),
                            grant.write,
                        )[i]
                }
            } else if op == "call"@ {
                match forwarded_call_spec(request) {
                    Err(e) => step matches BrokerStep::Refused(m) && m@ == e,
                    Ok((command, input)) => match call_spec(
                        set,
                        grant.commands@,
                        grant.write,
                        command,
                        input,
                        limits.result_bytes,
                        encodable,
                        encoded,
                    ) {
                        Err(e) => step matches BrokerStep::Refused(m) && m@ == e,
                        Ok(()) => step matches BrokerStep::Forward { command: c, input: i } && c@ == command
                            && *i == input,
                    },
                }
            } else {
                step matches BrokerStep::Refused(m) && m@ == "hoplite.console/operation-unlisted"@
            },
        },
    }
}

fn forwarded_call<'a>(request: &'a HalValue) -> (r: Result<(String, &'a HalValue), String>)
    ensures
        match r {
            Ok((command, input)) => forwarded_call_spec(*request) == Ok::<(Seq<char>, HalValue), Seq<char>>(
                (command@, *input),
            ),
            Err(m) => forwarded_call_spec(*request) == Err::<(Seq<char>, HalValue), Seq<char>>(m@),
        },
{
    if count_entries(request) != Some(2) {
        return Err(owned("hoplite.console/request-invalid"));
    }
    let client = match map_get(request, "request") {
        Some(client) => client,
        None => return Err(owned("hoplite.console/request-invalid")),
    };
    if count_entries(client) != Some(3) {
        return Err(owned("hoplite.console/request-invalid"));
    }
    let protocol = match map_get(client, "protocol") {
        Some(protocol) => protocol,
        None => return Err(owned("hoplite.console/request-invalid")),
    };
    let protocol = match string_value(protocol) {
        Ok(text) => text,
        Err(m) => return Err(m),
    };
    if !same_text(protocol.as_str(), REQUEST_PROTOCOL) {
        return Err(owned("hoplite.console/request-invalid"));
    }
    let command = match map_get(client, "command") {
        Some(command) => command,
        None => return Err(owned("hoplite.console/request-invalid")),
    };
    let command = match string_value(command) {
        Ok(text) => text,
        Err(m) => return Err(m),
    };
    match map_get(client, "input") {
        Some(input) => Ok((command, input)),
        None => Err(owned("hoplite.console/request-invalid")),
    }
}

/// Takes a request from the evaluator. `encodable` and `encoded` describe
/// the input of a call (per entry, and as a whole).
pub fn broker_step<'a>(
    commands: &'a CommandSet,
    grant: &ConsoleGrant,
    request: &'a HalValue,
    limits: ConsoleLimits,
    encodable: &[bool],
    encoded: Result<usize, String>,
) -> (step: BrokerStep<'a>)
    ensures
        broker_step_holds(commands@, *grant, *request, limits, encodable@, plain_result(encoded), step),
{
    let op = match map_get(request, "op") {
        Some(op) => op,
        None => return BrokerStep::Refused(owned("hoplite.console/operation-unlisted")),
    };
    let op = match string_value(op) {
        Ok(text) => text,
        Err(m) => return BrokerStep::Refused(m),
    };
    if same_text(op.as_str(), "commands") {
        if count_entries(request) != Some(1) {
            return BrokerStep::Refused(owned("hoplite.console/commands-invalid"));
        }
        BrokerStep::Granted(commands.granted_value(grant))
    } else if same_text(op.as_str(), "call") {
        let (command, input) = match forwarded_call(request) {
            Ok(parts) => parts,
            Err(m) => return BrokerStep::Refused(m),
        };
        match commands.validate_call(grant, command.as_str(), input, limits.result_bytes, encodable, encoded) {
            Err(m) => BrokerStep::Refused(m),
            Ok(()) => BrokerStep::Forward { command, input },
        }
    } else {
        BrokerStep::Refused(owned("hoplite.console/operation-unlisted"))
    }
}

// ---------------------------------------------------------------------------
// Calls in the application's broker
// ---------------------------------------------------------------------------

/// What the application's dispatcher does with a broker request.
pub enum DispatchStep<'a> {
    /// Answer with the descriptors the grant allows.
    Granted(Vec<&'a HalValue>),
    /// Call the prepared HAL command function with the envelope of this
    /// grant's value, command and input.
    Invoke { grant: ConsoleGrant, command: String, input: &'a HalValue },
    /// Answer with this failure.
    Refused(String),
}

/// Where the dispatcher takes a request: `commands` re-reads the grant and
/// lists what it allows; `call` re-reads the grant and checks the call
/// against it (`encodable` and `encoded` describe the input); anything else
/// is refused.
pub open spec fn dispatch_step_holds(
    set: crate::console::CommandSetView,
    limits: ConsoleLimits,
    request: HalValue,
    encodable: Seq<bool>,
    encoded: Result<usize, Seq<char>>,
    step: DispatchStep,
) -> bool {
    let op = field_text(request, "op"@);
    if op == Some("commands"@) {
        match map_get_spec(request, "grant"@) {
            None => step matches DispatchStep::Refused(m) && m@ == "hoplite.console/grant-invalid"@,
            Some(value) => match grant_spec(value) {
                Err(e) => step matches DispatchStep::Refused(m) && m@ == e,
                Ok(grant) => match grant_check_spec(set, sorted_of(grant.commands)) {
                    Err(e) => step matches DispatchStep::Refused(m) && m@ == e,
                    Ok(()) => step matches DispatchStep::Granted(values) && values@.len() == granted_spec(
                        set,
                        grant.commands,
                        grant.write,
                    ).len() && forall|i: int|
                        0 <= i < values@.len() ==> *values@[i] == granted_spec(set, grant.commands, grant.write)[i],
                },
            },
        }
    } else if op == Some("call"@) {
        match map_get_spec(request, "grant"@) {
            None => step matches DispatchStep::Refused(m) && m@ == "hoplite.console/grant-invalid"@,
            Some(value) => match map_get_spec(request, "command"@) {
                None => step matches DispatchStep::Refused(m) && m@ == "hoplite.console/command-unlisted"@,
                Some(command) => match string_value_spec(command) {
                    Err(e) => step matches DispatchStep::Refused(m) && m@ == e,
                    Ok(command) => match map_get_spec(request, "input"@) {
                        None => step matches DispatchStep::Refused(m) && m@ == "hoplite.console/input-invalid"@,
                        Some(input) => match grant_spec(value) {
                            Err(e) => step matches DispatchStep::Refused(m) && m@ == e,
                            Ok(grant) => match call_spec(
                                set,
                                sorted_of(grant.commands),
                                grant.write,
                                command,
                                input,
                                limits.result_bytes,
                                encodable,
                                encoded,
                            ) {
                                Err(e) => step matches DispatchStep::Refused(m) && m@ == e,
                                Ok(()) => step matches DispatchStep::Invoke { grant: g, command: c, input: i }
                                    && grant_model(g) == grant && c@ == command && *i == input,
                            },
                        },
                    },
                },
            },
        }
    } else {
        step matches DispatchStep::Refused(m) && m@ == "hoplite.console/operation-unlisted"@
    }
}

/// Takes a broker request in the application's dispatcher.
pub fn dispatch_step<'a>(
    commands: &'a CommandSet,
    limits: ConsoleLimits,
    request: &'a HalValue,
    encodable: &[bool],
    encoded: Result<usize, String>,
) -> (step: DispatchStep<'a>)
    ensures
        dispatch_step_holds(commands@, limits, *request, encodable@, plain_result(encoded), step),
{
    let op = match field_text_of(request, "op") {
        Some(op) => op,
        None => return DispatchStep::Refused(owned("hoplite.console/operation-unlisted")),
    };
    if same_text(op.as_str(), "commands") {
        let value = match map_get(request, "grant") {
            Some(value) => value,
            None => return DispatchStep::Refused(owned("hoplite.console/grant-invalid")),
        };
        let grant = match ConsoleGrant::parse(value) {
            Ok(grant) => grant,
            Err(m) => return DispatchStep::Refused(m),
        };
        proof {
            lemma_sorted_of(grant.commands@);
        }
        match commands.validate_grant(&grant) {
            Err(m) => return DispatchStep::Refused(m),
            Ok(()) => {},
        }
        DispatchStep::Granted(commands.granted_value(&grant))
    } else if same_text(op.as_str(), "call") {
        let value = match map_get(request, "grant") {
            Some(value) => value,
            None => return DispatchStep::Refused(owned("hoplite.console/grant-invalid")),
        };
        let command = match map_get(request, "command") {
            Some(command) => command,
            None => return DispatchStep::Refused(owned("hoplite.console/command-unlisted")),
        };
        let command = match string_value(command) {
            Ok(text) => text,
            Err(m) => return DispatchStep::Refused(m),
        };
        let input = match map_get(request, "input") {
            Some(input) => input,
            None => return DispatchStep::Refused(owned("hoplite.console/input-invalid")),
        };
        let grant = match ConsoleGrant::parse(value) {
            Ok(grant) => grant,
            Err(m) => return DispatchStep::Refused(m),
        };
        proof {
            lemma_sorted_of(grant.commands@);
        }
        match commands.validate_call(&grant, command.as_str(), input, limits.result_bytes, encodable, encoded) {
            Err(m) => DispatchStep::Refused(m),
            Ok(()) => DispatchStep::Invoke { grant, command, input },
        }
    } else {
        DispatchStep::Refused(owned("hoplite.console/operation-unlisted"))
    }
}

// ---------------------------------------------------------------------------
// Configuration
// ---------------------------------------------------------------------------

/// A Unix path is absolute when it starts at the root.
pub open spec fn is_absolute(path: Seq<char>) -> bool {
    path.len() > 0 && path[0] == '/'
}

fn absolute(path: &str) -> (r: bool)
    ensures
        r == is_absolute(path@),
{
    let chars = crate::text::chars_of(path);
    chars.len() > 0 && chars[0] == '/'
}

/// Where the application's private console broker listens, and its limits.
#[derive(Clone, Debug)]
pub struct ApplicationBrokerConfig {
    pub socket_path: String,
    pub limits: ConsoleLimits,
}

impl ApplicationBrokerConfig {
    /// Valid limits and an absolute socket path.
    pub fn validate(&self) -> (r: Result<(), String>)
        ensures
            match r {
                Ok(()) => crate::console::console_limits_error(self.limits) is None && is_absolute(
                    self.socket_path@,
                ),
                Err(m) => match crate::console::console_limits_error(self.limits) {
                    Some(expected) => m@ == expected@,
                    None => !is_absolute(self.socket_path@) && m@
                        == "application console broker socket must be absolute"@,
                },
            },
    {
        match self.limits.validate() {
            Err(m) => return Err(m),
            Ok(_) => {},
        }
        if !absolute(self.socket_path.as_str()) {
            return Err(owned("application console broker socket must be absolute"));
        }
        Ok(())
    }
}

/// How the supervisor reaches the application's console broker.
#[derive(Clone, Debug)]
pub struct UnixCommandBroker {
    pub socket_path: String,
    pub maximum_bytes: usize,
    pub timeout_millis: u64,
}

impl UnixCommandBroker {
    /// The call the supervisor sends: `{:op "call" :grant .. :command ..
    /// :input ..}`.
    pub fn call_request(&self, grant: HalValue, command: &str, input: HalValue) -> (request: HalValue)
        ensures
            match request {
                HalValue::Mapping(entries) => {
                    let e = entries@;
                    &&& e.len() == 4
                    &&& keyword_entry(e[0], "op"@) && text_value_is(e[0].1, "call"@)
                    &&& keyword_entry(e[1], "grant"@) && e[1].1 == grant
                    &&& keyword_entry(e[2], "command"@) && text_value_is(e[2].1, command@)
                    &&& keyword_entry(e[3], "input"@) && e[3].1 == input
                },
                _ => false,
            },
    {
        HalValue::Mapping(vec![
            (HalValue::Keyword(owned("op")), HalValue::String(owned("call"))),
            (HalValue::Keyword(owned("grant")), grant),
            (HalValue::Keyword(owned("command")), HalValue::String(owned(command))),
            (HalValue::Keyword(owned("input")), input),
        ])
    }
}

/// What a console supervisor runs with.
#[derive(Clone, Debug)]
pub struct SupervisorConfig {
    pub socket_path: String,
    pub evaluator_path: String,
    pub bundle_path: String,
    pub client_namespace: String,
    pub descriptors_hta: Vec<u8>,
    pub grant_hta: Vec<u8>,
    pub limits: ConsoleLimits,
}

impl SupervisorConfig {
    /// The checks that need no file: valid limits and an absolute
    /// evaluator path.
    pub fn validate_settings(&self) -> (r: Result<(), String>)
        ensures
            match r {
                Ok(()) => crate::console::console_limits_error(self.limits) is None && is_absolute(
                    self.evaluator_path@,
                ),
                Err(m) => match crate::console::console_limits_error(self.limits) {
                    Some(expected) => m@ == expected@,
                    None => !is_absolute(self.evaluator_path@) && m@ == "console evaluator path must be absolute"@,
                },
            },
    {
        match self.limits.validate() {
            Err(m) => return Err(m),
            Ok(_) => {},
        }
        if !absolute(self.evaluator_path.as_str()) {
            return Err(owned("console evaluator path must be absolute"));
        }
        Ok(())
    }
}

/// Reads a console's descriptor bundle and grant and checks that the grant
/// names only listed commands (`encodings`: what encoding each descriptor
/// as immutable HTA gave).
pub fn console_documents(
    descriptors: HalValue,
    encodings: &[Result<(), String>],
    grant: &HalValue,
) -> (r: Result<(CommandSet, ConsoleGrant), String>)
    ensures
        match crate::console::command_set_spec(descriptors, plain_encodings(encodings@)) {
            Err(e) => r matches Err(m) && m@ == e,
            Ok(models) => match grant_spec(*grant) {
                Err(e) => r matches Err(m) && m@ == e,
                Ok(g) => match crate::console::first_missing(
                    sorted_of(g.commands),
                    crate::console::command_names(models),
                    0,
                ) {
                    Some(c) => r matches Err(m) && m@ == "hoplite.console/grant-invalid: unknown command "@
                        + crate::text::debug_text(c),
                    None => r matches Ok((set, parsed)) && set@.descriptors.map_values(
                        |d: crate::console::DescriptorView| crate::console::descriptor_model(d),
                    ) == models && grant_model(parsed) == g && parsed.commands@ == sorted_of(g.commands),
                },
            },
        },
{
    let set = match CommandSet::parse(descriptors, encodings) {
        Ok(set) => set,
        Err(m) => return Err(m),
    };
    let parsed = match ConsoleGrant::parse(grant) {
        Ok(parsed) => parsed,
        Err(m) => return Err(m),
    };
    proof {
        lemma_sorted_of(parsed.commands@);
    }
    match set.validate_grant(&parsed) {
        Err(m) => Err(m),
        Ok(()) => Ok((set, parsed)),
    }
}

// ---------------------------------------------------------------------------
// Laws
// ---------------------------------------------------------------------------

/// The supervisor passes on only calls the console may make: a forwarded
/// call is for a listed command that the grant names, a write command only
/// under a write grant, with an input its schema accepts.
pub proof fn law_forwarded_calls_are_granted(
    set: crate::console::CommandSetView,
    grant: ConsoleGrant,
    request: HalValue,
    limits: ConsoleLimits,
    encodable: Seq<bool>,
    encoded: Result<usize, Seq<char>>,
    step: BrokerStep,
)
    requires
        broker_step_holds(set, grant, request, limits, encodable, encoded, step),
        step is Forward,
    ensures
        step matches BrokerStep::Forward { command, input } && crate::console::find_descriptor(
            set.descriptors,
            command@,
        ) matches Some(descriptor) && {
            &&& grant.commands@.contains(command@)
            &&& (descriptor.effect == crate::console::CommandEffect::Write ==> grant.write)
            &&& crate::console::validate_spec(descriptor.input, *input, encodable) is Ok
        },
{
    reveal_strlit("commands");
    reveal_strlit("call");
    let (command, input) = forwarded_call_spec(request)->Ok_0;
    crate::console::law_accepted_calls_are_granted(
        set,
        grant.commands@,
        grant.write,
        command,
        input,
        limits.result_bytes,
        encodable,
        encoded,
    );
}

/// The application's dispatcher invokes its HAL command only for calls the
/// grant it re-read allows: a listed command that the grant names, a write
/// command only under a write grant, with an input its schema accepts.
pub proof fn law_invoked_calls_are_granted(
    set: crate::console::CommandSetView,
    limits: ConsoleLimits,
    request: HalValue,
    encodable: Seq<bool>,
    encoded: Result<usize, Seq<char>>,
    step: DispatchStep,
)
    requires
        dispatch_step_holds(set, limits, request, encodable, encoded, step),
        step is Invoke,
    ensures
        step matches DispatchStep::Invoke { grant, command, input } && crate::console::find_descriptor(
            set.descriptors,
            command@,
        ) matches Some(descriptor) && {
            &&& sorted_of(grant_model(grant).commands).contains(command@)
            &&& (descriptor.effect == crate::console::CommandEffect::Write ==> grant.write)
            &&& crate::console::validate_spec(descriptor.input, *input, encodable) is Ok
        },
{
    reveal_strlit("commands");
    reveal_strlit("call");
    let g = grant_spec(map_get_spec(request, "grant"@)->Some_0)->Ok_0;
    let command = string_value_spec(map_get_spec(request, "command"@)->Some_0)->Ok_0;
    let input = map_get_spec(request, "input"@)->Some_0;
    crate::console::law_accepted_calls_are_granted(
        set,
        sorted_of(g.commands),
        g.write,
        command,
        input,
        limits.result_bytes,
        encodable,
        encoded,
    );
}

} // verus!
