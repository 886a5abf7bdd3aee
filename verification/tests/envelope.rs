use hoplite::console::{map_get, CommandSet, ConsoleGrant, ConsoleLimits, REQUEST_PROTOCOL};
use hoplite::envelope::{
    bounded_reply, broker_result, broker_step, call_envelope, cancel_request, cancellation_reply,
    check_ready_handshake, command_result, connection_ready, console_documents, dispatch_step,
    error_code, evaluation_reply, evaluation_step, evaluator_ready, evaluator_step,
    response_result, result_reply, startup_step, validate_call_request, validate_client_call,
    validate_eval_request, ApplicationBrokerConfig, BrokerStep, DispatchStep, EvaluationStep,
    EvaluatorStep, SupervisorConfig, UnixCommandBroker,
};
use hoplite::hal::HalValue;
use hoplite::sandbox::WaitEvent;
use hoplite::text_set::TextSet;

fn map_value(entries: Vec<(&str, HalValue)>) -> HalValue {
    HalValue::Mapping(
        entries
            .into_iter()
            .map(|(key, value)| (HalValue::Keyword(key.into()), value))
            .collect(),
    )
}

fn string(text: &str) -> HalValue {
    HalValue::String(text.into())
}

fn descriptor(command: &str, effect: &str) -> HalValue {
    map_value(vec![
        ("command", string(command)),
        ("effect", HalValue::Keyword(effect.into())),
        (
            "input",
            map_value(vec![
                ("type", HalValue::Keyword("map".into())),
                ("required", HalValue::Members(vec![])),
                ("optional", HalValue::Members(vec![])),
            ]),
        ),
    ])
}

fn commands() -> CommandSet {
    CommandSet::parse(
        HalValue::Vector(vec![descriptor("status", "read"), descriptor("quit", "write")]),
        &[Ok(()), Ok(())],
    )
    .unwrap()
}

fn grant(write: bool) -> ConsoleGrant {
    let mut commands = TextSet::new();
    commands.insert("status".into());
    commands.insert("quit".into());
    ConsoleGrant { console: "console.test".into(), commands, write }
}

fn grant_value(write: bool) -> HalValue {
    grant(write).to_value()
}

fn code_of(reply: &HalValue) -> String {
    let error = map_get(reply, "error").expect("a failure reply");
    match map_get(error, "code") {
        Some(HalValue::String(code)) => code.clone(),
        other => panic!("unexpected code {other:?}"),
    }
}

fn forwarded(command: &str) -> HalValue {
    map_value(vec![
        ("op", string("call")),
        (
            "request",
            map_value(vec![
                ("protocol", string(REQUEST_PROTOCOL)),
                ("command", string(command)),
                ("input", map_value(vec![])),
            ]),
        ),
    ])
}

fn refused(step: BrokerStep) -> String {
    match step {
        BrokerStep::Refused(error) => error,
        BrokerStep::Granted(values) => panic!("unexpected grant of {} values", values.len()),
        BrokerStep::Forward { command, .. } => panic!("unexpected forward of {command}"),
    }
}

#[test]
fn supervisor_revalidates_unlisted_and_write_calls() {
    let commands = commands();
    let grant = grant(false);
    let unlisted = forwarded("runtime.eval");
    assert_eq!(
        refused(broker_step(&commands, &grant, &unlisted, ConsoleLimits::default(), &[], Ok(8))),
        "hoplite.console/command-unlisted"
    );
    let write = forwarded("quit");
    assert_eq!(
        refused(broker_step(&commands, &grant, &write, ConsoleLimits::default(), &[], Ok(8))),
        "hoplite.console/write-not-granted"
    );
}

#[test]
fn grant_protocol_is_not_caller_controlled() {
    let value = grant(false).to_value();
    assert!(matches!(
        map_get(&value, "protocol"),
        Some(HalValue::String(protocol)) if protocol == "hoplite.console-grant/0-alpha"
    ));
    assert!(map_get(&value, "console").is_some());
}

#[test]
fn evaluation_requests_are_exact_and_single_operation() {
    assert!(validate_eval_request(
        &map_value(vec![("op", string("eval")), ("source", string("(+ 1 2)"))]),
        64 * 1024,
    )
    .is_ok());
    assert!(validate_eval_request(
        &map_value(vec![
            ("op", string("eval")),
            ("source", string("(+ 1 2)")),
            ("handler", string("tahto.node.app/handler")),
        ]),
        64 * 1024,
    )
    .is_err());
}

#[test]
fn client_calls_have_an_exact_immutable_envelope() {
    let valid = map_value(vec![
        ("protocol", string(REQUEST_PROTOCOL)),
        ("command", string("status")),
        ("input", map_value(vec![])),
    ]);
    assert!(validate_client_call(&valid, Ok(())).is_ok());
    assert!(validate_client_call(
        &map_value(vec![
            ("protocol", string(REQUEST_PROTOCOL)),
            ("command", string("status")),
            ("input", map_value(vec![])),
            ("handler", string("tahto.node.app/handler")),
        ]),
        Ok(()),
    )
    .is_err());
}

#[test]
fn live_values_are_replaced_with_a_bounded_transfer_error() {
    let replacement = bounded_reply(Err("live promise".into()), 1024).expect("a replacement");
    assert!(matches!(map_get(&replacement, "ok"), Some(HalValue::Bool(false))));
    assert_eq!(code_of(&replacement), "hoplite.console/live-result-rejected");
    assert!(bounded_reply(Ok(1024), 1024).is_none());
    let too_large = bounded_reply(Ok(1025), 1024).expect("a replacement");
    assert_eq!(code_of(&too_large), "hoplite.console/result-too-large");
}

#[test]
fn dispatcher_calls_only_the_prepared_boundary_with_a_closed_envelope() {
    let commands = commands();
    let request = map_value(vec![
        ("op", string("call")),
        ("grant", grant_value(false)),
        ("command", string("status")),
        ("input", map_value(vec![])),
    ]);
    let (grant, command, input) =
        match dispatch_step(&commands, ConsoleLimits::default(), &request, &[], Ok(8)) {
            DispatchStep::Invoke { grant, command, input } => (grant, command, input),
            DispatchStep::Refused(error) => panic!("unexpected refusal {error}"),
            DispatchStep::Granted(_) => panic!("unexpected listing"),
        };
    let envelope = call_envelope(grant.to_value(), &command, map_value(vec![]));
    assert!(matches!(map_get(&envelope, "command"), Some(HalValue::String(c)) if c == "status"));
    assert!(map_get(&envelope, "grant").is_some());
    assert!(map_get(&envelope, "input").is_some());
    assert!(map_get(&envelope, "handler").is_none());
    assert!(map_get(&envelope, "source").is_none());
    assert!(matches!(input, HalValue::Mapping(entries) if entries.is_empty()));
    let result = command_result(Ok(string("ready")), Ok(16), ConsoleLimits::default().result_bytes);
    let reply = result_reply(result);
    assert!(matches!(map_get(&reply, "ok"), Some(HalValue::Bool(true))));
}

#[test]
fn dispatcher_validates_before_entering_the_handler_boundary() {
    let commands = commands();
    let call = |command: &str| {
        map_value(vec![
            ("op", string("call")),
            ("grant", grant_value(false)),
            ("command", string(command)),
            ("input", map_value(vec![])),
        ])
    };
    let unlisted = call("runtime.eval");
    match dispatch_step(&commands, ConsoleLimits::default(), &unlisted, &[], Ok(8)) {
        DispatchStep::Refused(error) => assert_eq!(error, "hoplite.console/command-unlisted"),
        _ => panic!("expected a refusal"),
    }
    let write = call("quit");
    match dispatch_step(&commands, ConsoleLimits::default(), &write, &[], Ok(8)) {
        DispatchStep::Refused(error) => assert_eq!(error, "hoplite.console/write-not-granted"),
        _ => panic!("expected a refusal"),
    }
}

#[test]
fn command_listing_is_grant_filtered() {
    let commands = commands();
    for (write, expected) in [(false, 1), (true, 2)] {
        let request = map_value(vec![("op", string("commands")), ("grant", grant_value(write))]);
        match dispatch_step(&commands, ConsoleLimits::default(), &request, &[], Ok(0)) {
            DispatchStep::Granted(values) => assert_eq!(values.len(), expected),
            _ => panic!("expected a listing"),
        }
    }
}

#[test]
fn dispatcher_refuses_unknown_operations_and_missing_parts() {
    let commands = commands();
    let cases = [
        (map_value(vec![("op", string("teleport"))]), "hoplite.console/operation-unlisted"),
        (map_value(vec![]), "hoplite.console/operation-unlisted"),
        (map_value(vec![("op", string("commands"))]), "hoplite.console/grant-invalid"),
        (
            map_value(vec![("op", string("call")), ("grant", grant_value(true))]),
            "hoplite.console/command-unlisted",
        ),
        (
            map_value(vec![
                ("op", string("call")),
                ("grant", grant_value(true)),
                ("command", string("status")),
            ]),
            "hoplite.console/input-invalid",
        ),
    ];
    for (request, expected) in cases {
        match dispatch_step(&commands, ConsoleLimits::default(), &request, &[], Ok(0)) {
            DispatchStep::Refused(error) => assert_eq!(error, expected),
            _ => panic!("expected a refusal for {expected}"),
        }
    }
}

#[test]
fn supervisor_lists_and_forwards_granted_calls() {
    let commands = commands();
    let listing = map_value(vec![("op", string("commands"))]);
    match broker_step(&commands, &grant(true), &listing, ConsoleLimits::default(), &[], Ok(0)) {
        BrokerStep::Granted(values) => assert_eq!(values.len(), 2),
        _ => panic!("expected a listing"),
    }
    let extra = map_value(vec![("op", string("commands")), ("grant", grant_value(true))]);
    assert_eq!(
        refused(broker_step(&commands, &grant(true), &extra, ConsoleLimits::default(), &[], Ok(0))),
        "hoplite.console/commands-invalid"
    );
    let quit = forwarded("quit");
    match broker_step(&commands, &grant(true), &quit, ConsoleLimits::default(), &[], Ok(8)) {
        BrokerStep::Forward { command, .. } => assert_eq!(command, "quit"),
        _ => panic!("expected a forward"),
    }
    let bare = map_value(vec![("op", string("call"))]);
    assert_eq!(
        refused(broker_step(&commands, &grant(true), &bare, ConsoleLimits::default(), &[], Ok(8))),
        "hoplite.console/request-invalid"
    );
}

#[test]
fn replies_carry_values_or_coded_failures() {
    let ok = map_value(vec![("ok", HalValue::Bool(true)), ("value", HalValue::Number(7))]);
    assert!(matches!(response_result(&ok), Ok(HalValue::Number(7))));
    let failed = map_value(vec![
        ("ok", HalValue::Bool(false)),
        (
            "error",
            map_value(vec![
                ("code", string("hoplite.console/write-not-granted")),
                ("message", string("writes are off")),
            ]),
        ),
    ]);
    assert_eq!(
        response_result(&failed).unwrap_err(),
        "hoplite.console/write-not-granted: writes are off"
    );
    let bare = map_value(vec![("ok", HalValue::Bool(false)), ("error", map_value(vec![]))]);
    assert_eq!(
        broker_result(&bare).unwrap_err(),
        "hoplite.console/call-failed: hoplite.console/call-failed"
    );
    assert_eq!(
        broker_result(&map_value(vec![])).unwrap_err(),
        "hoplite.console/broker-response-invalid: missing boolean ok"
    );
    assert_eq!(
        response_result(&map_value(vec![("ok", HalValue::Bool(true))])).unwrap_err(),
        "console response is missing its value"
    );
    assert_eq!(error_code("hoplite.console/input-invalid: missing"), "hoplite.console/input-invalid");
    assert_eq!(error_code("no code here"), "no code here");
    let reply = result_reply(Err("hoplite.console/result-too-large".into()));
    assert_eq!(code_of(&reply), "hoplite.console/result-too-large");
    let failed_eval = evaluation_reply(Err("boom".into()));
    assert_eq!(code_of(&failed_eval), "hoplite.console/evaluation-failed");
    assert_eq!(
        command_result(Ok(HalValue::Nil), Err("live".into()), 10).unwrap_err(),
        "hoplite.console/result-not-immutable: live"
    );
}

#[test]
fn broker_calls_are_a_closed_envelope() {
    let call = |extra: Option<(&str, HalValue)>| {
        let mut entries = vec![
            ("op", string("call")),
            ("grant", grant_value(false)),
            ("command", string("status")),
            ("input", map_value(vec![])),
        ];
        if let Some(extra) = extra {
            entries.push(extra);
        }
        map_value(entries)
    };
    assert!(validate_call_request(&call(None)).is_ok());
    let routed = validate_call_request(&call(Some(("handler", string("tahto.node.console/dispatch")))))
        .unwrap_err();
    assert_eq!(error_code(&routed), "hoplite.console/request-invalid");
    let renamed = map_value(vec![
        ("op", string("call")),
        ("grant", grant_value(false)),
        ("command", string("status")),
        ("handler", map_value(vec![])),
    ]);
    assert_eq!(
        validate_call_request(&renamed).unwrap_err(),
        "hoplite.console/request-invalid: unsupported application broker field \"handler\""
    );
    let listing = map_value(vec![
        ("op", string("commands")),
        ("grant", grant_value(false)),
        ("command", string("status")),
        ("input", map_value(vec![])),
    ]);
    assert_eq!(validate_call_request(&listing).unwrap_err(), "hoplite.console/operation-unlisted");
    let broker = UnixCommandBroker {
        socket_path: "/run/hoplite/broker.sock".into(),
        maximum_bytes: 1024,
        timeout_millis: 5000,
    };
    let request = broker.call_request(grant_value(false), "status", map_value(vec![]));
    assert!(validate_call_request(&request).is_ok());
}

#[test]
fn evaluations_are_single_bounded_sources() {
    let limits = ConsoleLimits { source_bytes: 4, ..ConsoleLimits::default() };
    let request = map_value(vec![("op", string("eval")), ("source", string("(+)"))]);
    assert!(matches!(evaluator_step(&request, limits), EvaluatorStep::Evaluate("(+)")));
    let long = map_value(vec![("op", string("eval")), ("source", string("(+ 1 2)"))]);
    match evaluator_step(&long, limits) {
        EvaluatorStep::Reply(reply) => assert_eq!(code_of(&reply), "hoplite.console/source-too-large"),
        _ => panic!("expected a refusal"),
    }
    let other = map_value(vec![("op", string("load"))]);
    match evaluator_step(&other, limits) {
        EvaluatorStep::Reply(reply) => {
            assert_eq!(code_of(&reply), "hoplite.console/evaluation-operation-unlisted")
        }
        _ => panic!("expected a refusal"),
    }
    assert_eq!(
        validate_eval_request(&long, 4).unwrap_err(),
        "hoplite.console/source-too-large"
    );
    assert_eq!(
        validate_eval_request(&map_value(vec![("op", string("eval")), ("source", HalValue::Nil)]), 4)
            .unwrap_err(),
        "hoplite.console/request-invalid: source must be a string"
    );
    assert!(cancel_request(&map_value(vec![("op", string("cancel"))])));
    assert!(!cancel_request(&map_value(vec![("op", string("cancel")), ("now", HalValue::Bool(true))])));
    let cancelled = cancellation_reply(Some(&map_value(vec![("op", string("cancel"))])));
    assert_eq!(code_of(&cancelled), "hoplite.console/evaluation-cancelled");
    assert_eq!(code_of(&cancellation_reply(None)), "hoplite.console/evaluation-active");
}

#[test]
fn waits_decide_the_connection() {
    assert!(matches!(evaluation_step(WaitEvent::EvaluatorReadable), EvaluationStep::RelayResult));
    assert!(matches!(evaluation_step(WaitEvent::ClientClosed), EvaluationStep::Close));
    assert!(matches!(evaluation_step(WaitEvent::ClientReadable), EvaluationStep::AnswerClient));
    match evaluation_step(WaitEvent::Timeout) {
        EvaluationStep::Fail(reply) => assert_eq!(code_of(&reply), "hoplite.console/evaluation-timeout"),
        _ => panic!("expected a failure"),
    }
    match evaluation_step(WaitEvent::EvaluatorClosed) {
        EvaluationStep::Fail(reply) => {
            assert_eq!(code_of(&reply), "hoplite.console/evaluator-terminated")
        }
        _ => panic!("expected a failure"),
    }
    assert!(startup_step(WaitEvent::EvaluatorReadable).is_ok());
    assert_eq!(startup_step(WaitEvent::Timeout).unwrap_err(), "console evaluator startup timed out");
    let ready = evaluator_ready("tahto.console");
    let value = map_get(&ready, "value").unwrap();
    assert!(check_ready_handshake(value).is_ok());
    assert_eq!(
        check_ready_handshake(&map_value(vec![])).unwrap_err(),
        "console evaluator returned an invalid startup handshake"
    );
    let greeting = connection_ready(ConsoleLimits::default());
    let limits = map_get(&greeting, "value").unwrap();
    assert!(matches!(map_get(limits, "source-bytes"), Some(HalValue::Number(65536))));
    assert!(matches!(map_get(limits, "memory-bytes"), Some(HalValue::Number(134217728))));
}

#[test]
fn console_configuration_is_checked() {
    let config = ApplicationBrokerConfig {
        socket_path: "relative.sock".into(),
        limits: ConsoleLimits::default(),
    };
    assert_eq!(
        config.validate().unwrap_err(),
        "application console broker socket must be absolute"
    );
    let config = ApplicationBrokerConfig {
        socket_path: "/run/hoplite/app.sock".into(),
        limits: ConsoleLimits::default(),
    };
    assert!(config.validate().is_ok());
    let supervisor = SupervisorConfig {
        socket_path: "/run/hoplite/console.sock".into(),
        evaluator_path: "bin/evaluator".into(),
        bundle_path: "/srv/console.hcb".into(),
        client_namespace: "tahto.console".into(),
        descriptors_hta: vec![],
        grant_hta: vec![],
        limits: ConsoleLimits::default(),
    };
    assert_eq!(
        supervisor.validate_settings().unwrap_err(),
        "console evaluator path must be absolute"
    );
    let descriptors =
        HalValue::Vector(vec![descriptor("status", "read"), descriptor("quit", "write")]);
    let (set, parsed) = console_documents(descriptors, &[Ok(()), Ok(())], &grant_value(true)).unwrap();
    assert!(set.descriptor("quit").is_some());
    assert!(parsed.write);
    let mut unknown = TextSet::new();
    unknown.insert("deploy".into());
    let other = ConsoleGrant { console: "console.test".into(), commands: unknown, write: false };
    assert_eq!(
        console_documents(HalValue::Vector(vec![descriptor("status", "read")]), &[Ok(())], &other.to_value())
            .unwrap_err(),
        "hoplite.console/grant-invalid: unknown command \"deploy\""
    );
}
