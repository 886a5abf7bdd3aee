use hoplite::console::{
    command_name, failure, identifier, map_get, namespace_name, success, text_set, timestamp,
    value_sequence, ClientBundle, CommandDescriptor, CommandEffect, CommandSet, ConsoleGrant,
    ConsoleLimits, FieldType, InputSchema,
};
use hoplite::hal::HalValue;
use hoplite::text_set::TextSet;

fn map_value(entries: Vec<(&str, HalValue)>) -> HalValue {
    HalValue::Mapping(
        entries
            .into_iter()
            .map(|(key, value)| (HalValue::Keyword(key.into()), value))
            .collect(),
    )
}

fn texts(items: &[&str]) -> TextSet {
    let mut set = TextSet::new();
    for item in items {
        set.insert(item.to_string());
    }
    set
}

fn descriptors() -> HalValue {
    HalValue::Vector(vec![
        map_value(vec![
            ("command", HalValue::String("status".into())),
            ("effect", HalValue::Keyword("read".into())),
            (
                "input",
                map_value(vec![
                    ("type", HalValue::Keyword("map".into())),
                    ("required", HalValue::Members(vec![])),
                    ("optional", HalValue::Members(vec![])),
                ]),
            ),
        ]),
        map_value(vec![
            ("command", HalValue::String("pairing.invitation.issue".into())),
            ("effect", HalValue::Keyword("write".into())),
            (
                "input",
                map_value(vec![
                    ("type", HalValue::Keyword("map".into())),
                    ("required", HalValue::Members(vec![HalValue::Keyword("id".into())])),
                    ("optional", HalValue::Members(vec![])),
                ]),
            ),
        ]),
    ])
}

fn command_set() -> CommandSet {
    CommandSet::parse(descriptors(), &[Ok(()), Ok(())]).unwrap()
}

fn grant(write: bool) -> ConsoleGrant {
    ConsoleGrant {
        console: "console.test".into(),
        commands: texts(&["status", "pairing.invitation.issue"]),
        write,
    }
}

fn call(set: &CommandSet, grant: &ConsoleGrant, command: &str, input: &HalValue) -> Result<(), String> {
    let entries = match input {
        HalValue::Mapping(entries) => entries.len(),
        _ => 0,
    };
    set.validate_call(grant, command, input, 1024, &vec![true; entries], Ok(32))
}

#[test]
fn defaults_match_the_public_console_contract() {
    assert_eq!(
        ConsoleLimits::default(),
        ConsoleLimits {
            source_bytes: 65_536,
            result_bytes: 1_048_576,
            evaluation_millis: 5_000,
            memory_bytes: 134_217_728,
        }
    );
}

#[test]
fn client_bundle_detects_mutation() {
    let bundle = ClientBundle::new(
        "tahto.console".into(),
        "(ns tahto.console (:config {}))".into(),
    )
    .unwrap();
    let mut encoded = bundle.encode().unwrap();
    assert_eq!(ClientBundle::decode(&encoded).unwrap(), bundle);
    *encoded.last_mut().unwrap() ^= 1;
    assert!(ClientBundle::decode(&encoded)
        .unwrap_err()
        .contains("digest mismatch"));
}

#[test]
fn console_limits_are_bounded() {
    assert!(ConsoleLimits::default().validate().is_ok());
    let mut limits = ConsoleLimits::default();
    limits.source_bytes = 0;
    assert_eq!(
        limits.validate().unwrap_err(),
        "console source limit must be between 1 byte and 16 MiB"
    );
    let mut limits = ConsoleLimits::default();
    limits.result_bytes = 64 * 1024 * 1024 + 1;
    assert_eq!(
        limits.validate().unwrap_err(),
        "console result limit must be between 1 byte and 64 MiB"
    );
    let mut limits = ConsoleLimits::default();
    limits.evaluation_millis = 300_001;
    assert_eq!(
        limits.validate().unwrap_err(),
        "console evaluation limit must be between 1 ms and 300 s"
    );
    let mut limits = ConsoleLimits::default();
    limits.memory_bytes = 16 * 1024 * 1024 - 1;
    assert_eq!(
        limits.validate().unwrap_err(),
        "console memory limit must be between 16 MiB and 16 GiB"
    );
}

#[test]
fn names_follow_the_closed_byte_classes() {
    assert!(command_name("pairing.invitation.issue"));
    assert!(command_name("a/b_c-d"));
    assert!(!command_name(""));
    assert!(!command_name("a:b"));
    assert!(!command_name(&"a".repeat(129)));
    assert!(identifier("console.test:1/a"));
    assert!(!identifier("console test"));
    assert!(namespace_name("tahto.console"));
    assert!(namespace_name("a-b_c.d9"));
    assert!(!namespace_name(".tahto"));
    assert!(!namespace_name("tahto."));
    assert!(!namespace_name("tahto..console"));
    assert!(!namespace_name("tahto/console"));
    assert!(!namespace_name(&"a".repeat(256)));
    assert!(timestamp("2024-01-02T03:04:05Z"));
    assert!(timestamp("2024-01-02T03:04:05.123456Z"));
    assert!(!timestamp("2024-01-02 03:04:05Z"));
    assert!(!timestamp("2024-01-02T03:04:05"));
    assert!(!timestamp("2024-01-02T3Z"));
}

#[test]
fn client_bundle_rejects_malformed_envelopes() {
    let bundle = ClientBundle::new("tahto.console".into(), "(ns tahto.console)".into()).unwrap();
    let encoded = bundle.encode().unwrap();
    assert_eq!(&encoded[..4], b"HCB0");
    assert_eq!(encoded.len(), 42 + "tahto.console".len() + "(ns tahto.console)".len());

    let mut magic = encoded.clone();
    magic[3] = b'1';
    assert_eq!(
        ClientBundle::decode(&magic).unwrap_err(),
        "console client bundle has invalid HCB0 magic"
    );
    let mut extended = encoded.clone();
    extended.push(b' ');
    assert_eq!(
        ClientBundle::decode(&extended).unwrap_err(),
        "console client bundle length does not match its header"
    );
    let mut zero_source = encoded.clone();
    zero_source[6..10].copy_from_slice(&0u32.to_be_bytes());
    assert_eq!(
        ClientBundle::decode(&zero_source).unwrap_err(),
        "console client bundle source length is invalid"
    );
    assert_eq!(
        ClientBundle::new("bad..namespace".into(), "x".into()).unwrap_err(),
        "console client namespace is invalid"
    );
    assert_eq!(
        ClientBundle::new("good".into(), String::new()).unwrap_err(),
        "console client source must be between 1 byte and 1 MiB"
    );
}

#[test]
fn grants_move_to_valid_consoles_only() {
    let grant = ConsoleGrant {
        console: "console.test".into(),
        commands: texts(&["status"]),
        write: true,
    };
    let moved = grant.with_console("console.other".into()).unwrap();
    assert_eq!(moved.console, "console.other");
    assert_eq!(moved.commands, grant.commands);
    assert!(moved.write);
    assert_eq!(
        grant.with_console("bad console".into()).unwrap_err(),
        "generated console identifier is invalid"
    );
}

#[test]
fn write_descriptors_and_calls_require_a_write_grant() {
    let commands = command_set();
    let read_only = grant(false);
    let granted = commands.granted_value(&read_only);
    assert_eq!(granted.len(), 1);
    assert_eq!(
        call(
            &commands,
            &read_only,
            "pairing.invitation.issue",
            &map_value(vec![("id", HalValue::String("invite.one".into()))]),
        )
        .unwrap_err(),
        "hoplite.console/write-not-granted"
    );
    assert!(call(
        &commands,
        &grant(true),
        "pairing.invitation.issue",
        &map_value(vec![("id", HalValue::String("invite.one".into()))]),
    )
    .is_ok());
}

#[test]
fn input_maps_are_exact_and_unlisted_commands_are_rejected() {
    let commands = command_set();
    assert_eq!(
        call(&commands, &grant(true), "runtime.eval", &map_value(vec![])).unwrap_err(),
        "hoplite.console/command-unlisted"
    );
    assert!(call(
        &commands,
        &grant(true),
        "status",
        &map_value(vec![("extra", HalValue::Bool(true))]),
    )
    .unwrap_err()
    .contains("unsupported input field"));
}

#[test]
fn granted_descriptors_follow_command_order_and_write_rights() {
    let commands = command_set();
    let all = commands.granted_value(&grant(true));
    assert_eq!(all.len(), 2);
    let first = map_get(all[0], "command").unwrap();
    assert!(matches!(first, HalValue::String(text) if text == "pairing.invitation.issue"));
    let second = map_get(all[1], "command").unwrap();
    assert!(matches!(second, HalValue::String(text) if text == "status"));
    let status_only = ConsoleGrant { console: "console.test".into(), commands: texts(&["status"]), write: true };
    assert_eq!(commands.granted_value(&status_only).len(), 1);
    assert!(commands.descriptor("status").is_some());
    assert_eq!(commands.descriptor("status").unwrap().effect, CommandEffect::Read);
    assert!(commands.descriptor("runtime.eval").is_none());
}

#[test]
fn calls_are_checked_in_order() {
    let commands = command_set();
    let unknown = ConsoleGrant {
        console: "console.test".into(),
        commands: texts(&["status", "zz.unknown", "aa.unknown"]),
        write: true,
    };
    assert_eq!(
        call(&commands, &unknown, "status", &map_value(vec![])).unwrap_err(),
        "hoplite.console/grant-invalid: unknown command \"aa.unknown\""
    );
    let status_only = ConsoleGrant { console: "console.test".into(), commands: texts(&["status"]), write: true };
    assert_eq!(
        call(&commands, &status_only, "pairing.invitation.issue", &map_value(vec![])).unwrap_err(),
        "hoplite.console/command-not-granted"
    );
    assert_eq!(
        call(&commands, &grant(true), "pairing.invitation.issue", &map_value(vec![])).unwrap_err(),
        "hoplite.console/input-invalid: missing input field \"id\""
    );
    assert_eq!(
        call(&commands, &grant(true), "status", &HalValue::Nil).unwrap_err(),
        "hoplite.console/input-invalid: input must be a map"
    );
    let input = map_value(vec![("id", HalValue::String("invite.one".into()))]);
    assert_eq!(
        commands
            .validate_call(&grant(true), "pairing.invitation.issue", &input, 8, &[true], Ok(9))
            .unwrap_err(),
        "hoplite.console/input-too-large"
    );
    assert_eq!(
        commands
            .validate_call(&grant(true), "pairing.invitation.issue", &input, 8, &[true], Err("mutable".into()))
            .unwrap_err(),
        "hoplite.console/input-not-immutable: mutable"
    );
}

#[test]
fn descriptor_bundles_are_bounded_and_distinct() {
    assert_eq!(
        CommandSet::parse(HalValue::Nil, &[]).unwrap_err(),
        "console descriptor bundle must be a vector or sequence"
    );
    assert_eq!(
        CommandSet::parse(HalValue::Vector(vec![]), &[]).unwrap_err(),
        "console descriptor bundle must contain between 1 and 256 commands"
    );
    let twice = match descriptors() {
        HalValue::Vector(mut items) => {
            items.truncate(1);
            let again = match descriptors() {
                HalValue::Vector(mut more) => more.remove(0),
                _ => unreachable!(),
            };
            items.push(again);
            HalValue::Vector(items)
        }
        _ => unreachable!(),
    };
    assert_eq!(
        CommandSet::parse(twice, &[Ok(()), Ok(())]).unwrap_err(),
        "console descriptor bundle contains a duplicate command"
    );
    assert_eq!(
        CommandSet::parse(descriptors(), &[Ok(()), Err("mutable value".into())]).unwrap_err(),
        "console command descriptor is not immutable HTA: mutable value"
    );
    let bad_effect = map_value(vec![
        ("command", HalValue::String("status".into())),
        ("effect", HalValue::Keyword("delete".into())),
    ]);
    assert_eq!(
        CommandDescriptor::parse(bad_effect, Ok(())).unwrap_err(),
        "console command descriptor :effect must be :read or :write"
    );
    let bad_name = map_value(vec![("command", HalValue::String("bad name".into()))]);
    assert_eq!(
        CommandDescriptor::parse(bad_name, Ok(())).unwrap_err(),
        "console command name is invalid"
    );
}

#[test]
fn input_schemas_declare_disjoint_typed_fields() {
    let schema = |fields: Option<HalValue>, optional: Vec<HalValue>| {
        let mut entries = vec![
            ("type", HalValue::Keyword("map".into())),
            ("required", HalValue::Members(vec![HalValue::Keyword("id".into())])),
            ("optional", HalValue::Members(optional)),
        ];
        if let Some(fields) = fields {
            entries.push(("fields", fields));
        }
        InputSchema::parse(&map_value(entries))
    };
    assert_eq!(
        schema(None, vec![HalValue::String("id".into())]).unwrap_err(),
        "console command input schema fields cannot be both required and optional"
    );
    assert_eq!(
        schema(Some(map_value(vec![("other", HalValue::Keyword("string".into()))])), vec![])
            .unwrap_err(),
        "console command input :fields contains undeclared field \"other\""
    );
    assert_eq!(
        schema(Some(map_value(vec![("id", HalValue::Keyword("float".into()))])), vec![]).unwrap_err(),
        "console schema contains an unsupported field type"
    );
    assert_eq!(
        schema(
            Some(HalValue::Mapping(vec![
                (HalValue::Keyword("id".into()), HalValue::Keyword("string".into())),
                (HalValue::String("id".into()), HalValue::Keyword("string".into())),
            ])),
            vec![],
        )
        .unwrap_err(),
        "console command input :fields contains a duplicate"
    );
    assert_eq!(
        schema(Some(HalValue::Nil), vec![]).unwrap_err(),
        "console command input :fields must be a map"
    );
    assert_eq!(
        InputSchema::parse(&map_value(vec![("type", HalValue::Keyword("vector".into()))])).unwrap_err(),
        "console command input schema :type must be :map"
    );
    let typed = schema(
        Some(map_value(vec![
            ("id", HalValue::Keyword("timestamp".into())),
            ("count", HalValue::Keyword("integer".into())),
        ])),
        vec![HalValue::Keyword("count".into())],
    )
    .unwrap();
    assert!(typed
        .validate(&map_value(vec![("id", HalValue::String("2026-01-02T03:04:05Z".into()))]), &[true])
        .is_ok());
    assert_eq!(
        typed
            .validate(&map_value(vec![("id", HalValue::String("yesterday".into()))]), &[true])
            .unwrap_err(),
        "hoplite.console/input-invalid: invalid value for field \"id\""
    );
    assert_eq!(
        typed
            .validate(
                &map_value(vec![
                    ("id", HalValue::String("2026-01-02T03:04:05Z".into())),
                    ("count", HalValue::String("two".into())),
                ]),
                &[true, true],
            )
            .unwrap_err(),
        "hoplite.console/input-invalid: invalid value for field \"count\""
    );
    assert_eq!(
        typed
            .validate(
                &HalValue::Mapping(vec![
                    (HalValue::Keyword("id".into()), HalValue::String("2026-01-02T03:04:05Z".into())),
                    (HalValue::String("id".into()), HalValue::String("2026-01-02T03:04:05Z".into())),
                ]),
                &[true, true],
            )
            .unwrap_err(),
        "hoplite.console/input-invalid: duplicate input field \"id\""
    );
    assert_eq!(FieldType::parse(&HalValue::Keyword("hta".into())), Ok(FieldType::Hta));
    assert!(!FieldType::Hta.accepts(&HalValue::Nil, false));
    assert!(FieldType::Members.accepts(&HalValue::Members(vec![]), false));
}

#[test]
fn grants_read_back_from_their_values() {
    let original = grant(true);
    let value = original.to_value();
    let parsed = ConsoleGrant::parse(&value).unwrap();
    assert_eq!(parsed, original);
    let items: Vec<&str> = parsed.commands.items().iter().map(|s| s.as_str()).collect();
    assert_eq!(items, vec!["pairing.invitation.issue", "status"]);
    let mut extra = match value {
        HalValue::Mapping(entries) => entries,
        _ => unreachable!(),
    };
    extra.push((HalValue::Keyword("admin".into()), HalValue::Bool(true)));
    assert_eq!(
        ConsoleGrant::parse(&HalValue::Mapping(extra)).unwrap_err(),
        "console grant contains unsupported field \"admin\""
    );
    let bad = map_value(vec![
        ("protocol", HalValue::String("hoplite.console-grant/0-alpha".into())),
        ("console", HalValue::String("console.test".into())),
        ("commands", HalValue::Vector(vec![HalValue::String("bad name".into())])),
        ("write", HalValue::Bool(false)),
    ]);
    assert_eq!(
        ConsoleGrant::parse(&bad).unwrap_err(),
        "console grant contains an invalid command name"
    );
    let old = map_value(vec![("protocol", HalValue::String("hoplite.console-grant/0".into()))]);
    assert_eq!(ConsoleGrant::parse(&old).unwrap_err(), "console grant protocol is unsupported");
    let no_write = map_value(vec![
        ("protocol", HalValue::String("hoplite.console-grant/0-alpha".into())),
        ("console", HalValue::String("console.test".into())),
        ("commands", HalValue::Vector(vec![])),
    ]);
    assert_eq!(ConsoleGrant::parse(&no_write).unwrap_err(), "console grant :write must be boolean");
}

#[test]
fn replies_and_text_sets_have_fixed_shapes() {
    match success(HalValue::Number(3)) {
        HalValue::Mapping(entries) => {
            assert_eq!(entries.len(), 2);
            assert!(matches!(&entries[0], (HalValue::Keyword(k), HalValue::Bool(true)) if k == "ok"));
            assert!(matches!(&entries[1], (HalValue::Keyword(k), HalValue::Number(3)) if k == "value"));
        }
        _ => panic!("success is a map"),
    }
    let reply = failure("hoplite.console/request-invalid", "bad request");
    let error = map_get(&reply, "error").unwrap();
    assert!(matches!(map_get(error, "code"), Some(HalValue::String(c)) if c == "hoplite.console/request-invalid"));
    assert!(matches!(map_get(error, "message"), Some(HalValue::String(m)) if m == "bad request"));
    assert!(matches!(map_get(&reply, "ok"), Some(HalValue::Bool(false))));
    let set = text_set(&HalValue::List(vec![
        HalValue::String("b".into()),
        HalValue::Keyword("a".into()),
        HalValue::String("b".into()),
    ]))
    .unwrap();
    let items: Vec<&str> = set.items().iter().map(|s| s.as_str()).collect();
    assert_eq!(items, vec!["a", "b"]);
    assert_eq!(text_set(&HalValue::Vector(vec![HalValue::Nil])).unwrap_err(), "expected text value");
    assert!(value_sequence(&HalValue::Tuple(vec![])).is_some());
}
