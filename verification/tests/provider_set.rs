use hoplite::provider_set::{parse_provider_set_arguments, ProviderSetCommand};

#[test]
fn requires_the_closed_argument_set() {
    assert!(parse_provider_set_arguments(vec![])
        .unwrap_err()
        .contains("requires SET"));
}

#[test]
fn provider_set_arguments_keep_their_order() {
    let arguments: Vec<String> = ["set", "bl", "bm", "vl", "vm", "vb", "profile"]
        .iter()
        .map(|value| value.to_string())
        .collect();
    match parse_provider_set_arguments(arguments).unwrap() {
        ProviderSetCommand::Verify(inputs) => {
            assert_eq!(inputs.set, "set");
            assert_eq!(inputs.blob_manifest, "bm");
            assert_eq!(inputs.value_backend_lock, "vb");
            assert_eq!(inputs.profile, "profile");
        }
        ProviderSetCommand::Help => panic!("expected inputs"),
    }
    assert_eq!(
        parse_provider_set_arguments(vec!["-h".into()]),
        Ok(ProviderSetCommand::Help)
    );
    assert!(parse_provider_set_arguments(vec!["a".into(); 8]).is_err());
}
