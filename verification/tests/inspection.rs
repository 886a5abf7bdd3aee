use hoplite::host::Json;
use hoplite::inspection::{
    describe_artifact, inspect_arguments, inspection_json, render_human, Artifact, InspectRequest, Inspection,
    InspectionPaths, SourceInputs,
};
use hoplite::manifest::ManifestSummary;

fn to_serde(value: &Json) -> serde_json::Value {
    match value {
        Json::Null => serde_json::Value::Null,
        Json::Bool(flag) => serde_json::Value::Bool(*flag),
        Json::Number(text) => serde_json::from_str(text).unwrap(),
        Json::Text(text) => serde_json::Value::String(text.clone()),
        Json::Array(items) => serde_json::Value::Array(items.iter().map(to_serde).collect()),
        Json::Object(members) => serde_json::Value::Object(
            members.iter().map(|(key, member)| (key.clone(), to_serde(member))).collect(),
        ),
    }
}

fn absent() -> Artifact {
    Artifact { present: false, bytes: None, sha256: None }
}

fn sample(count: usize, examples: Vec<String>, paths: Option<InspectionPaths>) -> Inspection {
    Inspection {
        bundle_bytes: 120,
        bundle_sha256: "aa".into(),
        manifest_bytes: 40,
        manifest_sha256: "bb".into(),
        bytecode_bytes: 64,
        manifest: ManifestSummary {
            format: 2,
            applications: 1,
            routes: 3,
            adapters: vec![("raw".into(), 1), ("request".into(), 1), ("request+hta".into(), 1)],
        },
        nginx_configuration: Artifact { present: true, bytes: Some(10), sha256: Some("cc".into()) },
        platform_hta: absent(),
        platform_edn: Artifact { present: true, bytes: None, sha256: None },
        openapi_documents: 1,
        source_inputs: SourceInputs { count, examples },
        paths,
    }
}

#[test]
fn the_human_report_is_exact() {
    let text = render_human(&sample(0, Vec::new(), None));
    assert_eq!(
        text,
        "Hoplite application inspection\ninspection format: hoplite.inspect/0-alpha\napplication bundle: hoplite.application-bundle/0-alpha\nruntime ABI: 5\nbundle: 120 bytes (sha256:aa)\nmanifest: format 2, 40 bytes (sha256:bb)\nembedded HBX0: 64 bytes\napplications: 1; routes: 3\nroute adapters: raw=1, request=1, request+hta=1\nnginx configuration: 10 bytes (sha256:cc)\nplatform HTA: absent\nplatform EDN: 0 bytes (sha256:unknown)\nOpenAPI documents: 1\nsource-free output: yes\npaths: redacted (use --show-paths)\n"
    );
}

#[test]
fn source_inputs_and_paths_are_listed() {
    let paths = InspectionPaths { output: "/o".into(), bundle: "/o/app.hbx".into(), manifest: "/o/apps.hta".into() };
    let text = render_human(&sample(1, vec!["app.hal".into()], Some(paths)));
    assert!(text.contains("source-free output: no (1 source input)\n  source input: app.hal\n"));
    assert!(text.ends_with("output: /o\nbundle path: /o/app.hbx\nmanifest path: /o/apps.hta\n"));
    let mut many = sample(2, vec!["a.hal".into(), "b.hal".into()], None);
    many.manifest.adapters = Vec::new();
    let text = render_human(&many);
    assert!(text.contains("(2 source inputs)"));
    assert!(text.contains("route adapters: none\n"));
    assert_eq!(describe_artifact(&absent()), "absent");
}

#[test]
fn the_json_report_matches_the_inspection() {
    let document = to_serde(&inspection_json(&sample(0, Vec::new(), None)));
    let text = serde_json::to_string_pretty(&document).unwrap();
    assert!(text.contains("\"source_free\": true"));
    assert_eq!(document["format"], "hoplite.inspect/0-alpha");
    assert_eq!(document["application_bundle"]["runtime_abi"], 5);
    assert_eq!(document["manifest"]["adapters"]["request+hta"], 1);
    assert_eq!(document["artifacts"]["platform_hta"]["present"], false);
    assert!(document["artifacts"]["platform_hta"]["bytes"].is_null());
    assert_eq!(document["artifacts"]["nginx_configuration"]["sha256"], "cc");
    assert!(document["paths"].is_null());
}

fn args(items: &[&str]) -> Vec<String> {
    items.iter().map(|item| item.to_string()).collect()
}

#[test]
fn inspect_arguments_are_read_exactly() {
    assert_eq!(inspect_arguments(&args(&["-h"])).unwrap(), InspectRequest::Help);
    assert_eq!(
        inspect_arguments(&args(&["--json", "out", "--show-paths", "--manifest", "m.hta"])).unwrap(),
        InspectRequest::Inspect { target: Some("out".into()), manifest: Some("m.hta".into()), json: true, show_paths: true }
    );
    assert_eq!(
        inspect_arguments(&args(&["--manifest"])).unwrap_err(),
        "hoplite/inspect-argument-invalid: --manifest requires a file"
    );
    assert_eq!(
        inspect_arguments(&args(&["--deep"])).unwrap_err(),
        "hoplite/inspect-argument-invalid: unknown option \"--deep\""
    );
    assert_eq!(
        inspect_arguments(&args(&["a", "b"])).unwrap_err(),
        "hoplite/inspect-argument-invalid: unexpected target \"b\""
    );
}
