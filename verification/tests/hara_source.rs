use hoplite::hal::HalValue;
use hoplite::hara_source::{
    declared_namespace, foundation_dependencies, validate_declared_namespace, macro_definition, namespace_form, standard_library_source,
    standard_library_sources, NamespaceSources, SourceFile,
};

fn symbol(text: &str) -> HalValue {
    HalValue::Symbol(text.into())
}

fn list(items: Vec<HalValue>) -> HalValue {
    HalValue::List(items)
}

fn file(path: &str, namespace: &str, source: &str) -> SourceFile {
    SourceFile {
        path: path.into(),
        forms: vec![list(vec![symbol("ns"), symbol(namespace)])],
        source: source.into(),
    }
}

#[test]
fn namespaces_come_from_ns_and_ns_plus_forms() {
    let forms = vec![
        list(vec![symbol("ns")]),
        list(vec![symbol("ns+"), HalValue::String("not a symbol".into())]),
        list(vec![symbol("ns+"), symbol("std.foundation.string")]),
        list(vec![symbol("ns"), symbol("ignored")]),
    ];
    assert_eq!(declared_namespace(&forms).as_deref(), Some("std.foundation.string"));
    assert_eq!(declared_namespace(&vec![list(vec![symbol("def"), symbol("x")])]), None);
    assert!(namespace_form(&forms[0]));
    assert!(!namespace_form(&symbol("ns")));
    assert!(macro_definition(&list(vec![symbol("defmacro-"), symbol("m")])));
    assert!(!macro_definition(&list(vec![symbol("defn"), symbol("f")])));
}

#[test]
fn sources_are_kept_in_namespace_order() {
    let sources = standard_library_sources(vec![
        file("std/b.hal", "std.b", "(ns std.b)"),
        file("std/a.hal", "std.a", "(ns std.a)"),
    ])
    .unwrap();
    let names: Vec<_> = sources.entries().iter().map(|(name, _)| name.clone()).collect();
    assert_eq!(names, vec!["std.a".to_string(), "std.b".to_string()]);
    assert_eq!(standard_library_source(&sources, "std.b").unwrap(), "(ns std.b)");
    assert_eq!(
        standard_library_source(&sources, "std.c").unwrap_err(),
        "Hara standard library does not provide namespace std.c"
    );
}

#[test]
fn refuses_undeclared_and_repeated_namespaces() {
    let undeclared = SourceFile { path: "std/x.hal".into(), forms: vec![], source: String::new() };
    assert_eq!(
        standard_library_sources(vec![undeclared]).unwrap_err(),
        "Hara source std/x.hal does not declare an ns or ns+ namespace"
    );
    assert_eq!(
        standard_library_sources(vec![file("a.hal", "std.a", "abc"), file("b.hal", "std.a", "é")]).unwrap_err(),
        "Hara source checkout declares namespace std.a more than once (3 bytes and 2 bytes)"
    );
    let mut sources = NamespaceSources::new();
    assert!(sources.add("x".into(), "1".into()).is_ok());
    assert!(sources.add("x".into(), "22".into()).is_err());
    assert_eq!(sources.entries().len(), 1);
}

#[test]
fn foundation_modules_depend_on_foundation() {
    assert!(foundation_dependencies("std.foundation").is_empty());
    assert_eq!(foundation_dependencies("std.foundation.bytes"), vec!["std.foundation".to_string()]);
}

#[test]
fn source_namespace_is_read_from_the_declaration() {
    let forms = vec![
        list(vec![symbol("ns+"), symbol("sample.source")]),
        list(vec![symbol("def"), symbol("value"), HalValue::Number(1)]),
    ];
    assert_eq!(declared_namespace(&forms), Some("sample.source".into()));
    assert_eq!(declared_namespace(&vec![list(vec![symbol("def"), symbol("value"), HalValue::Number(1)])]), None);
}

fn console_ns(namespace: &str) -> Vec<HalValue> {
    vec![list(vec![symbol("ns"), symbol(namespace), list(vec![HalValue::Keyword("config".into()), HalValue::Mapping(vec![])])])]
}

#[test]
fn client_bundle_must_declare_the_expected_namespace() {
    assert!(validate_declared_namespace(&console_ns("tahto.console"), "tahto.console").is_ok());
    let sum = vec![list(vec![symbol("+"), HalValue::Number(1), HalValue::Number(2)])];
    assert!(validate_declared_namespace(&sum, "tahto.console").is_err());
    assert!(validate_declared_namespace(&console_ns("tahto.application"), "tahto.console").is_err());
    assert_eq!(
        validate_declared_namespace(&console_ns("tahto.application"), "tahto.console").unwrap_err(),
        "console client source declares namespace \"tahto.application\", expected \"tahto.console\""
    );
    assert_eq!(
        validate_declared_namespace(&sum, "tahto.console").unwrap_err(),
        "console client source must declare an ns namespace"
    );
}
