use hoplite::hara_source::NamespaceSources;
use hoplite::module_import::{namespace_path, select_sources, ExportedSource, ModuleExport};

fn module(namespace: &str, source: &str) -> ModuleExport {
    ModuleExport {
        coordinate: "gh:example:modules".into(),
        export: "example/feature".into(),
        sources: vec![ExportedSource { namespace: namespace.into(), source: source.into() }],
    }
}

fn embedded() -> NamespaceSources {
    let mut sources = NamespaceSources::new();
    sources.add("hoplite.core".into(), "(ns hoplite.core)\n(def embedded true)\n".into()).unwrap();
    sources
}

#[test]
fn materializes_selected_non_embedded_namespaces() {
    let selected =
        select_sources(&vec![module("example.feature", "(ns example.feature)\n(defn value [] 42)\n")], &embedded())
            .unwrap();
    assert_eq!(selected.entries().len(), 1);
    assert_eq!(namespace_path(&selected.entries()[0].0).unwrap(), "example/feature.hal");
}

#[test]
fn refuses_to_replace_an_embedded_namespace() {
    let error = select_sources(&vec![module("hoplite.core", "(ns hoplite.core)\n")], &embedded()).unwrap_err();
    assert!(error.contains("cannot replace embedded namespace"), "{error}");
    assert_eq!(
        error,
        "module gh:example:modules export :example/feature cannot replace embedded namespace hoplite.core"
    );
}

#[test]
fn identical_embedded_and_repeated_sources_are_accepted_once() {
    let same = module("hoplite.core", "(ns hoplite.core)\n(def embedded true)\n");
    let twice = vec![same, module("a.b", "x"), module("a.b", "x")];
    let selected = select_sources(&twice, &embedded()).unwrap();
    assert_eq!(selected.entries().len(), 1);
    assert_eq!(selected.entries()[0].0, "a.b");
    assert_eq!(
        select_sources(&vec![module("a.b", "x"), module("a.b", "y")], &embedded()).unwrap_err(),
        "selected Hoplite modules provide conflicting namespace a.b"
    );
}

#[test]
fn namespace_paths_are_relative_and_plain() {
    assert_eq!(namespace_path("my-app.web-ui").unwrap(), "my_app/web_ui.hal");
    assert_eq!(namespace_path("").unwrap_err(), "invalid imported namespace \"\"");
    assert_eq!(namespace_path("a/b").unwrap_err(), "invalid imported namespace \"a/b\"");
    assert_eq!(namespace_path("a b").unwrap_err(), "invalid imported namespace \"a b\"");
    assert_eq!(namespace_path(".hidden").unwrap_err(), "invalid imported namespace \".hidden\"");
}
