use hoplite::hal::HalValue;
use hoplite::module_order::{
    add_application_module, application_module, namespace_declaration,
    order_application_modules, visit_application_module, ApplicationModule,
};
use hoplite::text_set::TextSet;

fn symbol(text: &str) -> HalValue {
    HalValue::Symbol(text.into())
}

fn keyword(text: &str) -> HalValue {
    HalValue::Keyword(text.into())
}

fn ns_form(namespace: &str, dependencies: &[&str]) -> HalValue {
    let mut items = vec![symbol("ns"), symbol(namespace)];
    if !dependencies.is_empty() {
        let mut clause = vec![keyword("require")];
        for dependency in dependencies {
            clause.push(HalValue::Vector(vec![symbol(dependency), keyword("as"), symbol("alias")]));
        }
        items.push(HalValue::List(clause));
    }
    HalValue::List(items)
}

fn module(namespace: &str, dependencies: &[&str]) -> ApplicationModule {
    let mut set = TextSet::new();
    for dependency in dependencies {
        set.insert(dependency.to_string());
    }
    ApplicationModule { namespace: namespace.into(), dependencies: set, source: String::new() }
}

fn namespaces(modules: &[ApplicationModule]) -> Vec<String> {
    modules.iter().map(|module| module.namespace.clone()).collect()
}

#[test]
fn orders_application_modules_before_their_dependents() {
    let dependency = module("example.dependency", &[]);
    let application = module("example.application", &["example.dependency"]);
    let modules = vec![application, dependency];
    let mut ordered = Vec::new();
    visit_application_module(
        "example.application",
        &modules,
        &mut TextSet::new(),
        &mut TextSet::new(),
        &mut ordered,
    )
    .unwrap();
    assert_eq!(namespaces(&ordered), ["example.dependency", "example.application"]);
}

#[test]
fn rejects_application_namespace_cycles() {
    let first = module("example.first", &["example.second"]);
    let second = module("example.second", &["example.first"]);
    let modules = vec![first, second];
    let error = visit_application_module(
        "example.first",
        &modules,
        &mut TextSet::new(),
        &mut TextSet::new(),
        &mut Vec::new(),
    )
    .unwrap_err();
    assert!(error.contains("namespace cycle"), "{error}");
    assert_eq!(error, "Hoplite application namespace cycle includes example.first");
}

#[test]
fn a_missing_namespace_is_named() {
    let modules = vec![module("example.first", &[])];
    let error = visit_application_module(
        "example.other",
        &modules,
        &mut TextSet::new(),
        &mut TextSet::new(),
        &mut Vec::new(),
    )
    .unwrap_err();
    assert_eq!(error, "missing Hoplite application namespace example.other");
}

#[test]
fn whole_load_order_is_sorted_then_dependency_first() {
    let modules = vec![
        module("b.app", &["z.lib", "unknown.ns"]),
        module("z.lib", &["a.base"]),
        module("a.base", &[]),
        module("c.other", &[]),
    ];
    let ordered = order_application_modules(&modules).unwrap();
    assert_eq!(namespaces(&ordered), ["a.base", "z.lib", "b.app", "c.other"]);
}

#[test]
fn namespace_declarations_collect_sorted_requirements() {
    let forms = vec![
        HalValue::List(vec![symbol("defn"), symbol("before")]),
        ns_form("example.application", &["example.z", "example.a", "example.z"]),
        ns_form("example.ignored", &[]),
    ];
    let (index, name, dependencies) = namespace_declaration(&forms).unwrap();
    assert_eq!(index, 1);
    assert_eq!(name, "example.application");
    assert_eq!(dependencies.items().clone(), vec!["example.a".to_string(), "example.z".to_string()]);
    let module = application_module(&forms, "(ns example.application)".into()).unwrap();
    assert_eq!(module.namespace, "example.application");
    assert_eq!(module.source, "(ns example.application)");
}

#[test]
fn namespace_declarations_refuse_missing_and_qualified_names() {
    let forms = vec![HalValue::List(vec![symbol("defn"), symbol("answer")])];
    assert_eq!(namespace_declaration(&forms).unwrap_err(), "HAL module is missing ns form");
    let forms = vec![ns_form("example/qualified", &[])];
    assert_eq!(
        namespace_declaration(&forms).unwrap_err(),
        "HAL module ns name must be an unqualified symbol"
    );
    let forms = vec![HalValue::List(vec![symbol("ns")])];
    assert_eq!(
        namespace_declaration(&forms).unwrap_err(),
        "HAL module ns name must be an unqualified symbol"
    );
}

#[test]
fn a_second_module_for_a_namespace_is_refused() {
    let mut modules = vec![module("example.first", &[])];
    add_application_module(&mut modules, module("example.second", &[]), "src/second.hal").unwrap();
    assert_eq!(modules.len(), 2);
    assert_eq!(
        add_application_module(&mut modules, module("example.first", &[]), "src/again.hal")
            .unwrap_err(),
        "duplicate Hoplite application namespace in src/again.hal"
    );
    assert_eq!(modules.len(), 2);
}
