//! Application modules: the namespace each HAL module declares, the
//! namespaces it requires, and the order in which they load, every module
//! after the modules it requires.

use vstd::prelude::*;
use crate::hal::{HalValue, is_keyword, keyword_is};
use crate::text::{chars_of, owned, push_str, same_text};
use crate::text_set::{TextSet, lemma_sorted_of, sorted_of, sorted_texts};

verus! {

// ---------------------------------------------------------------------------
// The namespace declaration
// ---------------------------------------------------------------------------

pub open spec fn is_symbol(value: HalValue, name: Seq<char>) -> bool {
    match value {
        HalValue::Symbol(s) => s@ == name,
        _ => false,
    }
}

/// An `(ns ...)` form.
pub open spec fn is_ns_form(form: HalValue) -> bool {
    match form {
        HalValue::List(items) => items@.len() > 0 && is_symbol(items@[0], "ns"@),
        _ => false,
    }
}

/// `index` is the first `(ns ...)` form.
pub open spec fn first_ns_form(forms: Seq<HalValue>, index: int) -> bool {
    &&& 0 <= index < forms.len()
    &&& is_ns_form(forms[index])
    &&& forall|j: int| 0 <= j < index ==> !is_ns_form(#[trigger] forms[j])
}

pub open spec fn list_items(form: HalValue) -> Seq<HalValue> {
    match form {
        HalValue::List(items) => items@,
        _ => Seq::empty(),
    }
}

/// The name an `ns` form declares, where it is an unqualified symbol.
pub open spec fn declared_name(form: HalValue) -> Option<Seq<char>> {
    let items = list_items(form);
    if items.len() < 2 {
        None
    } else {
        match items[1] {
            HalValue::Symbol(s) => if s@.contains('/') {
                None
            } else {
                Some(s@)
            },
            _ => None,
        }
    }
}

/// The namespace a `[namespace :as alias]` entry requires.
pub open spec fn entry_dependency(entry: HalValue) -> Option<Seq<char>> {
    match entry {
        HalValue::Vector(require) => if require@.len() > 0 {
            match require@[0] {
                HalValue::Symbol(s) => Some(s@),
                _ => None,
            }
        } else {
            None
        },
        _ => None,
    }
}

pub open spec fn entry_dependencies(entries: Seq<HalValue>) -> Seq<Seq<char>>
    decreases entries.len(),
{
    if entries.len() == 0 {
        Seq::empty()
    } else {
        entry_dependencies(entries.drop_last()) + match entry_dependency(entries.last()) {
            Some(d) => seq![d],
            None => Seq::empty(),
        }
    }
}

/// The namespaces a `(:require ...)` clause names; nothing for any other
/// clause.
pub open spec fn clause_dependencies(clause: HalValue) -> Seq<Seq<char>> {
    match clause {
        HalValue::List(values) => if values@.len() > 0 && is_keyword(values@[0], "require"@) {
            entry_dependencies(values@.skip(1))
        } else {
            Seq::empty()
        },
        _ => Seq::empty(),
    }
}

pub open spec fn clauses_dependencies(clauses: Seq<HalValue>) -> Seq<Seq<char>>
    decreases clauses.len(),
{
    if clauses.len() == 0 {
        Seq::empty()
    } else {
        clauses_dependencies(clauses.drop_last()) + clause_dependencies(clauses.last())
    }
}

/// The namespaces an `ns` form requires.
pub open spec fn ns_dependencies(form: HalValue) -> Set<Seq<char>> {
    clauses_dependencies(list_items(form).skip(2)).to_set()
}

/// The position of the `ns` form, its namespace and the sorted namespaces
/// it requires; or why the module cannot be loaded.
pub open spec fn namespace_spec(forms: Seq<HalValue>) -> Result<(int, Seq<char>, Seq<Seq<char>>), Seq<char>> {
    if exists|i: int| first_ns_form(forms, i) {
        let i = choose|i: int| first_ns_form(forms, i);
        match declared_name(forms[i]) {
            None => Err("HAL module ns name must be an unqualified symbol"@),
            Some(name) => Ok((i, name, sorted_of(ns_dependencies(forms[i])))),
        }
    } else {
        Err("HAL module is missing ns form"@)
    }
}

pub open spec fn declaration_view(r: Result<(usize, String, TextSet), String>) -> Result<(int, Seq<char>, Seq<Seq<char>>), Seq<char>> {
    match r {
        Ok((i, name, required)) => Ok((i as int, name@, required@)),
        Err(m) => Err(m@),
    }
}

proof fn lemma_first_ns_form_unique(forms: Seq<HalValue>, i: int, j: int)
    requires
        first_ns_form(forms, i),
        first_ns_form(forms, j),
    ensures
        i == j,
{
    if i < j {
        assert(!is_ns_form(forms[i]));
    } else if j < i {
        assert(!is_ns_form(forms[j]));
    }
}

fn symbol_is(value: &HalValue, name: &str) -> (r: bool)
    ensures
        r == is_symbol(*value, name@),
{
    match value {
        HalValue::Symbol(s) => same_text(s.as_str(), name),
        _ => false,
    }
}

fn ns_form(form: &HalValue) -> (r: bool)
    ensures
        r == is_ns_form(*form),
{
    match form {
        HalValue::List(items) => items.len() > 0 && symbol_is(&items[0], "ns"),
        _ => false,
    }
}

fn contains_slash(text: &str) -> (r: bool)
    ensures
        r == text@.contains('/'),
{
    let chars = chars_of(text);
    let mut i: usize = 0;
    while i < chars.len()
        invariant
            chars@ == text@,
            i <= chars@.len(),
            forall|j: int| 0 <= j < i ==> chars@[j] != '/',
        decreases chars@.len() - i,
    {
        if chars[i] == '/' {
            assert(text@[i as int] == '/');
            return true;
        }
        i = i + 1;
    }
    false
}

/// Adds the namespaces a `(:require ...)` clause names.
fn add_clause_dependencies(clause: &HalValue, required: &mut TextSet)
    ensures
        final(required)@.to_set() == old(required)@.to_set() + clause_dependencies(*clause).to_set(),
{
    match clause {
        HalValue::List(values) => {
            if values.len() == 0 || !keyword_is(&values[0], "require") {
                assert(old(required)@.to_set() + Seq::<Seq<char>>::empty().to_set() =~= old(required)@.to_set());
                return;
            }
            let ghost entries = values@.skip(1);
            let ghost start = required@.to_set();
            let mut k: usize = 1;
            assert(entries.take(0) =~= Seq::<HalValue>::empty());
            assert(start + Seq::<Seq<char>>::empty().to_set() =~= start);
            while k < values.len()
                invariant
                    entries == values@.skip(1),
                    1 <= k <= values@.len(),
                    start == old(required)@.to_set(),
                    required@.to_set() == start + entry_dependencies(entries.take(k - 1)).to_set(),
                decreases values@.len() - k,
            {
                assert(entries.take(k as int).drop_last() =~= entries.take(k - 1));
                assert(entries.take(k as int).last() == values@[k as int]);
                let ghost before = entry_dependencies(entries.take(k - 1));
                match &values[k] {
                    HalValue::Vector(require) => {
                        if require.len() > 0 {
                            match &require[0] {
                                HalValue::Symbol(dependency) => {
                                    required.insert(dependency.clone());
                                    assert(required@.to_set() =~= start + (before + seq![dependency@]).to_set()) by {
                                        Seq::lemma_to_set_insert_commutes(before, dependency@);
                                    }
                                },
                                _ => {
                                    assert(before + Seq::<Seq<char>>::empty() =~= before);
                                },
                            }
                        } else {
                            assert(before + Seq::<Seq<char>>::empty() =~= before);
                        }
                    },
                    _ => {
                        assert(before + Seq::<Seq<char>>::empty() =~= before);
                    },
                }
                k = k + 1;
            }
            assert(entries.take(k - 1) =~= entries);
        },
        _ => {
            assert(old(required)@.to_set() + Seq::<Seq<char>>::empty().to_set() =~= old(required)@.to_set());
        },
    }
}

/// The first `(ns name (:require [dependency :as alias] ...) ...)` form of
/// a module: its position, its unqualified namespace, and the namespaces it
/// requires, sorted and without repeats.
pub fn namespace_declaration(forms: &Vec<HalValue>) -> (r: Result<(usize, String, TextSet), String>)
    ensures
        declaration_view(r) == namespace_spec(forms@),
{
    let mut i: usize = 0;
    while i < forms.len() && !ns_form(&forms[i])
        invariant
            i <= forms@.len(),
            forall|j: int| 0 <= j < i ==> !is_ns_form(#[trigger] forms@[j]),
        decreases forms@.len() - i,
    {
        i = i + 1;
    }
    if i == forms.len() {
        proof {
            reveal_strlit("HAL module is missing ns form");
        }
        return Err(owned("HAL module is missing ns form"));
    }
    assert(first_ns_form(forms@, i as int));
    proof {
        let c = choose|c: int| first_ns_form(forms@, c);
        lemma_first_ns_form_unique(forms@, c, i as int);
    }
    let items = match &forms[i] {
        HalValue::List(items) => items,
        _ => {
            assert(false);
            return Err(owned("HAL module is missing ns form"));
        },
    };
    let name = if items.len() < 2 {
        None
    } else {
        match &items[1] {
            HalValue::Symbol(s) => if contains_slash(s.as_str()) {
                None
            } else {
                Some(s.clone())
            },
            _ => None,
        }
    };
    let name = match name {
        Some(name) => name,
        None => {
            return Err(owned("HAL module ns name must be an unqualified symbol"));
        },
    };
    let ghost clauses = items@.skip(2);
    let mut required = TextSet::new();
    let mut k: usize = 2;
    assert(clauses.take(0) =~= Seq::<HalValue>::empty());
    assert(required@.to_set() =~= Seq::<Seq<char>>::empty().to_set());
    while k < items.len()
        invariant
            clauses == items@.skip(2),
            2 <= k <= items@.len(),
            required@.to_set() == clauses_dependencies(clauses.take(k - 2)).to_set(),
        decreases items@.len() - k,
    {
        assert(clauses.take(k - 1).drop_last() =~= clauses.take(k - 2));
        assert(clauses.take(k - 1).last() == items@[k as int]);
        add_clause_dependencies(&items[k], &mut required);
        proof {
            vstd::seq_lib::seq_to_set_distributes_over_add(
                clauses_dependencies(clauses.take(k - 2)),
                clause_dependencies(items@[k as int]),
            );
        }
        k = k + 1;
    }
    assert(clauses.take(k - 2) =~= clauses);
    let listed = required.items();
    proof {
        assert(sorted_texts(required@));
        lemma_sorted_of(required@);
    }
    Ok((i, name, required))
}

// ---------------------------------------------------------------------------
// Load order
// ---------------------------------------------------------------------------

/// A HAL module of an application: its namespace, the namespaces it
/// requires, and its source.
#[derive(Debug)]
pub struct ApplicationModule {
    pub namespace: String,
    pub dependencies: TextSet,
    pub source: String,
}

pub struct ModuleModel {
    pub namespace: Seq<char>,
    pub dependencies: Seq<Seq<char>>,
    pub source: Seq<char>,
}

impl View for ApplicationModule {
    type V = ModuleModel;

    open spec fn view(&self) -> ModuleModel {
        ModuleModel { namespace: self.namespace@, dependencies: self.dependencies@, source: self.source@ }
    }
}

impl ApplicationModule {
    /// A copy of the module.
    pub fn duplicate(&self) -> (copy: Self)
        ensures
            copy@ == self@,
    {
        ApplicationModule {
            namespace: self.namespace.clone(),
            dependencies: self.dependencies.duplicate(),
            source: self.source.clone(),
        }
    }
}

impl Clone for ApplicationModule {
    fn clone(&self) -> (copy: Self)
        ensures
            copy@ == self@,
    {
        self.duplicate()
    }
}

/// A module from the forms of its source: `Err` as for
/// `namespace_declaration`.
pub fn application_module(forms: &Vec<HalValue>, source: String) -> (r: Result<ApplicationModule, String>)
    ensures
        match namespace_spec(forms@) {
            Ok((_, name, dependencies)) => r matches Ok(m) && m@ == (ModuleModel {
                namespace: name,
                dependencies,
                source: source@,
            }),
            Err(message) => r matches Err(m) && m@ == message,
        },
{
    match namespace_declaration(forms) {
        Ok((_, namespace, dependencies)) => Ok(ApplicationModule { namespace, dependencies, source }),
        Err(message) => Err(message),
    }
}

pub open spec fn models(modules: Seq<ApplicationModule>) -> Seq<ModuleModel> {
    modules.map_values(|m: ApplicationModule| m@)
}

pub open spec fn namespaces(modules: Seq<ModuleModel>) -> Seq<Seq<char>> {
    modules.map_values(|m: ModuleModel| m.namespace)
}

/// The first module with this namespace.
pub open spec fn find_module(modules: Seq<ModuleModel>, namespace: Seq<char>) -> Option<int>
    decreases modules.len(),
{
    if modules.len() == 0 {
        None
    } else if modules[0].namespace == namespace {
        Some(0)
    } else {
        match find_module(modules.drop_first(), namespace) {
            Some(i) => Some(i + 1),
            None => None,
        }
    }
}

/// How many of the namespaces are not on the path.
pub open spec fn outside_count(names: Seq<Seq<char>>, path: Set<Seq<char>>) -> nat
    decreases names.len(),
{
    if names.len() == 0 {
        0
    } else {
        outside_count(names.drop_last(), path) + if path.contains(names.last()) {
            0nat
        } else {
            1nat
        }
    }
}

pub open spec fn cycle_message(namespace: Seq<char>) -> Seq<char> {
    "Hoplite application namespace cycle includes "@ + namespace
}

pub open spec fn missing_message(namespace: Seq<char>) -> Seq<char> {
    "missing Hoplite application namespace "@ + namespace
}

pub proof fn lemma_find_module(modules: Seq<ModuleModel>, namespace: Seq<char>)
    ensures
        match find_module(modules, namespace) {
            Some(i) => 0 <= i < modules.len() && modules[i].namespace == namespace
                && forall|j: int| 0 <= j < i ==> (#[trigger] modules[j]).namespace != namespace,
            None => forall|j: int| 0 <= j < modules.len() ==> (#[trigger] modules[j]).namespace != namespace,
        },
    decreases modules.len(),
{
    if modules.len() > 0 {
        lemma_find_module(modules.drop_first(), namespace);
        assert forall|j: int| 1 <= j < modules.len() implies modules.drop_first()[j - 1] == #[trigger] modules[j] by {}
    }
}

pub proof fn lemma_outside_count_insert(names: Seq<Seq<char>>, path: Set<Seq<char>>, name: Seq<char>)
    ensures
        outside_count(names, path.insert(name)) <= outside_count(names, path),
        names.contains(name) && !path.contains(name) ==> outside_count(names, path.insert(name)) < outside_count(
            names,
            path,
        ),
    decreases names.len(),
{
    if names.len() > 0 {
        lemma_outside_count_insert(names.drop_last(), path, name);
        if names.contains(name) && !path.contains(name) && names.last() != name {
            let k = choose|k: int| 0 <= k < names.len() && names[k] == name;
            assert(names.drop_last()[k] == name);
        }
    }
}

pub proof fn lemma_found_namespace(modules: Seq<ModuleModel>, namespace: Seq<char>)
    requires
        find_module(modules, namespace) is Some,
    ensures
        namespaces(modules).contains(namespace),
{
    lemma_find_module(modules, namespace);
    let i = find_module(modules, namespace)->0;
    assert(namespaces(modules)[i] == namespace);
}

/// Visiting a namespace: `Err` where it is on the path being visited (a
/// cycle) or no module declares it; otherwise, unless it was visited
/// before, its required modules that exist are visited in order, then it
/// is marked visited and its module is appended.
pub open spec fn visit_result(
    modules: Seq<ModuleModel>,
    path: Set<Seq<char>>,
    namespace: Seq<char>,
    visited: Set<Seq<char>>,
    ordered: Seq<ModuleModel>,
) -> Result<(Set<Seq<char>>, Seq<ModuleModel>), Seq<char>>
    decreases outside_count(namespaces(modules), path), 0nat, 0nat,
{
    if visited.contains(namespace) {
        Ok((visited, ordered))
    } else if path.contains(namespace) {
        Err(cycle_message(namespace))
    } else {
        match find_module(modules, namespace) {
            None => Err(missing_message(namespace)),
            Some(i) => {
                proof {
                    lemma_found_namespace(modules, namespace);
                    lemma_outside_count_insert(namespaces(modules), path, namespace);
                }
                match visit_dependencies(modules, path.insert(namespace), modules[i].dependencies, 0, visited, ordered) {
                    Err(m) => Err(m),
                    Ok((v, o)) => Ok((v.insert(namespace), o.push(modules[i]))),
                }
            },
        }
    }
}

/// Visiting the required namespaces from the `k`th on, skipping those no
/// module declares.
pub open spec fn visit_dependencies(
    modules: Seq<ModuleModel>,
    path: Set<Seq<char>>,
    dependencies: Seq<Seq<char>>,
    k: int,
    visited: Set<Seq<char>>,
    ordered: Seq<ModuleModel>,
) -> Result<(Set<Seq<char>>, Seq<ModuleModel>), Seq<char>>
    decreases outside_count(namespaces(modules), path), 1nat, dependencies.len() - k,
{
    if k < 0 || k >= dependencies.len() {
        Ok((visited, ordered))
    } else if find_module(modules, dependencies[k]) is None {
        visit_dependencies(modules, path, dependencies, k + 1, visited, ordered)
    } else {
        match visit_result(modules, path, dependencies[k], visited, ordered) {
            Err(m) => Err(m),
            Ok((v, o)) => visit_dependencies(modules, path, dependencies, k + 1, v, o),
        }
    }
}

fn module_index(modules: &Vec<ApplicationModule>, namespace: &str) -> (r: Option<usize>)
    ensures
        match r {
            Some(i) => i < modules@.len() && find_module(models(modules@), namespace@) == Some(i as int),
            None => find_module(models(modules@), namespace@) is None,
        },
{
    proof {
        lemma_find_module(models(modules@), namespace@);
    }
    let mut i: usize = 0;
    while i < modules.len()
        invariant
            i <= modules@.len(),
            forall|j: int| 0 <= j < i ==> (#[trigger] models(modules@)[j]).namespace != namespace@,
            match find_module(models(modules@), namespace@) {
                Some(f) => 0 <= f < modules@.len() && models(modules@)[f].namespace == namespace@
                    && forall|j: int| 0 <= j < f ==> (#[trigger] models(modules@)[j]).namespace != namespace@,
                None => forall|j: int| 0 <= j < modules@.len() ==> (#[trigger] models(modules@)[j]).namespace != namespace@,
            },
        decreases modules@.len() - i,
    {
        if same_text(modules[i].namespace.as_str(), namespace) {
            assert(models(modules@)[i as int].namespace == namespace@);
            return Some(i);
        }
        i = i + 1;
    }
    None
}

/// Visits a namespace and, before it, the modules it requires, appending
/// each module to `ordered` after the modules it requires. `visiting` holds
/// the namespaces whose visit is under way, `visited` those whose module
/// is already in `ordered`.
pub fn visit_application_module(
    namespace: &str,
    modules: &Vec<ApplicationModule>,
    visiting: &mut TextSet,
    visited: &mut TextSet,
    ordered: &mut Vec<ApplicationModule>,
) -> (r: Result<(), String>)
    ensures
        match visit_result(models(modules@), old(visiting)@.to_set(), namespace@, old(visited)@.to_set(), models(old(ordered)@)) {
            Ok((v, o)) => r is Ok && final(visiting)@.to_set() == old(visiting)@.to_set()
                && final(visited)@.to_set() == v && models(final(ordered)@) == o,
            Err(message) => r matches Err(m) && m@ == message,
        },
    decreases outside_count(namespaces(models(modules@)), old(visiting)@.to_set()),
{
    let ghost ms = models(modules@);
    let ghost path = visiting@.to_set();
    if visited.contains(namespace) {
        return Ok(());
    }
    if visiting.contains(namespace) {
        let mut message = owned("Hoplite application namespace cycle includes ");
        push_str(&mut message, namespace);
        return Err(message);
    }
    let index = match module_index(modules, namespace) {
        Some(index) => index,
        None => {
            let mut message = owned("missing Hoplite application namespace ");
            push_str(&mut message, namespace);
            return Err(message);
        },
    };
    visiting.insert(owned(namespace));
    let ghost inner = visiting@.to_set();
    assert(inner == path.insert(namespace@));
    proof {
        lemma_found_namespace(ms, namespace@);
        lemma_outside_count_insert(namespaces(ms), path, namespace@);
    }
    let module = &modules[index];
    let ghost deps = module.dependencies@;
    assert(ms[index as int].dependencies == deps);
    let listed = module.dependencies.items();
    let ghost outcome = visit_result(ms, path, namespace@, old(visited)@.to_set(), models(old(ordered)@));
    assert(outcome == match visit_dependencies(ms, inner, deps, 0, old(visited)@.to_set(), models(old(ordered)@)) {
        Err(m) => Err(m),
        Ok((v, o)) => Ok((v.insert(namespace@), o.push(ms[index as int]))),
    });
    let mut k: usize = 0;
    while k < listed.len()
        invariant
            ms == models(modules@),
            path == old(visiting)@.to_set(),
            index < ms.len(),
            outcome == visit_result(ms, path, namespace@, old(visited)@.to_set(), models(old(ordered)@)),
            outcome == match visit_dependencies(ms, inner, deps, 0, old(visited)@.to_set(), models(old(ordered)@)) {
                Err(m) => Err(m),
                Ok((v, o)) => Ok((v.insert(namespace@), o.push(ms[index as int]))),
            },
            listed@.map_values(|s: String| s@) == deps,
            k <= deps.len(),
            visiting@.to_set() == inner,
            outside_count(namespaces(ms), inner) < outside_count(namespaces(ms), path),
            visit_dependencies(ms, inner, deps, 0, old(visited)@.to_set(), models(old(ordered)@))
                == visit_dependencies(ms, inner, deps, k as int, visited@.to_set(), models(ordered@)),
        decreases deps.len() - k,
    {
        let dependency = listed[k].as_str();
        assert(dependency@ == deps[k as int]);
        match module_index(modules, dependency) {
            None => {},
            Some(_) => {
                match visit_application_module(dependency, modules, visiting, visited, ordered) {
                    Ok(()) => {},
                    Err(message) => {
                        return Err(message);
                    },
                }
            },
        }
        k = k + 1;
    }
    visiting.remove(namespace);
    assert(inner.remove(namespace@) =~= path);
    visited.insert(owned(namespace));
    let ghost before_push = models(ordered@);
    ordered.push(module.duplicate());
    assert(models(ordered@) =~= before_push.push(ms[index as int]));
    Ok(())
}

/// Visiting the namespaces from the `k`th on, each from an empty path.
pub open spec fn visit_all(
    modules: Seq<ModuleModel>,
    names: Seq<Seq<char>>,
    k: int,
    visited: Set<Seq<char>>,
    ordered: Seq<ModuleModel>,
) -> Result<Seq<ModuleModel>, Seq<char>>
    decreases names.len() - k,
{
    if k < 0 || k >= names.len() {
        Ok(ordered)
    } else {
        match visit_result(modules, Set::empty(), names[k], visited, ordered) {
            Err(m) => Err(m),
            Ok((v, o)) => visit_all(modules, names, k + 1, v, o),
        }
    }
}

/// The load order of a set of modules: every namespace, in increasing
/// order, is visited from an empty path.
pub open spec fn load_order(modules: Seq<ModuleModel>) -> Result<Seq<ModuleModel>, Seq<char>> {
    visit_all(modules, sorted_of(namespaces(modules).to_set()), 0, Set::empty(), Seq::empty())
}

pub open spec fn order_view(r: Result<Vec<ApplicationModule>, String>) -> Result<Seq<ModuleModel>, Seq<char>> {
    match r {
        Ok(ordered) => Ok(models(ordered@)),
        Err(m) => Err(m@),
    }
}

/// The modules in load order: each after the modules it requires, or the
/// namespace cycle or missing namespace that prevents it.
pub fn order_application_modules(modules: &Vec<ApplicationModule>) -> (r: Result<Vec<ApplicationModule>, String>)
    ensures
        order_view(r) == load_order(models(modules@)),
{
    let ghost ms = models(modules@);
    let mut names = TextSet::new();
    let mut i: usize = 0;
    assert(namespaces(ms).take(0).to_set() =~= Set::<Seq<char>>::empty());
    while i < modules.len()
        invariant
            ms == models(modules@),
            i <= modules@.len(),
            names@.to_set() == namespaces(ms).take(i as int).to_set(),
        decreases modules@.len() - i,
    {
        names.insert(modules[i].namespace.clone());
        proof {
            assert(namespaces(ms).take(i + 1) =~= namespaces(ms).take(i as int).push(modules@[i as int].namespace@));
            namespaces(ms).take(i as int).lemma_push_to_set_commute(modules@[i as int].namespace@);
        }
        i = i + 1;
    }
    assert(namespaces(ms).take(i as int) =~= namespaces(ms));
    let listed = names.items();
    proof {
        lemma_sorted_of(names@);
    }
    let ghost sorted = names@;
    let mut visiting = TextSet::new();
    let mut visited = TextSet::new();
    let mut ordered: Vec<ApplicationModule> = Vec::new();
    assert(visited@.to_set() =~= Set::<Seq<char>>::empty());
    assert(visiting@.to_set() =~= Set::<Seq<char>>::empty());
    assert(models(ordered@) =~= Seq::<ModuleModel>::empty());
    let mut k: usize = 0;
    while k < listed.len()
        invariant
            ms == models(modules@),
            listed@.map_values(|s: String| s@) == sorted,
            sorted == sorted_of(namespaces(ms).to_set()),
            k <= sorted.len(),
            visiting@.to_set() == Set::<Seq<char>>::empty(),
            load_order(ms) == visit_all(ms, sorted, k as int, visited@.to_set(), models(ordered@)),
        decreases sorted.len() - k,
    {
        let namespace = listed[k].as_str();
        assert(namespace@ == sorted[k as int]);
        match visit_application_module(namespace, modules, &mut visiting, &mut visited, &mut ordered) {
            Ok(()) => {},
            Err(message) => {
                return Err(message);
            },
        }
        k = k + 1;
    }
    Ok(ordered)
}

pub open spec fn duplicate_message(origin: Seq<char>) -> Seq<char> {
    "duplicate Hoplite application namespace in "@ + origin
}

/// Adds a module read from `origin`, refusing a second module for a
/// namespace already declared.
pub fn add_application_module(modules: &mut Vec<ApplicationModule>, module: ApplicationModule, origin: &str) -> (r: Result<(), String>)
    ensures
        match find_module(models(old(modules)@), module@.namespace) {
            Some(_) => r matches Err(m) && m@ == duplicate_message(origin@) && final(modules)@ == old(modules)@,
            None => r is Ok && models(final(modules)@) == models(old(modules)@).push(module@),
        },
{
    match module_index(modules, module.namespace.as_str()) {
        Some(_) => {
            let mut message = owned("duplicate Hoplite application namespace in ");
            push_str(&mut message, origin);
            Err(message)
        },
        None => {
            let ghost before = models(modules@);
            modules.push(module);
            assert(models(modules@) =~= before.push(module@));
            Ok(())
        },
    }
}

// ---------------------------------------------------------------------------
// Laws of the load order
// ---------------------------------------------------------------------------

/// A module with namespace `name` comes before position `i`.
pub open spec fn loaded_before(ordered: Seq<ModuleModel>, i: int, name: Seq<char>) -> bool {
    exists|j: int| 0 <= j < i && (#[trigger] ordered[j]).namespace == name
}

/// Every module comes after each module it requires that exists.
pub open spec fn dependencies_first(modules: Seq<ModuleModel>, ordered: Seq<ModuleModel>) -> bool {
    forall|i: int, name: Seq<char>|
        0 <= i < ordered.len() && (#[trigger] ordered[i].dependencies.contains(name)) && find_module(
            modules,
            name,
        ) is Some ==> loaded_before(ordered, i, name)
}

/// The visited namespaces are those of the ordered modules, which come
/// each after its dependencies.
pub open spec fn well_loaded(modules: Seq<ModuleModel>, visited: Set<Seq<char>>, ordered: Seq<ModuleModel>) -> bool {
    &&& visited == namespaces(ordered).to_set()
    &&& dependencies_first(modules, ordered)
}

proof fn lemma_visit_keeps_order(
    modules: Seq<ModuleModel>,
    path: Set<Seq<char>>,
    namespace: Seq<char>,
    visited: Set<Seq<char>>,
    ordered: Seq<ModuleModel>,
)
    requires
        well_loaded(modules, visited, ordered),
    ensures
        visit_result(modules, path, namespace, visited, ordered) matches Ok((v, o)) ==> well_loaded(modules, v, o)
            && v.contains(namespace) && visited.subset_of(v),
    decreases outside_count(namespaces(modules), path), 0nat, 0nat,
{
    if visited.contains(namespace) {
    } else if path.contains(namespace) {
    } else {
        match find_module(modules, namespace) {
            None => {},
            Some(i) => {
                lemma_found_namespace(modules, namespace);
                lemma_find_module(modules, namespace);
                lemma_outside_count_insert(namespaces(modules), path, namespace);
                let deps = modules[i].dependencies;
                lemma_dependencies_keep_order(modules, path.insert(namespace), deps, 0, visited, ordered);
                match visit_dependencies(modules, path.insert(namespace), deps, 0, visited, ordered) {
                    Err(_) => {},
                    Ok((v, o)) => {
                        let m = modules[i];
                        let o2 = o.push(m);
                        assert(namespaces(o2) =~= namespaces(o).push(namespace));
                        namespaces(o).lemma_push_to_set_commute(namespace);
                        assert forall|a: int, name: Seq<char>|
                            0 <= a < o2.len() && (#[trigger] o2[a].dependencies.contains(name)) && find_module(
                                modules,
                                name,
                            ) is Some implies loaded_before(o2, a, name) by {
                            if a < o.len() {
                                assert(o2[a] == o[a]);
                                assert(loaded_before(o, a, name));
                                let j = choose|j: int| 0 <= j < a && (#[trigger] o[j]).namespace == name;
                                assert(o2[j] == o[j]);
                            } else {
                                let x = choose|x: int| 0 <= x < deps.len() && deps[x] == name;
                                assert(v.contains(deps[x]));
                                assert(namespaces(o).to_set().contains(name));
                                let j = choose|j: int| 0 <= j < namespaces(o).len() && namespaces(o)[j] == name;
                                assert(o2[j] == o[j]);
                            }
                        }
                    },
                }
            },
        }
    }
}

proof fn lemma_dependencies_keep_order(
    modules: Seq<ModuleModel>,
    path: Set<Seq<char>>,
    dependencies: Seq<Seq<char>>,
    k: int,
    visited: Set<Seq<char>>,
    ordered: Seq<ModuleModel>,
)
    requires
        well_loaded(modules, visited, ordered),
        0 <= k,
    ensures
        visit_dependencies(modules, path, dependencies, k, visited, ordered) matches Ok((v, o)) ==> well_loaded(
            modules,
            v,
            o,
        ) && visited.subset_of(v) && forall|x: int|
            k <= x < dependencies.len() && find_module(modules, #[trigger] dependencies[x]) is Some ==> v.contains(
                dependencies[x],
            ),
    decreases outside_count(namespaces(modules), path), 1nat, dependencies.len() - k,
{
    if k >= dependencies.len() {
    } else if find_module(modules, dependencies[k]) is None {
        lemma_dependencies_keep_order(modules, path, dependencies, k + 1, visited, ordered);
    } else {
        lemma_visit_keeps_order(modules, path, dependencies[k], visited, ordered);
        match visit_result(modules, path, dependencies[k], visited, ordered) {
            Err(_) => {},
            Ok((v1, o1)) => {
                lemma_dependencies_keep_order(modules, path, dependencies, k + 1, v1, o1);
            },
        }
    }
}

proof fn lemma_visit_all_keeps_order(
    modules: Seq<ModuleModel>,
    names: Seq<Seq<char>>,
    k: int,
    visited: Set<Seq<char>>,
    ordered: Seq<ModuleModel>,
)
    requires
        well_loaded(modules, visited, ordered),
        0 <= k,
    ensures
        visit_all(modules, names, k, visited, ordered) matches Ok(o) ==> dependencies_first(modules, o)
            && visited.subset_of(namespaces(o).to_set()) && forall|x: int|
            k <= x < names.len() ==> namespaces(o).to_set().contains(#[trigger] names[x]),
    decreases names.len() - k,
{
    if k < names.len() {
        lemma_visit_keeps_order(modules, Set::empty(), names[k], visited, ordered);
        match visit_result(modules, Set::empty(), names[k], visited, ordered) {
            Err(_) => {},
            Ok((v, o)) => {
                lemma_visit_all_keeps_order(modules, names, k + 1, v, o);
            },
        }
    }
}

/// In the load order every module comes after each module it requires,
/// and every namespace visited is loaded.
pub proof fn law_modules_load_after_their_dependencies(modules: Seq<ModuleModel>)
    ensures
        load_order(modules) matches Ok(o) ==> dependencies_first(modules, o) && forall|x: int|
            0 <= x < sorted_of(namespaces(modules).to_set()).len() ==> namespaces(o).contains(
                #[trigger] sorted_of(namespaces(modules).to_set())[x],
            ),
{
    let names = sorted_of(namespaces(modules).to_set());
    assert(namespaces(Seq::<ModuleModel>::empty()).to_set() =~= Set::<Seq<char>>::empty());
    lemma_visit_all_keeps_order(modules, names, 0, Set::empty(), Seq::empty());
}

} // verus!
