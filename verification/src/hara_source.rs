//! The Hara standard-library sources the compiler embeds: the namespace
//! each source declares, one source per namespace kept in namespace order,
//! and the lookup of one namespace's source.

use vstd::prelude::*;
use crate::hal::HalValue;
use crate::module_order::{is_symbol, list_items};
use crate::text::{owned, push_decimal, push_str, same_text, decimal_chars};
use crate::text_set::{lemma_less_irreflexive, lemma_less_total, lemma_less_transitive, text_before, text_less};

verus! {

/// An `(ns ...)` or `(ns+ ...)` form.
pub open spec fn is_namespace_form(form: HalValue) -> bool {
    match form {
        HalValue::List(items) => items@.len() > 0 && (is_symbol(items@[0], "ns"@) || is_symbol(items@[0], "ns+"@)),
        _ => false,
    }
}

/// A `(defmacro ...)` or `(defmacro- ...)` form.
pub open spec fn is_macro_definition(form: HalValue) -> bool {
    match form {
        HalValue::List(items) => items@.len() > 0 && (is_symbol(items@[0], "defmacro"@) || is_symbol(
            items@[0],
            "defmacro-"@,
        )),
        _ => false,
    }
}

/// The namespace a form declares: that of a namespace form whose name is a
/// symbol.
pub open spec fn form_namespace(form: HalValue) -> Option<Seq<char>> {
    if is_namespace_form(form) && list_items(form).len() >= 2 {
        match list_items(form)[1] {
            HalValue::Symbol(s) => Some(s@),
            _ => None,
        }
    } else {
        None
    }
}

/// The namespace the first form that declares one declares.
pub open spec fn declared_namespace_spec(forms: Seq<HalValue>) -> Option<Seq<char>>
    decreases forms.len(),
{
    if forms.len() == 0 {
        None
    } else {
        match form_namespace(forms[0]) {
            Some(n) => Some(n),
            None => declared_namespace_spec(forms.drop_first()),
        }
    }
}

fn symbol_is(value: &HalValue, name: &str) -> (r: bool)
    ensures
        r == is_symbol(*value, name@),
{
    match value {
        HalValue::Symbol(s) => same_text(s.as_str(), name),
        _ => false,
    }
}

/// Whether a form is an `ns` or `ns+` form.
pub fn namespace_form(form: &HalValue) -> (r: bool)
    ensures
        r == is_namespace_form(*form),
{
    match form {
        HalValue::List(items) => items.len() > 0 && (symbol_is(&items[0], "ns") || symbol_is(&items[0], "ns+")),
        _ => false,
    }
}

/// Whether a form defines a macro.
pub fn macro_definition(form: &HalValue) -> (r: bool)
    ensures
        r == is_macro_definition(*form),
{
    match form {
        HalValue::List(items) => items.len() > 0 && (symbol_is(&items[0], "defmacro") || symbol_is(
            &items[0],
            "defmacro-",
        )),
        _ => false,
    }
}

/// The namespace a source's forms declare.
pub fn declared_namespace(forms: &Vec<HalValue>) -> (r: Option<String>)
    ensures
        match r {
            Some(n) => declared_namespace_spec(forms@) == Some(n@),
            None => declared_namespace_spec(forms@) is None,
        },
{
    let mut i: usize = 0;
    assert(forms@.skip(0) =~= forms@);
    while i < forms.len()
        invariant
            i <= forms@.len(),
            declared_namespace_spec(forms@) == declared_namespace_spec(forms@.skip(i as int)),
        decreases forms@.len() - i,
    {
        assert(forms@.skip(i as int)[0] == forms@[i as int]);
        assert(forms@.skip(i as int).drop_first() =~= forms@.skip(i + 1));
        if namespace_form(&forms[i]) {
            match &forms[i] {
                HalValue::List(items) => {
                    if items.len() >= 2 {
                        match &items[1] {
                            HalValue::Symbol(s) => {
                                return Some(s.clone());
                            },
                            _ => {},
                        }
                    }
                },
                _ => {},
            }
        }
        i = i + 1;
    }
    None
}

// ---------------------------------------------------------------------------
// One source per namespace
// ---------------------------------------------------------------------------

/// Entries in increasing order of their names, so one per name.
pub open spec fn sorted_entries(entries: Seq<(Seq<char>, Seq<char>)>) -> bool {
    forall|i: int, j: int| 0 <= i < j < entries.len() ==> text_less(#[trigger] entries[i].0, #[trigger] entries[j].0)
}

pub open spec fn entry_views(entries: Seq<(String, String)>) -> Seq<(Seq<char>, Seq<char>)> {
    entries.map_values(|e: (String, String)| (e.0@, e.1@))
}

/// Sources by namespace, in namespace order.
#[derive(Debug)]
pub struct NamespaceSources {
    entries: Vec<(String, String)>,
}

impl View for NamespaceSources {
    type V = Seq<(Seq<char>, Seq<char>)>;

    closed spec fn view(&self) -> Seq<(Seq<char>, Seq<char>)> {
        entry_views(self.entries@)
    }
}

/// The length of a text's UTF-8 encoding.
pub open spec fn byte_length(text: Seq<char>) -> nat {
    vstd::utf8::encode_utf8(text).len()
}

pub open spec fn duplicate_namespace_message(namespace: Seq<char>, previous: nat, replacement: nat) -> Seq<char> {
    "Hara source checkout declares namespace "@ + namespace + " more than once ("@ + decimal_chars(previous)
        + " bytes and "@ + decimal_chars(replacement) + " bytes)"@
}

impl NamespaceSources {
    #[verifier::type_invariant]
    spec fn ordered(self) -> bool {
        sorted_entries(entry_views(self.entries@))
    }

    pub fn new() -> (sources: Self)
        ensures
            sources@ == Seq::<(Seq<char>, Seq<char>)>::empty(),
    {
        let sources = NamespaceSources { entries: Vec::new() };
        assert(sources@ =~= Seq::<(Seq<char>, Seq<char>)>::empty());
        sources
    }

    /// The namespaces and their sources, in namespace order.
    pub fn entries(&self) -> (entries: &Vec<(String, String)>)
        ensures
            entry_views(entries@) == self@,
            sorted_entries(self@),
    {
        proof {
            use_type_invariant(self);
        }
        &self.entries
    }

    /// The source of a namespace, where present.
    pub fn get(&self, namespace: &str) -> (r: Option<&String>)
        ensures
            match r {
                Some(source) => self@.contains((namespace@, source@)),
                None => forall|i: int| 0 <= i < self@.len() ==> (#[trigger] self@[i]).0 != namespace@,
            },
    {
        let mut i: usize = 0;
        while i < self.entries.len()
            invariant
                i <= self.entries@.len(),
                self@ == entry_views(self.entries@),
                forall|j: int| 0 <= j < i ==> (#[trigger] self@[j]).0 != namespace@,
            decreases self.entries@.len() - i,
        {
            if same_text(self.entries[i].0.as_str(), namespace) {
                assert(self@[i as int] == (namespace@, self.entries@[i as int].1@));
                return Some(&self.entries[i].1);
            }
            i = i + 1;
        }
        None
    }

    /// Adds a namespace's source, refusing a namespace already present with
    /// the byte lengths of both sources.
    pub fn add(&mut self, namespace: String, source: String) -> (r: Result<(), String>)
        ensures
            sorted_entries(final(self)@),
            match r {
                Ok(()) => (forall|i: int| 0 <= i < old(self)@.len() ==> (#[trigger] old(self)@[i]).0 != namespace@)
                    && (forall|e: (Seq<char>, Seq<char>)| #[trigger] final(self)@.contains(e) <==> (old(self)@.contains(e)
                    || e == (namespace@, source@))),
                Err(m) => exists|i: int|
                    0 <= i < old(self)@.len() && (#[trigger] old(self)@[i]).0 == namespace@ && m@
                        == duplicate_namespace_message(
                        namespace@,
                        byte_length(old(self)@[i].1),
                        byte_length(source@),
                    ),
            },
    {
        proof {
            use_type_invariant(&*self);
        }
        let ghost before = self@;
        let mut i: usize = 0;
        while i < self.entries.len() && text_before(self.entries[i].0.as_str(), namespace.as_str())
            invariant
                i <= self.entries@.len(),
                before == entry_views(self.entries@),
                before == old(self)@,
                sorted_entries(before),
                forall|j: int| 0 <= j < i ==> text_less(#[trigger] before[j].0, namespace@),
            decreases self.entries@.len() - i,
        {
            i = i + 1;
        }
        if i < self.entries.len() && same_text(self.entries[i].0.as_str(), namespace.as_str()) {
            let mut message = owned("Hara source checkout declares namespace ");
            push_str(&mut message, namespace.as_str());
            push_str(&mut message, " more than once (");
            push_decimal(&mut message, self.entries[i].1.as_str().as_bytes().len() as u64);
            push_str(&mut message, " bytes and ");
            push_decimal(&mut message, source.as_str().as_bytes().len() as u64);
            push_str(&mut message, " bytes)");
            assert(before[i as int].0 == namespace@);
            return Err(message);
        }
        let ghost updated = before.insert(i as int, (namespace@, source@));
        proof {
            if i < before.len() {
                lemma_less_total(before[i as int].0, namespace@);
            }
            assert forall|j: int| i <= j < before.len() implies text_less(namespace@, #[trigger] before[j].0) by {
                if j > i {
                    assert(text_less(before[i as int].0, before[j].0));
                    lemma_less_transitive(namespace@, before[i as int].0, before[j].0);
                }
            }
            assert forall|j: int| 0 <= j < before.len() implies (#[trigger] before[j]).0 != namespace@ by {
                if j < i {
                    lemma_less_irreflexive(namespace@);
                } else {
                    if j > i {
                        assert(text_less(before[i as int].0, before[j].0));
                        lemma_less_transitive(namespace@, before[i as int].0, before[j].0);
                    }
                    lemma_less_irreflexive(namespace@);
                }
            }
            assert forall|a: int, b: int| 0 <= a < b < updated.len() implies text_less(
                #[trigger] updated[a].0,
                #[trigger] updated[b].0,
            ) by {
                if b < i {
                    assert(text_less(before[a].0, before[b].0));
                } else if a < i && b == i {
                } else if a < i && b > i {
                    lemma_less_transitive(before[a].0, namespace@, before[b - 1].0);
                } else if a == i {
                    if b - 1 > i {
                        assert(text_less(before[i as int].0, before[b - 1].0));
                        lemma_less_transitive(namespace@, before[i as int].0, before[b - 1].0);
                    }
                } else {
                    assert(text_less(before[a - 1].0, before[b - 1].0));
                }
            }
            assert forall|e: (Seq<char>, Seq<char>)| #[trigger] updated.contains(e) <==> (before.contains(e) || e == (
                namespace@,
                source@,
            )) by {
                if updated.contains(e) {
                    let k = choose|k: int| 0 <= k < updated.len() && updated[k] == e;
                    if k < i {
                        assert(before[k] == e);
                    } else if k > i {
                        assert(before[k - 1] == e);
                    }
                }
                if before.contains(e) {
                    let k = choose|k: int| 0 <= k < before.len() && before[k] == e;
                    if k < i {
                        assert(updated[k] == e);
                    } else {
                        assert(updated[k + 1] == e);
                    }
                }
                if e == (namespace@, source@) {
                    assert(updated[i as int] == e);
                }
            }
        }
        let mut entries: Vec<(String, String)> = Vec::new();
        std::mem::swap(&mut entries, &mut self.entries);
        entries.insert(i, (namespace, source));
        assert(entry_views(entries@) =~= updated);
        self.entries = entries;
        assert(self@ =~= updated);
        Ok(())
    }
}

/// The source of one standard-library namespace, or why there is none.
pub fn standard_library_source(sources: &NamespaceSources, namespace: &str) -> (r: Result<String, String>)
    ensures
        match r {
            Ok(source) => sources@.contains((namespace@, source@)),
            Err(m) => (forall|i: int| 0 <= i < sources@.len() ==> (#[trigger] sources@[i]).0 != namespace@) && m@
                == "Hara standard library does not provide namespace "@ + namespace@,
        },
{
    let entries = sources.entries();
    let mut i: usize = 0;
    while i < entries.len()
        invariant
            entry_views(entries@) == sources@,
            i <= entries@.len(),
            forall|j: int| 0 <= j < i ==> (#[trigger] sources@[j]).0 != namespace@,
        decreases entries@.len() - i,
    {
        if same_text(entries[i].0.as_str(), namespace) {
            assert(sources@[i as int] == (namespace@, entries@[i as int].1@));
            return Ok(entries[i].1.clone());
        }
        i = i + 1;
    }
    let mut message = owned("Hara standard library does not provide namespace ");
    push_str(&mut message, namespace);
    Err(message)
}

/// The modules a Foundation module depends on: `std.foundation`, except for
/// `std.foundation` itself.
pub fn foundation_dependencies(namespace: &str) -> (dependencies: Vec<String>)
    ensures
        namespace@ == "std.foundation"@ ==> dependencies@.len() == 0,
        namespace@ != "std.foundation"@ ==> dependencies@.len() == 1 && dependencies@[0]@ == "std.foundation"@,
{
    let mut dependencies: Vec<String> = Vec::new();
    if !same_text(namespace, "std.foundation") {
        dependencies.push(owned("std.foundation"));
    }
    dependencies
}

/// One source file of the standard library: its displayed path, the forms
/// read from it, and its text.
pub struct SourceFile {
    pub path: String,
    pub forms: Vec<HalValue>,
    pub source: String,
}

/// The sources by namespace that files give, in the order given: a file
/// that declares no namespace, or a namespace declared twice, is refused.
pub open spec fn sources_of(files: Seq<SourceFile>) -> Result<Map<Seq<char>, Seq<char>>, Seq<char>>
    decreases files.len(),
{
    if files.len() == 0 {
        Ok(Map::empty())
    } else {
        match sources_of(files.drop_last()) {
            Err(m) => Err(m),
            Ok(found) => {
                let file = files.last();
                match declared_namespace_spec(file.forms@) {
                    None => Err("Hara source "@ + file.path@ + " does not declare an ns or ns+ namespace"@),
                    Some(n) => if found.contains_key(n) {
                        Err(duplicate_namespace_message(n, byte_length(found[n]), byte_length(file.source@)))
                    } else {
                        Ok(found.insert(n, file.source@))
                    },
                }
            },
        }
    }
}

proof fn lemma_sources_refusal_persists(files: Seq<SourceFile>, k: int)
    requires
        0 <= k <= files.len(),
        sources_of(files.take(k)) is Err,
    ensures
        sources_of(files) == sources_of(files.take(k)),
    decreases files.len(),
{
    if k == files.len() {
        assert(files.take(k) =~= files);
    } else {
        assert(files.drop_last().take(k) =~= files.take(k));
        lemma_sources_refusal_persists(files.drop_last(), k);
    }
}

/// Whether the sources hold exactly the map's namespaces and sources.
pub open spec fn holds_exactly(sources: Seq<(Seq<char>, Seq<char>)>, found: Map<Seq<char>, Seq<char>>) -> bool {
    forall|e: (Seq<char>, Seq<char>)| #[trigger] sources.contains(e) <==> (found.contains_key(e.0) && found[e.0] == e.1)
}

/// The standard library's sources by namespace, from its files in the
/// order given.
pub fn standard_library_sources(files: Vec<SourceFile>) -> (r: Result<NamespaceSources, String>)
    ensures
        match sources_of(files@) {
            Ok(found) => r matches Ok(sources) && holds_exactly(sources@, found),
            Err(message) => r matches Err(m) && m@ == message,
        },
{
    let mut sources = NamespaceSources::new();
    let ghost all = files@;
    let total = files.len();
    let mut pending = files;
    let mut remaining: Vec<SourceFile> = Vec::new();
    while pending.len() > 0
        invariant
            remaining@.len() + pending@.len() == all.len(),
            forall|j: int| 0 <= j < pending@.len() ==> pending@[j] == all[j],
            forall|j: int| 0 <= j < remaining@.len() ==> remaining@[j] == all[all.len() - 1 - j],
        decreases pending@.len(),
    {
        let file = pending.pop().unwrap();
        remaining.push(file);
    }
    let mut k: usize = 0;
    assert(all.take(0) =~= Seq::<SourceFile>::empty());
    assert(holds_exactly(sources@, Map::empty()));
    while remaining.len() > 0
        invariant
            all == files@,
            total == all.len(),
            k + remaining@.len() == all.len(),
            forall|j: int| 0 <= j < remaining@.len() ==> remaining@[j] == all[all.len() - 1 - j],
            sources_of(all.take(k as int)) is Ok,
            holds_exactly(sources@, sources_of(all.take(k as int))->Ok_0),
            sorted_entries(sources@),
        decreases remaining@.len(),
    {
        let file = remaining.pop().unwrap();
        assert(file == all[k as int]);
        assert(all.take(k + 1).drop_last() =~= all.take(k as int));
        assert(all.take(k + 1).last() == all[k as int]);
        let ghost found = sources_of(all.take(k as int))->Ok_0;
        let namespace = match declared_namespace(&file.forms) {
            Some(namespace) => namespace,
            None => {
                let mut message = owned("Hara source ");
                push_str(&mut message, file.path.as_str());
                push_str(&mut message, " does not declare an ns or ns+ namespace");
                proof {
                    lemma_sources_refusal_persists(all, k + 1);
                }
                return Err(message);
            },
        };
        let ghost before = sources@;
        let ghost text = file.source@;
        match sources.add(namespace, file.source) {
            Ok(()) => {
                proof {
                    if found.contains_key(namespace@) {
                        assert(before.contains((namespace@, found[namespace@])));
                        let c = choose|c: int| 0 <= c < before.len() && before[c] == (namespace@, found[namespace@]);
                        assert(before[c].0 == namespace@);
                    }
                    let next = found.insert(namespace@, text);
                    assert(sources_of(all.take(k + 1)) == Ok::<Map<Seq<char>, Seq<char>>, Seq<char>>(next));
                    assert forall|e: (Seq<char>, Seq<char>)| #[trigger] sources@.contains(e) <==> (next.contains_key(e.0)
                        && next[e.0] == e.1) by {
                        if before.contains(e) {
                            assert(found.contains_key(e.0));
                        }
                    }
                }
            },
            Err(message) => {
                proof {
                    let i = choose|i: int| 0 <= i < before.len() && (#[trigger] before[i]).0 == namespace@ && message@
                        == duplicate_namespace_message(namespace@, byte_length(before[i].1), byte_length(text));
                    assert(before.contains(before[i]));
                    assert(found.contains_key(namespace@) && found[namespace@] == before[i].1);
                    lemma_sources_refusal_persists(all, k + 1);
                }
                return Err(message);
            },
        }
        k = k + 1;
    }
    assert(all.take(k as int) =~= all);
    Ok(sources)
}

/// The namespace the first `(ns name ...)` form names, where its name is
/// a symbol.
pub open spec fn ns_declared(forms: Seq<HalValue>) -> Option<Seq<char>>
    decreases forms.len(),
{
    if forms.len() == 0 {
        None
    } else {
        let form = forms[0];
        let items = list_items(form);
        if form is List && items.len() > 0 && is_symbol(items[0], "ns"@) && items.len() >= 2 && items[1] is Symbol {
            Some(items[1]->Symbol_0@)
        } else {
            ns_declared(forms.drop_first())
        }
    }
}

/// A console client source must declare the expected namespace.
pub fn validate_declared_namespace(forms: &Vec<HalValue>, expected: &str) -> (r: Result<(), String>)
    ensures
        match ns_declared(forms@) {
            Some(n) => if n == expected@ {
                r is Ok
            } else {
                r matches Err(m) && m@ == "console client source declares namespace "@ + crate::text::debug_text(n)
                    + ", expected "@ + crate::text::debug_text(expected@)
            },
            None => r matches Err(m) && m@ == "console client source must declare an ns namespace"@,
        },
{
    let mut i: usize = 0;
    assert(forms@.skip(0) =~= forms@);
    while i < forms.len()
        invariant
            i <= forms@.len(),
            ns_declared(forms@) == ns_declared(forms@.skip(i as int)),
        decreases forms@.len() - i,
    {
        assert(forms@.skip(i as int)[0] == forms@[i as int]);
        assert(forms@.skip(i as int).drop_first() =~= forms@.skip(i + 1));
        match &forms[i] {
            HalValue::List(items) => {
                if items.len() >= 2 && symbol_is(&items[0], "ns") {
                    match &items[1] {
                        HalValue::Symbol(namespace) => {
                            if same_text(namespace.as_str(), expected) {
                                return Ok(());
                            }
                            let mut message = owned("console client source declares namespace ");
                            push_str(&mut message, crate::text::debug_quoted(namespace.as_str()).as_str());
                            push_str(&mut message, ", expected ");
                            push_str(&mut message, crate::text::debug_quoted(expected).as_str());
                            return Err(message);
                        },
                        _ => {},
                    }
                }
            },
            _ => {},
        }
        i = i + 1;
    }
    Err(owned("console client source must declare an ns namespace"))
}

} // verus!
