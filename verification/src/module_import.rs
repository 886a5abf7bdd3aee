//! Imported Hoplite modules: the sources selected from the exports of the
//! resolved modules, and where each one is written.

use vstd::prelude::*;
use crate::hara_source::{holds_exactly, sorted_entries, NamespaceSources};
use crate::nginx::{contains_whitespace, is_whitespace_char};
use crate::text::{chars_of, debug_quoted, debug_text, owned, push_str, same_text, string_of};

verus! {

/// One source an export provides.
#[derive(Debug)]
pub struct ExportedSource {
    pub namespace: String,
    pub source: String,
}

/// A resolved module's export: its coordinate, its export name and its
/// sources.
#[derive(Debug)]
pub struct ModuleExport {
    pub coordinate: String,
    pub export: String,
    pub sources: Vec<ExportedSource>,
}

/// One source offered for import, with the module that offers it.
pub struct Offer {
    pub coordinate: Seq<char>,
    pub export: Seq<char>,
    pub namespace: Seq<char>,
    pub source: Seq<char>,
}

pub open spec fn module_offers(module: ModuleExport) -> Seq<Offer> {
    module.sources@.map_values(
        |s: ExportedSource| Offer { coordinate: module.coordinate@, export: module.export@, namespace: s.namespace@, source: s.source@ },
    )
}

/// Every source offered, module by module.
pub open spec fn offers(modules: Seq<ModuleExport>) -> Seq<Offer>
    decreases modules.len(),
{
    if modules.len() == 0 {
        Seq::empty()
    } else {
        offers(modules.drop_last()) + module_offers(modules.last())
    }
}

/// The sources selected from the offers in order: an embedded namespace is
/// left out where the offer is its embedded source and refused where it is
/// another; two different sources for one namespace are refused.
pub open spec fn selection(offered: Seq<Offer>, embedded: Map<Seq<char>, Seq<char>>) -> Result<Map<Seq<char>, Seq<char>>, Seq<char>>
    decreases offered.len(),
{
    if offered.len() == 0 {
        Ok(Map::empty())
    } else {
        match selection(offered.drop_last(), embedded) {
            Err(m) => Err(m),
            Ok(selected) => {
                let o = offered.last();
                if embedded.contains_key(o.namespace) {
                    if embedded[o.namespace] != o.source {
                        Err("module "@ + o.coordinate + " export :"@ + o.export + " cannot replace embedded namespace "@
                            + o.namespace)
                    } else {
                        Ok(selected)
                    }
                } else if selected.contains_key(o.namespace) && selected[o.namespace] != o.source {
                    Err("selected Hoplite modules provide conflicting namespace "@ + o.namespace)
                } else {
                    Ok(selected.insert(o.namespace, o.source))
                }
            },
        }
    }
}

proof fn lemma_selection_refusal_persists(offered: Seq<Offer>, embedded: Map<Seq<char>, Seq<char>>, k: int)
    requires
        0 <= k <= offered.len(),
        selection(offered.take(k), embedded) is Err,
    ensures
        selection(offered, embedded) == selection(offered.take(k), embedded),
    decreases offered.len(),
{
    if k == offered.len() {
        assert(offered.take(k) =~= offered);
    } else {
        assert(offered.drop_last().take(k) =~= offered.take(k));
        lemma_selection_refusal_persists(offered.drop_last(), embedded, k);
    }
}

/// The entries as a map (where a name repeats, its last entry counts).
pub open spec fn as_map(entries: Seq<(Seq<char>, Seq<char>)>) -> Map<Seq<char>, Seq<char>>
    decreases entries.len(),
{
    if entries.len() == 0 {
        Map::empty()
    } else {
        as_map(entries.drop_last()).insert(entries.last().0, entries.last().1)
    }
}

/// The sources to import, by namespace in namespace order; `embedded`
/// holds the sources the library embeds.
pub fn select_sources(modules: &Vec<ModuleExport>, embedded: &NamespaceSources) -> (r: Result<NamespaceSources, String>)
    ensures
        match selection(offers(modules@), as_map(embedded@)) {
            Ok(selected) => r matches Ok(sources) && holds_exactly(sources@, selected),
            Err(message) => r matches Err(m) && m@ == message,
        },
{
    let ghost all = offers(modules@);
    let ghost fixed = as_map(embedded@);
    let mut selected = NamespaceSources::new();
    let mut i: usize = 0;
    assert(offers(modules@.take(0)) =~= Seq::<Offer>::empty());
    let listed = embedded.entries();
    while i < modules.len()
        invariant
            all == offers(modules@),
            fixed == as_map(embedded@),
            sorted_entries(embedded@),
            i <= modules@.len(),
            offers(modules@.take(i as int)).len() <= all.len(),
            all.take(offers(modules@.take(i as int)).len() as int) == offers(modules@.take(i as int)),
            selection(offers(modules@.take(i as int)), fixed) is Ok,
            holds_exactly(selected@, selection(offers(modules@.take(i as int)), fixed)->Ok_0),
        decreases modules@.len() - i,
    {
        let module = &modules[i];
        let ghost before = offers(modules@.take(i as int));
        proof {
            assert(modules@.take(i + 1).drop_last() =~= modules@.take(i as int));
            assert(modules@.take(i + 1).last() == modules@[i as int]);
            lemma_offers_prefix(modules@, i + 1);
        }
        let mut k: usize = 0;
        assert(before + module_offers(*module).take(0) =~= before);
        while k < module.sources.len()
            invariant
                all == offers(modules@),
                fixed == as_map(embedded@),
                sorted_entries(embedded@),
                i < modules@.len(),
                *module == modules@[i as int],
                before == offers(modules@.take(i as int)),
                offers(modules@.take(i + 1)) == before + module_offers(*module),
                offers(modules@.take(i + 1)).len() <= all.len(),
                all.take(offers(modules@.take(i + 1)).len() as int) == offers(modules@.take(i + 1)),
                k <= module.sources@.len(),
                selection(before + module_offers(*module).take(k as int), fixed) is Ok,
                holds_exactly(selected@, selection(before + module_offers(*module).take(k as int), fixed)->Ok_0),
            decreases module.sources@.len() - k,
        {
            let offer = &module.sources[k];
            let ghost prefix = before + module_offers(*module).take(k as int);
            let ghost next = before + module_offers(*module).take(k + 1);
            assert(next.drop_last() =~= prefix);
            assert(next.last() == Offer {
                coordinate: module.coordinate@,
                export: module.export@,
                namespace: offer.namespace@,
                source: offer.source@,
            });
            let ghost chosen = selection(prefix, fixed)->Ok_0;
            match embedded.get(offer.namespace.as_str()) {
                Some(text) => {
                    proof {
                        lemma_as_map_entry(embedded@, offer.namespace@, text@);
                    }
                    if !same_text(text.as_str(), offer.source.as_str()) {
                        let mut message = owned("module ");
                        push_str(&mut message, module.coordinate.as_str());
                        push_str(&mut message, " export :");
                        push_str(&mut message, module.export.as_str());
                        push_str(&mut message, " cannot replace embedded namespace ");
                        push_str(&mut message, offer.namespace.as_str());
                        proof {
                            lemma_refusal_reaches_all(all, before, module_offers(*module), k as int, fixed);
                        }
                        return Err(message);
                    }
                    assert(selection(next, fixed) == Ok::<Map<Seq<char>, Seq<char>>, Seq<char>>(chosen));
                },
                None => {
                    proof {
                        lemma_as_map_absent(embedded@, offer.namespace@);
                    }
                    match selected.get(offer.namespace.as_str()) {
                        Some(current) => {
                            if !same_text(current.as_str(), offer.source.as_str()) {
                                let mut message = owned("selected Hoplite modules provide conflicting namespace ");
                                push_str(&mut message, offer.namespace.as_str());
                                proof {
                                    lemma_refusal_reaches_all(all, before, module_offers(*module), k as int, fixed);
                                }
                                return Err(message);
                            }
                            proof {
                                assert(selected@.contains((offer.namespace@, current@)));
                                assert(chosen.contains_key(offer.namespace@) && chosen[offer.namespace@] == current@);
                                assert(chosen.insert(offer.namespace@, offer.source@) =~= chosen);
                            }
                            assert(selection(next, fixed) == Ok::<Map<Seq<char>, Seq<char>>, Seq<char>>(chosen));
                        },
                        None => {
                            let ghost old_view = selected@;
                            proof {
                                if chosen.contains_key(offer.namespace@) {
                                    assert(selected@.contains((offer.namespace@, chosen[offer.namespace@])));
                                    let j = choose|j: int| 0 <= j < selected@.len() && selected@[j] == (
                                        offer.namespace@,
                                        chosen[offer.namespace@],
                                    );
                                    assert(selected@[j].0 == offer.namespace@);
                                }
                            }
                            assert(selection(next, fixed) == Ok::<Map<Seq<char>, Seq<char>>, Seq<char>>(
                                chosen.insert(offer.namespace@, offer.source@),
                            ));
                            match selected.add(offer.namespace.clone(), offer.source.clone()) {
                                Ok(()) => {
                                    let ghost grown = chosen.insert(offer.namespace@, offer.source@);
                                    assert forall|e: (Seq<char>, Seq<char>)| #[trigger] selected@.contains(e) <==> (
                                    grown.contains_key(e.0) && grown[e.0] == e.1) by {
                                        if old_view.contains(e) {
                                            assert(chosen.contains_key(e.0));
                                        }
                                    }
                                },
                                Err(_) => {
                                    assert(false);
                                },
                            }
                        },
                    }
                },
            }
            assert(selection(next, fixed) is Ok);
            assert(holds_exactly(selected@, selection(next, fixed)->Ok_0));
            k = k + 1;
        }
        assert(module_offers(*module).take(k as int) =~= module_offers(*module));
        i = i + 1;
    }
    assert(modules@.take(i as int) =~= modules@);
    Ok(selected)
}

proof fn lemma_offers_prefix(modules: Seq<ModuleExport>, n: int)
    requires
        0 <= n <= modules.len(),
    ensures
        offers(modules.take(n)).len() <= offers(modules).len(),
        offers(modules).take(offers(modules.take(n)).len() as int) == offers(modules.take(n)),
    decreases modules.len(),
{
    if n < modules.len() {
        assert(modules.drop_last().take(n) =~= modules.take(n));
        lemma_offers_prefix(modules.drop_last(), n);
        let a = offers(modules.drop_last());
        let b = module_offers(modules.last());
        assert(offers(modules) == a + b);
        assert((a + b).take(offers(modules.take(n)).len() as int) =~= a.take(offers(modules.take(n)).len() as int));
    } else {
        assert(modules.take(n) =~= modules);
        assert(offers(modules).take(offers(modules).len() as int) =~= offers(modules));
    }
}

/// A refused offer, the `k`th of a module's offers, refuses the whole
/// selection.
proof fn lemma_refusal_reaches_all(
    all: Seq<Offer>,
    before: Seq<Offer>,
    offered: Seq<Offer>,
    k: int,
    embedded: Map<Seq<char>, Seq<char>>,
)
    requires
        0 <= k < offered.len(),
        (before + offered).len() <= all.len(),
        all.take((before + offered).len() as int) == before + offered,
        selection(before + offered.take(k + 1), embedded) is Err,
    ensures
        selection(all, embedded) == selection(before + offered.take(k + 1), embedded),
{
    let j = before.len() + k + 1;
    assert(all.take(j) =~= before + offered.take(k + 1)) by {
        assert forall|x: int| 0 <= x < j implies all.take(j)[x] == (before + offered.take(k + 1))[x] by {
            assert(all.take((before + offered).len() as int)[x] == (before + offered)[x]);
        }
    }
    lemma_selection_refusal_persists(all, embedded, j);
}

proof fn lemma_as_map_entry(entries: Seq<(Seq<char>, Seq<char>)>, key: Seq<char>, value: Seq<char>)
    requires
        sorted_entries(entries),
        entries.contains((key, value)),
    ensures
        as_map(entries).contains_key(key),
        as_map(entries)[key] == value,
    decreases entries.len(),
{
    let k = choose|k: int| 0 <= k < entries.len() && entries[k] == (key, value);
    let n = entries.len() - 1;
    if k == n {
    } else {
        assert(entries.drop_last()[k] == (key, value));
        assert(sorted_entries(entries.drop_last())) by {
            assert forall|a: int, b: int| 0 <= a < b < entries.drop_last().len() implies crate::text_set::text_less(
                #[trigger] entries.drop_last()[a].0,
                #[trigger] entries.drop_last()[b].0,
            ) by {
                assert(crate::text_set::text_less(entries[a].0, entries[b].0));
            }
        }
        lemma_as_map_entry(entries.drop_last(), key, value);
        assert(crate::text_set::text_less(entries[k].0, entries[n].0));
        if entries[n].0 == key {
            crate::text_set::lemma_less_irreflexive(key);
        }
    }
}

proof fn lemma_as_map_absent(entries: Seq<(Seq<char>, Seq<char>)>, key: Seq<char>)
    requires
        forall|i: int| 0 <= i < entries.len() ==> (#[trigger] entries[i]).0 != key,
    ensures
        !as_map(entries).contains_key(key),
    decreases entries.len(),
{
    if entries.len() > 0 {
        assert forall|i: int| 0 <= i < entries.drop_last().len() implies (#[trigger] entries.drop_last()[i]).0 != key by {
            assert(entries.drop_last()[i] == entries[i]);
        }
        lemma_as_map_absent(entries.drop_last(), key);
        assert(entries[entries.len() - 1].0 != key);
    }
}

// ---------------------------------------------------------------------------
// Where an imported source is written
// ---------------------------------------------------------------------------

/// The relative path of an imported namespace: its dots read as `/` and
/// its hyphens as `_`, with `.hal` after. An empty namespace, one with a
/// `/` or whitespace, or one that would give an absolute path, is refused.
pub open spec fn namespace_path_spec(namespace: Seq<char>) -> Result<Seq<char>, Seq<char>> {
    if namespace.len() == 0 || namespace.contains('/') || (exists|i: int|
        0 <= i < namespace.len() && is_whitespace_char(#[trigger] namespace[i])) || namespace[0] == '.' {
        Err("invalid imported namespace "@ + debug_text(namespace))
    } else {
        Ok(namespace.map_values(|c: char| if c == '.' { '/' } else if c == '-' { '_' } else { c }) + ".hal"@)
    }
}

/// The relative path an imported namespace is written to.
pub fn namespace_path(namespace: &str) -> (r: Result<String, String>)
    ensures
        match namespace_path_spec(namespace@) {
            Ok(path) => r matches Ok(p) && p@ == path,
            Err(message) => r matches Err(m) && m@ == message,
        },
{
    let chars = chars_of(namespace);
    let mut slash = false;
    let mut i: usize = 0;
    while i < chars.len()
        invariant
            chars@ == namespace@,
            i <= chars@.len(),
            slash <==> exists|j: int| 0 <= j < i && chars@[j] == '/',
        decreases chars@.len() - i,
    {
        if chars[i] == '/' {
            slash = true;
        }
        i = i + 1;
    }
    if chars.len() == 0 || slash || contains_whitespace(namespace) || chars[0] == '.' {
        let mut message = owned("invalid imported namespace ");
        push_str(&mut message, debug_quoted(namespace).as_str());
        return Err(message);
    }
    let mut mapped: Vec<char> = Vec::new();
    let mut k: usize = 0;
    while k < chars.len()
        invariant
            chars@ == namespace@,
            k <= chars@.len(),
            mapped@ == chars@.take(k as int).map_values(|c: char| if c == '.' { '/' } else if c == '-' { '_' } else { c }),
        decreases chars@.len() - k,
    {
        let c = chars[k];
        mapped.push(if c == '.' { '/' } else if c == '-' { '_' } else { c });
        assert(chars@.take(k + 1) =~= chars@.take(k as int).push(c));
        assert(mapped@ =~= chars@.take(k + 1).map_values(|c: char| if c == '.' { '/' } else if c == '-' { '_' } else { c }));
        k = k + 1;
    }
    assert(chars@.take(k as int) =~= chars@);
    let mut path = string_of(mapped.as_slice());
    push_str(&mut path, ".hal");
    Ok(path)
}

} // verus!
