//! Sets of texts kept in the order Rust gives strings: lexicographic by
//! character, a proper prefix first.

use vstd::prelude::*;
use crate::text::chars_of;

verus! {

/// Whether `a` sorts strictly before `b`.
pub open spec fn text_less(a: Seq<char>, b: Seq<char>) -> bool
    decreases a.len(),
{
    if b.len() == 0 {
        false
    } else if a.len() == 0 {
        true
    } else if a[0] != b[0] {
        (a[0] as int) < (b[0] as int)
    } else {
        text_less(a.drop_first(), b.drop_first())
    }
}

/// Strictly increasing, hence free of repeats.
pub open spec fn sorted_texts(texts: Seq<Seq<char>>) -> bool {
    forall|i: int, j: int| 0 <= i < j < texts.len() ==> text_less(#[trigger] texts[i], #[trigger] texts[j])
}

pub proof fn lemma_less_irreflexive(a: Seq<char>)
    ensures
        !text_less(a, a),
    decreases a.len(),
{
    if a.len() > 0 {
        lemma_less_irreflexive(a.drop_first());
    }
}

pub proof fn lemma_less_transitive(a: Seq<char>, b: Seq<char>, c: Seq<char>)
    requires
        text_less(a, b),
        text_less(b, c),
    ensures
        text_less(a, c),
    decreases a.len(),
{
    if a.len() > 0 && b.len() > 0 && c.len() > 0 && a[0] == b[0] && b[0] == c[0] {
        lemma_less_transitive(a.drop_first(), b.drop_first(), c.drop_first());
    }
}

pub proof fn lemma_less_total(a: Seq<char>, b: Seq<char>)
    ensures
        a == b || text_less(a, b) || text_less(b, a),
    decreases a.len(),
{
    if a.len() > 0 && b.len() > 0 && a[0] == b[0] {
        lemma_less_total(a.drop_first(), b.drop_first());
        if a.drop_first() == b.drop_first() {
            assert(a =~= seq![a[0]] + a.drop_first());
            assert(b =~= seq![b[0]] + b.drop_first());
        }
    } else if a.len() == 0 && b.len() == 0 {
        assert(a =~= b);
    } else if a.len() > 0 && b.len() > 0 {
        assert((a[0] as int) != (b[0] as int));
    }
}

pub proof fn lemma_less_asymmetric(a: Seq<char>, b: Seq<char>)
    requires
        text_less(a, b),
    ensures
        !text_less(b, a),
{
    if text_less(b, a) {
        lemma_less_transitive(a, b, a);
        lemma_less_irreflexive(a);
    }
}

/// Two sorted sequences with the same elements are the same sequence.
pub proof fn lemma_sorted_unique(s: Seq<Seq<char>>, t: Seq<Seq<char>>)
    requires
        sorted_texts(s),
        sorted_texts(t),
        s.to_set() == t.to_set(),
    ensures
        s == t,
    decreases s.len(),
{
    if s.len() == 0 {
        if t.len() > 0 {
            assert(t.to_set().contains(t[0]));
        }
        assert(s =~= t);
    } else if t.len() == 0 {
        assert(s.to_set().contains(s[0]));
    } else {
        // The least elements agree.
        assert(s.to_set().contains(s[0]));
        assert(t.to_set().contains(t[0]));
        let i = choose|i: int| 0 <= i < t.len() && t[i] == s[0];
        let j = choose|j: int| 0 <= j < s.len() && s[j] == t[0];
        if i > 0 {
            assert(text_less(t[0], t[i]));
            if j > 0 {
                assert(text_less(s[0], s[j]));
                lemma_less_asymmetric(t[0], s[0]);
            } else {
                lemma_less_irreflexive(s[0]);
            }
        }
        assert(s[0] == t[0]);
        let s1 = s.drop_first();
        let t1 = t.drop_first();
        assert forall|x: Seq<char>| s1.to_set().contains(x) implies t1.to_set().contains(x) by {
            let k = choose|k: int| 0 <= k < s1.len() && s1[k] == x;
            assert(s.to_set().contains(x) && x == s[k + 1]);
            assert(text_less(s[0], s[k + 1]));
            let m = choose|m: int| 0 <= m < t.len() && t[m] == x;
            if m == 0 {
                lemma_less_irreflexive(s[0]);
            }
            assert(t1[m - 1] == x);
        }
        assert forall|x: Seq<char>| t1.to_set().contains(x) implies s1.to_set().contains(x) by {
            let k = choose|k: int| 0 <= k < t1.len() && t1[k] == x;
            assert(t.to_set().contains(x) && x == t[k + 1]);
            assert(text_less(t[0], t[k + 1]));
            let m = choose|m: int| 0 <= m < s.len() && s[m] == x;
            if m == 0 {
                lemma_less_irreflexive(t[0]);
            }
            assert(s1[m - 1] == x);
        }
        assert(s1.to_set() =~= t1.to_set());
        lemma_sorted_unique(s1, t1);
        assert(s =~= seq![s[0]] + s1);
        assert(t =~= seq![t[0]] + t1);
    }
}

/// The increasing sequence of a set's texts.
pub open spec fn sorted_of(set: Set<Seq<char>>) -> Seq<Seq<char>> {
    choose|texts: Seq<Seq<char>>| sorted_texts(texts) && texts.to_set() == set
}

/// A sorted sequence is the increasing sequence of its set.
pub proof fn lemma_sorted_of(texts: Seq<Seq<char>>)
    requires
        sorted_texts(texts),
    ensures
        sorted_of(texts.to_set()) == texts,
{
    let chosen = sorted_of(texts.to_set());
    assert(sorted_texts(chosen) && chosen.to_set() == texts.to_set());
    lemma_sorted_unique(chosen, texts);
}

/// Whether `a` sorts strictly before `b`, as Rust compares strings.
pub fn text_before(a: &str, b: &str) -> (r: bool)
    ensures
        r == text_less(a@, b@),
{
    let x = chars_of(a);
    let y = chars_of(b);
    let mut i: usize = 0;
    assert(a@.skip(0) =~= a@);
    assert(b@.skip(0) =~= b@);
    while i < x.len() && i < y.len() && x[i] == y[i]
        invariant
            i <= x@.len(),
            i <= y@.len(),
            x@ == a@,
            y@ == b@,
            text_less(a@, b@) == text_less(a@.skip(i as int), b@.skip(i as int)),
        decreases x@.len() - i,
    {
        assert(a@.skip(i as int).drop_first() =~= a@.skip(i + 1));
        assert(b@.skip(i as int).drop_first() =~= b@.skip(i + 1));
        i = i + 1;
    }
    if i == y.len() {
        false
    } else if i == x.len() {
        true
    } else {
        x[i] < y[i]
    }
}

/// A set of texts, kept sorted.
#[derive(Debug, PartialEq, Eq)]
pub struct TextSet {
    items: Vec<String>,
}

impl View for TextSet {
    type V = Seq<Seq<char>>;

    /// The texts in increasing order.
    closed spec fn view(&self) -> Seq<Seq<char>> {
        self.items@.map_values(|s: String| s@)
    }
}

impl TextSet {
    #[verifier::type_invariant]
    spec fn ordered(self) -> bool {
        sorted_texts(self.items@.map_values(|s: String| s@))
    }

    pub fn new() -> (set: Self)
        ensures
            set@ == Seq::<Seq<char>>::empty(),
    {
        let set = TextSet { items: Vec::new() };
        assert(set@ =~= Seq::<Seq<char>>::empty());
        set
    }

    pub fn len(&self) -> (n: usize)
        ensures
            n == self@.len(),
    {
        self.items.len()
    }

    /// The texts in increasing order.
    pub fn items(&self) -> (items: &Vec<String>)
        ensures
            items@.map_values(|s: String| s@) == self@,
            sorted_texts(self@),
    {
        proof {
            use_type_invariant(self);
        }
        &self.items
    }

    pub fn contains(&self, text: &str) -> (r: bool)
        ensures
            r == self@.contains(text@),
    {
        let mut i: usize = 0;
        while i < self.items.len()
            invariant
                i <= self.items@.len(),
                self@ == self.items@.map_values(|s: String| s@),
                forall|j: int| 0 <= j < i ==> self@[j] != text@,
            decreases self.items@.len() - i,
        {
            if crate::text::same_text(self.items[i].as_str(), text) {
                assert(self@[i as int] == text@);
                return true;
            }
            i = i + 1;
        }
        false
    }

    /// Adds a text; `true` where it was not there before.
    pub fn insert(&mut self, text: String) -> (added: bool)
        ensures
            added == !old(self)@.contains(text@),
            final(self)@.to_set() == old(self)@.to_set().insert(text@),
            sorted_texts(final(self)@),
    {
        proof {
            use_type_invariant(&*self);
        }
        let ghost before = self@;
        let mut i: usize = 0;
        while i < self.items.len() && text_before(self.items[i].as_str(), text.as_str())
            invariant
                i <= self.items@.len(),
                before == self.items@.map_values(|s: String| s@),
                sorted_texts(before),
                forall|j: int| 0 <= j < i ==> text_less(#[trigger] before[j], text@),
            decreases self.items@.len() - i,
        {
            i = i + 1;
        }
        if i < self.items.len() && crate::text::same_text(self.items[i].as_str(), text.as_str()) {
            assert(before.contains(text@)) by {
                assert(before[i as int] == text@);
            }
            proof {
                assert(before.to_set().insert(text@) =~= before.to_set());
            }
            return false;
        }
        proof {
            if i < before.len() {
                lemma_less_total(before[i as int], text@);
            }
            assert forall|j: int| 0 <= j < before.len() implies before[j] != text@ by {
                if j < i {
                    lemma_less_irreflexive(text@);
                } else if j > i {
                    assert(text_less(before[i as int], before[j]));
                    if before[j] == text@ {
                        lemma_less_asymmetric(text@, before[i as int]);
                    }
                }
            }
            assert forall|j: int| i <= j < before.len() implies text_less(text@, #[trigger] before[j]) by {
                if j > i {
                    assert(text_less(before[i as int], before[j]));
                    lemma_less_transitive(text@, before[i as int], before[j]);
                }
            }
        }
        let ghost inserted = before.insert(i as int, text@);
        proof {
            assert forall|a: int, b: int| 0 <= a < b < inserted.len() implies text_less(
                #[trigger] inserted[a],
                #[trigger] inserted[b],
            ) by {
                if b < i {
                } else if a < i && b == i {
                } else if a < i && b > i {
                    lemma_less_transitive(before[a], text@, before[b - 1]);
                } else if a == i {
                } else {
                    assert(text_less(before[a - 1], before[b - 1]));
                }
            }
        }
        let mut items: Vec<String> = Vec::new();
        std::mem::swap(&mut items, &mut self.items);
        items.insert(i, text);
        assert(items@.map_values(|s: String| s@) =~= inserted);
        self.items = items;
        proof {
            assert(self@ =~= inserted);
            assert(inserted.to_set() =~= before.to_set().insert(text@)) by {
                assert forall|x: Seq<char>| inserted.to_set().contains(x) implies before.to_set().insert(
                    text@,
                ).contains(x) by {
                    let k = choose|k: int| 0 <= k < inserted.len() && inserted[k] == x;
                    if k < i {
                        assert(before[k] == x);
                    } else if k > i {
                        assert(before[k - 1] == x);
                    }
                }
                assert forall|x: Seq<char>| before.to_set().insert(text@).contains(x) implies inserted.to_set().contains(x) by {
                    if x == text@ {
                        assert(inserted[i as int] == x);
                    } else {
                        let k = choose|k: int| 0 <= k < before.len() && before[k] == x;
                        if k < i {
                            assert(inserted[k] == x);
                        } else {
                            assert(inserted[k + 1] == x);
                        }
                    }
                }
            }
        }
        true
    }

    /// Takes a text out; `true` where it was there.
    pub fn remove(&mut self, text: &str) -> (removed: bool)
        ensures
            removed == old(self)@.contains(text@),
            final(self)@.to_set() == old(self)@.to_set().remove(text@),
            sorted_texts(final(self)@),
    {
        proof {
            use_type_invariant(&*self);
        }
        let ghost before = self@;
        let mut i: usize = 0;
        while i < self.items.len()
            invariant
                i <= self.items@.len(),
                before == self.items@.map_values(|s: String| s@),
                before == old(self)@,
                sorted_texts(before),
                forall|j: int| 0 <= j < i ==> before[j] != text@,
            decreases self.items@.len() - i,
        {
            if crate::text::same_text(self.items[i].as_str(), text) {
                let ghost removed_seq = before.remove(i as int);
                proof {
                    assert forall|a: int, b: int| 0 <= a < b < removed_seq.len() implies text_less(
                        #[trigger] removed_seq[a],
                        #[trigger] removed_seq[b],
                    ) by {
                        if a < i && b >= i {
                            assert(text_less(before[a], before[b + 1]));
                        } else if a >= i {
                            assert(text_less(before[a + 1], before[b + 1]));
                        }
                    }
                    assert(removed_seq.to_set() =~= before.to_set().remove(text@)) by {
                        assert forall|x: Seq<char>| removed_seq.to_set().contains(x) implies before.to_set().remove(
                            text@,
                        ).contains(x) by {
                            let k = choose|k: int| 0 <= k < removed_seq.len() && removed_seq[k] == x;
                            if k < i {
                                assert(before[k] == x);
                                assert(text_less(before[k], before[i as int]));
                                lemma_less_irreflexive(x);
                            } else {
                                assert(before[k + 1] == x);
                                assert(text_less(before[i as int], before[k + 1]));
                                lemma_less_irreflexive(x);
                            }
                        }
                        assert forall|x: Seq<char>| before.to_set().remove(text@).contains(x) implies removed_seq.to_set().contains(x) by {
                            let k = choose|k: int| 0 <= k < before.len() && before[k] == x;
                            if k < i {
                                assert(removed_seq[k] == x);
                            } else {
                                assert(k != i);
                                assert(removed_seq[k - 1] == x);
                            }
                        }
                    }
                    assert(before.contains(text@)) by {
                        assert(before[i as int] == text@);
                    }
                }
                let mut items: Vec<String> = Vec::new();
                std::mem::swap(&mut items, &mut self.items);
                items.remove(i);
                assert(items@.map_values(|s: String| s@) =~= removed_seq);
                self.items = items;
                assert(self@ =~= removed_seq);
                return true;
            }
            i = i + 1;
        }
        assert(before.to_set().remove(text@) =~= before.to_set());
        false
    }

    /// A copy holding the same texts.
    pub fn duplicate(&self) -> (copy: Self)
        ensures
            copy@ == self@,
    {
        proof {
            use_type_invariant(self);
        }
        let mut items: Vec<String> = Vec::new();
        let mut i: usize = 0;
        while i < self.items.len()
            invariant
                i <= self.items@.len(),
                items@.len() == i,
                forall|j: int| 0 <= j < i ==> items@[j] == self.items@[j],
            decreases self.items@.len() - i,
        {
            items.push(self.items[i].clone());
            i = i + 1;
        }
        assert(items@ =~= self.items@);
        TextSet { items }
    }
}

impl Clone for TextSet {
    fn clone(&self) -> (copy: Self)
        ensures
            copy@ == self@,
    {
        self.duplicate()
    }
}

} // verus!
