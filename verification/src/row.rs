//! A row: the values bound to names by one match of a template.
//!
//! A row is a finite map from names to values. It is kept as a list of
//! pairs in the order of their names, so that walking a row always meets
//! the names in the same order.

use vstd::prelude::*;
use crate::text::{compare, lemma_lex_order, lex_less, Order};

verus! {

/// A name and the value bound to it.
pub type Pair = (Seq<u8>, Seq<u8>);

/// The names of the pairs grow strictly from each pair to the next.
pub open spec fn sorted_keys(ps: Seq<Pair>) -> bool {
    forall|i: int, j: int|
        #![trigger ps[i], ps[j]]
        0 <= i < j < ps.len() ==> lex_less(ps[i].0, ps[j].0)
}

/// One of the pairs has the name `k`.
pub open spec fn has_key(ps: Seq<Pair>, k: Seq<u8>) -> bool {
    exists|i: int| 0 <= i < ps.len() && (#[trigger] ps[i]).0 == k
}

/// The place of a pair with the name `k`.
pub open spec fn index_of(ps: Seq<Pair>, k: Seq<u8>) -> int {
    choose|i: int| 0 <= i < ps.len() && (#[trigger] ps[i]).0 == k
}

/// The map that the pairs make up.
pub open spec fn pairs_map(ps: Seq<Pair>) -> Map<Seq<u8>, Seq<u8>> {
    Map::new(|k: Seq<u8>| has_key(ps, k), |k: Seq<u8>| ps[index_of(ps, k)].1)
}

/// The names of the pairs, in order.
pub open spec fn pair_keys(ps: Seq<Pair>) -> Seq<Seq<u8>> {
    Seq::new(ps.len(), |i: int| ps[i].0)
}

/// In a sorted list each name has one place, and the map gives each name
/// the value at its place.
pub proof fn lemma_lookup(ps: Seq<Pair>, i: int)
    requires
        sorted_keys(ps),
        0 <= i < ps.len(),
    ensures
        has_key(ps, ps[i].0),
        index_of(ps, ps[i].0) == i,
        pairs_map(ps).dom().contains(ps[i].0),
        pairs_map(ps)[ps[i].0] == ps[i].1,
{
    let k = ps[i].0;
    let j = index_of(ps, k);
    lemma_lex_order(k, k, k);
    if j < i {
        assert(lex_less(ps[j].0, ps[i].0));
    } else if i < j {
        assert(lex_less(ps[i].0, ps[j].0));
    }
}

/// A pair put into a sorted list at the place that its name asks for
/// leaves the list sorted, and adds the pair to the map.
pub proof fn lemma_insert_new(ps: Seq<Pair>, p: int, k: Seq<u8>, v: Seq<u8>)
    requires
        sorted_keys(ps),
        0 <= p <= ps.len(),
        forall|i: int| 0 <= i < p ==> lex_less((#[trigger] ps[i]).0, k),
        forall|i: int| p <= i < ps.len() ==> lex_less(k, (#[trigger] ps[i]).0),
    ensures
        sorted_keys(ps.insert(p, (k, v))),
        pairs_map(ps.insert(p, (k, v))) == pairs_map(ps).insert(k, v),
        !has_key(ps, k),
{
    let qs = ps.insert(p, (k, v));
    assert forall|i: int, j: int| 0 <= i < j < qs.len() implies lex_less(
        (#[trigger] qs[i]).0,
        (#[trigger] qs[j]).0,
    ) by {
        if j < p {
            assert(qs[i] == ps[i] && qs[j] == ps[j]);
        } else if j == p {
            assert(qs[i] == ps[i]);
        } else if i < p {
            assert(qs[i] == ps[i] && qs[j] == ps[j - 1]);
        } else if i == p {
            assert(qs[j] == ps[j - 1]);
        } else {
            assert(qs[i] == ps[i - 1] && qs[j] == ps[j - 1]);
        }
    }
    lemma_lex_order(k, k, k);
    if has_key(ps, k) {
        let i = index_of(ps, k);
        assert(ps[i].0 == k);
        assert(false);
    }
    let m = pairs_map(ps).insert(k, v);
    assert forall|key: Seq<u8>| pairs_map(qs).dom().contains(key) <==> m.dom().contains(key) by {
        if has_key(qs, key) {
            let i = index_of(qs, key);
            if i < p {
                assert(ps[i] == qs[i]);
            } else if i > p {
                assert(ps[i - 1] == qs[i]);
            }
        }
        if has_key(ps, key) {
            let i = index_of(ps, key);
            if i < p {
                assert(qs[i] == ps[i]);
            } else {
                assert(qs[i + 1] == ps[i]);
            }
        }
        if key == k {
            assert(qs[p].0 == k);
        }
    }
    assert forall|key: Seq<u8>| pairs_map(qs).dom().contains(key) implies pairs_map(qs)[key]
        == m[key] by {
        let i = index_of(qs, key);
        lemma_lookup(qs, i);
        if i < p {
            assert(ps[i] == qs[i]);
            lemma_lookup(ps, i);
        } else if i > p {
            assert(ps[i - 1] == qs[i]);
            lemma_lookup(ps, i - 1);
        }
    }
    assert(pairs_map(qs) =~= m);
}

/// A new value at a place of a sorted list leaves the list sorted, and
/// gives the name at that place the new value in the map.
pub proof fn lemma_update(ps: Seq<Pair>, p: int, v: Seq<u8>)
    requires
        sorted_keys(ps),
        0 <= p < ps.len(),
    ensures
        sorted_keys(ps.update(p, (ps[p].0, v))),
        pairs_map(ps.update(p, (ps[p].0, v))) == pairs_map(ps).insert(ps[p].0, v),
{
    let k = ps[p].0;
    let qs = ps.update(p, (k, v));
    assert forall|i: int, j: int| 0 <= i < j < qs.len() implies lex_less(
        (#[trigger] qs[i]).0,
        (#[trigger] qs[j]).0,
    ) by {
        assert(qs[i].0 == ps[i].0 && qs[j].0 == ps[j].0);
    }
    let m = pairs_map(ps).insert(k, v);
    assert forall|key: Seq<u8>| pairs_map(qs).dom().contains(key) <==> m.dom().contains(key) by {
        if has_key(qs, key) {
            let i = index_of(qs, key);
            assert(ps[i].0 == qs[i].0);
        }
        if has_key(ps, key) {
            let i = index_of(ps, key);
            assert(qs[i].0 == ps[i].0);
        }
        if key == k {
            assert(qs[p].0 == k);
        }
    }
    assert forall|key: Seq<u8>| pairs_map(qs).dom().contains(key) implies pairs_map(qs)[key]
        == m[key] by {
        let i = index_of(qs, key);
        lemma_lookup(qs, i);
        lemma_lookup(qs, p);
        if i != p {
            assert(ps[i] == qs[i]);
            lemma_lookup(ps, i);
        }
    }
    assert(pairs_map(qs) =~= m);
}

/// The first pairs of a sorted list are a sorted list, and one pair more
/// adds that pair to their map.
pub proof fn lemma_take_push(ps: Seq<Pair>, i: int)
    requires
        sorted_keys(ps),
        0 <= i < ps.len(),
    ensures
        sorted_keys(ps.take(i)),
        sorted_keys(ps.take(i + 1)),
        pairs_map(ps.take(i + 1)) == pairs_map(ps.take(i)).insert(ps[i].0, ps[i].1),
{
    let head = ps.take(i);
    assert forall|a: int, b: int| 0 <= a < b < head.len() implies lex_less(
        (#[trigger] head[a]).0,
        (#[trigger] head[b]).0,
    ) by {
        assert(head[a] == ps[a] && head[b] == ps[b]);
    }
    assert forall|j: int| 0 <= j < i implies lex_less((#[trigger] head[j]).0, ps[i].0) by {
        assert(head[j] == ps[j]);
    }
    lemma_insert_new(head, i, ps[i].0, ps[i].1);
    assert(head.insert(i, ps[i]) =~= ps.take(i + 1));
}

/// No pairs make up the empty map.
pub proof fn lemma_pairs_map_empty()
    ensures
        pairs_map(Seq::<Pair>::empty()) == Map::<Seq<u8>, Seq<u8>>::empty(),
{
    assert(pairs_map(Seq::<Pair>::empty()) =~= Map::<Seq<u8>, Seq<u8>>::empty());
}

/// The map of a sorted list holds the names of the list and no others.
pub proof fn lemma_keys_are_domain(ps: Seq<Pair>)
    requires
        sorted_keys(ps),
    ensures
        pair_keys(ps).to_set() == pairs_map(ps).dom(),
        pairs_map(ps).dom().finite(),
        pairs_map(ps).dom().len() == ps.len(),
        pair_keys(ps).no_duplicates(),
{
    let keys = pair_keys(ps);
    assert forall|k: Seq<u8>| keys.to_set().contains(k) <==> pairs_map(ps).dom().contains(k) by {
        if keys.contains(k) {
            let i = choose|i: int| 0 <= i < keys.len() && keys[i] == k;
            assert(ps[i].0 == k);
        }
        if has_key(ps, k) {
            let i = index_of(ps, k);
            assert(keys[i] == k);
        }
    }
    assert(keys.to_set() =~= pairs_map(ps).dom());
    assert forall|i: int, j: int| 0 <= i < keys.len() && 0 <= j < keys.len() && i != j implies keys[i]
        != keys[j] by {
        lemma_lex_order(keys[i], keys[j], keys[i]);
        if i < j {
            assert(lex_less(ps[i].0, ps[j].0));
        } else {
            assert(lex_less(ps[j].0, ps[i].0));
        }
    }
    keys.unique_seq_to_set();
}

/// The values bound to names by one match of a template.
#[derive(Debug, PartialEq, Eq)]
pub struct Row {
    entries: Vec<(Vec<u8>, Vec<u8>)>,
}

impl View for Row {
    type V = Map<Seq<u8>, Seq<u8>>;

    /// The row as a map from names to values.
    open spec fn view(&self) -> Map<Seq<u8>, Seq<u8>> {
        pairs_map(self.pairs())
    }
}

impl Row {
    /// The pairs of the row, in the order of their names.
    pub closed spec fn pairs(&self) -> Seq<Pair> {
        entries_pairs(self.entries@)
    }

    /// The pairs of a row are sorted by name.
    #[verifier::type_invariant]
    pub closed spec fn inv(self) -> bool {
        sorted_keys(self.pairs())
    }

    /// The names of the row, in order.
    pub open spec fn keys(&self) -> Seq<Seq<u8>> {
        pair_keys(self.pairs())
    }

    /// A row without names.
    pub fn new() -> (r: Row)
        ensures
            r.pairs() == Seq::<Pair>::empty(),
            r@ == Map::<Seq<u8>, Seq<u8>>::empty(),
    {
        let r = Row { entries: Vec::new() };
        assert(r.pairs() =~= Seq::<Pair>::empty());
        assert(r@ =~= Map::<Seq<u8>, Seq<u8>>::empty());
        r
    }

    /// The number of names.
    pub fn len(&self) -> (n: usize)
        ensures
            n == self.pairs().len(),
            n == self@.dom().len(),
            sorted_keys(self.pairs()),
    {
        proof {
            use_type_invariant(self);
            lemma_keys_are_domain(self.pairs());
        }
        self.entries.len()
    }

    /// Tells whether the row has no names.
    pub fn is_empty(&self) -> (b: bool)
        ensures
            b == (self.pairs().len() == 0),
            b == (self@ == Map::<Seq<u8>, Seq<u8>>::empty()),
    {
        proof {
            use_type_invariant(self);
            lemma_keys_are_domain(self.pairs());
            if self.pairs().len() == 0 {
                assert(self@ =~= Map::<Seq<u8>, Seq<u8>>::empty());
            } else {
                lemma_lookup(self.pairs(), 0);
            }
        }
        self.entries.len() == 0
    }

    /// The name at place `i`.
    pub fn key(&self, i: usize) -> (k: &Vec<u8>)
        requires
            i < self.pairs().len(),
        ensures
            k@ == self.pairs()[i as int].0,
            self@.dom().contains(k@),
    {
        proof {
            use_type_invariant(self);
            lemma_lookup(self.pairs(), i as int);
        }
        &self.entries[i].0
    }

    /// The value at place `i`.
    pub fn value(&self, i: usize) -> (v: &Vec<u8>)
        requires
            i < self.pairs().len(),
        ensures
            v@ == self.pairs()[i as int].1,
            self@[self.pairs()[i as int].0] == v@,
    {
        proof {
            use_type_invariant(self);
            lemma_lookup(self.pairs(), i as int);
        }
        &self.entries[i].1
    }

    /// The value bound to `key`, where there is one.
    pub fn get(&self, key: &[u8]) -> (r: Option<&Vec<u8>>)
        ensures
            match r {
                Some(v) => self@.dom().contains(key@) && self@[key@] == v@,
                None => !self@.dom().contains(key@),
            },
    {
        proof {
            use_type_invariant(self);
        }
        let mut i: usize = 0;
        while i < self.entries.len()
            invariant
                i <= self.entries@.len(),
                sorted_keys(self.pairs()),
                self.pairs().len() == self.entries@.len(),
                forall|j: int| 0 <= j < i ==> (#[trigger] self.pairs()[j]).0 != key@,
            decreases self.entries@.len() - i,
        {
            if crate::text::same(self.entries[i].0.as_slice(), key) {
                proof {
                    lemma_lookup(self.pairs(), i as int);
                }
                return Some(&self.entries[i].1);
            }
            i += 1;
        }
        None
    }

    /// Binds `value` to `key`, in place of what was bound to it before.
    pub fn insert(&mut self, key: Vec<u8>, value: Vec<u8>)
        ensures
            final(self)@ == old(self)@.insert(key@, value@),
    {
        proof {
            use_type_invariant(&*self);
        }
        let ghost before = self.pairs();
        let mut entries: Vec<(Vec<u8>, Vec<u8>)> = Vec::new();
        assert(entries_pairs(entries@) =~= Seq::<Pair>::empty());
        std::mem::swap(&mut entries, &mut self.entries);
        let mut p: usize = 0;
        let mut found = false;
        while p < entries.len()
            invariant_except_break
                !found,
            invariant
                p <= entries@.len(),
                entries_pairs(entries@) == before,
                sorted_keys(before),
                before.len() == entries@.len(),
                forall|j: int| 0 <= j < p ==> lex_less((#[trigger] before[j]).0, key@),
            ensures
                p <= entries@.len(),
                found ==> p < entries@.len() && before[p as int].0 == key@,
                !found ==> forall|i: int|
                    p <= i < before.len() ==> lex_less(key@, (#[trigger] before[i]).0),
            decreases entries@.len() - p,
        {
            match compare(entries[p].0.as_slice(), key.as_slice()) {
                Order::Before => {
                    p += 1;
                },
                Order::Same => {
                    found = true;
                    break ;
                },
                Order::After => {
                    proof {
                        assert forall|i: int| p <= i < before.len() implies lex_less(
                            key@,
                            (#[trigger] before[i]).0,
                        ) by {
                            lemma_lex_order(key@, before[p as int].0, before[i].0);
                            if i > p {
                                assert(lex_less(before[p as int].0, before[i].0));
                            }
                        }
                    }
                    break ;
                },
            }
        }
        if found {
            proof {
                lemma_update(before, p as int, value@);
            }
            entries.set(p, (key, value));
            assert(entries_pairs(entries@) =~= before.update(
                p as int,
                (before[p as int].0, value@),
            ));
        } else {
            proof {
                lemma_insert_new(before, p as int, key@, value@);
            }
            entries.insert(p, (key, value));
            assert(entries_pairs(entries@) =~= before.insert(p as int, (key@, value@)));
        }
        self.entries = entries;
    }
}

impl Clone for Row {
    fn clone(&self) -> (r: Row)
        ensures
            r.pairs() == self.pairs(),
            r@ == self@,
    {
        proof {
            use_type_invariant(self);
        }
        let mut entries: Vec<(Vec<u8>, Vec<u8>)> = Vec::new();
        let mut i: usize = 0;
        assert(entries_pairs(entries@) =~= self.pairs().take(0));
        while i < self.entries.len()
            invariant
                i <= self.entries@.len(),
                self.pairs() == entries_pairs(self.entries@),
                entries_pairs(entries@) == self.pairs().take(i as int),
            decreases self.entries@.len() - i,
        {
            let ghost before = entries_pairs(entries@);
            let key = crate::text::copy(self.entries[i].0.as_slice());
            let value = crate::text::copy(self.entries[i].1.as_slice());
            let ghost this = (key@, value@);
            entries.push((key, value));
            assert(entries_pairs(entries@) =~= before.push(this));
            assert(self.pairs().take(i + 1) =~= self.pairs().take(i as int).push(this));
            i += 1;
        }
        assert(self.pairs().take(self.entries@.len() as int) =~= self.pairs());
        Row { entries }
    }
}

/// The pairs that a list of entries holds.
pub open spec fn entries_pairs(es: Seq<(Vec<u8>, Vec<u8>)>) -> Seq<Pair> {
    Seq::new(es.len(), |i: int| (es[i].0@, es[i].1@))
}

} // verus!
