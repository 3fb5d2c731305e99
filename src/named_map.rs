//! Values kept under distinct names, listed in ascending name order.
use vstd::prelude::*;

use crate::text::{
    lemma_text_less_irreflexive, lemma_text_less_total, lemma_text_less_transitive, less_than,
    text_is, text_less,
};

verus! {

/// Whether the names of a listing ascend strictly, which also makes them
/// distinct.
pub open spec fn sorted_by_name<V>(l: Seq<(Seq<char>, V)>) -> bool {
    forall|i: int, j: int| 0 <= i < j < l.len() ==> text_less(#[trigger] l[i].0, #[trigger] l[j].0)
}

/// Whether entry `i` of a listing carries the name `k`.
pub open spec fn holds_name<V>(l: Seq<(Seq<char>, V)>, k: Seq<char>, i: int) -> bool {
    0 <= i < l.len() && l[i].0 == k
}

/// Whether some entry of a listing carries the name `k`.
pub open spec fn has_name<V>(l: Seq<(Seq<char>, V)>, k: Seq<char>) -> bool {
    exists|i: int| holds_name(l, k, i)
}

/// The value that a listing holds under `k`, if any.
pub open spec fn lookup<V>(l: Seq<(Seq<char>, V)>, k: Seq<char>) -> Option<V> {
    if has_name(l, k) {
        Some(l[choose|i: int| holds_name(l, k, i)].1)
    } else {
        None
    }
}

/// Whether `after` is the listing `before` with `v` put under `k`: in place of
/// the value already there, or as a new entry, keeping names ascending.
pub open spec fn put<V>(before: Seq<(Seq<char>, V)>, after: Seq<(Seq<char>, V)>, k: Seq<char>, v: V) -> bool {
    &&& sorted_by_name(after)
    &&& forall|i: int| holds_name(before, k, i) ==> after == before.update(i, (k, v))
    &&& !has_name(before, k) ==> exists|p: int|
        0 <= p <= before.len() && after == before.insert(p, (k, v))
}

/// Whether `after` is the listing `before` with the entry under `k` taken out,
/// and `r` the value it held.
pub open spec fn taken<V>(before: Seq<(Seq<char>, V)>, after: Seq<(Seq<char>, V)>, k: Seq<char>, r: Option<V>) -> bool {
    &&& sorted_by_name(after)
    &&& forall|i: int| holds_name(before, k, i) ==> r == Some(before[i].1) && after == before.remove(i)
    &&& !has_name(before, k) ==> r is None && after == before
}

/// In a listing with ascending names, the value under a name is the one of
/// the entry that holds it.
pub proof fn lemma_lookup<V>(l: Seq<(Seq<char>, V)>, k: Seq<char>, i: int)
    requires
        sorted_by_name(l),
        holds_name(l, k, i),
    ensures
        lookup(l, k) == Some(l[i].1),
{
    lemma_listing_unique(l, k, i);
}

/// The names of a listing, in order.
pub open spec fn names_of<V>(l: Seq<(Seq<char>, V)>) -> Seq<Seq<char>> {
    l.map_values(|e: (Seq<char>, V)| e.0)
}

/// A map from names to values.  Its view is the listing of its entries in
/// ascending name order.
pub struct NamedMap<V> {
    names: Vec<String>,
    values: Vec<V>,
}

impl<V> View for NamedMap<V> {
    type V = Seq<(Seq<char>, V)>;

    closed spec fn view(&self) -> Seq<(Seq<char>, V)> {
        Seq::new(self.names@.len(), |i: int| (self.names@[i]@, self.values@[i]))
    }
}

impl<V> NamedMap<V> {
    #[verifier::type_invariant]
    closed spec fn ascending(&self) -> bool {
        &&& self.names@.len() == self.values@.len()
        &&& forall|i: int, j: int|
            0 <= i < j < self.names@.len() ==> text_less(
                #[trigger] self.names@[i]@,
                #[trigger] self.names@[j]@,
            )
    }

    /// An empty map.
    pub fn new() -> (r: Self)
        ensures
            r@ == Seq::<(Seq<char>, V)>::empty(),
    {
        let r = NamedMap { names: Vec::new(), values: Vec::new() };
        assert(r@ =~= Seq::<(Seq<char>, V)>::empty());
        r
    }

    /// The number of entries; the listing is in ascending name order.
    pub fn len(&self) -> (n: usize)
        ensures
            n == self@.len(),
            sorted_by_name(self@),
    {
        proof {
            use_type_invariant(self);
        }
        self.names.len()
    }

    /// The name of entry `i`.
    pub fn name_at(&self, i: usize) -> (r: &String)
        requires
            i < self@.len(),
        ensures
            r@ == self@[i as int].0,
    {
        proof {
            use_type_invariant(self);
        }
        &self.names[i]
    }

    /// The value of entry `i`.
    pub fn value_at(&self, i: usize) -> (r: &V)
        requires
            i < self@.len(),
        ensures
            *r == self@[i as int].1,
    {
        proof {
            use_type_invariant(self);
        }
        &self.values[i]
    }

    /// Where `name` is, if present.
    fn find(&self, name: &str) -> (r: Option<usize>)
        ensures
            match r {
                Some(i) => holds_name(self@, name@, i as int),
                None => !has_name(self@, name@),
            },
    {
        proof {
            use_type_invariant(self);
        }
        let mut i: usize = 0;
        while i < self.names.len()
            invariant
                self.names@.len() == self.values@.len(),
                i <= self.names@.len(),
                forall|j: int| 0 <= j < i ==> self.names@[j]@ != name@,
            decreases self.names@.len() - i,
        {
            if text_is(&self.names[i], name) {
                return Some(i);
            }
            i = i + 1;
        }
        assert(!has_name(self@, name@)) by {
            if has_name(self@, name@) {
                let j = choose|j: int| holds_name(self@, name@, j);
                assert(self.names@[j]@ == name@);
            }
        }
        None
    }

    /// The value under `name`, if any.
    pub fn get(&self, name: &str) -> (r: Option<&V>)
        ensures
            match r {
                Some(v) => lookup(self@, name@) == Some(*v),
                None => lookup(self@, name@) is None,
            },
            sorted_by_name(self@),
    {
        proof {
            use_type_invariant(self);
        }
        match self.find(name) {
            Some(i) => {
                proof {
                    lemma_lookup(self@, name@, i as int);
                }
                Some(&self.values[i])
            },
            None => None,
        }
    }

    /// The value under `name`, if any, to be changed in place.
    pub fn get_mut(&mut self, name: &str) -> (r: Option<&mut V>)
        ensures
            match r {
                Some(v) => lookup(old(self)@, name@) == Some(*v) && exists|i: int|
                    holds_name(old(self)@, name@, i) && final(self)@ == old(self)@.update(
                        i,
                        (name@, *final(v)),
                    ),
                None => lookup(old(self)@, name@) is None && final(self)@ == old(self)@,
            },
            sorted_by_name(old(self)@),
    {
        proof {
            use_type_invariant(&*self);
        }
        match self.find(name) {
            Some(i) => {
                proof {
                    lemma_lookup(self@, name@, i as int);
                }
                let ghost before = self@;
                let v = &mut self.values[i];
                assert(before == old(self)@);
                Some(v)
            },
            None => None,
        }
    }

    /// Takes the entries out, leaving the map empty.
    fn take_entries(&mut self) -> (r: (Vec<String>, Vec<V>))
        ensures
            final(self)@ == Seq::<(Seq<char>, V)>::empty(),
            r.0@.len() == r.1@.len(),
            old(self)@ == Seq::new(r.0@.len(), |i: int| (r.0@[i]@, r.1@[i])),
            forall|i: int, j: int|
                0 <= i < j < r.0@.len() ==> text_less(#[trigger] r.0@[i]@, #[trigger] r.0@[j]@),
    {
        let mut taken = NamedMap::new();
        std::mem::swap(self, &mut taken);
        proof {
            use_type_invariant(&taken);
        }
        let NamedMap { names, values } = taken;
        (names, values)
    }

    /// Puts `value` under `name`, in place of any value already there, and
    /// returns the value it replaces.
    pub fn insert(&mut self, name: String, value: V) -> (r: Option<V>)
        ensures
            put(old(self)@, final(self)@, name@, value),
            r == lookup(old(self)@, name@),
    {
        let (mut names, mut values) = self.take_entries();
        let ghost l = old(self)@;
        assert(sorted_by_name(l)) by {
            assert forall|i: int, j: int| 0 <= i < j < l.len() implies text_less(
                #[trigger] l[i].0,
                #[trigger] l[j].0,
            ) by {
                assert(l[i].0 == names@[i]@ && l[j].0 == names@[j]@);
            }
        }
        let mut p: usize = 0;
        while p < names.len() && less_than(names[p].as_str(), name.as_str())
            invariant
                names@.len() == values@.len(),
                l == Seq::new(names@.len(), |i: int| (names@[i]@, values@[i])),
                sorted_by_name(l),
                p <= names@.len(),
                forall|j: int| 0 <= j < p ==> text_less(#[trigger] l[j].0, name@),
            decreases names@.len() - p,
        {
            assert(l[p as int].0 == names@[p as int]@);
            p = p + 1;
        }
        if p < names.len() && text_is(&names[p], name.as_str()) {
            assert(holds_name(l, name@, p as int));
            let ghost m = NamedMap::<V>::listing(names@, values@);
            assert(m == l);
            proof {
                lemma_listing_unique(l, name@, p as int);
            }
            proof {
                lemma_lookup(l, name@, p as int);
            }
            let previous = values.remove(p);
            values.insert(p, value);
            assert(Seq::new(names@.len(), |i: int| (names@[i]@, values@[i])) =~= l.update(
                p as int,
                (name@, value),
            ));
            *self = NamedMap { names, values };
            assert(self@ =~= l.update(p as int, (name@, value)));
            proof {
                lemma_update_sorted(l, p as int, value);
            }
            return Some(previous);
        }
        proof {
            if p < l.len() {
                assert(l[p as int].0 == names@[p as int]@);
            }
            assert forall|j: int| p <= j < l.len() implies text_less(name@, #[trigger] l[j].0) by {
                lemma_text_less_total(name@, l[p as int].0);
                if j > p {
                    assert(text_less(l[p as int].0, l[j].0));
                    lemma_text_less_transitive(name@, l[p as int].0, l[j].0);
                }
            }
            assert(!has_name(l, name@)) by {
                if has_name(l, name@) {
                    let j = choose|j: int| holds_name(l, name@, j);
                    lemma_text_less_irreflexive(name@);
                    if j < p {
                        assert(text_less(l[j].0, name@));
                    } else {
                        assert(text_less(name@, l[j].0));
                    }
                }
            }
        }
        let ghost n = name@;
        names.insert(p, name);
        values.insert(p, value);
        let ghost m = Seq::new(names@.len(), |i: int| (names@[i]@, values@[i]));
        assert(m =~= l.insert(p as int, (n, value)));
        proof {
            assert forall|i: int, j: int| 0 <= i < j < m.len() implies text_less(
                #[trigger] m[i].0,
                #[trigger] m[j].0,
            ) by {
                if j < p {
                    assert(m[i] == l[i] && m[j] == l[j]);
                } else if j == p {
                    assert(m[i] == l[i]);
                } else if i < p {
                    assert(m[i] == l[i] && m[j] == l[j - 1]);
                    assert(text_less(l[i].0, n));
                    assert(text_less(n, l[j - 1].0));
                    lemma_text_less_transitive(l[i].0, n, l[j - 1].0);
                } else if i == p {
                    assert(m[j] == l[j - 1]);
                } else {
                    assert(m[i] == l[i - 1] && m[j] == l[j - 1]);
                }
            }
            assert forall|i: int, j: int| 0 <= i < j < names@.len() implies text_less(
                #[trigger] names@[i]@,
                #[trigger] names@[j]@,
            ) by {
                assert(m[i].0 == names@[i]@ && m[j].0 == names@[j]@);
            }
        }
        *self = NamedMap { names, values };
        assert(self@ =~= m);
        None
    }

    /// Takes out the value under `name`, if any.
    pub fn remove(&mut self, name: &str) -> (r: Option<V>)
        ensures
            taken(old(self)@, final(self)@, name@, r),
    {
        proof {
            use_type_invariant(&*self);
        }
        let ghost l = self@;
        match self.find(name) {
            Some(i) => {
                proof {
                    lemma_listing_unique(self@, name@, i as int);
                }
                let (mut names, mut values) = self.take_entries();
                names.remove(i);
                let v = values.remove(i);
                let ghost m = Seq::new(names@.len(), |k: int| (names@[k]@, values@[k]));
                assert(m =~= l.remove(i as int));
                proof {
                    assert forall|a: int, b: int| 0 <= a < b < m.len() implies text_less(
                        #[trigger] m[a].0,
                        #[trigger] m[b].0,
                    ) by {
                        if b < i {
                            assert(m[a] == l[a] && m[b] == l[b]);
                        } else if a < i {
                            assert(m[a] == l[a] && m[b] == l[b + 1]);
                        } else {
                            assert(m[a] == l[a + 1] && m[b] == l[b + 1]);
                        }
                    }
                    assert forall|a: int, b: int| 0 <= a < b < names@.len() implies text_less(
                        #[trigger] names@[a]@,
                        #[trigger] names@[b]@,
                    ) by {
                        assert(m[a].0 == names@[a]@ && m[b].0 == names@[b]@);
                    }
                }
                *self = NamedMap { names, values };
                assert(self@ =~= m);
                Some(v)
            },
            None => None,
        }
    }

    spec fn listing(names: Seq<String>, values: Seq<V>) -> Seq<(Seq<char>, V)> {
        Seq::new(names.len(), |i: int| (names[i]@, values[i]))
    }

    /// The names, in ascending order.
    pub fn names(&self) -> (r: Vec<String>)
        ensures
            r@.map_values(|s: String| s@) == names_of(self@),
    {
        proof {
            use_type_invariant(self);
        }
        let mut r: Vec<String> = Vec::new();
        let mut i: usize = 0;
        while i < self.names.len()
            invariant
                self.names@.len() == self.values@.len(),
                i <= self.names@.len(),
                r@.len() == i,
                forall|j: int| 0 <= j < i ==> (#[trigger] r@[j])@ == self.names@[j]@,
            decreases self.names@.len() - i,
        {
            r.push(self.names[i].clone());
            i = i + 1;
        }
        assert(r@.map_values(|s: String| s@) =~= names_of(self@));
        r
    }
}

/// In a listing with ascending names, a name is held by one entry at most.
proof fn lemma_listing_unique<V>(l: Seq<(Seq<char>, V)>, k: Seq<char>, i: int)
    requires
        sorted_by_name(l),
        holds_name(l, k, i),
    ensures
        forall|j: int| holds_name(l, k, j) ==> j == i,
{
    assert forall|j: int| holds_name(l, k, j) implies j == i by {
        if j < i {
            assert(text_less(l[j].0, l[i].0));
            lemma_text_less_irreflexive(k);
        } else if j > i {
            assert(text_less(l[i].0, l[j].0));
            lemma_text_less_irreflexive(k);
        }
    }
}

/// Changing the value of an entry keeps the names ascending.
proof fn lemma_update_sorted<V>(l: Seq<(Seq<char>, V)>, i: int, v: V)
    requires
        sorted_by_name(l),
        0 <= i < l.len(),
    ensures
        sorted_by_name(l.update(i, (l[i].0, v))),
{
    let m = l.update(i, (l[i].0, v));
    assert forall|a: int, b: int| 0 <= a < b < m.len() implies text_less(
        #[trigger] m[a].0,
        #[trigger] m[b].0,
    ) by {
        assert(m[a].0 == l[a].0 && m[b].0 == l[b].0);
    }
}

} // verus!
