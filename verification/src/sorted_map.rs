use vstd::prelude::*;
use crate::order::{lemma_lt_excludes, lemma_lt_transitive, lex_lt, rank, Rank};

verus! {

/// Every earlier string of `s` comes before every later one.
pub open spec fn ascending(s: Seq<Seq<char>>) -> bool {
    forall|i: int, j: int| 0 <= i < j < s.len() ==> lex_lt(#[trigger] s[i], #[trigger] s[j])
}

/// A map from names to values, kept in ascending order of the names.
pub struct SortedMap<V> {
    items: Vec<(String, V)>,
}

/// The names of a sequence of pairs, in its order.
spec fn names_of<V>(items: Seq<(String, V)>) -> Seq<Seq<char>> {
    Seq::new(items.len(), |i: int| items[i].0@)
}

/// The map that an ascending sequence of pairs stands for.
spec fn map_of<V: View>(items: Seq<(String, V)>) -> Map<Seq<char>, V::V> {
    Map::new(
        |k: Seq<char>| names_of(items).contains(k),
        |k: Seq<char>| items[names_of(items).index_of(k)].1@,
    )
}

/// The pair at position `i` of `items` bears the name `k`.
spec fn named_at<V>(items: Seq<(String, V)>, i: int, k: Seq<char>) -> bool {
    0 <= i < items.len() && items[i].0@ == k
}

/// In an ascending sequence a name stands at one position only.
proof fn lemma_position_unique<V>(items: Seq<(String, V)>, i: int, j: int)
    requires
        ascending(names_of(items)),
        0 <= i < items.len(),
        0 <= j < items.len(),
        items[i].0@ == items[j].0@,
    ensures
        i == j,
{
    let names = names_of(items);
    if i < j {
        lemma_lt_excludes(names[i], names[j]);
    } else if j < i {
        lemma_lt_excludes(names[j], names[i]);
    }
}

/// The map of an ascending sequence holds each pair of it, and nothing else.
proof fn lemma_map_of<V: View>(items: Seq<(String, V)>)
    requires
        ascending(names_of(items)),
    ensures
        forall|i: int, k: Seq<char>| #[trigger]
            named_at(items, i, k) ==> map_of(items).dom().contains(k) && map_of(items)[k]
                == items[i].1@,
        forall|k: Seq<char>|
            map_of(items).dom().contains(k) ==> exists|i: int| #[trigger] named_at(items, i, k),
{
    let names = names_of(items);
    assert forall|i: int, k: Seq<char>| #[trigger] named_at(items, i, k) implies map_of(
        items,
    ).dom().contains(k) && map_of(items)[k] == items[i].1@ by {
        assert(names[i] == k);
        let j = names.index_of(k);
        assert(names[j] == items[j].0@);
        lemma_position_unique(items, i, j);
    }
    assert forall|k: Seq<char>| map_of(items).dom().contains(k) implies exists|i: int| #[trigger]
        named_at(items, i, k) by {
        let j = names.index_of(k);
        assert(names[j] == items[j].0@);
        assert(named_at(items, j, k));
    }
}

/// Where `k` is held, a position at which it stands.
proof fn lemma_held<V: View>(items: Seq<(String, V)>, k: Seq<char>) -> (i: int)
    requires
        ascending(names_of(items)),
        map_of(items).dom().contains(k),
    ensures
        named_at(items, i, k),
        map_of(items)[k] == items[i].1@,
{
    lemma_map_of(items);
    let i = choose|i: int| #[trigger] named_at(items, i, k);
    assert(named_at(items, i, k));
    i
}

/// Putting a new name at its place keeps the order and adds one pair to the map.
proof fn lemma_insert_new<V: View>(items: Seq<(String, V)>, p: int, key: String, value: V)
    requires
        ascending(names_of(items)),
        0 <= p <= items.len(),
        forall|i: int| 0 <= i < p ==> lex_lt(#[trigger] names_of(items)[i], key@),
        forall|i: int| p <= i < items.len() ==> lex_lt(key@, #[trigger] names_of(items)[i]),
    ensures
        ascending(names_of(items.insert(p, (key, value)))),
        map_of(items.insert(p, (key, value))) == map_of(items).insert(key@, value@),
{
    let after = items.insert(p, (key, value));
    let names = names_of(items);
    let names_after = names_of(after);
    assert forall|i: int, j: int| 0 <= i < j < names_after.len() implies lex_lt(
        #[trigger] names_after[i],
        #[trigger] names_after[j],
    ) by {
        let a = if i < p { i } else { i - 1 };
        let b = if j < p { j } else { j - 1 };
        if i != p {
            assert(names_after[i] == names[a]);
        }
        if j != p {
            assert(names_after[j] == names[b]);
        }
    }
    lemma_map_of(items);
    lemma_map_of(after);
    let expected = map_of(items).insert(key@, value@);
    assert(named_at(after, p, key@));
    assert forall|k: Seq<char>| #[trigger]
        map_of(after).dom().contains(k) <==> expected.dom().contains(k) by {
        if map_of(after).dom().contains(k) {
            let i = lemma_held(after, k);
            if i < p {
                assert(named_at(items, i, k));
            } else if i > p {
                assert(named_at(items, i - 1, k));
            }
        }
        if map_of(items).dom().contains(k) {
            let i = lemma_held(items, k);
            let j = if i < p { i } else { i + 1 };
            assert(named_at(after, j, k));
        }
    }
    assert forall|k: Seq<char>| #[trigger] map_of(after).dom().contains(k) implies map_of(
        after,
    )[k] == expected[k] by {
        let i = lemma_held(after, k);
        if i < p {
            assert(named_at(items, i, k));
            lemma_lt_excludes(names[i], key@);
        } else if i > p {
            assert(named_at(items, i - 1, k));
            lemma_lt_excludes(key@, names[i - 1]);
        }
    }
    assert(map_of(after) =~= expected);
}

/// Giving a name that is held a new value changes that pair of the map.
proof fn lemma_replace<V: View>(items: Seq<(String, V)>, p: int, key: String, value: V)
    requires
        ascending(names_of(items)),
        0 <= p < items.len(),
        items[p].0@ == key@,
    ensures
        ascending(names_of(items.update(p, (key, value)))),
        map_of(items.update(p, (key, value))) == map_of(items).insert(key@, value@),
{
    let after = items.update(p, (key, value));
    assert(names_of(after) =~= names_of(items));
    lemma_map_of(items);
    lemma_map_of(after);
    let expected = map_of(items).insert(key@, value@);
    assert(named_at(after, p, key@));
    assert forall|k: Seq<char>| #[trigger]
        map_of(after).dom().contains(k) <==> expected.dom().contains(k) by {
        if map_of(after).dom().contains(k) {
            let i = lemma_held(after, k);
            assert(named_at(items, i, k));
        }
        if map_of(items).dom().contains(k) {
            let i = lemma_held(items, k);
            assert(named_at(after, i, k));
        }
    }
    assert forall|k: Seq<char>| #[trigger] map_of(after).dom().contains(k) implies map_of(
        after,
    )[k] == expected[k] by {
        let i = lemma_held(after, k);
        if i != p {
            assert(named_at(items, i, k));
            if k == key@ {
                lemma_position_unique(items, i, p);
            }
        }
    }
    assert(map_of(after) =~= expected);
}

/// Taking a pair out keeps the order and takes its name out of the map.
proof fn lemma_remove<V: View>(items: Seq<(String, V)>, p: int)
    requires
        ascending(names_of(items)),
        0 <= p < items.len(),
    ensures
        ascending(names_of(items.remove(p))),
        map_of(items.remove(p)) == map_of(items).remove(items[p].0@),
{
    let after = items.remove(p);
    let names = names_of(items);
    let names_after = names_of(after);
    let key = items[p].0@;
    assert forall|i: int, j: int| 0 <= i < j < names_after.len() implies lex_lt(
        #[trigger] names_after[i],
        #[trigger] names_after[j],
    ) by {
        let a = if i < p { i } else { i + 1 };
        let b = if j < p { j } else { j + 1 };
        assert(names_after[i] == names[a]);
        assert(names_after[j] == names[b]);
    }
    lemma_map_of(items);
    lemma_map_of(after);
    let expected = map_of(items).remove(key);
    assert forall|k: Seq<char>| #[trigger]
        map_of(after).dom().contains(k) <==> expected.dom().contains(k) by {
        if map_of(after).dom().contains(k) {
            let i = lemma_held(after, k);
            let a = if i < p { i } else { i + 1 };
            assert(named_at(items, a, k));
            if k == key {
                lemma_position_unique(items, a, p);
            }
        }
        if expected.dom().contains(k) {
            let i = lemma_held(items, k);
            let j = if i < p { i } else { i - 1 };
            assert(named_at(after, j, k));
        }
    }
    assert forall|k: Seq<char>| #[trigger] map_of(after).dom().contains(k) implies map_of(
        after,
    )[k] == expected[k] by {
        let i = lemma_held(after, k);
        let a = if i < p { i } else { i + 1 };
        assert(named_at(items, a, k));
    }
    assert(map_of(after) =~= expected);
}

impl<V> SortedMap<V> {
    /// The names, in the order in which they are stored.
    pub closed spec fn keys(&self) -> Seq<Seq<char>> {
        names_of(self.items@)
    }

    #[verifier::type_invariant]
    spec fn inv(&self) -> bool {
        ascending(self.keys())
    }
}

impl<V: View> SortedMap<V> {
    /// What ties `keys` and the view together: the names stand in ascending
    /// order, and they are the names that the map holds.
    pub open spec fn coherent(&self) -> bool {
        &&& ascending(self.keys())
        &&& forall|k: Seq<char>| self@.dom().contains(k) <==> self.keys().contains(k)
    }

    proof fn lemma_coherent(&self)
        requires
            self.inv(),
        ensures
            self.coherent(),
            forall|i: int|
                0 <= i < self.items@.len() ==> self@[#[trigger] self.keys()[i]]
                    == self.items@[i].1@,
    {
        let items = self.items@;
        let keys = self.keys();
        lemma_map_of(items);
        assert forall|k: Seq<char>| self@.dom().contains(k) <==> keys.contains(k) by {
            if self@.dom().contains(k) {
                let i = lemma_held(items, k);
                assert(keys[i] == k);
            }
        }
        assert forall|i: int| 0 <= i < items.len() implies self@[#[trigger] keys[i]]
            == items[i].1@ by {
            assert(named_at(items, i, keys[i]));
        }
    }

    /// A map that holds nothing.
    pub fn new() -> (s: Self)
        ensures
            s@ == Map::<Seq<char>, V::V>::empty(),
            s.keys() == Seq::<Seq<char>>::empty(),
    {
        let s = SortedMap { items: Vec::new() };
        assert(s.keys() =~= Seq::<Seq<char>>::empty());
        assert(s@ =~= Map::<Seq<char>, V::V>::empty());
        s
    }

    /// The number of names held.
    pub fn len(&self) -> (n: usize)
        ensures
            n == self.keys().len(),
            self.coherent(),
    {
        proof {
            use_type_invariant(self);
            self.lemma_coherent();
        }
        self.items.len()
    }

    /// The name at position `i`.
    pub fn key_at(&self, i: usize) -> (k: &String)
        requires
            i < self.keys().len(),
        ensures
            k@ == self.keys()[i as int],
    {
        &self.items[i].0
    }

    /// The value at position `i`.
    pub fn value_at(&self, i: usize) -> (v: &V)
        requires
            i < self.keys().len(),
        ensures
            v@ == self@[self.keys()[i as int]],
    {
        proof {
            use_type_invariant(self);
            self.lemma_coherent();
        }
        &self.items[i].1
    }

    /// The position at which `key` stands or would have to be put.
    fn position(&self, key: &str) -> (r: (usize, bool))
        ensures
            r.0 <= self.keys().len(),
            forall|i: int| 0 <= i < r.0 ==> lex_lt(#[trigger] self.keys()[i], key@),
            r.1 ==> r.0 < self.keys().len() && self.keys()[r.0 as int] == key@,
            !r.1 ==> forall|i: int|
                r.0 <= i < self.keys().len() ==> lex_lt(key@, #[trigger] self.keys()[i]),
    {
        proof {
            use_type_invariant(self);
        }
        let n: usize = self.items.len();
        let mut i: usize = 0;
        while i < n
            invariant
                n == self.keys().len(),
                n == self.items@.len(),
                i <= n,
                ascending(self.keys()),
                forall|j: int| 0 <= j < i ==> lex_lt(#[trigger] self.keys()[j], key@),
            decreases n - i,
        {
            match rank(self.items[i].0.as_str(), key) {
                Rank::Before => {},
                Rank::Same => {
                    return (i, true);
                },
                Rank::After => {
                    proof {
                        let keys = self.keys();
                        assert forall|j: int| i <= j < keys.len() implies lex_lt(
                            key@,
                            #[trigger] keys[j],
                        ) by {
                            if i < j {
                                lemma_lt_transitive(key@, keys[i as int], keys[j]);
                            }
                        }
                    }
                    return (i, false);
                },
            }
            i = i + 1;
        }
        (i, false)
    }

    /// Looks `key` up.
    pub fn get(&self, key: &str) -> (r: Option<&V>)
        ensures
            (match r {
                Some(v) => self@.dom().contains(key@) && v@ == self@[key@],
                None => !self@.dom().contains(key@),
            }),
    {
        proof {
            use_type_invariant(self);
            self.lemma_coherent();
        }
        let (i, found) = self.position(key);
        if found {
            assert(self.keys().contains(key@));
            Some(&self.items[i].1)
        } else {
            proof {
                let keys = self.keys();
                if keys.contains(key@) {
                    let j = keys.index_of(key@);
                    if j < i {
                        lemma_lt_excludes(keys[j], key@);
                    } else {
                        lemma_lt_excludes(key@, keys[j]);
                    }
                }
            }
            None
        }
    }
}

impl<V: View> SortedMap<V> {
    /// Puts `value` under `key`, in place of what `key` held before.
    pub fn insert(&mut self, key: String, value: V)
        ensures
            final(self)@ == old(self)@.insert(key@, value@),
    {
        proof {
            use_type_invariant(&*self);
        }
        let (i, found) = self.position(key.as_str());
        let mut items: Vec<(String, V)> = Vec::new();
        std::mem::swap(&mut items, &mut self.items);
        proof {
            if found {
                lemma_replace(items@, i as int, key, value);
            } else {
                lemma_insert_new(items@, i as int, key, value);
            }
        }
        if found {
            items.set(i, (key, value));
        } else {
            items.insert(i, (key, value));
        }
        self.items = items;
    }

    /// Takes `key` out and hands back what it held.
    pub fn remove(&mut self, key: &str) -> (r: Option<V>)
        ensures
            final(self)@ == old(self)@.remove(key@),
            (match r {
                Some(v) => old(self)@.dom().contains(key@) && v@ == old(self)@[key@],
                None => !old(self)@.dom().contains(key@),
            }),
    {
        proof {
            use_type_invariant(&*self);
            self.lemma_coherent();
        }
        let (i, found) = self.position(key);
        if found {
            let mut items: Vec<(String, V)> = Vec::new();
            std::mem::swap(&mut items, &mut self.items);
            proof {
                lemma_remove(items@, i as int);
                lemma_map_of(items@);
            }
            let (_, value) = items.remove(i);
            self.items = items;
            Some(value)
        } else {
            proof {
                let keys = self.keys();
                if keys.contains(key@) {
                    let j = keys.index_of(key@);
                    if j < i {
                        lemma_lt_excludes(keys[j], key@);
                    } else {
                        lemma_lt_excludes(key@, keys[j]);
                    }
                }
                assert(self@.remove(key@) =~= self@);
            }
            None
        }
    }
}

impl<V: View> View for SortedMap<V> {
    type V = Map<Seq<char>, V::V>;

    closed spec fn view(&self) -> Map<Seq<char>, V::V> {
        map_of(self.items@)
    }
}

} // verus!
