//! A small string-to-string map kept as a list of distinct keys, used for
//! API keys, replacement tables and voice choices.
use vstd::prelude::*;
use crate::text::text_eq;

verus! {

/// The map that a list of pairs describes, a later pair winning over an
/// earlier one with the same key.
pub open spec fn map_of(es: Seq<(String, String)>) -> Map<Seq<char>, Seq<char>>
    decreases es.len(),
{
    if es.len() == 0 {
        Map::empty()
    } else {
        map_of(es.drop_last()).insert(es.last().0@, es.last().1@)
    }
}

/// The map that a list of key/value views describes, a later pair winning.
pub open spec fn pairs_map(ps: Seq<(Seq<char>, Seq<char>)>) -> Map<Seq<char>, Seq<char>>
    decreases ps.len(),
{
    if ps.len() == 0 {
        Map::empty()
    } else {
        pairs_map(ps.drop_last()).insert(ps.last().0, ps.last().1)
    }
}

proof fn lemma_pairs_map_of(es: Seq<(String, String)>)
    ensures
        pairs_map(es.map_values(|e: (String, String)| (e.0@, e.1@))) == map_of(es),
    decreases es.len(),
{
    if es.len() > 0 {
        let f = |e: (String, String)| (e.0@, e.1@);
        assert(es.map_values(f).drop_last() =~= es.drop_last().map_values(f));
        lemma_pairs_map_of(es.drop_last());
    }
}

/// No two pairs of the list share a key.
pub open spec fn distinct_keys(es: Seq<(String, String)>) -> bool {
    forall|i: int, j: int| 0 <= i < j < es.len() ==> (#[trigger] es[i]).0@ != (#[trigger] es[j]).0@
}

/// What `map_of` holds of a list with distinct keys: each pair's key maps to
/// its value, and every key of the map is the key of a pair.
pub proof fn lemma_map_of(es: Seq<(String, String)>)
    requires
        distinct_keys(es),
    ensures
        forall|i: int|
            0 <= i < es.len() ==> map_of(es).contains_key((#[trigger] es[i]).0@) && map_of(es)[es[i].0@]
                == es[i].1@,
        forall|k: Seq<char>|
            #[trigger] map_of(es).contains_key(k) ==> exists|i: int| 0 <= i < es.len() && (#[trigger] es[i]).0@ == k,
        map_of(es).dom().finite(),
        map_of(es).dom().len() == es.len(),
    decreases es.len(),
{
    if es.len() > 0 {
        let p = es.drop_last();
        assert(distinct_keys(p));
        lemma_map_of(p);
        let k = es.last().0@;
        assert(!map_of(p).contains_key(k)) by {
            if map_of(p).contains_key(k) {
                let i = choose|i: int| 0 <= i < p.len() && (#[trigger] p[i]).0@ == k;
                assert(es[i] == p[i]);
                assert(es[es.len() - 1] == es.last());
            }
        }
        assert forall|i: int| 0 <= i < es.len() implies map_of(es).contains_key(
            (#[trigger] es[i]).0@,
        ) && map_of(es)[es[i].0@] == es[i].1@ by {
            if i < es.len() - 1 {
                assert(es[i] == p[i]);
                assert(es[es.len() - 1] == es.last());
            }
        }
        assert forall|k2: Seq<char>| #[trigger] map_of(es).contains_key(k2) implies exists|i: int|
            0 <= i < es.len() && (#[trigger] es[i]).0@ == k2 by {
            if k2 == k {
                assert(es[es.len() - 1] == es.last());
            } else {
                let i = choose|i: int| 0 <= i < p.len() && (#[trigger] p[i]).0@ == k2;
                assert(es[i] == p[i]);
            }
        }
    }
}

/// A map from strings to strings.
pub struct StringMap {
    entries: Vec<(String, String)>,
}

impl View for StringMap {
    type V = Map<Seq<char>, Seq<char>>;

    closed spec fn view(&self) -> Map<Seq<char>, Seq<char>> {
        map_of(self.entries@)
    }
}

impl StringMap {
    /// No two pairs share a key; every map keeps this, and
    /// `use_type_invariant` makes it known of a given map.
    #[verifier::type_invariant]
    pub closed spec fn keys_are_distinct(self) -> bool {
        distinct_keys(self.entries@)
    }

    /// The pairs of the map, in the order that `key_at` and `value_at` give
    /// them.
    pub closed spec fn pairs(self) -> Seq<(Seq<char>, Seq<char>)> {
        self.entries@.map_values(|e: (String, String)| (e.0@, e.1@))
    }

    /// The pairs enumerate the map: distinct keys, each with its value, and
    /// nothing else.
    pub proof fn lemma_pairs(self)
        requires
            self.keys_are_distinct(),
        ensures
            self.pairs().len() == self@.dom().len(),
            self@.dom().finite(),
            forall|i: int, j: int|
                0 <= i < j < self.pairs().len() ==> (#[trigger] self.pairs()[i]).0 != (
                #[trigger] self.pairs()[j]).0,
            forall|i: int|
                0 <= i < self.pairs().len() ==> self@.contains_key((#[trigger] self.pairs()[i]).0)
                    && self@[self.pairs()[i].0] == self.pairs()[i].1,
            forall|k: Seq<char>|
                #[trigger] self@.contains_key(k) ==> exists|i: int|
                    0 <= i < self.pairs().len() && (#[trigger] self.pairs()[i]).0 == k,
    {
        lemma_map_of(self.entries@);
        let es = self.entries@;
        assert forall|k: Seq<char>| #[trigger] self@.contains_key(k) implies exists|i: int|
            0 <= i < self.pairs().len() && (#[trigger] self.pairs()[i]).0 == k by {
            let i = choose|i: int| 0 <= i < es.len() && (#[trigger] es[i]).0@ == k;
            assert(self.pairs()[i].0 == k);
        }
        assert forall|i: int, j: int|
            0 <= i < j < self.pairs().len() implies (#[trigger] self.pairs()[i]).0 != (
            #[trigger] self.pairs()[j]).0 by {
            assert(es[i].0@ != es[j].0@);
        }
    }

    /// Reading the pairs in order and inserting each gives the map.
    pub proof fn lemma_pairs_map(self)
        ensures
            pairs_map(self.pairs()) == self@,
    {
        lemma_pairs_map_of(self.entries@);
    }

    /// An empty map.
    pub fn new() -> (m: Self)
        ensures
            m@ == Map::<Seq<char>, Seq<char>>::empty(),
            m.pairs().len() == 0,
    {
        StringMap { entries: Vec::new() }
    }

    /// The number of keys.
    pub fn len(&self) -> (n: usize)
        ensures
            n == self.pairs().len(),
            n == self@.dom().len(),
    {
        proof {
            use_type_invariant(self);
            self.lemma_pairs();
        }
        self.entries.len()
    }

    /// The key of the `i`-th pair.
    pub fn key_at(&self, i: usize) -> (k: &String)
        requires
            i < self.pairs().len(),
        ensures
            k@ == self.pairs()[i as int].0,
    {
        &self.entries[i].0
    }

    /// The value of the `i`-th pair.
    pub fn value_at(&self, i: usize) -> (v: &String)
        requires
            i < self.pairs().len(),
        ensures
            v@ == self.pairs()[i as int].1,
    {
        &self.entries[i].1
    }

    fn position(&self, key: &str) -> (r: Option<usize>)
        ensures
            r matches Some(i) ==> i < self.entries@.len() && self.entries@[i as int].0@ == key@,
            r is None ==> forall|i: int|
                0 <= i < self.entries@.len() ==> (#[trigger] self.entries@[i]).0@ != key@,
    {
        for i in 0..self.entries.len()
            invariant
                forall|j: int| 0 <= j < i ==> (#[trigger] self.entries@[j]).0@ != key@,
        {
            if text_eq(self.entries[i].0.as_str(), key) {
                return Some(i);
            }
        }
        None
    }

    /// The value of a key, if the map has it.
    pub fn get(&self, key: &str) -> (r: Option<&String>)
        ensures
            r is Some <==> self@.contains_key(key@),
            r matches Some(v) ==> v@ == self@[key@],
    {
        proof {
            use_type_invariant(self);
            lemma_map_of(self.entries@);
        }
        match self.position(key) {
            Some(i) => Some(&self.entries[i].1),
            None => None,
        }
    }

    /// Sets the value of a key, replacing what it had.
    pub fn insert(&mut self, key: String, value: String)
        ensures
            final(self)@ == old(self)@.insert(key@, value@),
    {
        proof {
            use_type_invariant(&*self);
            lemma_map_of(self.entries@);
        }
        let ghost es = self.entries@;
        match self.position(key.as_str()) {
            Some(i) => {
                let ghost k = key@;
                let ghost v = value@;
                let ghost es2 = es.update(i as int, (key, value));
                assert(distinct_keys(es2)) by {
                    assert forall|a: int, b: int| 0 <= a < b < es2.len() implies (
                    #[trigger] es2[a]).0@ != (#[trigger] es2[b]).0@ by {
                        if a != i && b != i {
                            assert(es[a].0@ != es[b].0@);
                        } else if a == i {
                            assert(es[i as int].0@ != es[b].0@);
                        } else {
                            assert(es[a].0@ != es[i as int].0@);
                        }
                    }
                }
                proof {
                    lemma_map_of(es2);
                    assert(map_of(es2) =~= map_of(es).insert(k, v)) by {
                        assert forall|q: Seq<char>| #[trigger] map_of(es2).contains_key(q)
                            <==> map_of(es).insert(k, v).contains_key(q) by {
                            if map_of(es2).contains_key(q) {
                                let j = choose|j: int| 0 <= j < es2.len() && (#[trigger] es2[j]).0@ == q;
                                if j != i {
                                    assert(es2[j] == es[j]);
                                }
                            }
                            if map_of(es).contains_key(q) && q != k {
                                let j = choose|j: int| 0 <= j < es.len() && (#[trigger] es[j]).0@ == q;
                                assert(j != i);
                                assert(es2[j] == es[j]);
                            }
                            if q == k {
                                assert(es2[i as int].0@ == k);
                            }
                        }
                        assert forall|q: Seq<char>| #[trigger] map_of(es2).contains_key(q) implies map_of(
                            es2,
                        )[q] == map_of(es).insert(k, v)[q] by {
                            let j = choose|j: int| 0 <= j < es2.len() && (#[trigger] es2[j]).0@ == q;
                            if j != i {
                                assert(es2[j] == es[j]);
                            }
                        }
                    }
                }
                let mut list: Vec<(String, String)> = Vec::new();
                std::mem::swap(&mut list, &mut self.entries);
                list.set(i, (key, value));
                assert(list@ == es2);
                self.entries = list;
            },
            None => {
                let ghost k = key@;
                let ghost v = value@;
                let mut list: Vec<(String, String)> = Vec::new();
                std::mem::swap(&mut list, &mut self.entries);
                list.push((key, value));
                assert(list@.drop_last() == es);
                assert(distinct_keys(list@)) by {
                    assert forall|a: int, b: int| 0 <= a < b < list@.len() implies (
                    #[trigger] list@[a]).0@ != (#[trigger] list@[b]).0@ by {
                        if b == es.len() {
                            assert(list@[a] == es[a]);
                        } else {
                            assert(list@[a] == es[a]);
                            assert(list@[b] == es[b]);
                        }
                    }
                }
                self.entries = list;
            },
        }
    }
}

} // verus!
