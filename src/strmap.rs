//! A map from strings to strings with unique keys, kept in insertion order.
use vstd::prelude::*;

use crate::text::{chars_eq, chars_of};

verus! {

/// The map that the pairs give when they are inserted one after another:
/// a later pair replaces an earlier one with the same key.
pub open spec fn map_of(e: Seq<(Seq<char>, Seq<char>)>) -> Map<Seq<char>, Seq<char>>
    decreases e.len(),
{
    if e.len() == 0 {
        Map::empty()
    } else {
        map_of(e.drop_last()).insert(e.last().0, e.last().1)
    }
}

/// No key stands twice.
pub open spec fn unique_keys(e: Seq<(Seq<char>, Seq<char>)>) -> bool {
    forall|i: int, j: int| 0 <= i < j < e.len() ==> #[trigger] e[i].0 != #[trigger] e[j].0
}

pub proof fn lemma_map_of_dom(e: Seq<(Seq<char>, Seq<char>)>, k: Seq<char>)
    ensures
        map_of(e).dom().contains(k) <==> exists|i: int| 0 <= i < e.len() && #[trigger] e[i].0 == k,
    decreases e.len(),
{
    if e.len() > 0 {
        lemma_map_of_dom(e.drop_last(), k);
        if exists|i: int| 0 <= i < e.len() && #[trigger] e[i].0 == k {
            let i = choose|i: int| 0 <= i < e.len() && #[trigger] e[i].0 == k;
            if i < e.len() - 1 {
                assert(e.drop_last()[i].0 == k);
            }
        }
        if map_of(e.drop_last()).dom().contains(k) {
            let i = choose|i: int| 0 <= i < e.len() - 1 && #[trigger] e.drop_last()[i].0 == k;
            assert(e[i].0 == k);
        }
    }
}

pub proof fn lemma_map_of_value(e: Seq<(Seq<char>, Seq<char>)>, i: int)
    requires
        unique_keys(e),
        0 <= i < e.len(),
    ensures
        map_of(e).dom().contains(e[i].0),
        map_of(e)[e[i].0] == e[i].1,
    decreases e.len(),
{
    if i < e.len() - 1 {
        let d = e.drop_last();
        assert(d[i] == e[i]);
        assert(unique_keys(d)) by {
            assert forall|a: int, b: int| 0 <= a < b < d.len() implies #[trigger] d[a].0
                != #[trigger] d[b].0 by {
                assert(d[a] == e[a] && d[b] == e[b]);
            }
        }
        lemma_map_of_value(d, i);
        assert(e[i].0 != e.last().0);
    }
}

pub proof fn lemma_map_of_update(e: Seq<(Seq<char>, Seq<char>)>, i: int, v: Seq<char>)
    requires
        unique_keys(e),
        0 <= i < e.len(),
    ensures
        unique_keys(e.update(i, (e[i].0, v))),
        map_of(e.update(i, (e[i].0, v))) == map_of(e).insert(e[i].0, v),
{
    let f = e.update(i, (e[i].0, v));
    assert(unique_keys(f)) by {
        assert forall|a: int, b: int| 0 <= a < b < f.len() implies #[trigger] f[a].0
            != #[trigger] f[b].0 by {
            assert(f[a].0 == e[a].0 && f[b].0 == e[b].0);
        }
    }
    let m = map_of(e).insert(e[i].0, v);
    assert forall|k: Seq<char>| #[trigger] map_of(f).dom().contains(k) <==> m.dom().contains(k) by {
        lemma_map_of_dom(f, k);
        lemma_map_of_dom(e, k);
        if exists|j: int| 0 <= j < e.len() && #[trigger] e[j].0 == k {
            let j = choose|j: int| 0 <= j < e.len() && #[trigger] e[j].0 == k;
            assert(f[j].0 == k);
        }
        if exists|j: int| 0 <= j < f.len() && #[trigger] f[j].0 == k {
            let j = choose|j: int| 0 <= j < f.len() && #[trigger] f[j].0 == k;
            assert(e[j].0 == k);
        }
    }
    assert forall|k: Seq<char>| #[trigger] map_of(f).dom().contains(k) implies map_of(f)[k]
        == m[k] by {
        lemma_map_of_dom(f, k);
        let j = choose|j: int| 0 <= j < f.len() && #[trigger] f[j].0 == k;
        lemma_map_of_value(f, j);
        if j != i {
            assert(f[j] == e[j]);
            lemma_map_of_value(e, j);
        }
    }
    assert(map_of(f) =~= m);
}

/// Pairs of strings with unique keys, in the order the keys were first inserted.
#[derive(Debug)]
pub struct StrMap {
    entries: Vec<(String, String)>,
}

impl View for StrMap {
    type V = Map<Seq<char>, Seq<char>>;

    open spec fn view(&self) -> Map<Seq<char>, Seq<char>> {
        map_of(self.pairs())
    }
}

impl StrMap {
    /// The pairs as character sequences.
    pub closed spec fn pairs(&self) -> Seq<(Seq<char>, Seq<char>)> {
        self.entries@.map_values(|p: (String, String)| (p.0@, p.1@))
    }

    #[verifier::type_invariant]
    closed spec fn inv(&self) -> bool {
        unique_keys(self.pairs())
    }

    /// An empty map.
    pub fn new() -> (r: StrMap)
        ensures
            r@ == Map::<Seq<char>, Seq<char>>::empty(),
    {
        let r = StrMap { entries: Vec::new() };
        assert(r.pairs() =~= Seq::empty());
        r
    }

    /// The number of keys.
    pub fn len(&self) -> (r: usize)
        ensures
            r == self@.dom().len(),
    {
        proof {
            use_type_invariant(self);
            self.lemma_len();
        }
        self.entries.len()
    }

    proof fn lemma_len(&self)
        requires
            unique_keys(self.pairs()),
        ensures
            self@.dom().len() == self.entries@.len(),
    {
        let e = self.pairs();
        lemma_unique_len(e);
    }

    /// The index of the pair whose key is `key`.
    fn position(&self, key: &Vec<char>) -> (r: Option<usize>)
        ensures
            r is None ==> !self@.dom().contains(key@),
            r is Some ==> r->0 < self.pairs().len() && self.pairs()[r->0 as int].0 == key@,
    {
        let mut i: usize = 0;
        while i < self.entries.len()
            invariant
                i <= self.entries@.len(),
                forall|j: int| 0 <= j < i ==> self.pairs()[j].0 != key@,
            decreases self.entries.len() - i,
        {
            let k = chars_of(self.entries[i].0.as_str());
            if chars_eq(&k, key) {
                return Some(i);
            }
            i = i + 1;
        }
        proof {
            lemma_map_of_dom(self.pairs(), key@);
        }
        None
    }

    /// The value stored under `key`.
    pub fn get(&self, key: &str) -> (r: Option<&String>)
        ensures
            r is Some <==> self@.dom().contains(key@),
            r is Some ==> r->0@ == self@[key@],
    {
        proof {
            use_type_invariant(self);
        }
        let k = chars_of(key);
        match self.position(&k) {
            Some(i) => {
                proof {
                    lemma_map_of_value(self.pairs(), i as int);
                }
                Some(&self.entries[i].1)
            },
            None => None,
        }
    }

    /// Stores `value` under `key`, replacing what was there.
    pub fn insert(&mut self, key: String, value: String)
        ensures
            final(self)@ == old(self)@.insert(key@, value@),
    {
        proof {
            use_type_invariant(&*self);
        }
        let k = chars_of(key.as_str());
        let found = self.position(&k);
        let ghost e = self.pairs();
        let mut taken = StrMap::new();
        core::mem::swap(self, &mut taken);
        let mut es = taken.entries;
        assert(es@.map_values(|p: (String, String)| (p.0@, p.1@)) == e);
        match found {
            Some(i) => {
                proof {
                    lemma_map_of_update(e, i as int, value@);
                }
                let old_key = es[i].0.clone();
                es.set(i, (old_key, value));
                proof {
                    assert(es@.map_values(|p: (String, String)| (p.0@, p.1@)) =~= e.update(
                        i as int,
                        (e[i as int].0, value@),
                    ));
                }
                *self = StrMap { entries: es };
            },
            None => {
                es.push((key, value));
                proof {
                    let f = es@.map_values(|p: (String, String)| (p.0@, p.1@));
                    assert(f =~= e.push((key@, value@)));
                    assert(f.drop_last() =~= e);
                    assert forall|a: int, b: int|
                        0 <= a < b < f.len() implies #[trigger] f[a].0 != #[trigger] f[b].0 by {
                        if b == e.len() {
                            lemma_map_of_dom(e, key@);
                            assert(e[a].0 == f[a].0);
                        }
                    }
                }
                *self = StrMap { entries: es };
            },
        }
    }

    /// The pairs, in the order their keys were first inserted.
    pub fn entries(&self) -> (r: &Vec<(String, String)>)
        ensures
            r@.map_values(|p: (String, String)| (p.0@, p.1@)) == self.pairs(),
    {
        &self.entries
    }
}

pub proof fn lemma_unique_len(e: Seq<(Seq<char>, Seq<char>)>)
    requires
        unique_keys(e),
    ensures
        map_of(e).dom().len() == e.len(),
        map_of(e).dom().finite(),
    decreases e.len(),
{
    if e.len() > 0 {
        let d = e.drop_last();
        assert(unique_keys(d)) by {
            assert forall|a: int, b: int| 0 <= a < b < d.len() implies #[trigger] d[a].0
                != #[trigger] d[b].0 by {
                assert(d[a] == e[a] && d[b] == e[b]);
            }
        }
        lemma_unique_len(d);
        lemma_map_of_dom(d, e.last().0);
        if map_of(d).dom().contains(e.last().0) {
            let i = choose|i: int| 0 <= i < d.len() && #[trigger] d[i].0 == e.last().0;
            assert(e[i].0 == e[e.len() - 1].0);
        }
    }
}

} // verus!
