//! A map from texts to texts.
use vstd::prelude::*;
use vstd::string::*;

use crate::text;

verus! {

/// A map from texts to texts. No key stands in it twice.
#[derive(Debug)]
pub struct TextMap {
    entries: Vec<(String, String)>,
}

spec fn pairs(e: Seq<(String, String)>) -> Seq<(Seq<char>, Seq<char>)> {
    e.map_values(|p: (String, String)| (p.0@, p.1@))
}

spec fn distinct(p: Seq<(Seq<char>, Seq<char>)>) -> bool {
    forall|i: int, j: int| 0 <= i < j < p.len() ==> (#[trigger] p[i]).0 != (#[trigger] p[j]).0
}

/// The map that the entries stand for.
spec fn map_of(p: Seq<(Seq<char>, Seq<char>)>) -> Map<Seq<char>, Seq<char>>
    decreases p.len(),
{
    if p.len() == 0 {
        Map::empty()
    } else {
        map_of(p.drop_last()).insert(p.last().0, p.last().1)
    }
}

proof fn lemma_map_of(p: Seq<(Seq<char>, Seq<char>)>)
    requires
        distinct(p),
    ensures
        forall|i: int|
            0 <= i < p.len() ==> map_of(p).contains_key((#[trigger] p[i]).0) && map_of(p)[p[i].0]
                == p[i].1,
        forall|k: Seq<char>| #[trigger]
            map_of(p).contains_key(k) ==> exists|i: int| 0 <= i < p.len() && (#[trigger] p[i]).0 == k,
    decreases p.len(),
{
    if p.len() > 0 {
        let q = p.drop_last();
        assert forall|i: int, j: int| 0 <= i < j < q.len() implies (#[trigger] q[i]).0 != (
        #[trigger] q[j]).0 by {
            assert(p[i].0 != p[j].0);
        }
        lemma_map_of(q);
        assert forall|i: int| 0 <= i < p.len() implies map_of(p).contains_key((#[trigger] p[i]).0)
            && map_of(p)[p[i].0] == p[i].1 by {
            if i < q.len() {
                assert(q[i] == p[i]);
                assert(p[i].0 != p[p.len() - 1].0);
            }
        }
        assert forall|k: Seq<char>| #[trigger] map_of(p).contains_key(k) implies exists|i: int|
            0 <= i < p.len() && (#[trigger] p[i]).0 == k by {
            if k == p.last().0 {
                assert(p[p.len() - 1].0 == k);
            } else {
                assert(map_of(q).contains_key(k));
                let i = choose|i: int| 0 <= i < q.len() && (#[trigger] q[i]).0 == k;
                assert(p[i].0 == k);
            }
        }
    }
}

impl View for TextMap {
    type V = Map<Seq<char>, Seq<char>>;

    closed spec fn view(&self) -> Map<Seq<char>, Seq<char>> {
        map_of(pairs(self.entries@))
    }
}

impl TextMap {
    #[verifier::type_invariant]
    spec fn no_key_twice(self) -> bool {
        distinct(pairs(self.entries@))
    }

    /// A map without entries.
    pub fn new() -> (r: TextMap)
        ensures
            r@ == Map::<Seq<char>, Seq<char>>::empty(),
    {
        let entries: Vec<(String, String)> = Vec::new();
        TextMap { entries }
    }

    fn find(&self, key: &str) -> (r: Option<usize>)
        ensures
            match r {
                Some(i) => i < self.entries@.len() && self.entries@[i as int].0@ == key@
                    && self@.contains_key(key@) && self@[key@] == self.entries@[i as int].1@,
                None => !self@.contains_key(key@) && forall|i: int|
                    0 <= i < self.entries@.len() ==> (#[trigger] self.entries@[i]).0@ != key@,
            },
    {
        proof {
            use_type_invariant(self);
            lemma_map_of(pairs(self.entries@));
        }
        let n: usize = self.entries.len();
        let mut i: usize = 0;
        while i < n
            invariant
                n == self.entries@.len(),
                i <= n,
                distinct(pairs(self.entries@)),
                forall|k: int| 0 <= k < i ==> (#[trigger] self.entries@[k]).0@ != key@,
            decreases n - i,
        {
            if text::same_text(self.entries[i].0.as_str(), key) {
                proof {
                    lemma_map_of(pairs(self.entries@));
                    assert(pairs(self.entries@)[i as int] == (
                        self.entries@[i as int].0@,
                        self.entries@[i as int].1@,
                    ));
                }
                return Some(i);
            }
            i += 1;
        }
        proof {
            if self@.contains_key(key@) {
                let p = pairs(self.entries@);
                let k = choose|k: int| 0 <= k < p.len() && (#[trigger] p[k]).0 == key@;
                assert(self.entries@[k].0@ == key@);
            }
        }
        None
    }

    /// The value of `key`, where there is one.
    pub fn get(&self, key: &str) -> (r: Option<String>)
        ensures
            match r {
                Some(v) => self@.contains_key(key@) && self@[key@] == v@,
                None => !self@.contains_key(key@),
            },
    {
        match self.find(key) {
            Some(i) => Some(self.entries[i].1.clone()),
            None => None,
        }
    }

    /// Sets the value of `key`.
    pub fn insert(&mut self, key: String, value: String)
        ensures
            final(self)@ == old(self)@.insert(key@, value@),
    {
        let ghost before = pairs(self.entries@);
        proof {
            use_type_invariant(&*self);
        }
        let found = self.find(key.as_str());
        let mut entries: Vec<(String, String)> = Vec::new();
        std::mem::swap(&mut entries, &mut self.entries);
        match found {
            Some(i) => {
                entries.set(i, (key, value));
                proof {
                    let p = pairs(entries@);
                    assert(before[i as int].0 == key@);
                    assert(p =~= before.update(i as int, (key@, value@)));
                    assert forall|a: int, b: int| 0 <= a < b < p.len() implies (#[trigger] p[a]).0
                        != (#[trigger] p[b]).0 by {
                        assert(p[a].0 == before[a].0);
                        assert(p[b].0 == before[b].0);
                    }
                    lemma_map_of(p);
                    lemma_map_of(before);
                    let m = map_of(before).insert(key@, value@);
                    assert forall|k: Seq<char>|
                        map_of(p).contains_key(k) == m.contains_key(k) by {
                        if map_of(p).contains_key(k) {
                            let j = choose|j: int| 0 <= j < p.len() && (#[trigger] p[j]).0 == k;
                            assert(before[j].0 == k);
                        }
                        if m.contains_key(k) {
                            if k == key@ {
                                assert(p[i as int].0 == k);
                            } else {
                                let j = choose|j: int|
                                    0 <= j < before.len() && (#[trigger] before[j]).0 == k;
                                assert(p[j].0 == k);
                            }
                        }
                    }
                    assert forall|k: Seq<char>| #[trigger] m.contains_key(k) implies map_of(p)[k]
                        == m[k] by {
                        assert(map_of(p).contains_key(k));
                        let j = choose|j: int| 0 <= j < p.len() && (#[trigger] p[j]).0 == k;
                        assert(before[j].0 == k);
                        if j != i {
                            assert(p[i as int].0 != p[j].0);
                        }
                    }
                    assert(map_of(p) =~= m);
                }
            },
            None => {
                entries.push((key, value));
                proof {
                    let p = pairs(entries@);
                    assert(p =~= before.push((key@, value@)));
                    assert(p.drop_last() =~= before);
                    assert forall|a: int, b: int| 0 <= a < b < p.len() implies (#[trigger] p[a]).0
                        != (#[trigger] p[b]).0 by {
                        assert(p[a] == before[a]);
                        assert(entries@[a].0@ == p[a].0);
                    }
                }
            },
        }
        self.entries = entries;
    }

    /// Sets the value of `key` where it has none.
    pub fn insert_missing(&mut self, key: &str, value: String)
        ensures
            final(self)@ == (if old(self)@.contains_key(key@) {
                old(self)@
            } else {
                old(self)@.insert(key@, value@)
            }),
    {
        if self.find(key).is_none() {
            self.insert(String::from_str(key), value);
        }
    }

    /// Sets every key that `other` has to its value there.
    pub fn extend(&mut self, other: &TextMap)
        ensures
            final(self)@ == old(self)@.union_prefer_right(other@),
    {
        proof {
            use_type_invariant(other);
        }
        let ghost p = pairs(other.entries@);
        let ghost start = self@;
        let n: usize = other.entries.len();
        let mut i: usize = 0;
        proof {
            assert(p.take(0) =~= Seq::empty());
            assert(self@ =~= start.union_prefer_right(map_of(p.take(0))));
        }
        while i < n
            invariant
                n == other.entries@.len(),
                i <= n,
                p == pairs(other.entries@),
                self@ == start.union_prefer_right(map_of(p.take(i as int))),
            decreases n - i,
        {
            let ghost held = self@;
            self.insert(other.entries[i].0.clone(), other.entries[i].1.clone());
            proof {
                assert(p.take(i + 1).drop_last() =~= p.take(i as int));
                assert(p.take(i + 1).last() == p[i as int]);
                assert(self@ =~= start.union_prefer_right(map_of(p.take(i + 1))));
            }
            i += 1;
        }
        proof {
            assert(p.take(i as int) =~= p);
        }
    }
}

} // verus!
