//! A map from texts to texts.

use vstd::prelude::*;

use crate::text::text_eq;

verus! {

/// A map from texts to texts. No key occurs twice.
#[derive(Debug)]
pub struct StringMap {
    entries: Vec<(String, String)>,
}

/// Where a key stands in a list of entries.
spec fn holds_at(entries: Seq<(String, String)>, key: Seq<char>, at: int) -> bool {
    0 <= at < entries.len() && entries[at].0@ == key
}

spec fn key_in(entries: Seq<(String, String)>, key: Seq<char>) -> bool {
    exists|at: int| #[trigger] holds_at(entries, key, at)
}

spec fn keys_differ(entries: Seq<(String, String)>) -> bool {
    forall|i: int, j: int|
        0 <= i < j < entries.len() ==> (#[trigger] entries[i]).0@ != (#[trigger] entries[j]).0@
}

spec fn as_map(entries: Seq<(String, String)>) -> Map<Seq<char>, Seq<char>> {
    Map::new(
        |key: Seq<char>| key_in(entries, key),
        |key: Seq<char>| entries[choose|at: int| #[trigger] holds_at(entries, key, at)].1@,
    )
}

impl View for StringMap {
    type V = Map<Seq<char>, Seq<char>>;

    closed spec fn view(&self) -> Map<Seq<char>, Seq<char>> {
        as_map(self.entries@)
    }
}

proof fn lemma_held(entries: Seq<(String, String)>, key: Seq<char>, at: int)
    requires
        keys_differ(entries),
        holds_at(entries, key, at),
    ensures
        as_map(entries).contains_key(key),
        as_map(entries)[key] == entries[at].1@,
{
    let i = choose|i: int| #[trigger] holds_at(entries, key, i);
    if i < at {
        assert(entries[i].0@ != entries[at].0@);
    }
    if at < i {
        assert(entries[at].0@ != entries[i].0@);
    }
}

proof fn lemma_as_map(entries: Seq<(String, String)>, m: Map<Seq<char>, Seq<char>>)
    requires
        keys_differ(entries),
        forall|key: Seq<char>| #[trigger] m.contains_key(key) <==> key_in(entries, key),
        forall|at: int| 0 <= at < entries.len() ==> m[(#[trigger] entries[at]).0@] == entries[at].1@,
    ensures
        as_map(entries) == m,
{
    assert forall|key: Seq<char>| m.contains_key(key) implies #[trigger] as_map(entries)[key]
        == m[key] by {
        let at = choose|at: int| #[trigger] holds_at(entries, key, at);
        lemma_held(entries, key, at);
    }
    assert(as_map(entries) =~= m);
}

impl StringMap {
    #[verifier::type_invariant]
    spec fn well_formed(&self) -> bool {
        keys_differ(self.entries@)
    }

    /// The empty map.
    pub fn new() -> (r: StringMap)
        ensures
            r@ == Map::<Seq<char>, Seq<char>>::empty(),
    {
        let entries: Vec<(String, String)> = Vec::new();
        proof {
            lemma_as_map(entries@, Map::empty());
        }
        StringMap { entries }
    }

    fn find(&self, key: &str) -> (r: Option<usize>)
        ensures
            match r {
                Some(at) => holds_at(self.entries@, key@, at as int),
                None => !key_in(self.entries@, key@),
            },
    {
        let mut i: usize = 0;
        while i < self.entries.len()
            invariant
                i <= self.entries@.len(),
                forall|j: int| 0 <= j < i ==> !holds_at(self.entries@, key@, j),
            decreases self.entries.len() - i,
        {
            if text_eq(self.entries[i].0.as_str(), key) {
                return Some(i);
            }
            i = i + 1;
        }
        None
    }

    /// The value of a key.
    pub fn get(&self, key: &str) -> (r: Option<String>)
        ensures
            match r {
                Some(value) => self@.contains_key(key@) && self@[key@] == value@,
                None => !self@.contains_key(key@),
            },
    {
        proof {
            use_type_invariant(self);
        }
        match self.find(key) {
            Some(at) => {
                proof {
                    lemma_held(self.entries@, key@, at as int);
                }
                Some(self.entries[at].1.clone())
            },
            None => None,
        }
    }

    /// Gives a key a value, in place of the one it had.
    pub fn insert(&mut self, key: String, value: String)
        ensures
            final(self)@ == old(self)@.insert(key@, value@),
    {
        proof {
            use_type_invariant(&*self);
        }
        let ghost before = self.entries@;
        let ghost m = as_map(before).insert(key@, value@);
        let ghost word = key@;
        let ghost given = value@;
        let found: Option<usize> = self.find(key.as_str());
        let mut entries: Vec<(String, String)> = Vec::new();
        std::mem::swap(&mut entries, &mut self.entries);
        match found {
            Some(at) => {
                entries.set(at, (key, value));
                proof {
                    assert forall|i: int, j: int|
                        0 <= i < j < entries@.len() implies (#[trigger] entries@[i]).0@ != (
                    #[trigger] entries@[j]).0@ by {
                        assert(entries@[i].0@ == before[i].0@);
                        assert(entries@[j].0@ == before[j].0@);
                    }
                    assert forall|k: Seq<char>| #[trigger] m.contains_key(k) <==> key_in(
                        entries@,
                        k,
                    ) by {
                        if key_in(before, k) {
                            let i = choose|i: int| #[trigger] holds_at(before, k, i);
                            assert(holds_at(entries@, k, i));
                        }
                        if key_in(entries@, k) {
                            let i = choose|i: int| #[trigger] holds_at(entries@, k, i);
                            assert(holds_at(before, k, i));
                        }
                    }
                    assert forall|i: int| 0 <= i < entries@.len() implies m[(
                    #[trigger] entries@[i]).0@] == entries@[i].1@ by {
                        if i != at {
                            assert(holds_at(before, before[i].0@, i));
                            lemma_held(before, before[i].0@, i);
                            if i < at {
                                assert(before[i].0@ != before[at as int].0@);
                            } else {
                                assert(before[at as int].0@ != before[i].0@);
                            }
                        }
                    }
                    lemma_as_map(entries@, m);
                }
            },
            None => {
                entries.push((key, value));
                proof {
                    let last = before.len() as int;
                    assert forall|i: int, j: int|
                        0 <= i < j < entries@.len() implies (#[trigger] entries@[i]).0@ != (
                    #[trigger] entries@[j]).0@ by {
                        if j == last {
                            assert(holds_at(before, before[i].0@, i));
                        } else {
                            assert(before[i].0@ != before[j].0@);
                        }
                    }
                    assert forall|k: Seq<char>| #[trigger] m.contains_key(k) <==> key_in(
                        entries@,
                        k,
                    ) by {
                        if key_in(before, k) {
                            let i = choose|i: int| #[trigger] holds_at(before, k, i);
                            assert(holds_at(entries@, k, i));
                        }
                        if k == word {
                            assert(holds_at(entries@, k, last));
                        }
                        if key_in(entries@, k) {
                            let i = choose|i: int| #[trigger] holds_at(entries@, k, i);
                            if i < last {
                                assert(holds_at(before, k, i));
                            }
                        }
                    }
                    assert forall|i: int| 0 <= i < entries@.len() implies m[(
                    #[trigger] entries@[i]).0@] == entries@[i].1@ by {
                        if i < last {
                            assert(entries@[i] == before[i]);
                            assert(holds_at(before, before[i].0@, i));
                            lemma_held(before, before[i].0@, i);
                        }
                    }
                    lemma_as_map(entries@, m);
                }
            },
        }
        self.entries = entries;
    }

    /// Takes every key out.
    pub fn clear(&mut self)
        ensures
            final(self)@ == Map::<Seq<char>, Seq<char>>::empty(),
    {
        let mut entries: Vec<(String, String)> = Vec::new();
        proof {
            lemma_as_map(entries@, Map::empty());
        }
        self.entries = entries;
    }

    /// The keys with their values, each key once.
    pub fn pairs(&self) -> (r: Vec<(String, String)>)
        ensures
            forall|i: int, j: int|
                0 <= i < j < r@.len() ==> (#[trigger] r@[i]).0@ != (#[trigger] r@[j]).0@,
            forall|i: int|
                0 <= i < r@.len() ==> self@.contains_key((#[trigger] r@[i]).0@) && self@[r@[i].0@]
                    == r@[i].1@,
            forall|key: Seq<char>| #[trigger]
                self@.contains_key(key) ==> exists|i: int|
                    0 <= i < r@.len() && (#[trigger] r@[i]).0@ == key,
    {
        proof {
            use_type_invariant(self);
        }
        let mut out: Vec<(String, String)> = Vec::new();
        let mut i: usize = 0;
        while i < self.entries.len()
            invariant
                i <= self.entries@.len(),
                out@.len() == i,
                forall|j: int|
                    0 <= j < i ==> (#[trigger] out@[j]).0@ == self.entries@[j].0@ && out@[j].1@
                        == self.entries@[j].1@,
            decreases self.entries.len() - i,
        {
            out.push((self.entries[i].0.clone(), self.entries[i].1.clone()));
            i = i + 1;
        }
        proof {
            assert forall|a: int, b: int| 0 <= a < b < out@.len() implies (#[trigger] out@[a]).0@
                != (#[trigger] out@[b]).0@ by {
                assert(self.entries@[a].0@ != self.entries@[b].0@);
            }
            assert forall|a: int| 0 <= a < out@.len() implies self@.contains_key(
                (#[trigger] out@[a]).0@,
            ) && self@[out@[a].0@] == out@[a].1@ by {
                assert(holds_at(self.entries@, out@[a].0@, a));
                lemma_held(self.entries@, out@[a].0@, a);
            }
            assert forall|key: Seq<char>| #[trigger] self@.contains_key(key) implies exists|a: int|
                0 <= a < out@.len() && (#[trigger] out@[a]).0@ == key by {
                let a = choose|a: int| #[trigger] holds_at(self.entries@, key, a);
                assert(out@[a].0@ == key);
            }
        }
        out
    }
}

impl Clone for StringMap {
    fn clone(&self) -> (r: StringMap)
        ensures
            r@ == self@,
    {
        proof {
            use_type_invariant(self);
        }
        let entries = self.pairs();
        proof {
            assert forall|key: Seq<char>| #[trigger] self@.contains_key(key) <==> key_in(
                entries@,
                key,
            ) by {
                if self@.contains_key(key) {
                    let a = choose|a: int| 0 <= a < entries@.len() && (#[trigger] entries@[a]).0@
                        == key;
                    assert(holds_at(entries@, key, a));
                }
                if key_in(entries@, key) {
                    let a = choose|a: int| #[trigger] holds_at(entries@, key, a);
                    assert(entries@[a].0@ == key);
                }
            }
            lemma_as_map(entries@, self@);
        }
        StringMap { entries }
    }
}

}
