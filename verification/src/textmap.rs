//! A map whose keys are texts.
use crate::text::same_text;
use vstd::prelude::*;

verus! {

/// A map from texts to values.
pub struct TextMap<V> {
    entries: Vec<(String, V)>,
}

/// What a list of entries maps each key to: the value of the last entry with that key.
pub open spec fn map_of<V>(entries: Seq<(String, V)>) -> Map<Seq<char>, V>
    decreases entries.len(),
{
    if entries.len() == 0 {
        Map::empty()
    } else {
        map_of(entries.drop_last()).insert(entries.last().0@, entries.last().1)
    }
}

/// The entries of other keys.
spec fn without<V>(entries: Seq<(String, V)>, key: Seq<char>) -> Seq<(String, V)>
    decreases entries.len(),
{
    if entries.len() == 0 {
        seq![]
    } else if entries.last().0@ == key {
        without(entries.drop_last(), key)
    } else {
        without(entries.drop_last(), key).push(entries.last())
    }
}

proof fn lemma_without<V>(entries: Seq<(String, V)>, key: Seq<char>)
    ensures
        map_of(without(entries, key)) == map_of(entries).remove(key),
    decreases entries.len(),
{
    if entries.len() > 0 {
        lemma_without(entries.drop_last(), key);
        let last = entries.last();
        let rest = without(entries.drop_last(), key);
        if last.0@ != key {
            assert(rest.push(last).drop_last() == rest);
            assert(map_of(rest.push(last)) == map_of(rest).insert(last.0@, last.1));
            assert(map_of(entries.drop_last()).remove(key).insert(last.0@, last.1) == map_of(
                entries,
            ).remove(key));
        } else {
            assert(map_of(entries).remove(key) == map_of(entries.drop_last()).remove(key));
        }
    } else {
        assert(Map::<Seq<char>, V>::empty().remove(key) == Map::<Seq<char>, V>::empty());
    }
}

proof fn lemma_lookup<V>(entries: Seq<(String, V)>, from: int, key: Seq<char>)
    requires
        0 <= from <= entries.len(),
        forall|i: int| from <= i < entries.len() ==> (#[trigger] entries[i]).0@ != key,
    ensures
        map_of(entries).contains_key(key) == map_of(entries.take(from)).contains_key(key),
        map_of(entries).contains_key(key) ==> map_of(entries)[key] == map_of(
            entries.take(from),
        )[key],
    decreases entries.len() - from,
{
    if from < entries.len() {
        let shorter = entries.drop_last();
        assert forall|i: int| from <= i < shorter.len() implies (#[trigger] shorter[i]).0@
            != key by {
            assert(shorter[i] == entries[i]);
        }
        assert(entries[entries.len() - 1].0@ != key);
        lemma_lookup(shorter, from, key);
        assert(shorter.take(from) == entries.take(from));
    } else {
        assert(entries.take(from) == entries);
    }
}

impl<V> View for TextMap<V> {
    type V = Map<Seq<char>, V>;

    closed spec fn view(&self) -> Map<Seq<char>, V> {
        map_of(self.entries@)
    }
}

impl<V> TextMap<V> {
    /// A map without entries.
    pub fn new() -> (map: TextMap<V>)
        ensures
            map@ == Map::<Seq<char>, V>::empty(),
    {
        TextMap { entries: Vec::new() }
    }

    /// The value under a key.
    pub fn get(&self, key: &str) -> (value: Option<&V>)
        ensures
            match value {
                Some(value) => self@.contains_key(key@) && self@[key@] == *value,
                None => !self@.contains_key(key@),
            },
    {
        let mut i: usize = self.entries.len();
        while i > 0
            invariant
                i <= self.entries@.len(),
                forall|k: int|
                    i <= k < self.entries@.len() ==> (#[trigger] self.entries@[k]).0@ != key@,
            decreases i,
        {
            if same_text(self.entries[i - 1].0.as_str(), key) {
                proof {
                    lemma_lookup(self.entries@, i as int, key@);
                    assert(self.entries@.take(i as int).last() == self.entries@[i - 1]);
                }
                return Some(&self.entries[i - 1].1);
            }
            i -= 1;
        }
        proof {
            lemma_lookup(self.entries@, 0, key@);
            assert(self.entries@.take(0) == Seq::<(String, V)>::empty());
        }
        None
    }

    /// Whether there is a value under a key.
    pub fn contains_key(&self, key: &str) -> (found: bool)
        ensures
            found == self@.contains_key(key@),
    {
        self.get(key).is_some()
    }

    /// Takes the value under a key away.
    pub fn remove(&mut self, key: &str)
        ensures
            final(self)@ == old(self)@.remove(key@),
    {
        let ghost before = self.entries@;
        let mut i: usize = 0;
        let ghost mut seen: int = 0;
        proof {
            assert(before.take(0) == Seq::<(String, V)>::empty());
            assert(before.skip(0) == before);
        }
        while i < self.entries.len()
            invariant
                0 <= seen <= before.len(),
                i == without(before.take(seen), key@).len(),
                i <= self.entries@.len(),
                self.entries@.take(i as int) == without(before.take(seen), key@),
                self.entries@.skip(i as int) == before.skip(seen),
            decreases self.entries@.len() - i,
        {
            let ghost now = self.entries@;
            proof {
                assert(now.skip(i as int).len() == before.skip(seen).len());
                assert(before.take(seen + 1).drop_last() == before.take(seen));
                assert(before.take(seen + 1).last() == before[seen]);
                assert(now[i as int] == now.skip(i as int)[0]);
                assert(before.skip(seen)[0] == before[seen]);
            }
            if same_text(self.entries[i].0.as_str(), key) {
                let _ = self.entries.remove(i);
                proof {
                    assert(self.entries@ == now.remove(i as int));
                    assert(self.entries@.take(i as int) == now.take(i as int));
                    let left = self.entries@.skip(i as int);
                    assert forall|k: int| 0 <= k < left.len() implies #[trigger] left[k]
                        == before.skip(seen + 1)[k] by {
                        assert(now.skip(i as int)[k + 1] == before.skip(seen)[k + 1]);
                    }
                    assert(left == before.skip(seen + 1));
                    seen = seen + 1;
                }
            } else {
                proof {
                    assert(now.take(i + 1) == now.take(i as int).push(now[i as int]));
                    let left = now.skip(i + 1);
                    assert forall|k: int| 0 <= k < left.len() implies #[trigger] left[k]
                        == before.skip(seen + 1)[k] by {
                        assert(now.skip(i as int)[k + 1] == before.skip(seen)[k + 1]);
                    }
                    assert(left == before.skip(seen + 1));
                    seen = seen + 1;
                }
                i += 1;
            }
        }
        proof {
            assert(self.entries@.skip(i as int).len() == 0);
            assert(seen == before.len());
            assert(before.take(seen) == before);
            assert(self.entries@.take(i as int) == self.entries@);
            lemma_without(before, key@);
        }
    }

    /// Puts a value under a key, in place of the one that may be there.
    pub fn insert(&mut self, key: String, value: V)
        ensures
            final(self)@ == old(self)@.insert(key@, value),
    {
        self.remove(key.as_str());
        let ghost kept = self.entries@;
        self.entries.push((key, value));
        proof {
            assert(self.entries@.drop_last() == kept);
            assert(old(self)@.remove(key@).insert(key@, value) == old(self)@.insert(key@, value));
        }
    }

    /// Whether there are no entries.
    pub fn is_empty(&self) -> (empty: bool)
        ensures
            empty == (self@ == Map::<Seq<char>, V>::empty()),
    {
        proof {
            if self.entries@.len() > 0 {
                assert(self@.contains_key(self.entries@.last().0@));
            }
        }
        self.entries.len() == 0
    }
}

} // verus!
