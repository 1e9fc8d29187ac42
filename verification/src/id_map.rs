//! A map from string identifiers to values, kept as a list of entries.
use vstd::prelude::*;
use crate::text::same_text;

verus! {

/// The map that a list of entries stands for: a later entry for a key
/// replaces an earlier one.
pub open spec fn entries_map<V>(s: Seq<(String, V)>) -> Map<Seq<char>, V>
    decreases s.len(),
{
    if s.len() == 0 {
        Map::empty()
    } else {
        entries_map(s.drop_last()).insert(s.last().0@, s.last().1)
    }
}

/// Details of objects by their identifier.
#[derive(Clone, PartialEq, Debug)]
pub struct IdMap<V> {
    pub entries: Vec<(String, V)>,
}

impl<V> View for IdMap<V> {
    type V = Map<Seq<char>, V>;

    open spec fn view(&self) -> Map<Seq<char>, V> {
        entries_map(self.entries@)
    }
}

proof fn lemma_take_push<A>(s: Seq<A>, j: int)
    requires
        0 <= j < s.len(),
    ensures
        s.take(j + 1).drop_last() == s.take(j),
        s.take(j + 1).last() == s[j],
{
    assert(s.take(j + 1).drop_last() =~= s.take(j));
}

impl<V> IdMap<V> {
    /// An empty map.
    pub fn new() -> (r: Self)
        ensures
            r@ == Map::<Seq<char>, V>::empty(),
    {
        IdMap { entries: Vec::new() }
    }

    /// The value for `key`, if there is one.
    pub fn get(&self, key: &str) -> (r: Option<&V>)
        ensures
            match r {
                Some(v) => self@.contains_key(key@) && *v == self@[key@],
                None => !self@.contains_key(key@),
            },
    {
        let mut found: Option<&V> = None;
        let mut i: usize = 0;
        while i < self.entries.len()
            invariant
                i <= self.entries.len(),
                match found {
                    Some(v) => entries_map(self.entries@.take(i as int)).contains_key(key@) && *v
                        == entries_map(self.entries@.take(i as int))[key@],
                    None => !entries_map(self.entries@.take(i as int)).contains_key(key@),
                },
            decreases self.entries.len() - i,
        {
            proof {
                lemma_take_push(self.entries@, i as int);
            }
            if same_text(self.entries[i].0.as_str(), key) {
                found = Some(&self.entries[i].1);
            }
            i = i + 1;
        }
        assert(self.entries@.take(self.entries.len() as int) =~= self.entries@);
        found
    }

    /// Whether there is a value for `key`.
    pub fn contains_key(&self, key: &str) -> (r: bool)
        ensures
            r == self@.contains_key(key@),
    {
        self.get(key).is_some()
    }

    /// Removes the value for `key`, handing it back.
    pub fn remove(&mut self, key: &str) -> (r: Option<V>)
        ensures
            final(self)@ == old(self)@.remove(key@),
            match r {
                Some(v) => old(self)@.contains_key(key@) && v == old(self)@[key@],
                None => !old(self)@.contains_key(key@),
            },
    {
        let ghost orig = self.entries@;
        let mut rest: Vec<(String, V)> = Vec::new();
        std::mem::swap(&mut rest, &mut self.entries);
        let mut removed: Option<V> = None;
        let ghost mut j: int = 0;
        assert(rest@ =~= orig.skip(0));
        while rest.len() > 0
            invariant
                0 <= j <= orig.len(),
                rest@ == orig.skip(j),
                entries_map(self.entries@) == entries_map(orig.take(j)).remove(key@),
                match removed {
                    Some(v) => entries_map(orig.take(j)).contains_key(key@) && v == entries_map(
                        orig.take(j),
                    )[key@],
                    None => !entries_map(orig.take(j)).contains_key(key@),
                },
            decreases rest.len(),
        {
            proof {
                lemma_take_push(orig, j);
            }
            let e = rest.remove(0);
            let (k, v) = e;
            if same_text(k.as_str(), key) {
                removed = Some(v);
                proof {
                    assert(entries_map(self.entries@) =~= entries_map(orig.take(j + 1)).remove(
                        key@,
                    ));
                }
            } else {
                let ghost before = self.entries@;
                self.entries.push((k, v));
                proof {
                    assert(self.entries@.drop_last() =~= before);
                    assert(entries_map(self.entries@) =~= entries_map(orig.take(j + 1)).remove(
                        key@,
                    ));
                }
            }
            proof {
                assert(rest@ =~= orig.skip(j + 1));
                j = j + 1;
            }
        }
        assert(orig.take(j) =~= orig);
        removed
    }

    /// Sets the value for `key`, replacing any earlier value.
    pub fn insert(&mut self, key: String, value: V)
        ensures
            final(self)@ == old(self)@.insert(key@, value),
    {
        self.remove(key.as_str());
        let ghost before = self.entries@;
        self.entries.push((key, value));
        assert(self.entries@.drop_last() =~= before);
        assert(self@ =~= old(self)@.insert(key@, value));
    }

    /// Removes every entry.
    pub fn clear(&mut self)
        ensures
            final(self)@ == Map::<Seq<char>, V>::empty(),
    {
        self.entries.clear();
    }
}

} // verus!
