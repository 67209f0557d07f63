//! A name-to-value mapping with exact insertion semantics: the view is a
//! mathematical map from names to values, later insertions winning.

use vstd::prelude::*;
use vstd::string::StringExecFns;

use crate::value::{Value, ValueV};

verus! {

/// The map an entry list denotes: entries applied in order, later ones
/// overriding earlier ones.
pub open spec fn sp_entries_map(es: Seq<(String, Value)>) -> Map<Seq<char>, ValueV>
    decreases es.len(),
{
    if es.len() == 0 {
        Map::<Seq<char>, ValueV>::empty()
    } else {
        sp_entries_map(es.drop_last()).insert(es.last().0@, es.last().1@)
    }
}

/// A mapping from field names to values.
#[derive(Debug)]
pub struct ValueMap {
    entries: Vec<(String, Value)>,
}

impl View for ValueMap {
    type V = Map<Seq<char>, ValueV>;

    closed spec fn view(&self) -> Map<Seq<char>, ValueV> {
        sp_entries_map(self.entries@)
    }
}

impl ValueMap {
    /// An empty mapping.
    pub fn new() -> (r: Self)
        ensures
            r@ == Map::<Seq<char>, ValueV>::empty(),
    {
        ValueMap { entries: Vec::new() }
    }

    /// Bind `name` to `value`, replacing any earlier binding.
    pub fn insert(&mut self, name: String, value: Value)
        ensures
            final(self)@ == old(self)@.insert(name@, value@),
    {
        self.entries.push((name, value));
        proof {
            assert(final(self).entries@.drop_last() =~= old(self).entries@);
        }
    }

    /// The value bound to `name`, if any.
    #[verifier::loop_isolation(false)]
    pub fn get(&self, name: &str) -> (r: Option<&Value>)
        ensures
            (match r {
                Some(v) => self@.contains_key(name@) && v@ == self@[name@],
                None => !self@.contains_key(name@),
            }),
    {
        let mut i = self.entries.len();
        proof {
            assert(self.entries@.take(self.entries@.len() as int) =~= self.entries@);
        }
        while i > 0
            invariant
                i <= self.entries@.len(),
                self@.contains_key(name@) == sp_entries_map(self.entries@.take(i as int)).contains_key(
                    name@,
                ),
                self@.contains_key(name@) ==> self@[name@] == sp_entries_map(
                    self.entries@.take(i as int),
                )[name@],
            decreases i,
        {
            i = i - 1;
            let entry_name: &String = &self.entries[i].0;
            if crate::text::str_eq(entry_name.as_str(), name) {
                proof {
                    assert(self.entries@.take(i as int + 1).drop_last() =~= self.entries@.take(
                        i as int,
                    ));
                    assert(self.entries@.take(i as int + 1).last() == self.entries@[i as int]);
                }
                return Some(&self.entries[i].1);
            }
            proof {
                assert(self.entries@.take(i as int + 1).drop_last() =~= self.entries@.take(
                    i as int,
                ));
            }
        }
        proof {
            assert(self.entries@.take(0) =~= Seq::<(String, Value)>::empty());
        }
        None
    }

    /// Whether `name` is bound.
    pub fn contains(&self, name: &str) -> (r: bool)
        ensures
            r == self@.contains_key(name@),
    {
        match self.get(name) {
            Some(_) => true,
            None => false,
        }
    }
}

impl Clone for ValueMap {
    /// A copy denoting the same mapping.
    fn clone(&self) -> (r: Self)
        ensures
            r@ == self@,
    {
        let mut entries: Vec<(String, Value)> = Vec::new();
        let mut i: usize = 0;
        while i < self.entries.len()
            invariant
                i <= self.entries@.len(),
                entries@.len() == i,
                forall|t: int|
                    0 <= t < i ==> entries@[t].0@ == self.entries@[t].0@ && entries@[t].1@
                        == self.entries@[t].1@,
            decreases self.entries@.len() - i,
        {
            let name = self.entries[i].0.clone();
            let value = self.entries[i].1.clone();
            entries.push((name, value));
            i = i + 1;
        }
        let r = ValueMap { entries };
        proof {
            lemma_entries_map_congruent(r.entries@, self.entries@);
        }
        r
    }
}

/// Entry lists equal name-by-name and value-by-value denote the same
/// map.
proof fn lemma_entries_map_congruent(a: Seq<(String, Value)>, b: Seq<(String, Value)>)
    requires
        a.len() == b.len(),
        forall|t: int| 0 <= t < a.len() ==> a[t].0@ == b[t].0@ && a[t].1@ == b[t].1@,
    ensures
        sp_entries_map(a) == sp_entries_map(b),
    decreases a.len(),
{
    if a.len() > 0 {
        assert(forall|t: int|
            0 <= t < a.drop_last().len() ==> a.drop_last()[t].0@ == b.drop_last()[t].0@
                && a.drop_last()[t].1@ == b.drop_last()[t].1@);
        lemma_entries_map_congruent(a.drop_last(), b.drop_last());
    }
}

} // verus!
