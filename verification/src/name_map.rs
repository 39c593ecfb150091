//! A map from names to values.

use vstd::prelude::*;

use crate::api::ast::Type;
use crate::text::{same, Text};

verus! {

/// A map whose keys are texts.
#[derive(Debug, Clone)]
pub struct NameMap<V> {
    entries: Vec<(String, V)>,
}

/// The position of `name` among the keys of `entries[from..]`, or the end.
spec fn position<V>(entries: Seq<(String, V)>, name: Text, from: int) -> int
    decreases entries.len() - from,
{
    if from >= entries.len() || entries[from].0@ == name {
        from
    } else {
        position(entries, name, from + 1)
    }
}

proof fn position_bounds<V>(entries: Seq<(String, V)>, name: Text, from: int)
    requires
        0 <= from <= entries.len(),
    ensures
        from <= position(entries, name, from) <= entries.len(),
        position(entries, name, from) < entries.len() ==> entries[position(
            entries,
            name,
            from,
        )].0@ == name,
        forall|j: int| from <= j < position(entries, name, from) ==> entries[j].0@ != name,
    decreases entries.len() - from,
{
    if from < entries.len() && entries[from].0@ != name {
        position_bounds(entries, name, from + 1);
    }
}

proof fn position_found<V>(entries: Seq<(String, V)>, name: Text, from: int, at: int)
    requires
        0 <= from <= at <= entries.len(),
        at < entries.len() ==> entries[at].0@ == name,
        forall|j: int| from <= j < at ==> (#[trigger] entries[j]).0@ != name,
    ensures
        position(entries, name, from) == at,
    decreases at - from,
{
    if from < at {
        position_found(entries, name, from + 1, at);
    }
}

impl<V> View for NameMap<V> {
    type V = Map<Text, V>;

    closed spec fn view(&self) -> Map<Text, V> {
        let e = self.entries@;
        Map::new(
            |k: Text| position(e, k, 0) < e.len(),
            |k: Text| e[position(e, k, 0)].1,
        )
    }
}

impl<V: DeepView> DeepView for NameMap<V> {
    type V = Map<Text, V::V>;

    open spec fn deep_view(&self) -> Map<Text, V::V> {
        Map::new(|k: Text| self@.contains_key(k), |k: Text| self@[k].deep_view())
    }
}

impl<V> NameMap<V> {
    /// The map without entries.
    pub fn new() -> (r: NameMap<V>)
        ensures
            r@ == Map::<Text, V>::empty(),
    {
        let r = NameMap { entries: Vec::new() };
        proof {
            assert(r@ =~= Map::<Text, V>::empty());
        }
        r
    }

    fn find(&self, name: &str) -> (r: usize)
        ensures
            r == position(self.entries@, name@, 0),
            r <= self.entries@.len(),
    {
        let mut i: usize = 0;
        while i < self.entries.len()
            invariant
                i <= self.entries.len(),
                position(self.entries@, name@, 0) == position(self.entries@, name@, i as int),
            decreases self.entries.len() - i,
        {
            if same(self.entries[i].0.as_str(), name) {
                return i;
            }
            i = i + 1;
        }
        i
    }

    /// The value of `name`, if it has one.
    pub fn get(&self, name: &str) -> (r: Option<&V>)
        ensures
            match r {
                Some(v) => self@.contains_key(name@) && *v == self@[name@],
                None => !self@.contains_key(name@),
            },
    {
        let i = self.find(name);
        if i < self.entries.len() {
            Some(&self.entries[i].1)
        } else {
            None
        }
    }

    /// Whether `name` has a value.
    pub fn contains_key(&self, name: &str) -> (r: bool)
        ensures
            r == self@.contains_key(name@),
    {
        self.find(name) < self.entries.len()
    }

    /// Gives `name` the value `value`.
    pub fn insert(&mut self, name: String, value: V)
        ensures
            final(self)@ == old(self)@.insert(name@, value),
    {
        let i = self.find(name.as_str());
        let ghost before = self.entries@;
        let ghost key = name@;
        proof {
            position_bounds(before, key, 0);
        }
        if i < self.entries.len() {
            self.entries.set(i, (name, value));
        } else {
            self.entries.push((name, value));
        }
        proof {
            let after = self.entries@;
            assert forall|k: Text| #[trigger] self@.contains_key(k) == old(self)@.insert(
                key,
                value,
            ).contains_key(k) && (self@.contains_key(k) ==> self@[k] == old(self)@.insert(
                key,
                value,
            )[k]) by {
                position_bounds(before, k, 0);
                let at = position(before, k, 0);
                if k == key {
                    position_found(after, k, 0, i as int);
                } else if at < before.len() {
                    position_found(after, k, 0, at);
                } else {
                    position_found(after, k, 0, after.len() as int);
                }
            }
            assert(self@ =~= old(self)@.insert(key, value));
        }
    }
}

/// Inserting into a map inserts into its deep view.
pub proof fn insert_deep<V: DeepView>(m: NameMap<V>, n: NameMap<V>, k: Text, v: V)
    requires
        n@ == m@.insert(k, v),
    ensures
        n.deep_view() == m.deep_view().insert(k, v.deep_view()),
{
    assert(n.deep_view() =~= m.deep_view().insert(k, v.deep_view()));
}

proof fn position_same_keys<V, W>(a: Seq<(String, V)>, b: Seq<(String, W)>, name: Text, from: int)
    requires
        a.len() == b.len(),
        forall|i: int| 0 <= i < a.len() ==> (#[trigger] a[i]).0@ == b[i].0@,
        0 <= from,
    ensures
        position(a, name, from) == position(b, name, from),
    decreases a.len() - from,
{
    if from < a.len() {
        assert(a[from].0@ == b[from].0@);
        position_same_keys(a, b, name, from + 1);
    }
}

impl NameMap<Type> {
    /// A copy of a map of types.
    pub fn dup(&self) -> (r: NameMap<Type>)
        ensures
            r.deep_view() == self.deep_view(),
    {
        let mut entries: Vec<(String, Type)> = Vec::new();
        let mut i: usize = 0;
        while i < self.entries.len()
            invariant
                i <= self.entries.len(),
                entries@.len() == i,
                forall|j: int|
                    0 <= j < i ==> (#[trigger] entries@[j]).0@ == self.entries@[j].0@
                        && entries@[j].1.deep_view() == self.entries@[j].1.deep_view(),
            decreases self.entries.len() - i,
        {
            entries.push((self.entries[i].0.clone(), self.entries[i].1.dup()));
            i = i + 1;
        }
        let r = NameMap { entries };
        proof {
            assert forall|k: Text|
                #![trigger r@.contains_key(k)]
                #![trigger self@.contains_key(k)]
                r@.contains_key(k) == self@.contains_key(k) && (r@.contains_key(k)
                    ==> r@[k].deep_view() == self@[k].deep_view()) by {
                position_same_keys(r.entries@, self.entries@, k, 0);
                position_bounds(r.entries@, k, 0);
            }
            assert(r.deep_view() =~= self.deep_view());
        }
        r
    }
}

} // verus!
