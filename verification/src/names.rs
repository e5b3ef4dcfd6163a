//! Maps keyed by name.
//!
//! Names are compared by their characters. A map keeps its entries in a
//! vector in which no name occurs twice, and is viewed as the mathematical
//! map from names to values.

use vstd::prelude::*;

verus! {

/// One entry of a [`NameMap`].
#[derive(Debug)]
pub struct NameEntry<V> {
    pub name: String,
    pub value: V,
}

/// Whether some entry of `s` carries `name`.
pub open spec fn has_name<V>(s: Seq<NameEntry<V>>, name: Seq<char>) -> bool {
    exists|i: int| 0 <= i < s.len() && (#[trigger] s[i]).name@ == name
}

/// The position of an entry of `s` that carries `name`.
pub open spec fn position_of<V>(s: Seq<NameEntry<V>>, name: Seq<char>) -> int {
    choose|i: int| 0 <= i < s.len() && (#[trigger] s[i]).name@ == name
}

/// No name occurs twice in `s`.
pub open spec fn distinct_names<V>(s: Seq<NameEntry<V>>) -> bool {
    forall|i: int, j: int|
        0 <= i < j < s.len() ==> (#[trigger] s[i]).name@ != (#[trigger] s[j]).name@
}

/// The map that a sequence of entries stands for.
pub open spec fn entries_map<V>(s: Seq<NameEntry<V>>) -> Map<Seq<char>, V> {
    Map::new(|name: Seq<char>| has_name(s, name), |name: Seq<char>| s[position_of(s, name)].value)
}

/// In a sequence without repeated names, the entry at `i` is what its name maps to.
pub proof fn lemma_entry_at<V>(s: Seq<NameEntry<V>>, i: int)
    requires
        distinct_names(s),
        0 <= i < s.len(),
    ensures
        entries_map(s).contains_key(s[i].name@),
        entries_map(s)[s[i].name@] == s[i].value,
        position_of(s, s[i].name@) == i,
{
    let name = s[i].name@;
    assert(has_name(s, name));
    let p = position_of(s, name);
    assert(0 <= p < s.len() && s[p].name@ == name);
    if p < i {
        assert(s[p].name@ != s[i].name@);
    } else if i < p {
        assert(s[i].name@ != s[p].name@);
    }
}

/// Appending an entry under a new name inserts it into the map.
pub proof fn lemma_push_entry<V>(s: Seq<NameEntry<V>>, e: NameEntry<V>)
    requires
        distinct_names(s),
        !has_name(s, e.name@),
    ensures
        distinct_names(s.push(e)),
        entries_map(s.push(e)) =~= entries_map(s).insert(e.name@, e.value),
{
    let t = s.push(e);
    assert forall|i: int, j: int| 0 <= i < j < t.len() implies (#[trigger] t[i]).name@ != (
    #[trigger] t[j]).name@ by {
        if j < s.len() {
            assert(s[i].name@ != s[j].name@);
        } else {
            assert(t[i] == s[i]);
        }
    }
    assert forall|name: Seq<char>| has_name(t, name) <==> (has_name(s, name) || name
        == e.name@) by {
        if has_name(s, name) {
            let p = position_of(s, name);
            assert(t[p].name@ == name);
        }
        if name == e.name@ {
            assert(t[s.len() as int].name@ == name);
        }
        if has_name(t, name) {
            let p = position_of(t, name);
            if p < s.len() {
                assert(s[p].name@ == name);
            }
        }
    }
    assert forall|name: Seq<char>| has_name(t, name) implies entries_map(t)[name] == entries_map(
        s,
    ).insert(e.name@, e.value)[name] by {
        if name == e.name@ {
            lemma_entry_at(t, s.len() as int);
        } else {
            let p = position_of(s, name);
            assert(t[p] == s[p]);
            lemma_entry_at(t, p);
            lemma_entry_at(s, p);
        }
    }
}

/// Moving the last entry into position `i` and dropping the last removes the
/// name that stood at `i`.
pub proof fn lemma_swap_remove_entry<V>(s: Seq<NameEntry<V>>, i: int)
    requires
        distinct_names(s),
        0 <= i < s.len(),
    ensures
        distinct_names(s.update(i, s.last()).drop_last()),
        entries_map(s.update(i, s.last()).drop_last()) =~= entries_map(s).remove(s[i].name@),
{
    let t = s.update(i, s.last()).drop_last();
    let last = s.len() - 1;
    // Where each entry of `t` came from.
    assert forall|k: int| 0 <= k < t.len() implies (#[trigger] t[k]) == s[if k == i {
        last
    } else {
        k
    }] by {}
    assert forall|a: int, b: int| 0 <= a < b < t.len() implies (#[trigger] t[a]).name@ != (
    #[trigger] t[b]).name@ by {
        let sa = if a == i { last } else { a };
        let sb = if b == i { last } else { b };
        assert(t[a] == s[sa] && t[b] == s[sb]);
        if sa < sb {
            assert(s[sa].name@ != s[sb].name@);
        } else {
            assert(s[sb].name@ != s[sa].name@);
        }
    }
    let removed = s[i].name@;
    assert forall|name: Seq<char>| has_name(t, name) <==> (has_name(s, name) && name
        != removed) by {
        if has_name(t, name) {
            let p = position_of(t, name);
            let sp = if p == i { last } else { p };
            assert(t[p] == s[sp]);
            assert(s[sp].name@ == name);
            if sp < i {
                assert(s[sp].name@ != s[i].name@);
            } else {
                assert(s[i].name@ != s[sp].name@);
            }
        }
        if has_name(s, name) && name != removed {
            let p = position_of(s, name);
            if p == last {
                assert(t[i] == s[last]);
                assert(t[i].name@ == name);
            } else {
                assert(t[p] == s[p]);
                assert(t[p].name@ == name);
            }
        }
    }
    assert forall|name: Seq<char>| has_name(t, name) implies entries_map(t)[name] == entries_map(
        s,
    ).remove(removed)[name] by {
        let p = position_of(t, name);
        let sp = if p == i { last } else { p };
        assert(t[p] == s[sp]);
        lemma_entry_at(t, p);
        lemma_entry_at(s, sp);
    }
}

/// A map from names to values.
#[derive(Debug)]
pub struct NameMap<V> {
    entries: Vec<NameEntry<V>>,
}

impl<V> View for NameMap<V> {
    type V = Map<Seq<char>, V>;

    closed spec fn view(&self) -> Map<Seq<char>, V> {
        entries_map(self.entries@)
    }
}

impl<V> NameMap<V> {
    /// No name is stored twice.
    pub closed spec fn wf(&self) -> bool {
        distinct_names(self.entries@)
    }

    /// A map without entries.
    pub fn new() -> (map: Self)
        ensures
            map.wf(),
            map@ == Map::<Seq<char>, V>::empty(),
    {
        let map = NameMap { entries: Vec::new() };
        assert(map@ =~= Map::<Seq<char>, V>::empty());
        map
    }

    /// The position of `name` among the entries.
    fn find(&self, name: &String) -> (found: Option<usize>)
        requires
            self.wf(),
        ensures
            match found {
                Some(i) => i < self.entries@.len() && self.entries@[i as int].name@ == name@,
                None => !has_name(self.entries@, name@),
            },
    {
        let mut i: usize = 0;
        while i < self.entries.len()
            invariant
                i <= self.entries@.len(),
                forall|k: int| 0 <= k < i ==> (#[trigger] self.entries@[k]).name@ != name@,
            decreases self.entries@.len() - i,
        {
            if self.entries[i].name == *name {
                return Some(i);
            }
            i += 1;
        }
        None
    }

    /// Whether `name` has a value.
    pub fn contains(&self, name: &String) -> (present: bool)
        requires
            self.wf(),
        ensures
            present == self@.contains_key(name@),
    {
        self.find(name).is_some()
    }

    /// The value stored under `name`.
    pub fn get(&self, name: &String) -> (value: Option<&V>)
        requires
            self.wf(),
        ensures
            match value {
                Some(v) => self@.contains_key(name@) && *v == self@[name@],
                None => !self@.contains_key(name@),
            },
    {
        match self.find(name) {
            Some(i) => {
                proof {
                    lemma_entry_at(self.entries@, i as int);
                }
                Some(&self.entries[i].value)
            },
            None => None,
        }
    }

    /// Stores `value` under `name` and hands back the value it replaces.
    pub fn insert(&mut self, name: String, value: V) -> (previous: Option<V>)
        requires
            old(self).wf(),
        ensures
            final(self).wf(),
            final(self)@ == old(self)@.insert(name@, value),
            match previous {
                Some(v) => old(self)@.contains_key(name@) && v == old(self)@[name@],
                None => !old(self)@.contains_key(name@),
            },
    {
        let previous = self.remove(&name);
        proof {
            assert(!self@.contains_key(name@));
            assert(!has_name(self.entries@, name@));
            lemma_push_entry(self.entries@, NameEntry { name, value });
            assert(old(self)@.remove(name@).insert(name@, value) =~= old(self)@.insert(
                name@,
                value,
            ));
        }
        self.entries.push(NameEntry { name, value });
        previous
    }

    /// Removes `name` and hands back its value.
    pub fn remove(&mut self, name: &String) -> (value: Option<V>)
        requires
            old(self).wf(),
        ensures
            final(self).wf(),
            final(self)@ == old(self)@.remove(name@),
            match value {
                Some(v) => old(self)@.contains_key(name@) && v == old(self)@[name@],
                None => !old(self)@.contains_key(name@),
            },
    {
        match self.find(name) {
            Some(i) => {
                proof {
                    lemma_entry_at(self.entries@, i as int);
                    lemma_swap_remove_entry(self.entries@, i as int);
                }
                let entry = self.entries.swap_remove(i);
                Some(entry.value)
            },
            None => {
                assert(self@.remove(name@) =~= self@);
                None
            },
        }
    }

    /// Removes every entry.
    pub fn clear(&mut self)
        ensures
            final(self).wf(),
            final(self)@ == Map::<Seq<char>, V>::empty(),
    {
        self.entries.clear();
        assert(self@ =~= Map::<Seq<char>, V>::empty());
    }
}

} // verus!
