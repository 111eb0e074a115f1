//! A table from names to records.
//!
//! The table is a list of `(name, record)` entries in which no name occurs
//! twice. Its view is the map from each name to the view of its record, so
//! that inserting under a name that is present replaces the record.

use vstd::prelude::*;

verus! {

/// Some entry of the list has this name.
pub open spec fn has_name<V>(entries: Seq<(String, V)>, name: Seq<char>) -> bool {
    exists|i: int| 0 <= i < entries.len() && (#[trigger] entries[i]).0@ == name
}

/// The place of an entry with this name, where there is one.
pub open spec fn place_of<V>(entries: Seq<(String, V)>, name: Seq<char>) -> int {
    choose|i: int| 0 <= i < entries.len() && (#[trigger] entries[i]).0@ == name
}

/// No name occurs in two entries.
pub open spec fn names_distinct<V>(entries: Seq<(String, V)>) -> bool {
    forall|i: int, j: int|
        0 <= i < j < entries.len() ==> (#[trigger] entries[i]).0@ != (#[trigger] entries[j]).0@
}

/// The map that a list of entries with distinct names stands for.
pub open spec fn map_of<V: View>(entries: Seq<(String, V)>) -> Map<Seq<char>, V::V> {
    Map::new(
        |name: Seq<char>| has_name(entries, name),
        |name: Seq<char>| entries[place_of(entries, name)].1@,
    )
}

/// In a list with distinct names, an entry is found at its own place.
pub proof fn lemma_place_of_entry<V: View>(entries: Seq<(String, V)>, i: int)
    requires
        names_distinct(entries),
        0 <= i < entries.len(),
    ensures
        has_name(entries, entries[i].0@),
        place_of(entries, entries[i].0@) == i,
        map_of(entries).contains_key(entries[i].0@),
        map_of(entries)[entries[i].0@] == entries[i].1@,
{
    let name = entries[i].0@;
    let j = place_of(entries, name);
    assert(0 <= j < entries.len() && entries[j].0@ == name);
    if j < i {
        assert(entries[j].0@ != entries[i].0@);
    } else if i < j {
        assert(entries[i].0@ != entries[j].0@);
    }
}

/// A new entry under a name that is not present adds that name to the map.
pub proof fn lemma_map_of_push<V: View>(entries: Seq<(String, V)>, name: String, record: V)
    requires
        names_distinct(entries),
        !has_name(entries, name@),
    ensures
        names_distinct(entries.push((name, record))),
        map_of(entries.push((name, record))) == map_of(entries).insert(name@, record@),
{
    let after = entries.push((name, record));
    let n = entries.len() as int;
    assert forall|i: int, j: int| 0 <= i < j < after.len() implies (#[trigger] after[i]).0@ != (
    #[trigger] after[j]).0@ by {
        if j == n {
            assert(after[i] == entries[i]);
        } else {
            assert(after[i] == entries[i] && after[j] == entries[j]);
        }
    }
    lemma_place_of_entry(after, n);
    assert forall|k: Seq<char>| #[trigger]
        map_of(after).contains_key(k) <==> map_of(entries).insert(name@, record@).contains_key(
            k,
        ) by {
        if has_name(after, k) {
            let i = place_of(after, k);
            if i < n {
                assert(entries[i].0@ == k);
            }
        }
        if has_name(entries, k) {
            let i = place_of(entries, k);
            assert(after[i].0@ == k);
        }
    }
    assert forall|k: Seq<char>| #[trigger] map_of(after).contains_key(k) implies map_of(after)[k]
        == map_of(entries).insert(name@, record@)[k] by {
        if k != name@ {
            let i = place_of(after, k);
            assert(i < n);
            assert(after[i] == entries[i]);
            lemma_place_of_entry(entries, i);
        }
    }
    assert(map_of(after) =~= map_of(entries).insert(name@, record@));
}

/// Taking an entry out takes its name out of the map.
pub proof fn lemma_map_of_remove<V: View>(entries: Seq<(String, V)>, i: int)
    requires
        names_distinct(entries),
        0 <= i < entries.len(),
    ensures
        names_distinct(entries.remove(i)),
        map_of(entries.remove(i)) == map_of(entries).remove(entries[i].0@),
{
    let after = entries.remove(i);
    let name = entries[i].0@;
    assert forall|a: int, b: int| 0 <= a < b < after.len() implies (#[trigger] after[a]).0@ != (
    #[trigger] after[b]).0@ by {
        let a0 = if a < i { a } else { a + 1 };
        let b0 = if b < i { b } else { b + 1 };
        assert(after[a] == entries[a0] && after[b] == entries[b0]);
    }
    assert forall|k: Seq<char>| #[trigger]
        map_of(after).contains_key(k) <==> map_of(entries).remove(name).contains_key(k) by {
        if has_name(after, k) {
            let a = place_of(after, k);
            let a0 = if a < i { a } else { a + 1 };
            assert(after[a] == entries[a0]);
            assert(entries[a0].0@ == k);
            if a0 < i {
                assert(entries[a0].0@ != entries[i].0@);
            } else {
                assert(entries[i].0@ != entries[a0].0@);
            }
        }
        if has_name(entries, k) && k != name {
            let b = place_of(entries, k);
            let b1 = if b < i { b } else { b - 1 };
            assert(after[b1] == entries[b]);
            assert(after[b1].0@ == k);
        }
    }
    assert forall|k: Seq<char>| #[trigger] map_of(after).contains_key(k) implies map_of(after)[k]
        == map_of(entries).remove(name)[k] by {
        let a = place_of(after, k);
        let a0 = if a < i { a } else { a + 1 };
        assert(after[a] == entries[a0]);
        lemma_place_of_entry(entries, a0);
    }
    assert(map_of(after) =~= map_of(entries).remove(name));
}

/// A table from names to records, in which each name has at most one record.
pub struct Table<V> {
    entries: Vec<(String, V)>,
}

impl<V: View> View for Table<V> {
    type V = Map<Seq<char>, V::V>;

    closed spec fn view(&self) -> Map<Seq<char>, V::V> {
        map_of(self.entries@)
    }
}

impl<V> Table<V> {
    /// No name has two records.
    #[verifier::type_invariant]
    spec fn well_formed(self) -> bool {
        names_distinct(self.entries@)
    }
}

impl<V: View> Table<V> {
    /// The empty table.
    pub fn new() -> (r: Table<V>)
        ensures
            r@ == Map::<Seq<char>, V::V>::empty(),
    {
        let r = Table { entries: Vec::new() };
        assert(r@ =~= Map::<Seq<char>, V::V>::empty());
        r
    }

    /// The place of the entry under `name`, if there is one.
    fn find(&self, name: &String) -> (r: Option<usize>)
        ensures
            match r {
                Some(i) => i < self.entries@.len() && self.entries@[i as int].0@ == name@,
                None => !has_name(self.entries@, name@),
            },
    {
        let n = self.entries.len();
        let mut i: usize = 0;
        while i < n
            invariant
                i <= n,
                n == self.entries@.len(),
                forall|j: int| 0 <= j < i ==> (#[trigger] self.entries@[j]).0@ != name@,
            decreases n - i,
        {
            if self.entries[i].0 == *name {
                return Some(i);
            }
            i += 1;
        }
        None
    }

    /// Whether `name` has a record.
    pub fn contains_key(&self, name: &str) -> (r: bool)
        ensures
            r == self@.contains_key(name@),
    {
        let wanted = name.to_owned();
        match self.find(&wanted) {
            Some(i) => {
                proof {
                    use_type_invariant(self);
                    lemma_place_of_entry(self.entries@, i as int);
                }
                true
            },
            None => false,
        }
    }

    /// The record of `name`, if it has one.
    pub fn get(&self, name: &str) -> (r: Option<&V>)
        ensures
            match r {
                Some(record) => self@.contains_key(name@) && self@[name@] == record@,
                None => !self@.contains_key(name@),
            },
    {
        let wanted = name.to_owned();
        match self.find(&wanted) {
            Some(i) => {
                proof {
                    use_type_invariant(self);
                    lemma_place_of_entry(self.entries@, i as int);
                }
                Some(&self.entries[i].1)
            },
            None => None,
        }
    }

    /// Takes the record of `name` out of the table and returns it, if there
    /// is one.
    pub fn remove(&mut self, name: &str) -> (r: Option<V>)
        ensures
            final(self)@ == old(self)@.remove(name@),
            match r {
                Some(record) => old(self)@.contains_key(name@) && old(self)@[name@] == record@,
                None => !old(self)@.contains_key(name@),
            },
    {
        let wanted = name.to_owned();
        match self.find(&wanted) {
            Some(i) => {
                proof {
                    use_type_invariant(&*self);
                    lemma_place_of_entry(self.entries@, i as int);
                    lemma_map_of_remove(self.entries@, i as int);
                }
                // the list is worked on outside the table, which is empty meanwhile
                let mut entries: Vec<(String, V)> = Vec::new();
                core::mem::swap(&mut self.entries, &mut entries);
                let entry = entries.remove(i);
                core::mem::swap(&mut self.entries, &mut entries);
                Some(entry.1)
            },
            None => {
                assert(self@ =~= self@.remove(name@));
                None
            },
        }
    }

    /// Puts `record` under `name`, in place of the record that the name had,
    /// if it had one.
    pub fn insert(&mut self, name: String, record: V)
        ensures
            final(self)@ == old(self)@.insert(name@, record@),
    {
        let _ = self.remove(name.as_str());
        proof {
            use_type_invariant(&*self);
            assert(!map_of(self.entries@).contains_key(name@));
            lemma_map_of_push(self.entries@, name, record);
            assert(old(self)@.remove(name@).insert(name@, record@) =~= old(self)@.insert(
                name@,
                record@,
            ));
        }
        let mut entries: Vec<(String, V)> = Vec::new();
        core::mem::swap(&mut self.entries, &mut entries);
        entries.push((name, record));
        core::mem::swap(&mut self.entries, &mut entries);
    }

    /// The table holds finitely many names.
    pub proof fn lemma_is_finite(&self)
        ensures
            self@.dom().finite(),
    {
        lemma_map_of_finite(self.entries@);
    }

    /// The number of records.
    pub fn len(&self) -> (r: usize)
        ensures
            r == self@.len(),
    {
        proof {
            use_type_invariant(self);
            lemma_map_of_len(self.entries@);
        }
        self.entries.len()
    }
}

/// A list of entries stands for a finite map, whether or not its names are
/// distinct.
pub proof fn lemma_map_of_finite<V: View>(entries: Seq<(String, V)>)
    ensures
        map_of(entries).dom().finite(),
    decreases entries.len(),
{
    if entries.len() == 0 {
        assert(map_of(entries).dom() =~= Set::<Seq<char>>::empty());
    } else {
        let init = entries.drop_last();
        let last = entries.last();
        lemma_map_of_finite(init);
        assert forall|k: Seq<char>| #[trigger]
            map_of(entries).dom().contains(k) <==> map_of(init).dom().insert(last.0@).contains(
                k,
            ) by {
            if has_name(entries, k) {
                let i = place_of(entries, k);
                if i < init.len() {
                    assert(init[i] == entries[i]);
                }
            }
            if has_name(init, k) {
                let i = place_of(init, k);
                assert(entries[i] == init[i]);
            }
            if k == last.0@ {
                assert(entries[entries.len() - 1].0@ == k);
            }
        }
        assert(map_of(entries).dom() =~= map_of(init).dom().insert(last.0@));
    }
}

/// A list with distinct names stands for a finite map with as many names as
/// the list has entries.
pub proof fn lemma_map_of_len<V: View>(entries: Seq<(String, V)>)
    requires
        names_distinct(entries),
    ensures
        map_of(entries).dom().finite(),
        map_of(entries).len() == entries.len(),
    decreases entries.len(),
{
    if entries.len() == 0 {
        assert(map_of(entries) =~= Map::<Seq<char>, V::V>::empty());
    } else {
        let init = entries.drop_last();
        let last = entries.last();
        assert forall|i: int, j: int| 0 <= i < j < init.len() implies (#[trigger] init[i]).0@ != (
        #[trigger] init[j]).0@ by {
            assert(init[i] == entries[i] && init[j] == entries[j]);
        }
        lemma_map_of_len(init);
        if has_name(init, last.0@) {
            let i = place_of(init, last.0@);
            assert(init[i] == entries[i]);
            assert(entries[i].0@ != entries[entries.len() - 1].0@);
        }
        lemma_map_of_push(init, last.0, last.1);
        assert(init.push((last.0, last.1)) =~= entries);
    }
}

} // verus!
