//! A table of values by name.

use vstd::prelude::*;

verus! {

/// No two entries have the same name.
spec fn distinct<V>(entries: Seq<(String, V)>) -> bool {
    forall|i: int, j: int|
        0 <= i < j < entries.len() ==> (#[trigger] entries[i]).0@ != (#[trigger] entries[j]).0@
}

spec fn has_name<V>(entries: Seq<(String, V)>, name: Seq<char>) -> bool {
    exists|i: int| 0 <= i < entries.len() && (#[trigger] entries[i]).0@ == name
}

spec fn position<V>(entries: Seq<(String, V)>, name: Seq<char>) -> int {
    choose|i: int| 0 <= i < entries.len() && (#[trigger] entries[i]).0@ == name
}

spec fn table<V>(entries: Seq<(String, V)>) -> Map<Seq<char>, V> {
    Map::new(
        |name: Seq<char>| has_name(entries, name),
        |name: Seq<char>| entries[position(entries, name)].1,
    )
}

proof fn lemma_entry<V>(entries: Seq<(String, V)>, i: int)
    requires
        distinct(entries),
        0 <= i < entries.len(),
    ensures
        table(entries).contains_key(entries[i].0@),
        table(entries)[entries[i].0@] == entries[i].1,
{
    let name = entries[i].0@;
    assert(has_name(entries, name));
    let p = position(entries, name);
    if p < i {
        assert(entries[p].0@ != entries[i].0@);
    } else if i < p {
        assert(entries[i].0@ != entries[p].0@);
    }
}

proof fn lemma_push<V>(entries: Seq<(String, V)>, name: String, value: V)
    requires
        distinct(entries),
        !has_name(entries, name@),
    ensures
        distinct(entries.push((name, value))),
        table(entries.push((name, value))) == table(entries).insert(name@, value),
{
    let longer = entries.push((name, value));
    assert forall|i: int, j: int| 0 <= i < j < longer.len() implies (#[trigger] longer[i]).0@ != (
    #[trigger] longer[j]).0@ by {
        assert(longer[i] == entries[i]);
        if j < entries.len() {
            assert(longer[j] == entries[j]);
        }
    }
    assert forall|n: Seq<char>| table(longer).contains_key(n) <==> table(entries).insert(
        name@,
        value,
    ).contains_key(n) by {
        if has_name(longer, n) {
            let i = position(longer, n);
            if i < entries.len() {
                assert(entries[i].0@ == n);
            }
        }
        if has_name(entries, n) {
            let i = position(entries, n);
            assert(longer[i].0@ == n);
        }
        if n == name@ {
            assert(longer[entries.len() as int].0@ == n);
        }
    }
    assert forall|n: Seq<char>| table(longer).contains_key(n) implies table(longer)[n] == table(
        entries,
    ).insert(name@, value)[n] by {
        if n == name@ {
            lemma_entry(longer, entries.len() as int);
        } else {
            let i = position(longer, n);
            lemma_entry(longer, i);
            lemma_entry(entries, i);
        }
    }
    assert(table(longer) =~= table(entries).insert(name@, value));
}

proof fn lemma_remove<V>(entries: Seq<(String, V)>, k: int)
    requires
        distinct(entries),
        0 <= k < entries.len(),
    ensures
        distinct(entries.remove(k)),
        table(entries.remove(k)) == table(entries).remove(entries[k].0@),
{
    let shorter = entries.remove(k);
    let gone = entries[k].0@;
    assert forall|i: int, j: int| 0 <= i < j < shorter.len() implies (#[trigger] shorter[i]).0@ != (
    #[trigger] shorter[j]).0@ by {
        let a = if i < k { i } else { i + 1 };
        let b = if j < k { j } else { j + 1 };
        assert(shorter[i] == entries[a]);
        assert(shorter[j] == entries[b]);
    }
    assert forall|n: Seq<char>| table(shorter).contains_key(n) <==> table(entries).remove(
        gone,
    ).contains_key(n) by {
        if has_name(shorter, n) {
            let i = position(shorter, n);
            let a = if i < k { i } else { i + 1 };
            assert(shorter[i] == entries[a]);
            if a < k {
                assert(entries[a].0@ != entries[k].0@);
            } else {
                assert(entries[k].0@ != entries[a].0@);
            }
        }
        if has_name(entries, n) && n != gone {
            let a = position(entries, n);
            let i = if a < k { a } else { a - 1 };
            assert(shorter[i] == entries[a]);
        }
    }
    assert forall|n: Seq<char>| table(shorter).contains_key(n) implies table(shorter)[n] == table(
        entries,
    ).remove(gone)[n] by {
        let i = position(shorter, n);
        let a = if i < k { i } else { i + 1 };
        assert(shorter[i] == entries[a]);
        lemma_entry(shorter, i);
        lemma_entry(entries, a);
    }
    assert(table(shorter) =~= table(entries).remove(gone));
}

/// Values by name, each name at most once.
pub struct NameTable<V> {
    entries: Vec<(String, V)>,
}

impl<V> View for NameTable<V> {
    type V = Map<Seq<char>, V>;

    /// The value under each name.
    closed spec fn view(&self) -> Map<Seq<char>, V> {
        table(self.entries@)
    }
}

impl<V> NameTable<V> {
    #[verifier::type_invariant]
    spec fn names_are_distinct(self) -> bool {
        distinct(self.entries@)
    }

    /// The names, in the order in which `at` gives them.
    pub closed spec fn names(self) -> Seq<Seq<char>> {
        self.entries@.map_values(|entry: (String, V)| entry.0@)
    }

    /// A table without entries.
    pub fn new() -> (table: Self)
        ensures
            table@ == Map::<Seq<char>, V>::empty(),
    {
        let table = NameTable { entries: Vec::new() };
        assert(table@ =~= Map::<Seq<char>, V>::empty());
        table
    }

    /// How many entries there are.
    pub fn len(&self) -> (length: usize)
        ensures
            length == self.names().len(),
            self.names().no_duplicates(),
            self.names().to_set() == self@.dom(),
            self@.dom().finite(),
            length == self@.len(),
    {
        proof {
            use_type_invariant(self);
            let names = self.names();
            assert(names.no_duplicates());
            assert forall|n: Seq<char>| names.to_set().contains(n) <==> self@.dom().contains(n) by {
                if names.contains(n) {
                    let i = names.index_of(n);
                    assert(self.entries@[i].0@ == n);
                }
                if has_name(self.entries@, n) {
                    let i = position(self.entries@, n);
                    assert(names[i] == n);
                }
            }
            assert(names.to_set() =~= self@.dom());
            vstd::seq_lib::seq_to_set_is_finite(names);
            names.unique_seq_to_set();
        }
        self.entries.len()
    }

    /// The entry with the number `i`.
    pub fn at(&self, i: usize) -> (entry: (&String, &V))
        requires
            i < self.names().len(),
        ensures
            entry.0@ == self.names()[i as int],
            self@.contains_key(entry.0@),
            *entry.1 == self@[entry.0@],
    {
        proof {
            use_type_invariant(self);
            lemma_entry(self.entries@, i as int);
        }
        (&self.entries[i].0, &self.entries[i].1)
    }

    fn find(&self, name: &String) -> (found: Option<usize>)
        ensures
            match found {
                Some(i) => i < self.entries@.len() && self.entries@[i as int].0@ == name@,
                None => !has_name(self.entries@, name@),
            },
    {
        let mut i: usize = 0;
        while i < self.entries.len()
            invariant
                i <= self.entries@.len(),
                forall|j: int| 0 <= j < i ==> (#[trigger] self.entries@[j]).0@ != name@,
            decreases self.entries@.len() - i,
        {
            if self.entries[i].0.eq(name) {
                return Some(i);
            }
            i = i + 1;
        }
        None
    }

    /// Whether there is an entry under `name`.
    pub fn contains(&self, name: &String) -> (found: bool)
        ensures
            found == self@.contains_key(name@),
    {
        match self.find(name) {
            Some(_) => true,
            None => false,
        }
    }

    /// The value under `name`.
    pub fn get(&self, name: &String) -> (value: Option<&V>)
        ensures
            match value {
                Some(v) => self@.contains_key(name@) && *v == self@[name@],
                None => !self@.contains_key(name@),
            },
    {
        proof {
            use_type_invariant(self);
        }
        match self.find(name) {
            Some(i) => {
                proof {
                    lemma_entry(self.entries@, i as int);
                }
                Some(&self.entries[i].1)
            },
            None => None,
        }
    }

    /// Takes out the value under `name`.
    pub fn remove(&mut self, name: &String) -> (value: Option<V>)
        ensures
            final(self)@ == old(self)@.remove(name@),
            match value {
                Some(v) => old(self)@.contains_key(name@) && v == old(self)@[name@],
                None => !old(self)@.contains_key(name@),
            },
    {
        proof {
            use_type_invariant(&*self);
        }
        match self.find(name) {
            Some(i) => {
                proof {
                    lemma_entry(self.entries@, i as int);
                    lemma_remove(self.entries@, i as int);
                }
                let mut entries: Vec<(String, V)> = Vec::new();
                std::mem::swap(&mut entries, &mut self.entries);
                let entry = entries.remove(i);
                self.entries = entries;
                Some(entry.1)
            },
            None => {
                assert(self@.remove(name@) =~= self@);
                None
            },
        }
    }

    /// Puts `value` under `name`, in place of what was there.
    pub fn insert(&mut self, name: String, value: V)
        ensures
            final(self)@ == old(self)@.insert(name@, value),
    {
        self.remove(&name);
        proof {
            use_type_invariant(&*self);
            assert(!self@.contains_key(name@));
            lemma_push(self.entries@, name, value);
        }
        let mut entries: Vec<(String, V)> = Vec::new();
        std::mem::swap(&mut entries, &mut self.entries);
        entries.push((name, value));
        self.entries = entries;
        assert(self@ =~= old(self)@.insert(name@, value));
    }
}

} // verus!
