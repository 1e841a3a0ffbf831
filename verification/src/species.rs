//! The table of species: names in the order in which they were first seen.
//!
//! A species is known by its position in the table, and positions never move.

use vstd::prelude::*;

verus! {

/// The texts of a sequence of strings.
pub open spec fn texts(v: Seq<String>) -> Seq<Seq<char>> {
    Seq::new(v.len(), |i: int| v[i]@)
}

/// The table after `name` was seen: appended if new, else nothing changes.
pub open spec fn register(names: Seq<Seq<char>>, name: Seq<char>) -> Seq<Seq<char>> {
    if names.contains(name) {
        names
    } else {
        names.push(name)
    }
}

/// The table after every name of `list` was seen, from first to last.
pub open spec fn register_all(names: Seq<Seq<char>>, list: Seq<Seq<char>>) -> Seq<Seq<char>>
    decreases list.len(),
{
    if list.len() == 0 {
        names
    } else {
        register(register_all(names, list.drop_last()), list.last())
    }
}

/// Appending a string appends its text.
pub proof fn lemma_texts_push(v: Seq<String>, s: String)
    ensures
        texts(v.push(s)) == texts(v).push(s@),
{
    assert(texts(v.push(s)) =~= texts(v).push(s@));
}

/// Seeing a name keeps the table free of duplicates, keeps every position,
/// and leaves the name in the table.
pub proof fn lemma_register(names: Seq<Seq<char>>, name: Seq<char>)
    requires
        names.no_duplicates(),
    ensures
        register(names, name).no_duplicates(),
        names.len() <= register(names, name).len(),
        register(names, name).take(names.len() as int) == names,
        register(names, name).contains(name),
        forall|other: Seq<char>| names.contains(other) ==> register(names, name).contains(other),
{
    let after = register(names, name);
    assert(after.take(names.len() as int) =~= names);
    if names.contains(name) {
    } else {
        assert(after[names.len() as int] == name);
        assert forall|other: Seq<char>| names.contains(other) implies after.contains(other) by {
            let i = choose|i: int| 0 <= i < names.len() && names[i] == other;
            assert(after[i] == other);
        }
    }
}

/// Seeing a list of names keeps the table free of duplicates, keeps every
/// position, and leaves every name of the list in the table.
pub proof fn lemma_register_all(names: Seq<Seq<char>>, list: Seq<Seq<char>>)
    requires
        names.no_duplicates(),
    ensures
        register_all(names, list).no_duplicates(),
        names.len() <= register_all(names, list).len(),
        register_all(names, list).take(names.len() as int) == names,
        forall|other: Seq<char>|
            names.contains(other) ==> register_all(names, list).contains(other),
        forall|k: int| 0 <= k < list.len() ==> register_all(names, list).contains(#[trigger] list[k]),
    decreases list.len(),
{
    if list.len() == 0 {
        assert(names.take(names.len() as int) =~= names);
    } else {
        let before = register_all(names, list.drop_last());
        let after = register_all(names, list);
        lemma_register_all(names, list.drop_last());
        lemma_register(before, list.last());
        assert(after.take(names.len() as int) =~= names) by {
            assert(after.take(before.len() as int) == before);
            assert(before.take(names.len() as int) == names);
        }
        assert forall|k: int| 0 <= k < list.len() implies after.contains(#[trigger] list[k]) by {
            if k < list.len() - 1 {
                assert(list.drop_last()[k] == list[k]);
                assert(before.contains(list.drop_last()[k]));
            }
        }
    }
}

/// Names that are all in the table already change nothing.
pub proof fn lemma_register_all_known(names: Seq<Seq<char>>, list: Seq<Seq<char>>)
    requires
        forall|k: int| 0 <= k < list.len() ==> names.contains(#[trigger] list[k]),
    ensures
        register_all(names, list) == names,
    decreases list.len(),
{
    if list.len() > 0 {
        assert forall|k: int| 0 <= k < list.drop_last().len() implies names.contains(
            #[trigger] list.drop_last()[k],
        ) by {
            assert(list.drop_last()[k] == list[k]);
        }
        lemma_register_all_known(names, list.drop_last());
        assert(names.contains(list[list.len() - 1]));
    }
}

/// The species of a system, each known by the position at which it was
/// first seen.
pub struct SpeciesTable {
    names: Vec<String>,
}

impl View for SpeciesTable {
    type V = Seq<Seq<char>>;

    closed spec fn view(&self) -> Seq<Seq<char>> {
        texts(self.names@)
    }
}

impl SpeciesTable {
    /// No name stands twice in the table.
    pub open spec fn wf(&self) -> bool {
        self@.no_duplicates()
    }

    /// The empty table.
    pub fn new() -> (table: Self)
        ensures
            table.wf(),
            table@ == Seq::<Seq<char>>::empty(),
    {
        let table = SpeciesTable { names: Vec::new() };
        assert(table@ =~= Seq::<Seq<char>>::empty());
        table
    }

    /// Number of species.
    pub fn len(&self) -> (n: usize)
        ensures
            n == self@.len(),
    {
        self.names.len()
    }

    /// The name of species `i`, if there is one.
    pub fn name(&self, i: usize) -> (r: Option<&String>)
        ensures
            match r {
                Some(s) => i < self@.len() && s@ == self@[i as int],
                None => i >= self@.len(),
            },
    {
        if i < self.names.len() {
            Some(&self.names[i])
        } else {
            None
        }
    }

    /// The first position at which `name` stands, if it stands in the table.
    pub fn index_of(&self, name: &String) -> (r: Option<usize>)
        ensures
            match r {
                Some(i) => {
                    &&& i < self@.len()
                    &&& self@[i as int] == name@
                    &&& forall|k: int| 0 <= k < i ==> self@[k] != name@
                },
                None => !self@.contains(name@),
            },
    {
        let mut i: usize = 0;
        while i < self.names.len()
            invariant
                i <= self.names.len(),
                forall|k: int| 0 <= k < i ==> self@[k] != name@,
            decreases self.names.len() - i,
        {
            if self.names[i] == *name {
                return Some(i);
            }
            i += 1;
        }
        None
    }

    /// Sees `name`: a new name is appended, a known one changes nothing.
    /// Returns the position of the name.
    pub fn register(&mut self, name: &String) -> (i: usize)
        requires
            old(self).wf(),
        ensures
            final(self).wf(),
            final(self)@ == register(old(self)@, name@),
            i < final(self)@.len(),
            final(self)@[i as int] == name@,
            old(self)@.contains(name@) ==> i < old(self)@.len(),
            !old(self)@.contains(name@) ==> i == old(self)@.len(),
    {
        proof {
            lemma_register(self@, name@);
        }
        match self.index_of(name) {
            Some(i) => i,
            None => {
                let i = self.names.len();
                proof {
                    lemma_texts_push(self.names@, *name);
                }
                self.names.push(name.clone());
                i
            },
        }
    }

    /// Sees every name of `list`, from first to last.
    pub fn register_all(&mut self, list: &Vec<String>)
        requires
            old(self).wf(),
        ensures
            final(self).wf(),
            final(self)@ == register_all(old(self)@, texts(list@)),
    {
        let mut k: usize = 0;
        while k < list.len()
            invariant
                k <= list.len(),
                self.wf(),
                self@ == register_all(old(self)@, texts(list@).take(k as int)),
            decreases list.len() - k,
        {
            proof {
                let next = texts(list@).take(k + 1);
                assert(next.drop_last() =~= texts(list@).take(k as int));
                assert(next.last() == list@[k as int]@);
            }
            self.register(&list[k]);
            k += 1;
        }
        assert(texts(list@).take(k as int) =~= texts(list@));
    }
}

} // verus!
