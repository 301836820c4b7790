//! A table of values by name. Each name occurs once.

use vstd::prelude::*;

use crate::util::text::same_text;

verus! {

/// Values by name.
pub struct Table<V> {
    rows: Vec<(String, V)>,
}

/// The names of a list of rows.
spec fn names<V>(rows: Seq<(String, V)>) -> Seq<Seq<char>> {
    rows.map_values(|r: (String, V)| r.0@)
}

/// The texts of a list of names.
pub open spec fn name_set(v: Seq<String>) -> Set<Seq<char>> {
    Set::new(|k: Seq<char>| exists|i: int| 0 <= i < v.len() && #[trigger] v[i]@ == k)
}

impl<V> View for Table<V> {
    type V = Map<Seq<char>, V>;

    closed spec fn view(&self) -> Map<Seq<char>, V> {
        Map::new(
            |k: Seq<char>| names(self.rows@).contains(k),
            |k: Seq<char>| self.rows@[names(self.rows@).index_of(k)].1,
        )
    }
}

impl<V> Table<V> {
    #[verifier::type_invariant]
    spec fn distinct(&self) -> bool {
        names(self.rows@).no_duplicates()
    }

    /// The names in the order in which they are kept.
    pub closed spec fn names(&self) -> Seq<Seq<char>> {
        names(self.rows@)
    }

    /// What the order of names has to do with the contents.
    proof fn lemma_names(&self)
        requires
            self.distinct(),
        ensures
            self.names().no_duplicates(),
            self@.dom() == self.names().to_set(),
            self@.dom().finite(),
            self@.len() == self.names().len(),
    {
        assert(self@.dom() =~= self.names().to_set());
        self.names().unique_seq_to_set();
        vstd::seq_lib::seq_to_set_is_finite(self.names());
    }

    /// The row of a name holds its value.
    proof fn lemma_row(&self, i: int)
        requires
            self.distinct(),
            0 <= i < self.rows@.len(),
        ensures
            self@.contains_key(self.rows@[i].0@),
            self@[self.rows@[i].0@] == self.rows@[i].1,
    {
        let k = self.rows@[i].0@;
        assert(names(self.rows@)[i] == k);
        let j: int = names(self.rows@).index_of(k);
        assert(names(self.rows@)[j] == k);
    }

    /// An empty table.
    pub fn new() -> (r: Table<V>)
        ensures
            r@ == Map::<Seq<char>, V>::empty(),
            r.names() == Seq::<Seq<char>>::empty(),
    {
        let r: Table<V> = Table { rows: Vec::new() };
        assert(names(r.rows@) =~= Seq::<Seq<char>>::empty());
        assert(r@ =~= Map::<Seq<char>, V>::empty());
        r
    }

    /// How many names there are.
    pub fn len(&self) -> (n: usize)
        ensures
            n == self@.len(),
            n == self.names().len(),
            self.names().no_duplicates(),
            self@.dom() == self.names().to_set(),
            self@.dom().finite(),
    {
        proof {
            use_type_invariant(self);
            self.lemma_names();
        }
        self.rows.len()
    }

    /// Where a name is kept.
    fn position(&self, name: &str) -> (r: Option<usize>)
        ensures
            match r {
                Some(i) => i < self.rows@.len() && self.rows@[i as int].0@ == name@,
                None => !self@.contains_key(name@),
            },
    {
        let mut i: usize = 0;
        while i < self.rows.len()
            invariant
                i <= self.rows@.len(),
                forall|j: int| 0 <= j < i ==> (#[trigger] self.rows@[j]).0@ != name@,
            decreases self.rows@.len() - i,
        {
            if same_text(self.rows[i].0.as_str(), name) {
                return Some(i);
            }
            i = i + 1;
        }
        assert forall|j: int| 0 <= j < self.rows@.len() implies names(self.rows@)[j] != name@ by {
            assert(self.rows@[j].0@ != name@);
        }
        None
    }

    /// Whether the name is there.
    pub fn contains(&self, name: &str) -> (r: bool)
        ensures
            r == self@.contains_key(name@),
    {
        match self.position(name) {
            Some(i) => {
                proof {
                    use_type_invariant(self);
                    self.lemma_row(i as int);
                }
                true
            },
            None => false,
        }
    }

    /// The value of a name.
    pub fn get(&self, name: &str) -> (r: Option<&V>)
        ensures
            match r {
                Some(v) => self@.contains_key(name@) && self@[name@] == *v,
                None => !self@.contains_key(name@),
            },
    {
        match self.position(name) {
            Some(i) => {
                proof {
                    use_type_invariant(self);
                    self.lemma_row(i as int);
                }
                Some(&self.rows[i].1)
            },
            None => None,
        }
    }

    /// The name that is kept at a place.
    pub fn name_at(&self, i: usize) -> (r: &String)
        requires
            i < self.names().len(),
        ensures
            r@ == self.names()[i as int],
            self@.contains_key(r@),
    {
        proof {
            use_type_invariant(self);
                    self.lemma_row(i as int);
        }
        &self.rows[i].0
    }

    /// The value that is kept at a place.
    pub fn value_at(&self, i: usize) -> (r: &V)
        requires
            i < self.names().len(),
        ensures
            *r == self@[self.names()[i as int]],
            self@.contains_key(self.names()[i as int]),
    {
        proof {
            use_type_invariant(self);
                    self.lemma_row(i as int);
        }
        &self.rows[i].1
    }

    /// Sets the value of a name, and gives out the one that it had. A new name comes
    /// last.
    pub fn insert(&mut self, name: String, value: V) -> (r: Option<V>)
        ensures
            final(self)@ == old(self)@.insert(name@, value),
            match r {
                Some(v) => old(self)@.contains_key(name@) && old(self)@[name@] == v
                    && final(self).names() == old(self).names(),
                None => !old(self)@.contains_key(name@) && final(self).names() == old(
                    self,
                ).names().push(name@),
            },
    {
        let ghost before = self.rows@;
        proof {
            use_type_invariant(&*self);
        }
        match self.position(name.as_str()) {
            Some(i) => {
                proof {
                    self.lemma_row(i as int);
                }
                let mut rows: Vec<(String, V)> = Vec::new();
                std::mem::swap(&mut rows, &mut self.rows);
                let (tail, found) = take_row(rows, i, name, value);
                assert(names(tail@) =~= names(before));
                self.rows = tail;
                proof {
                    assert(names(self.rows@) =~= names(before));
                    self.lemma_row(i as int);
                    assert forall|k: Seq<char>| names(before).contains(k) implies self@[k]
                        == old(self)@.insert(before[i as int].0@, value)[k] by {
                        let j: int = names(before).index_of(k);
                        assert(names(before)[j] == k);
                        if j == i {
                            assert(k == before[i as int].0@);
                        } else {
                            assert(k != names(before)[i as int]);
                        }
                    }
                    assert(names(before).contains(names(before)[i as int]));
                    assert(self@ =~= old(self)@.insert(before[i as int].0@, value));
                }
                Some(found)
            },
            None => {
                assert forall|j: int| 0 <= j < before.len() implies names(before)[j] != name@ by {
                    assert(names(before).contains(names(before)[j]));
                }
                let mut rows: Vec<(String, V)> = Vec::new();
                std::mem::swap(&mut rows, &mut self.rows);
                rows.push((name, value));
                assert(names(rows@) =~= names(before).push(name@));
                assert(names(rows@).no_duplicates());
                self.rows = rows;
                proof {
                    let n = names(self.rows@);
                    assert forall|k: Seq<char>| n.contains(k) <==> (names(before).contains(k) || k
                        == name@) by {
                        if names(before).contains(k) {
                            let j: int = names(before).index_of(k);
                            assert(n[j] == k);
                        }
                        assert(n[before.len() as int] == name@);
                        if n.contains(k) {
                            let j: int = n.index_of(k);
                            assert(n[j] == k);
                            if j < before.len() {
                                assert(names(before)[j] == k);
                            }
                        }
                    }
                    assert forall|k: Seq<char>| n.contains(k) implies self@[k] == old(
                        self,
                    )@.insert(name@, value)[k] by {
                        let j: int = n.index_of(k);
                        assert(n[j] == k);
                        if k != name@ {
                            let i: int = names(before).index_of(k);
                            assert(names(before)[i] == k);
                            assert(n[i] == k);
                            assert(i == j);
                        } else {
                            assert(n[before.len() as int] == k);
                        }
                    }
                    assert(self@ =~= old(self)@.insert(name@, value));
                }
                None
            },
        }
    }

    /// Takes a name out, and gives out the value that it had.
    pub fn remove(&mut self, name: &str) -> (r: Option<V>)
        ensures
            final(self)@ == old(self)@.remove(name@),
            match r {
                Some(v) => old(self)@.contains_key(name@) && old(self)@[name@] == v,
                None => !old(self)@.contains_key(name@) && final(self).names() == old(self).names(),
            },
    {
        let ghost before = self.rows@;
        proof {
            use_type_invariant(&*self);
        }
        match self.position(name) {
            None => {
                assert(self@.remove(name@) =~= self@);
                None
            },
            Some(i) => {
                proof {
                    self.lemma_row(i as int);
                }
                let mut rows: Vec<(String, V)> = Vec::new();
                std::mem::swap(&mut rows, &mut self.rows);
                let row: (String, V) = rows.remove(i);
                assert(rows@ =~= before.remove(i as int));
                let ghost n = names(rows@);
                assert(n =~= names(before).remove(i as int));
                assert(n.no_duplicates());
                self.rows = rows;
                proof {
                    let m = names(before);
                    assert forall|k: Seq<char>| n.contains(k) <==> (m.contains(k) && k != name@) by {
                        if n.contains(k) {
                            let j: int = n.index_of(k);
                            assert(n[j] == k);
                            let o: int = if j < i {
                                j
                            } else {
                                j + 1
                            };
                            assert(m[o] == k);
                            assert(m[i as int] == name@);
                        }
                        if m.contains(k) && k != name@ {
                            let o: int = m.index_of(k);
                            assert(m[o] == k);
                            let j: int = if o < i {
                                o
                            } else {
                                o - 1
                            };
                            assert(m[i as int] == name@);
                            assert(n[j] == k);
                        }
                    }
                    assert forall|k: Seq<char>| n.contains(k) implies self@[k] == old(self)@[k] by {
                        let j: int = n.index_of(k);
                        assert(n[j] == k);
                        let o: int = m.index_of(k);
                        assert(m[o] == k);
                        let p: int = if j < i {
                            j
                        } else {
                            j + 1
                        };
                        assert(m[p] == k);
                        assert(p == o);
                    }
                    assert(self@ =~= old(self)@.remove(name@));
                }
                Some(row.1)
            },
        }
    }

    /// Takes out every name of a list.
    pub fn remove_all(&mut self, gone: &Vec<String>)
        ensures
            final(self)@ == old(self)@.remove_keys(name_set(gone@)),
    {
        let mut i: usize = 0;
        assert(self@ =~= old(self)@.remove_keys(name_set(gone@.take(0))));
        while i < gone.len()
            invariant
                i <= gone@.len(),
                self@ == old(self)@.remove_keys(name_set(gone@.take(i as int))),
            decreases gone@.len() - i,
        {
            let ghost before = self@;
            let ghost s0 = name_set(gone@.take(i as int));
            let ghost s1 = name_set(gone@.take(i + 1));
            self.remove(gone[i].as_str());
            proof {
                let t0 = gone@.take(i as int);
                let t1 = gone@.take(i + 1);
                assert forall|k: Seq<char>| s1.contains(k) <==> (s0.contains(k) || k
                    == gone@[i as int]@) by {
                    if s1.contains(k) {
                        let j: int = choose|j: int| 0 <= j < t1.len() && #[trigger] t1[j]@ == k;
                        if j < i {
                            assert(t0[j]@ == k);
                        }
                    }
                    if s0.contains(k) {
                        let j: int = choose|j: int| 0 <= j < t0.len() && #[trigger] t0[j]@ == k;
                        assert(t1[j]@ == k);
                    }
                    assert(t1[i as int]@ == gone@[i as int]@);
                }
                assert(self@ =~= old(self)@.remove_keys(s1));
            }
            i = i + 1;
        }
        assert(gone@.take(i as int) =~= gone@);
    }
}

/// Puts a new row in the place of another, and gives out the value that was there.
fn take_row<V>(rows: Vec<(String, V)>, i: usize, name: String, value: V) -> (r: (
    Vec<(String, V)>,
    V,
))
    requires
        i < rows@.len(),
    ensures
        r.0@ == rows@.update(i as int, (name, value)),
        r.1 == rows@[i as int].1,
{
    let mut rows: Vec<(String, V)> = rows;
    let old_row: (String, V) = rows.remove(i);
    rows.insert(i, (name, value));
    (rows, old_row.1)
}

/// A list of names stands for the set of those that are in it.
pub proof fn law_list_stands_for_its_names(v: Seq<String>, name: String, k: Seq<char>)
    ensures
        !name_set(seq![]).contains(k),
        name_set(v.push(name)).contains(k) <==> name_set(v).contains(k) || name@ == k,
{
    let more = v.push(name);
    if name_set(v).contains(k) {
        let i: int = choose|i: int| 0 <= i < v.len() && #[trigger] v[i]@ == k;
        assert(more[i]@ == k);
    }
    if name@ == k {
        assert(more[v.len() as int]@ == k);
    }
    if name_set(more).contains(k) {
        let i: int = choose|i: int| 0 <= i < more.len() && #[trigger] more[i]@ == k;
        if i < v.len() {
            assert(v[i]@ == k);
        }
    }
}

} // verus!
