//! A table from names to values that remembers the order in which the names
//! came.

use vstd::prelude::*;

verus! {

/// A type whose values stand for mathematical ones.
pub trait Model {
    /// What a value stands for.
    type M;

    spec fn model(&self) -> Self::M;
}

/// Some row carries the name.
pub open spec fn listed<T>(rows: Seq<(Seq<char>, T)>, name: Seq<char>) -> bool {
    exists|i: int| 0 <= i < rows.len() && (#[trigger] rows[i]).0 == name
}

/// A row that carries the name.
pub open spec fn place<T>(rows: Seq<(Seq<char>, T)>, name: Seq<char>) -> int {
    choose|i: int| 0 <= i < rows.len() && (#[trigger] rows[i]).0 == name
}

/// The value under a name.
pub open spec fn at<T>(rows: Seq<(Seq<char>, T)>, name: Seq<char>) -> T {
    rows[place(rows, name)].1
}

/// No name occurs twice.
pub open spec fn distinct<T>(rows: Seq<(Seq<char>, T)>) -> bool {
    forall|i: int, j: int|
        0 <= i < j < rows.len() ==> (#[trigger] rows[i]).0 != (#[trigger] rows[j]).0
}

/// The rows with a value under a name: a known name keeps its place, a new one
/// comes last.
pub open spec fn put<T>(rows: Seq<(Seq<char>, T)>, name: Seq<char>, value: T) -> Seq<
    (Seq<char>, T),
> {
    if listed(rows, name) {
        rows.update(place(rows, name), (name, value))
    } else {
        rows.push((name, value))
    }
}

/// The rows without a name.
pub open spec fn del<T>(rows: Seq<(Seq<char>, T)>, name: Seq<char>) -> Seq<(Seq<char>, T)> {
    if listed(rows, name) {
        rows.remove(place(rows, name))
    } else {
        rows
    }
}

/// The rows as a map, without their order.
pub open spec fn as_map<T>(rows: Seq<(Seq<char>, T)>) -> Map<Seq<char>, T> {
    Map::new(|name: Seq<char>| listed(rows, name), |name: Seq<char>| at(rows, name))
}

/// In rows without a repeated name, a row is the place of its name.
pub proof fn lemma_place<T>(rows: Seq<(Seq<char>, T)>, i: int)
    requires
        distinct(rows),
        0 <= i < rows.len(),
    ensures
        listed(rows, rows[i].0),
        place(rows, rows[i].0) == i,
        at(rows, rows[i].0) == rows[i].1,
        as_map(rows).contains_key(rows[i].0),
        as_map(rows)[rows[i].0] == rows[i].1,
{
    let name = rows[i].0;
    assert(listed(rows, name));
    let k = place(rows, name);
    assert(0 <= k < rows.len() && rows[k].0 == name);
    assert(k == i);
}

/// What `put` does to the rows and to the map they stand for.
pub proof fn lemma_put<T>(rows: Seq<(Seq<char>, T)>, name: Seq<char>, value: T)
    requires
        distinct(rows),
    ensures
        distinct(put(rows, name, value)),
        as_map(put(rows, name, value)) == as_map(rows).insert(name, value),
{
    let new = put(rows, name, value);
    if listed(rows, name) {
        let k = place(rows, name);
        assert(0 <= k < rows.len() && rows[k].0 == name);
        assert forall|i: int, j: int| 0 <= i < j < new.len() implies (#[trigger] new[i]).0 != (
        #[trigger] new[j]).0 by {
            assert(rows[i].0 != rows[j].0);
        }
        assert forall|n: Seq<char>| listed(new, n) == (listed(rows, n) || n == name) by {
            if listed(new, n) {
                let i = place(new, n);
                assert(rows[i].0 == n);
            }
            if listed(rows, n) {
                let i = place(rows, n);
                assert(new[i].0 == n);
            }
        }
        assert forall|n: Seq<char>| listed(new, n) implies at(new, n) == as_map(rows).insert(
            name,
            value,
        )[n] by {
            let i = place(new, n);
            assert(new[i].0 == n);
            lemma_place(new, i);
            lemma_place(rows, i);
            lemma_place(rows, k);
        }
    } else {
        assert forall|i: int, j: int| 0 <= i < j < new.len() implies (#[trigger] new[i]).0 != (
        #[trigger] new[j]).0 by {
            assert(rows[i].0 != name);
            if j < rows.len() {
                assert(rows[i].0 != rows[j].0);
            }
        }
        assert(new[rows.len() as int].0 == name);
        assert forall|n: Seq<char>| listed(new, n) == (listed(rows, n) || n == name) by {
            if listed(rows, n) {
                let i = place(rows, n);
                assert(new[i].0 == n);
            }
            if listed(new, n) {
                let i = place(new, n);
                if i < rows.len() {
                    assert(rows[i].0 == n);
                }
            }
        }
        assert forall|n: Seq<char>| listed(new, n) implies at(new, n) == as_map(rows).insert(
            name,
            value,
        )[n] by {
            let i = place(new, n);
            assert(new[i].0 == n);
            lemma_place(new, i);
            if i < rows.len() {
                lemma_place(rows, i);
            }
        }
    }
    assert(as_map(new) =~= as_map(rows).insert(name, value));
}

/// What `del` does to the rows and to the map they stand for.
pub proof fn lemma_del<T>(rows: Seq<(Seq<char>, T)>, name: Seq<char>)
    requires
        distinct(rows),
    ensures
        distinct(del(rows, name)),
        as_map(del(rows, name)) == as_map(rows).remove(name),
{
    let new = del(rows, name);
    if listed(rows, name) {
        let k = place(rows, name);
        assert(0 <= k < rows.len() && rows[k].0 == name);
        assert forall|i: int, j: int| 0 <= i < j < new.len() implies (#[trigger] new[i]).0 != (
        #[trigger] new[j]).0 by {
            let p = if i < k { i } else { i + 1 };
            let q = if j < k { j } else { j + 1 };
            assert(new[i] == rows[p]);
            assert(new[j] == rows[q]);
        }
        assert forall|n: Seq<char>| listed(new, n) == (listed(rows, n) && n != name) by {
            if listed(new, n) {
                let i = place(new, n);
                let p = if i < k { i } else { i + 1 };
                assert(new[i] == rows[p]);
                lemma_place(rows, p);
                assert(rows[p].0 != rows[k].0);
            }
            if listed(rows, n) && n != name {
                let i = place(rows, n);
                assert(rows[i].0 == n);
                let p = if i < k { i } else { i - 1 };
                assert(new[p] == rows[i]);
            }
        }
        assert forall|n: Seq<char>| listed(new, n) implies at(new, n) == as_map(rows)[n] by {
            let i = place(new, n);
            assert(new[i].0 == n);
            let p = if i < k { i } else { i + 1 };
            assert(new[i] == rows[p]);
            lemma_place(new, i);
            lemma_place(rows, p);
        }
    }
    assert(as_map(new) =~= as_map(rows).remove(name));
}

/// A table from names to values.
pub struct Table<V: Model> {
    rows: Vec<(String, V)>,
}

impl<V: Model> View for Table<V> {
    type V = Seq<(Seq<char>, V::M)>;

    closed spec fn view(&self) -> Seq<(Seq<char>, V::M)> {
        Seq::new(self.rows@.len(), |i: int| (self.rows@[i].0@, self.rows@[i].1.model()))
    }
}

impl<V: Model> Table<V> {
    /// No name occurs twice.
    pub open spec fn wf(&self) -> bool {
        distinct(self@)
    }

    /// The table as a map, without the order of its rows.
    pub open spec fn map(&self) -> Map<Seq<char>, V::M> {
        as_map(self@)
    }

    /// An empty table.
    pub fn new() -> (r: Self)
        ensures
            r.wf(),
            r@ == Seq::<(Seq<char>, V::M)>::empty(),
    {
        let r = Table { rows: Vec::new() };
        assert(r@ == Seq::<(Seq<char>, V::M)>::empty());
        r
    }

    /// How many names the table holds.
    pub fn len(&self) -> (r: usize)
        ensures
            r == self@.len(),
    {
        self.rows.len()
    }

    /// The name in a row.
    pub fn name(&self, i: usize) -> (r: &String)
        requires
            i < self@.len(),
        ensures
            r@ == self@[i as int].0,
    {
        &self.rows[i].0
    }

    /// The value in a row.
    pub fn value(&self, i: usize) -> (r: &V)
        requires
            i < self@.len(),
        ensures
            r.model() == self@[i as int].1,
    {
        &self.rows[i].1
    }

    /// The row of a name, if the table has it.
    fn find(&self, name: &String) -> (r: Option<usize>)
        requires
            self.wf(),
        ensures
            match r {
                Some(i) => i < self@.len() && self@[i as int].0 == name@ && listed(self@, name@)
                    && place(self@, name@) == i,
                None => !listed(self@, name@),
            },
    {
        let mut i: usize = 0;
        while i < self.rows.len()
            invariant
                self.wf(),
                i <= self.rows@.len(),
                forall|j: int| 0 <= j < i ==> (#[trigger] self@[j]).0 != name@,
            decreases self.rows@.len() - i,
        {
            if self.rows[i].0 == *name {
                proof {
                    assert(self@[i as int].0 == name@);
                    lemma_place(self@, i as int);
                }
                return Some(i);
            }
            assert(self@[i as int].0 != name@);
            i += 1;
        }
        None
    }

    /// Tells whether the table has a name.
    pub fn contains_key(&self, name: &String) -> (r: bool)
        requires
            self.wf(),
        ensures
            r == listed(self@, name@),
            r == self.map().contains_key(name@),
    {
        self.find(name).is_some()
    }

    /// The value under a name, if the table has it.
    pub fn get(&self, name: &String) -> (r: Option<&V>)
        requires
            self.wf(),
        ensures
            match r {
                Some(v) => listed(self@, name@) && v.model() == at(self@, name@)
                    && self.map().contains_key(name@) && v.model() == self.map()[name@],
                None => !listed(self@, name@) && !self.map().contains_key(name@),
            },
    {
        match self.find(name) {
            Some(i) => Some(&self.rows[i].1),
            None => None,
        }
    }

    /// The value under a name, to be changed in place.
    pub fn get_mut(&mut self, name: &String) -> (r: Option<&mut V>)
        requires
            old(self).wf(),
        ensures
            match r {
                Some(v) => listed(old(self)@, name@) && v.model() == at(old(self)@, name@)
                    && final(self)@ == put(old(self)@, name@, final(v).model()),
                None => !listed(old(self)@, name@) && final(self)@ == old(self)@,
            },
    {
        match self.find(name) {
            Some(i) => Some(&mut self.rows[i].1),
            None => None,
        }
    }

    /// Writes a value under a name, in place of the one that was there.
    pub fn insert(&mut self, name: String, value: V)
        requires
            old(self).wf(),
        ensures
            final(self).wf(),
            final(self)@ == put(old(self)@, name@, value.model()),
            final(self).map() == old(self).map().insert(name@, value.model()),
    {
        proof {
            lemma_put(self@, name@, value.model());
        }
        match self.find(&name) {
            Some(i) => {
                self.rows.set(i, (name, value));
            },
            None => {
                self.rows.push((name, value));
            },
        }
        assert(self@ == put(old(self)@, name@, value.model()));
    }

    /// Takes a name out of the table.
    pub fn remove(&mut self, name: &String)
        requires
            old(self).wf(),
        ensures
            final(self).wf(),
            final(self)@ == del(old(self)@, name@),
            final(self).map() == old(self).map().remove(name@),
    {
        proof {
            lemma_del(self@, name@);
        }
        match self.find(name) {
            Some(i) => {
                self.rows.remove(i);
            },
            None => {},
        }
        assert(self@ == del(old(self)@, name@));
    }
}

/// Rows stand for the map that has each of their names, and under it the value
/// in that row. No name occurs twice if and only if two rows with one name are
/// the same row.
pub proof fn law_rows_stand_for_a_map<T>(rows: Seq<(Seq<char>, T)>, name: Seq<char>, value: T)
    ensures
        listed(rows, name) <==> exists|i: int|
            0 <= i < rows.len() && (#[trigger] rows[i]).0 == name,
        as_map(rows).contains_key(name) <==> exists|i: int|
            0 <= i < rows.len() && (#[trigger] rows[i]).0 == name,
        as_map(rows).contains_key(name) ==> rows.contains((name, as_map(rows)[name])),
        as_map(rows).contains_key(name) ==> at(rows, name) == as_map(rows)[name],
        distinct(rows) <==> forall|i: int, j: int|
            0 <= i < rows.len() && 0 <= j < rows.len() && (#[trigger] rows[i]).0 == (
            #[trigger] rows[j]).0 ==> i == j,
        distinct(rows) && rows.contains((name, value)) ==> as_map(rows)[name] == value,
{
    if listed(rows, name) {
        let k = place(rows, name);
        assert(rows[k].0 == name);
        assert(rows[k] == (name, as_map(rows)[name]));
    }
    if distinct(rows) && rows.contains((name, value)) {
        lemma_place(rows, rows.index_of((name, value)));
    }
}

/// Writing a value under a name changes no other row: a known name keeps its
/// place, a new one comes last.
pub proof fn law_writing_keeps_the_order<T>(
    rows: Seq<(Seq<char>, T)>,
    name: Seq<char>,
    value: T,
)
    ensures
        (forall|i: int| 0 <= i < rows.len() ==> (#[trigger] rows[i]).0 != name) ==> put(
            rows,
            name,
            value,
        ) == rows.push((name, value)),
        (exists|i: int| 0 <= i < rows.len() && (#[trigger] rows[i]).0 == name) ==> {
            &&& put(rows, name, value).len() == rows.len()
            &&& forall|i: int|
                0 <= i < rows.len() ==> (#[trigger] put(rows, name, value)[i]).0 == rows[i].0
            &&& forall|i: int|
                0 <= i < rows.len() && rows[i].0 != name ==> #[trigger] put(rows, name, value)[i]
                    == rows[i]
        },
{
    if listed(rows, name) {
        assert(rows[place(rows, name)].0 == name);
    }
}

} // verus!
