use vstd::prelude::*;

verus! {

/// Rows keyed by a string. A key stands at most once; a later write to the
/// same key replaces the row. Rows are never removed.
pub struct Table<V> {
    rows: Vec<(String, V)>,
}

impl<V> Table<V> {
    /// No key stands in two rows.
    pub closed spec fn wf(self) -> bool {
        forall|i: int, j: int|
            0 <= i < j < self.rows.len() ==> (#[trigger] self.rows[i]).0@ != (#[trigger] self.rows[j]).0@
    }

    /// Whether some row carries `key`.
    spec fn holds(self, key: Seq<char>) -> bool {
        exists|i: int| 0 <= i < self.rows.len() && (#[trigger] self.rows[i]).0@ == key
    }

    /// The place of the row that carries `key`.
    spec fn place(self, key: Seq<char>) -> int {
        choose|i: int| 0 <= i < self.rows.len() && (#[trigger] self.rows[i]).0@ == key
    }

    /// The table as a map from key to value.
    pub closed spec fn view(self) -> Map<Seq<char>, V> {
        Map::new(|k: Seq<char>| self.holds(k), |k: Seq<char>| self.rows[self.place(k)].1)
    }

    /// The number of rows.
    pub closed spec fn spec_len(self) -> nat {
        self.rows.len() as nat
    }

    /// The key of the row at `i`, in the order in which keys first came.
    pub closed spec fn key_at(self, i: int) -> Seq<char> {
        self.rows[i].0@
    }

    /// The value of the row at `i`.
    pub closed spec fn value_at(self, i: int) -> V {
        self.rows[i].1
    }

    /// Row `i` is the one and only row of its key.
    proof fn lemma_row(self, i: int)
        requires
            self.wf(),
            0 <= i < self.rows.len(),
        ensures
            self.holds(self.rows[i].0@),
            self.place(self.rows[i].0@) == i,
    {
        let k = self.rows[i].0@;
        assert(self.holds(k));
        let p = self.place(k);
        assert(0 <= p < self.rows.len() && self.rows[p].0@ == k);
        if p < i {
            assert(self.rows[p].0@ != self.rows[i].0@);
        } else if i < p {
            assert(self.rows[i].0@ != self.rows[p].0@);
        }
    }

    /// The rows, one by one, are what the map holds.
    pub proof fn lemma_rows_are_view(self)
        requires
            self.wf(),
        ensures
            forall|i: int|
                0 <= i < self.spec_len() ==> self@.contains_key(#[trigger] self.key_at(i))
                    && self@[self.key_at(i)] == self.value_at(i),
            forall|k: Seq<char>|
                self@.contains_key(k) ==> exists|i: int|
                    0 <= i < self.spec_len() && #[trigger] self.key_at(i) == k,
            forall|i: int, j: int|
                0 <= i < j < self.spec_len() ==> #[trigger] self.key_at(i) != #[trigger] self.key_at(j),
    {
        assert forall|i: int| 0 <= i < self.spec_len() implies self@.contains_key(
            #[trigger] self.key_at(i),
        ) && self@[self.key_at(i)] == self.value_at(i) by {
            self.lemma_row(i);
        }
        assert forall|k: Seq<char>| self@.contains_key(k) implies exists|i: int|
            0 <= i < self.spec_len() && #[trigger] self.key_at(i) == k by {
            let p = self.place(k);
            assert(0 <= p < self.rows.len() && self.rows[p].0@ == k);
            assert(self.key_at(p) == k);
        }
    }

    pub fn new() -> (t: Self)
        ensures
            t.wf(),
            t@ == Map::<Seq<char>, V>::empty(),
            t.spec_len() == 0,
    {
        let t = Table { rows: Vec::new() };
        assert(t@ =~= Map::<Seq<char>, V>::empty());
        t
    }

    /// The place of `key`, if the table holds it.
    fn find(&self, key: &String) -> (r: Option<usize>)
        ensures
            match r {
                Some(i) => i < self.rows.len() && self.rows[i as int].0@ == key@,
                None => !self.holds(key@),
            },
    {
        let mut i: usize = 0;
        while i < self.rows.len()
            invariant
                i <= self.rows.len(),
                forall|j: int| 0 <= j < i ==> (#[trigger] self.rows[j]).0@ != key@,
            decreases self.rows.len() - i,
        {
            if self.rows[i].0 == *key {
                return Some(i);
            }
            i += 1;
        }
        None
    }

    pub fn len(&self) -> (n: usize)
        ensures
            n == self.spec_len(),
    {
        self.rows.len()
    }

    /// The row at `i`, in the order in which keys first came.
    pub fn row(&self, i: usize) -> (r: (&String, &V))
        requires
            i < self.spec_len(),
        ensures
            r.0@ == self.key_at(i as int),
            *r.1 == self.value_at(i as int),
    {
        (&self.rows[i].0, &self.rows[i].1)
    }

    pub fn contains_key(&self, key: &String) -> (b: bool)
        ensures
            b == self@.contains_key(key@),
    {
        self.find(key).is_some()
    }

    pub fn get(&self, key: &String) -> (r: Option<&V>)
        requires
            self.wf(),
        ensures
            match r {
                Some(v) => self@.contains_key(key@) && *v == self@[key@],
                None => !self@.contains_key(key@),
            },
    {
        match self.find(key) {
            Some(i) => {
                proof {
                    self.lemma_row(i as int);
                }
                Some(&self.rows[i].1)
            },
            None => None,
        }
    }

    /// A table in which the row at `at` was written, or added at the end,
    /// is the table before with `key` mapped to `value`.
    proof fn lemma_written(before: Self, after: Self, key: Seq<char>, value: V, at: int)
        requires
            before.wf(),
            0 <= at <= before.rows.len(),
            at < before.rows.len() ==> after.rows.len() == before.rows.len(),
            at == before.rows.len() ==> after.rows.len() == before.rows.len() + 1,
            after.rows[at].0@ == key,
            after.rows[at].1 == value,
            at < before.rows.len() ==> before.rows[at].0@ == key,
            at == before.rows.len() ==> !before.holds(key),
            forall|j: int|
                0 <= j < before.rows.len() && j != at ==> #[trigger] after.rows[j] == before.rows[j],
        ensures
            after.wf(),
            after@ == before@.insert(key, value),
    {
        assert forall|j: int| 0 <= j < before.rows.len() implies (#[trigger] after.rows[j]).0@
            == before.rows[j].0@ by {}
        assert forall|a: int, b: int| 0 <= a < b < after.rows.len() implies (
        #[trigger] after.rows[a]).0@ != (#[trigger] after.rows[b]).0@ by {
            if b < before.rows.len() {
                assert(before.rows[a].0@ != before.rows[b].0@);
            } else {
                assert(before.rows[a].0@ != key);
            }
        }
        assert forall|k: Seq<char>| after.holds(k) == (before.holds(k) || k == key) by {
            if after.holds(k) {
                let p = after.place(k);
                if p < before.rows.len() {
                    assert(before.rows[p].0@ == k);
                }
            }
            if before.holds(k) {
                let p = before.place(k);
                assert(after.rows[p].0@ == k);
            }
            if k == key {
                assert(after.rows[at].0@ == k);
            }
        }
        assert forall|k: Seq<char>| after@.contains_key(k) implies after@[k] == before@.insert(
            key,
            value,
        )[k] by {
            let p = after.place(k);
            assert(after.holds(k));
            assert(0 <= p < after.rows.len() && after.rows[p].0@ == k);
            if k == key {
                after.lemma_row(at);
            } else {
                assert(after.rows[p] == before.rows[p]);
                before.lemma_row(p);
            }
        }
        assert forall|k: Seq<char>| after@.contains_key(k) == before@.insert(key, value).contains_key(
            k,
        ) by {
            assert(after@.contains_key(k) == after.holds(k));
            assert(before@.contains_key(k) == before.holds(k));
        }
        assert(after@ =~= before@.insert(key, value));
    }

    /// Writes `value` under `key`, in place of what stood there.
    pub fn insert(&mut self, key: String, value: V)
        requires
            old(self).wf(),
        ensures
            final(self).wf(),
            final(self)@ == old(self)@.insert(key@, value),
    {
        let ghost before = *self;
        match self.find(&key) {
            Some(i) => {
                self.rows.set(i, (key, value));
                proof {
                    Self::lemma_written(before, *self, key@, value, i as int);
                }
            },
            None => {
                self.rows.push((key, value));
                proof {
                    Self::lemma_written(before, *self, key@, value, before.rows.len() as int);
                }
            },
        }
    }
}

} // verus!
