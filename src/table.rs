use vstd::prelude::*;

verus! {

/// The variable table: each name bound at most once, to a 32-bit value.
pub struct VarTable {
    entries: Vec<(String, i32)>,
}

impl VarTable {
    /// No name occurs twice.
    pub closed spec fn wf(&self) -> bool {
        forall|i: int, j: int|
            0 <= i < self.entries@.len() && 0 <= j < self.entries@.len()
                && #[trigger] self.entries@[i].0@ == #[trigger] self.entries@[j].0@ ==> i == j
    }

    spec fn holds(&self, k: Seq<char>) -> bool {
        exists|i: int| 0 <= i < self.entries@.len() && #[trigger] self.entries@[i].0@ == k
    }

    spec fn slot(&self, k: Seq<char>) -> int {
        choose|i: int| 0 <= i < self.entries@.len() && #[trigger] self.entries@[i].0@ == k
    }

    proof fn lemma_slot(&self, k: Seq<char>, i: int)
        requires
            self.wf(),
            0 <= i < self.entries@.len(),
            self.entries@[i].0@ == k,
        ensures
            self.holds(k),
            self.slot(k) == i,
    {
        assert(self.holds(k));
    }

    /// An empty table.
    pub fn new() -> (r: VarTable)
        ensures
            r.wf(),
            r@ == Map::<Seq<char>, i32>::empty(),
    {
        let r = VarTable { entries: Vec::new() };
        assert(r@ =~= Map::<Seq<char>, i32>::empty());
        r
    }

    /// The value bound to a name, if any.
    pub fn get(&self, name: &String) -> (r: Option<i32>)
        requires
            self.wf(),
        ensures
            r == (if self@.contains_key(name@) {
                Some(self@[name@])
            } else {
                None::<i32>
            }),
    {
        let mut i: usize = 0;
        while i < self.entries.len()
            invariant
                self.wf(),
                i <= self.entries@.len(),
                forall|j: int| 0 <= j < i ==> #[trigger] self.entries@[j].0@ != name@,
            decreases self.entries@.len() - i,
        {
            if self.entries[i].0 == *name {
                proof {
                    self.lemma_slot(name@, i as int);
                }
                return Some(self.entries[i].1);
            }
            i = i + 1;
        }
        None
    }

    /// Binds a name to a value, replacing any earlier binding.
    pub fn insert(&mut self, name: String, value: i32)
        requires
            old(self).wf(),
        ensures
            final(self).wf(),
            final(self)@ == old(self)@.insert(name@, value),
    {
        let ghost before = *self;
        let mut i: usize = 0;
        while i < self.entries.len()
            invariant
                *self == before,
                before == *old(self),
                before.wf(),
                i <= self.entries@.len(),
                forall|j: int| 0 <= j < i ==> #[trigger] self.entries@[j].0@ != name@,
            decreases self.entries@.len() - i,
        {
            if self.entries[i].0 == name {
                let ghost k = name@;
                self.entries.set(i, (name, value));
                proof {
                    assert forall|a: int| 0 <= a < self.entries@.len() implies #[trigger] self.entries@[a].0@
                        == before.entries@[a].0@ by {}
                    assert(self.wf());
                    assert forall|key: Seq<char>| #[trigger] self.holds(key) == before.holds(key) by {
                        if before.holds(key) {
                            let c = before.slot(key);
                            assert(self.entries@[c].0@ == key);
                        }
                        if self.holds(key) {
                            let c = self.slot(key);
                            assert(before.entries@[c].0@ == key);
                        }
                    }
                    assert forall|key: Seq<char>| #[trigger] self.holds(key) && key != k implies self.entries@[self.slot(key)].1
                        == before.entries@[before.slot(key)].1 by {
                        let c = self.slot(key);
                        before.lemma_slot(key, c);
                    }
                    self.lemma_slot(k, i as int);
                    assert(self@ =~= before@.insert(k, value));
                }
                return;
            }
            i = i + 1;
        }
        let ghost k = name@;
        self.entries.push((name, value));
        proof {
            let n = before.entries@.len() as int;
            assert forall|a: int| 0 <= a < n implies #[trigger] self.entries@[a] == before.entries@[a] by {}
            assert(self.wf());
            assert forall|key: Seq<char>| key != k implies #[trigger] self.holds(key) == before.holds(key) by {
                if before.holds(key) {
                    let c = before.slot(key);
                    assert(self.entries@[c].0@ == key);
                }
                if self.holds(key) {
                    let c = self.slot(key);
                    assert(before.entries@[c].0@ == key);
                }
            }
            assert forall|key: Seq<char>| #[trigger] self.holds(key) && key != k implies self.entries@[self.slot(key)].1
                == before.entries@[before.slot(key)].1 by {
                let c = self.slot(key);
                before.lemma_slot(key, c);
            }
            self.lemma_slot(k, n);
            assert(self@ =~= before@.insert(k, value));
        }
    }
}

impl View for VarTable {
    type V = Map<Seq<char>, i32>;

    closed spec fn view(&self) -> Map<Seq<char>, i32> {
        Map::new(|k: Seq<char>| self.holds(k), |k: Seq<char>| self.entries@[self.slot(k)].1)
    }
}

} // verus!
