use vstd::prelude::*;

verus! {

/// A table from labels to values, one entry per label.
pub struct LabelMap<V> {
    entries: Vec<(String, V)>,
    model: Ghost<Map<Seq<char>, V>>,
}

impl<V> View for LabelMap<V> {
    type V = Map<Seq<char>, V>;

    closed spec fn view(&self) -> Map<Seq<char>, V> {
        self.model@
    }
}

impl<V: Copy> LabelMap<V> {
    /// The entries agree with the table, one entry per label.
    pub closed spec fn wf(&self) -> bool {
        &&& forall|i: int, j: int|
            0 <= i < self.entries@.len() && 0 <= j < self.entries@.len() && i != j
                ==> #[trigger] self.entries@[i].0@ != #[trigger] self.entries@[j].0@
        &&& forall|j: int|
            0 <= j < self.entries@.len() ==> self.model@.contains_key(#[trigger] self.entries@[j].0@)
                && self.model@[self.entries@[j].0@] == self.entries@[j].1
        &&& forall|k: Seq<char>|
            #[trigger] self.model@.contains_key(k) ==> exists|j: int|
                0 <= j < self.entries@.len() && #[trigger] self.entries@[j].0@ == k
    }

    /// An empty table.
    pub fn new() -> (r: Self)
        ensures
            r.wf(),
            r@ == Map::<Seq<char>, V>::empty(),
    {
        LabelMap { entries: Vec::new(), model: Ghost(Map::empty()) }
    }

    /// The value of `label`, if it has one.
    pub fn get(&self, label: &str) -> (r: Option<V>)
        requires
            self.wf(),
        ensures
            r == (if self@.contains_key(label@) { Some(self@[label@]) } else { None }),
    {
        let mut j: usize = 0;
        while j < self.entries.len()
            invariant
                self.wf(),
                j <= self.entries@.len(),
                forall|i: int| 0 <= i < j ==> self.entries@[i].0@ != label@,
            decreases self.entries@.len() - j,
        {
            if crate::tileset::str_equal(self.entries[j].0.as_str(), label) {
                return Some(self.entries[j].1);
            }
            j += 1;
        }
        proof {
            if self.model@.contains_key(label@) {
                let i = choose|i: int| 0 <= i < self.entries@.len() && #[trigger] self.entries@[i].0@ == label@;
                assert(self.entries@[i].0@ != label@);
            }
        }
        None
    }

    /// Sets the value of `label`.
    pub fn insert(&mut self, label: &str, value: V)
        requires
            old(self).wf(),
        ensures
            final(self).wf(),
            final(self)@ == old(self)@.insert(label@, value),
    {
        let mut j: usize = 0;
        while j < self.entries.len()
            invariant
                self.wf(),
                *self == *old(self),
                j <= self.entries@.len(),
                forall|i: int| 0 <= i < j ==> self.entries@[i].0@ != label@,
            decreases self.entries@.len() - j,
        {
            if crate::tileset::str_equal(self.entries[j].0.as_str(), label) {
                let ghost before = self.entries@;
                let key = self.entries[j].0.clone();
                self.entries.set(j, (key, value));
                self.model = Ghost(self.model@.insert(label@, value));
                proof {
                    assert forall|k: Seq<char>| #[trigger] self.model@.contains_key(k) implies exists|i: int|
                        0 <= i < self.entries@.len() && #[trigger] self.entries@[i].0@ == k by {
                        if k != label@ {
                            let i = choose|i: int| 0 <= i < before.len() && #[trigger] before[i].0@ == k;
                            assert(self.entries@[i].0@ == k);
                        } else {
                            assert(self.entries@[j as int].0@ == k);
                        }
                    }
                    assert forall|i: int| 0 <= i < self.entries@.len() implies self.model@.contains_key(
                        #[trigger] self.entries@[i].0@,
                    ) && self.model@[self.entries@[i].0@] == self.entries@[i].1 by {
                        if i != j {
                            assert(before[i].0@ != before[j as int].0@);
                        }
                    }
                    assert forall|a: int, b: int|
                        0 <= a < self.entries@.len() && 0 <= b < self.entries@.len() && a != b
                        implies #[trigger] self.entries@[a].0@ != #[trigger] self.entries@[b].0@ by {
                        assert(before[a].0@ != before[b].0@);
                    }
                }
                return;
            }
            j += 1;
        }
        let ghost before = self.entries@;
        self.entries.push((label.to_owned(), value));
        self.model = Ghost(self.model@.insert(label@, value));
        proof {
            assert forall|k: Seq<char>| #[trigger] self.model@.contains_key(k) implies exists|i: int|
                0 <= i < self.entries@.len() && #[trigger] self.entries@[i].0@ == k by {
                if k != label@ {
                    let i = choose|i: int| 0 <= i < before.len() && #[trigger] before[i].0@ == k;
                    assert(self.entries@[i].0@ == k);
                } else {
                    assert(self.entries@[before.len() as int].0@ == k);
                }
            }
            assert forall|i: int| 0 <= i < self.entries@.len() implies self.model@.contains_key(
                #[trigger] self.entries@[i].0@,
            ) && self.model@[self.entries@[i].0@] == self.entries@[i].1 by {
                if i < before.len() {
                    assert(before[i].0@ != label@);
                }
            }
            assert forall|a: int, b: int|
                0 <= a < self.entries@.len() && 0 <= b < self.entries@.len() && a != b
                implies #[trigger] self.entries@[a].0@ != #[trigger] self.entries@[b].0@ by {
                if a < before.len() && b < before.len() {
                    assert(before[a].0@ != before[b].0@);
                } else if a < before.len() {
                    assert(before[a].0@ != label@);
                } else if b < before.len() {
                    assert(before[b].0@ != label@);
                }
            }
        }
    }
}

} // verus!
