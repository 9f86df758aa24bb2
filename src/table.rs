use vstd::prelude::*;

verus! {

/// The identity of a namespaced object: its namespace and its name.
pub type Key = (Seq<char>, Seq<char>);

/// An object identified by namespace and name.
pub trait Entity: Sized {
    spec fn key(&self) -> Key;

    fn ns(&self) -> (r: &String)
        ensures
            r@ == self.key().0,
    ;

    fn name(&self) -> (r: &String)
        ensures
            r@ == self.key().1,
    ;
}

/// The map that upserting each object of `s` in turn, into an empty table, yields.
pub open spec fn table_of<T: Entity>(s: Seq<T>) -> Map<Key, T>
    decreases s.len(),
{
    if s.len() == 0 {
        Map::empty()
    } else {
        table_of(s.drop_last()).insert(s.last().key(), s.last())
    }
}

/// A set of objects with distinct keys; its view maps each key to its object.
pub struct Table<T> {
    pub items: Vec<T>,
}

impl<T: Entity> Table<T> {
    /// No two objects share a key.
    pub open spec fn wf(&self) -> bool {
        forall|i: int, j: int|
            0 <= i < self.items.len() && 0 <= j < self.items.len() && i != j
                ==> #[trigger] self.items@[i].key() != #[trigger] self.items@[j].key()
    }

    /// Some object has key `k`.
    pub open spec fn has(&self, k: Key) -> bool {
        exists|i: int| 0 <= i < self.items.len() && #[trigger] self.items@[i].key() == k
    }

    /// The position of an object with key `k`.
    pub open spec fn index_of(&self, k: Key) -> int {
        choose|i: int| 0 <= i < self.items.len() && #[trigger] self.items@[i].key() == k
    }

    pub open spec fn view(&self) -> Map<Key, T> {
        Map::new(|k: Key| self.has(k), |k: Key| self.items@[self.index_of(k)])
    }

    /// The view maps the key of each object to that object.
    pub proof fn lemma_view_at(&self, i: int)
        requires
            self.wf(),
            0 <= i < self.items.len(),
        ensures
            self.view().contains_key(self.items@[i].key()),
            self.view()[self.items@[i].key()] == self.items@[i],
    {
        let k = self.items@[i].key();
        assert(self.has(k));
        let j = self.index_of(k);
        assert(self.items@[j].key() == k);
    }

    /// The object the view gives for a key has that key, and sits at `index_of`.
    pub proof fn lemma_view_key(&self, k: Key)
        requires
            self.view().contains_key(k),
        ensures
            self.view()[k].key() == k,
            0 <= self.index_of(k) < self.items.len(),
            self.items@[self.index_of(k)] == self.view()[k],
    {
    }

    /// An empty table.
    pub fn new() -> (r: Table<T>)
        ensures
            r.wf(),
            r.view() == Map::<Key, T>::empty(),
            r.items@.len() == 0,
    {
        let r = Table { items: Vec::new() };
        assert(r.view() =~= Map::<Key, T>::empty());
        r
    }

    /// The position of the object with this namespace and name.
    pub fn find(&self, ns: &String, name: &String) -> (r: Option<usize>)
        requires
            self.wf(),
        ensures
            match r {
                Some(i) => i < self.items.len() && self.items@[i as int].key() == (ns@, name@)
                    && self.view().contains_key((ns@, name@)) && self.view()[(ns@, name@)]
                    == self.items@[i as int],
                None => !self.view().contains_key((ns@, name@)),
            },
    {
        let mut i: usize = 0;
        while i < self.items.len()
            invariant
                0 <= i <= self.items.len(),
                self.wf(),
                forall|m: int| 0 <= m < i ==> #[trigger] self.items@[m].key() != (ns@, name@),
            decreases self.items.len() - i,
        {
            let same_ns = *self.items[i].ns() == *ns;
            let same_name = *self.items[i].name() == *name;
            if same_ns && same_name {
                proof {
                    self.lemma_view_at(i as int);
                }
                return Some(i);
            }
            assert(self.items@[i as int].key() != (ns@, name@)) by {
                let k = self.items@[i as int].key();
                assert(!(k.0 == ns@ && k.1 == name@));
            }
            i += 1;
        }
        None
    }

    /// Adds the object, replacing the one with the same key.
    pub fn upsert(&mut self, t: T)
        requires
            old(self).wf(),
        ensures
            final(self).wf(),
            final(self).view() == old(self).view().insert(t.key(), t),
    {
        let k = Ghost(t.key());
        let pos = self.find(t.ns(), t.name());
        let ghost before = self.items@;
        match pos {
            Some(i) => {
                self.items.set(i, t);
                assert forall|k2: Key| #[trigger] self.has(k2) == (old(self).has(k2) || k2 == k@) by {
                    if old(self).has(k2) {
                        let j = old(self).index_of(k2);
                        assert(self.items@[j].key() == k2 || j == i);
                    }
                    if self.has(k2) {
                        let j = self.index_of(k2);
                        assert(before[j].key() == k2 || j == i);
                    }
                }
                assert forall|k2: Key| #[trigger]
                    self.view().contains_key(k2) implies self.view()[k2] == old(
                    self,
                ).view().insert(k@, t)[k2] by {
                    let j = self.index_of(k2);
                    if k2 != k@ {
                        assert(j != i);
                        old(self).lemma_view_at(j);
                    }
                }
            },
            None => {
                self.items.push(t);
                assert forall|k2: Key| #[trigger] self.has(k2) == (old(self).has(k2) || k2 == k@) by {
                    if old(self).has(k2) {
                        let j = old(self).index_of(k2);
                        assert(self.items@[j].key() == k2);
                    }
                    if k2 == k@ {
                        assert(self.items@[before.len() as int].key() == k2);
                    }
                }
                assert forall|k2: Key| #[trigger]
                    self.view().contains_key(k2) implies self.view()[k2] == old(
                    self,
                ).view().insert(k@, t)[k2] by {
                    let j = self.index_of(k2);
                    if k2 != k@ {
                        assert(j != before.len());
                        old(self).lemma_view_at(j);
                    }
                }
            },
        }
        assert(self.view() =~= old(self).view().insert(k@, t));
    }

    /// Removes the object with this namespace and name, returning it.
    pub fn remove(&mut self, ns: &String, name: &String) -> (r: Option<T>)
        requires
            old(self).wf(),
        ensures
            final(self).wf(),
            final(self).view() == old(self).view().remove((ns@, name@)),
            r is Some <==> old(self).view().contains_key((ns@, name@)),
            r is Some ==> r->0 == old(self).view()[(ns@, name@)],
            r is None ==> *final(self) == *old(self),
    {
        let k = Ghost((ns@, name@));
        match self.find(ns, name) {
            Some(i) => {
                let ghost before = self.items@;
                let t = self.items.remove(i);
                assert forall|k2: Key| #[trigger] self.has(k2) == (old(self).has(k2) && k2 != k@) by {
                    if old(self).has(k2) && k2 != k@ {
                        let j = old(self).index_of(k2);
                        if j < i {
                            assert(self.items@[j].key() == k2);
                        } else {
                            assert(j != i);
                            assert(self.items@[j - 1].key() == k2);
                        }
                    }
                    if self.has(k2) {
                        let j = self.index_of(k2);
                        if j < i {
                            assert(before[j].key() == k2);
                        } else {
                            assert(before[j + 1].key() == k2);
                        }
                    }
                }
                assert forall|k2: Key| #[trigger]
                    self.view().contains_key(k2) implies self.view()[k2] == old(
                    self,
                ).view().remove(k@)[k2] by {
                    let j = self.index_of(k2);
                    if j < i {
                        old(self).lemma_view_at(j);
                    } else {
                        old(self).lemma_view_at(j + 1);
                    }
                }
                assert(self.view() =~= old(self).view().remove(k@));
                Some(t)
            },
            None => {
                assert(self.view() =~= old(self).view().remove(k@));
                None
            },
        }
    }

    /// The table holding the objects of `v`; of two with one key, the later stays.
    pub fn from_vec(v: Vec<T>) -> (r: Table<T>)
        ensures
            r.wf(),
            r.view() == table_of(v@),
    {
        let ghost orig = v@;
        let len = v.len();
        assert(orig.len() == len);
        let mut v = v;
        let mut t = Table::new();
        let mut taken: usize = 0;
        while v.len() > 0
            invariant
                t.wf(),
                taken <= orig.len(),
                orig.len() <= usize::MAX,
                v@ == orig.subrange(taken as int, orig.len() as int),
                t.view() == table_of(orig.subrange(0, taken as int)),
            decreases v.len(),
        {
            let x = v.remove(0);
            assert(orig.subrange(0, taken + 1).drop_last() =~= orig.subrange(0, taken as int));
            assert(orig.subrange(taken + 1, orig.len() as int) =~= v@);
            t.upsert(x);
            taken += 1;
        }
        assert(orig.subrange(0, orig.len() as int) =~= orig);
        t
    }
}

} // verus!
