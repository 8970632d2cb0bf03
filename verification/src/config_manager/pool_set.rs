//! Sets of pools.

use vstd::prelude::*;

use crate::base::assoc::MapKey;
use crate::types::backend::BackendPoolId;

verus! {

/// A set of pool identifiers.
#[derive(Debug)]
pub struct PoolSet {
    ids: Vec<BackendPoolId>,
}

/// Whether `name` is among `ids`.
pub open spec fn names(ids: Seq<BackendPoolId>, name: Seq<char>) -> bool {
    exists|i: int| 0 <= i < ids.len() && (#[trigger] ids[i])@ == name
}

impl View for PoolSet {
    type V = Set<Seq<char>>;

    closed spec fn view(&self) -> Set<Seq<char>> {
        Set::new(|name: Seq<char>| names(self.ids@, name))
    }
}

impl PoolSet {
    pub fn new() -> (s: PoolSet)
        ensures
            s@ == Set::<Seq<char>>::empty(),
    {
        let s = PoolSet { ids: Vec::new() };
        assert(s@ =~= Set::<Seq<char>>::empty());
        s
    }

    pub fn contains(&self, id: &BackendPoolId) -> (b: bool)
        ensures
            b == self@.contains(id@),
    {
        let mut i: usize = 0;
        while i < self.ids.len()
            invariant
                i <= self.ids@.len(),
                forall|j: int| 0 <= j < i ==> (#[trigger] self.ids@[j])@ != id@,
            decreases self.ids@.len() - i,
        {
            if self.ids[i].same(id) {
                return true;
            }
            i = i + 1;
        }
        false
    }

    pub fn is_empty(&self) -> (b: bool)
        ensures
            b == (self@ == Set::<Seq<char>>::empty()),
    {
        proof {
            if self.ids@.len() == 0 {
                assert(self@ =~= Set::<Seq<char>>::empty());
            } else {
                assert(names(self.ids@, self.ids@[0]@));
                assert(self@.contains(self.ids@[0]@));
            }
        }
        self.ids.len() == 0
    }

    /// Whether an identifier comes before the `i`-th that is the same.
    fn repeats(&self, i: usize) -> (b: bool)
        requires
            i < self.ids@.len(),
        ensures
            b == names(self.ids@.take(i as int), self.ids@[i as int]@),
    {
        let ghost before = self.ids@.take(i as int);
        let mut j: usize = 0;
        while j < i
            invariant
                j <= i < self.ids@.len(),
                before == self.ids@.take(i as int),
                forall|k: int| 0 <= k < j ==> (#[trigger] before[k])@ != self.ids@[i as int]@,
            decreases i - j,
        {
            if self.ids[j].same(&self.ids[i]) {
                assert(before[j as int]@ == self.ids@[i as int]@);
                return true;
            }
            j = j + 1;
        }
        false
    }

    /// How many identifiers are in the set.
    pub fn len(&self) -> (n: usize)
        ensures
            self@.finite(),
            n == self@.len(),
    {
        let mut n: usize = 0;
        let mut i: usize = 0;
        let ghost mut seen = Set::<Seq<char>>::empty();
        while i < self.ids.len()
            invariant
                n <= i <= self.ids@.len(),
                seen.finite(),
                n == seen.len(),
                forall|x: Seq<char>| #[trigger]
                    seen.contains(x) <==> names(self.ids@.take(i as int), x),
            decreases self.ids@.len() - i,
        {
            let ghost a = self.ids@.take(i as int);
            let ghost b = self.ids@.take(i + 1);
            let ghost name = self.ids@[i as int]@;
            proof {
                assert forall|x: Seq<char>| names(b, x) <==> (names(a, x) || x == name) by {
                    if names(a, x) {
                        let j = choose|j: int| 0 <= j < a.len() && (#[trigger] a[j])@ == x;
                        assert(b[j]@ == x);
                    }
                    if names(b, x) {
                        let j = choose|j: int| 0 <= j < b.len() && (#[trigger] b[j])@ == x;
                        if j < i {
                            assert(a[j]@ == x);
                        }
                    }
                    if x == name {
                        assert(b[i as int]@ == x);
                    }
                }
                assert(seen.contains(name) == names(a, name));
            }
            if !self.repeats(i) {
                n = n + 1;
            }
            proof {
                seen = seen.insert(name);
            }
            i = i + 1;
        }
        proof {
            assert(self.ids@.take(i as int) =~= self.ids@);
            assert(self@ =~= seen);
        }
        n
    }

    pub fn insert(&mut self, id: BackendPoolId)
        ensures
            final(self)@ == old(self)@.insert(id@),
    {
        if self.contains(&id) {
            assert(self@ =~= old(self)@.insert(id@));
            return;
        }
        let ghost before = self.ids@;
        let ghost name = id@;
        self.ids.push(id);
        proof {
            assert forall|x: Seq<char>| names(self.ids@, x) <==> (names(before, x) || x == name) by {
                if names(before, x) {
                    let i = choose|i: int| 0 <= i < before.len() && (#[trigger] before[i])@ == x;
                    assert(self.ids@[i]@ == x);
                }
                if x == name {
                    assert(self.ids@[before.len() as int]@ == x);
                }
            }
            assert(self@ =~= old(self)@.insert(name));
        }
    }

    /// Adds all identifiers of `other`.
    pub fn extend(&mut self, other: &PoolSet)
        ensures
            final(self)@ == old(self)@.union(other@),
    {
        let ghost start = self@;
        let mut i: usize = 0;
        assert(self@ =~= start.union(
            Set::new(|name: Seq<char>| names(other.ids@.take(0), name)),
        ));
        while i < other.ids.len()
            invariant
                i <= other.ids@.len(),
                self@ == start.union(
                    Set::new(|name: Seq<char>| names(other.ids@.take(i as int), name)),
                ),
            decreases other.ids@.len() - i,
        {
            let ghost before = self@;
            self.insert(other.ids[i].clone());
            proof {
                let a = other.ids@.take(i as int);
                let b = other.ids@.take(i + 1);
                assert forall|x: Seq<char>| names(b, x) <==> (names(a, x) || x
                    == other.ids@[i as int]@) by {
                    if names(a, x) {
                        let j = choose|j: int| 0 <= j < a.len() && (#[trigger] a[j])@ == x;
                        assert(b[j]@ == x);
                    }
                    if names(b, x) {
                        let j = choose|j: int| 0 <= j < b.len() && (#[trigger] b[j])@ == x;
                        if j < i {
                            assert(a[j]@ == x);
                        }
                    }
                    if x == other.ids@[i as int]@ {
                        assert(b[i as int]@ == x);
                    }
                }
                assert(self@ =~= start.union(Set::new(|name: Seq<char>| names(b, name))));
            }
            i = i + 1;
        }
        assert(other.ids@.take(i as int) =~= other.ids@);
    }
}

impl Clone for PoolSet {
    fn clone(&self) -> (r: PoolSet)
        ensures
            r@ == self@,
    {
        let mut r = PoolSet::new();
        r.extend(self);
        assert(r@ =~= self@);
        r
    }
}

} // verus!
