//! An association list: a map whose keys are compared by their views.

use vstd::prelude::*;

verus! {

/// A key that can be told apart from others by its view.
pub trait MapKey: View + Sized {
    fn same(&self, other: &Self) -> (b: bool)
        ensures
            b == (self@ == other@),
    ;
}

/// A map in insertion order.
pub struct AssocMap<K: MapKey, V> {
    items: Vec<(K, V)>,
}

/// Where `k` stands among the keys of `items`.
pub open spec fn key_at<K: MapKey, V>(items: Seq<(K, V)>, k: K::V, i: int) -> bool {
    0 <= i < items.len() && items[i].0@ == k
}

/// Whether some item has key `k`.
pub open spec fn has_key<K: MapKey, V>(items: Seq<(K, V)>, k: K::V) -> bool {
    exists|i: int| key_at(items, k, i)
}

/// Whether no key occurs twice.
pub open spec fn keys_distinct<K: MapKey, V>(items: Seq<(K, V)>) -> bool {
    forall|i: int, j: int|
        0 <= i < items.len() && 0 <= j < items.len() && (#[trigger] items[i]).0@ == (
        #[trigger] items[j]).0@ ==> i == j
}

/// The map that an association list stands for.
pub open spec fn as_map<K: MapKey, V>(items: Seq<(K, V)>) -> Map<K::V, V> {
    Map::new(
        |k: K::V| has_key(items, k),
        |k: K::V| items[choose|i: int| key_at(items, k, i)].1,
    )
}

impl<K: MapKey, V> View for AssocMap<K, V> {
    type V = Map<K::V, V>;

    closed spec fn view(&self) -> Map<K::V, V> {
        as_map(self.items@)
    }
}

proof fn lemma_key_at<K: MapKey, V>(items: Seq<(K, V)>, k: K::V, i: int)
    requires
        keys_distinct(items),
        key_at(items, k, i),
    ensures
        as_map(items).contains_key(k),
        as_map(items)[k] == items[i].1,
{
    let j = choose|j: int| key_at(items, k, j);
    assert(items[i].0@ == items[j].0@);
}

impl<K: MapKey, V> AssocMap<K, V> {
    /// The items in the order in which their keys came in.
    pub closed spec fn items(self) -> Seq<(K, V)> {
        self.items@
    }

    /// No key occurs twice.
    pub open spec fn wf(self) -> bool {
        keys_distinct(self.items())
    }

    /// The items make up the map.
    pub proof fn lemma_view(self)
        ensures
            self@ == as_map(self.items()),
    {
    }

    /// Each item is found under its key.
    pub proof fn lemma_item(self, i: int)
        requires
            self.wf(),
            0 <= i < self.items().len(),
        ensures
            self@.contains_key(self.items()[i].0@),
            self@[self.items()[i].0@] == self.items()[i].1,
    {
        assert(key_at(self.items@, self.items@[i].0@, i));
        lemma_key_at(self.items@, self.items@[i].0@, i);
    }

    pub fn new() -> (m: AssocMap<K, V>)
        ensures
            m.wf(),
            m.items() == Seq::<(K, V)>::empty(),
            m@ == Map::<K::V, V>::empty(),
    {
        let m = AssocMap { items: Vec::new() };
        proof {
            assert(m@ =~= Map::<K::V, V>::empty()) by {
                assert forall|k: K::V| !m@.contains_key(k) by {
                    if m@.contains_key(k) {
                        let i = choose|i: int| key_at(m.items@, k, i);
                    }
                }
            }
        }
        m
    }

    pub fn len(&self) -> (n: usize)
        ensures
            n == self.items().len(),
    {
        self.items.len()
    }

    /// The `i`-th item.
    pub fn item(&self, i: usize) -> (r: (&K, &V))
        requires
            i < self.items().len(),
        ensures
            *r.0 == self.items()[i as int].0,
            *r.1 == self.items()[i as int].1,
    {
        let it = &self.items[i];
        (&it.0, &it.1)
    }

    fn position(&self, k: &K) -> (r: Option<usize>)
        ensures
            match r {
                Some(i) => key_at(self.items@, k@, i as int),
                None => !has_key(self.items@, k@),
            },
    {
        let mut i: usize = 0;
        while i < self.items.len()
            invariant
                i <= self.items@.len(),
                forall|j: int| 0 <= j < i ==> (#[trigger] self.items@[j]).0@ != k@,
            decreases self.items@.len() - i,
        {
            if self.items[i].0.same(k) {
                return Some(i);
            }
            i = i + 1;
        }
        None
    }

    pub fn get(&self, k: &K) -> (r: Option<&V>)
        requires
            self.wf(),
        ensures
            match r {
                Some(v) => self@.contains_key(k@) && *v == self@[k@],
                None => !self@.contains_key(k@),
            },
    {
        match self.position(k) {
            Some(i) => {
                proof {
                    lemma_key_at(self.items@, k@, i as int);
                }
                Some(&self.items[i].1)
            },
            None => None,
        }
    }

    pub fn contains_key(&self, k: &K) -> (b: bool)
        requires
            self.wf(),
        ensures
            b == self@.contains_key(k@),
    {
        self.get(k).is_some()
    }

    /// Maps `k` to `v`, in place of what it was mapped to before.
    pub fn insert(&mut self, k: K, v: V)
        requires
            old(self).wf(),
        ensures
            final(self).wf(),
            final(self)@ == old(self)@.insert(k@, v),
            final(self).items() == (if old(self)@.contains_key(k@) {
                replaced(old(self).items(), k, v)
            } else {
                old(self).items().push((k, v))
            }),
    {
        let ghost before = self.items@;
        let ghost kv = k@;
        match self.position(&k) {
            Some(i) => {
                self.items[i] = (k, v);
                proof {
                    let after = self.items@;
                    assert(after == before.update(i as int, (k, v)));
                    lemma_key_at(before, kv, i as int);
                    assert(keys_distinct(after));
                    assert forall|x: K::V| as_map(after).contains_key(x) <==> (as_map(
                        before,
                    ).contains_key(x) || x == kv) by {
                        if has_key(after, x) {
                            let j = choose|j: int| key_at(after, x, j);
                            assert(key_at(before, x, j));
                        }
                        if has_key(before, x) {
                            let j = choose|j: int| key_at(before, x, j);
                            assert(key_at(after, x, j));
                        }
                    }
                    assert forall|x: K::V| as_map(after).contains_key(x) implies as_map(after)[x]
                        == as_map(before).insert(kv, v)[x] by {
                        let j = choose|j: int| key_at(after, x, j);
                        lemma_key_at(after, x, j);
                        assert(key_at(before, x, j));
                        lemma_key_at(before, x, j);
                    }
                    assert(self@ =~= old(self)@.insert(kv, v));
                    assert(after =~= replaced(before, k, v)) by {
                        assert forall|j: int| 0 <= j < before.len() implies after[j] == replaced(
                            before,
                            k,
                            v,
                        )[j] by {
                            if j != i && before[j].0@ == kv {
                                assert(before[j].0@ == before[i as int].0@);
                            }
                        }
                    }
                }
            },
            None => {
                self.items.push((k, v));
                proof {
                    let after = self.items@;
                    let n = before.len() as int;
                    assert(keys_distinct(after)) by {
                        assert forall|a: int, b: int|
                            0 <= a < after.len() && 0 <= b < after.len() && (
                            #[trigger] after[a]).0@ == (#[trigger] after[b]).0@ implies a == b by {
                            if a == n && b < n {
                                assert(key_at(before, kv, b));
                            } else if b == n && a < n {
                                assert(key_at(before, kv, a));
                            } else if a < n && b < n {
                                assert(before[a].0@ == before[b].0@);
                            }
                        }
                    }
                    assert forall|x: K::V| as_map(after).contains_key(x) <==> (as_map(
                        before,
                    ).contains_key(x) || x == kv) by {
                        if has_key(after, x) {
                            let j = choose|j: int| key_at(after, x, j);
                            if j < n {
                                assert(key_at(before, x, j));
                            }
                        }
                        if has_key(before, x) {
                            let j = choose|j: int| key_at(before, x, j);
                            assert(key_at(after, x, j));
                        }
                        if x == kv {
                            assert(key_at(after, x, n));
                        }
                    }
                    assert forall|x: K::V| as_map(after).contains_key(x) implies as_map(after)[x]
                        == as_map(before).insert(kv, v)[x] by {
                        let j = choose|j: int| key_at(after, x, j);
                        lemma_key_at(after, x, j);
                        if j < n {
                            assert(key_at(before, x, j));
                            lemma_key_at(before, x, j);
                        }
                    }
                    assert(self@ =~= old(self)@.insert(kv, v));
                }
            },
        }
    }
}

impl<K: MapKey, V> AssocMap<K, V> {
    /// Takes over all items of `other`, in place of those with the same keys.
    pub fn extend(&mut self, other: AssocMap<K, V>)
        requires
            old(self).wf(),
            other.wf(),
        ensures
            final(self).wf(),
            final(self)@ == old(self)@.union_prefer_right(other@),
    {
        let ghost start = self@;
        let ghost all = other.items@;
        let mut rest: Vec<(K, V)> = other.items;
        proof {
            assert(start.union_prefer_right(as_map(all.skip(all.len() as int))) =~= start) by {
                assert forall|k: K::V| !as_map(all.skip(all.len() as int)).contains_key(k) by {
                    if has_key(all.skip(all.len() as int), k) {
                        let i = choose|i: int| key_at(all.skip(all.len() as int), k, i);
                    }
                }
            }
            assert(all.take(all.len() as int) =~= all);
        }
        while rest.len() > 0
            invariant
                self.wf(),
                keys_distinct(all),
                rest@.len() <= all.len(),
                rest@ == all.take(rest@.len() as int),
                self@ == start.union_prefer_right(as_map(all.skip(rest@.len() as int))),
            decreases rest@.len(),
        {
            let ghost n = rest@.len() as int;
            let item = rest.pop();
            if let Some((k, v)) = item {
                let ghost tail = all.skip(n);
                let ghost longer = all.skip(n - 1);
                proof {
                    assert(all[n - 1] == (k, v));
                    assert(keys_distinct(longer)) by {
                        assert forall|a: int, b: int|
                            0 <= a < longer.len() && 0 <= b < longer.len() && (
                            #[trigger] longer[a]).0@ == (#[trigger] longer[b]).0@ implies a == b by {
                            assert(all[a + n - 1].0@ == all[b + n - 1].0@);
                        }
                    }
                    assert(keys_distinct(tail)) by {
                        assert forall|a: int, b: int|
                            0 <= a < tail.len() && 0 <= b < tail.len() && (
                            #[trigger] tail[a]).0@ == (#[trigger] tail[b]).0@ implies a == b by {
                            assert(all[a + n].0@ == all[b + n].0@);
                        }
                    }
                    assert forall|x: K::V| as_map(longer).contains_key(x) <==> (as_map(
                        tail,
                    ).contains_key(x) || x == k@) by {
                        if has_key(longer, x) {
                            let j = choose|j: int| key_at(longer, x, j);
                            if j > 0 {
                                assert(key_at(tail, x, j - 1));
                            }
                        }
                        if has_key(tail, x) {
                            let j = choose|j: int| key_at(tail, x, j);
                            assert(key_at(longer, x, j + 1));
                        }
                        if x == k@ {
                            assert(key_at(longer, x, 0));
                        }
                    }
                    assert forall|x: K::V| as_map(longer).contains_key(x) implies as_map(longer)[x]
                        == as_map(tail).insert(k@, v)[x] by {
                        let j = choose|j: int| key_at(longer, x, j);
                        lemma_key_at(longer, x, j);
                        if j > 0 {
                            assert(key_at(tail, x, j - 1));
                            lemma_key_at(tail, x, j - 1);
                            assert(x != k@) by {
                                if x == k@ {
                                    assert(longer[0].0@ == longer[j].0@);
                                }
                            }
                        }
                    }
                    assert(as_map(longer) =~= as_map(tail).insert(k@, v));
                    assert(start.union_prefer_right(as_map(tail)).insert(k@, v)
                        =~= start.union_prefer_right(as_map(longer)));
                }
                self.insert(k, v);
                assert(rest@ =~= all.take(n - 1));
            }
        }
        proof {
            assert(all.skip(0) =~= all);
        }
    }
}

impl MapKey for String {
    fn same(&self, other: &String) -> (b: bool) {
        *self == *other
    }
}

/// `items` with the item of key `k` replaced by `(k, v)`.
pub open spec fn replaced<K: MapKey, V>(items: Seq<(K, V)>, k: K, v: V) -> Seq<(K, V)> {
    Seq::new(
        items.len(),
        |i: int|
            if items[i].0@ == k@ {
                (k, v)
            } else {
                items[i]
            },
    )
}

} // verus!
