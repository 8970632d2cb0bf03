//! Ordered sets of IPv4 addresses.

use vstd::prelude::*;

use crate::base::net::{lemma_ipv4_number_injective, Ipv4Addr};

verus! {

/// Whether addresses are listed in ascending order, each once.
pub open spec fn ascending(v: Seq<Ipv4Addr>) -> bool {
    forall|i: int, j: int|
        0 <= i < j < v.len() ==> (#[trigger] v[i]).number() < (#[trigger] v[j]).number()
}

/// Whether `v` lists the addresses of `s` in ascending order.
pub open spec fn is_listing(v: Seq<Ipv4Addr>, s: Set<Ipv4Addr>) -> bool {
    &&& ascending(v)
    &&& forall|a: Ipv4Addr| #[trigger] v.contains(a) <==> s.contains(a)
}

/// A set has one listing only.
pub proof fn listing_is_unique(v: Seq<Ipv4Addr>, w: Seq<Ipv4Addr>, s: Set<Ipv4Addr>)
    requires
        is_listing(v, s),
        is_listing(w, s),
    ensures
        v == w,
    decreases v.len(),
{
    if v.len() == 0 {
        if w.len() > 0 {
            assert(w.contains(w[0]));
            assert(v.contains(w[0]));
        }
        assert(v =~= w);
    } else if w.len() == 0 {
        assert(v.contains(v[0]));
        assert(w.contains(v[0]));
    } else {
        let a = v.last();
        let b = w.last();
        assert(v[v.len() - 1] == a && w[w.len() - 1] == b);
        assert(v.contains(a) && w.contains(b));
        assert(w.contains(a) && v.contains(b));
        let i = choose|i: int| 0 <= i < w.len() && w[i] == a;
        let j = choose|j: int| 0 <= j < v.len() && v[j] == b;
        assert(i < w.len() - 1 ==> w[i].number() < w[w.len() - 1].number());
        assert(j < v.len() - 1 ==> v[j].number() < v[v.len() - 1].number());
        lemma_ipv4_number_injective(a, b);
        let rest = s.remove(a);
        assert(is_listing(v.drop_last(), rest)) by {
            lemma_listing_drop_last(v, s);
        }
        assert(is_listing(w.drop_last(), rest)) by {
            lemma_listing_drop_last(w, s);
        }
        listing_is_unique(v.drop_last(), w.drop_last(), rest);
        assert(v =~= v.drop_last().push(a));
        assert(w =~= w.drop_last().push(b));
    }
}

proof fn lemma_listing_drop_last(v: Seq<Ipv4Addr>, s: Set<Ipv4Addr>)
    requires
        is_listing(v, s),
        v.len() > 0,
    ensures
        is_listing(v.drop_last(), s.remove(v.last())),
{
    let p = v.drop_last();
    let a = v.last();
    assert forall|i: int, j: int| 0 <= i < j < p.len() implies (#[trigger] p[i]).number() < (
    #[trigger] p[j]).number() by {
        assert(v[i].number() < v[j].number());
    }
    assert forall|x: Ipv4Addr| #[trigger] p.contains(x) <==> s.remove(a).contains(x) by {
        if p.contains(x) {
            let i = choose|i: int| 0 <= i < p.len() && p[i] == x;
            assert(v[i] == x);
            assert(v.contains(x));
            assert(v[i].number() < v[v.len() - 1].number());
        }
        if s.remove(a).contains(x) {
            assert(v.contains(x));
            let i = choose|i: int| 0 <= i < v.len() && v[i] == x;
            assert(p[i] == x);
        }
    }
}

/// A set of IPv4 addresses, held in ascending order.
pub struct AddrSet {
    addrs: Vec<Ipv4Addr>,
}

impl View for AddrSet {
    type V = Set<Ipv4Addr>;

    closed spec fn view(&self) -> Set<Ipv4Addr> {
        Set::new(|a: Ipv4Addr| self.addrs@.contains(a))
    }
}

impl AddrSet {
    /// The addresses are in order.
    pub closed spec fn wf(self) -> bool {
        ascending(self.addrs@)
    }

    pub fn new() -> (s: AddrSet)
        ensures
            s.wf(),
            s@ == Set::<Ipv4Addr>::empty(),
    {
        let s = AddrSet { addrs: Vec::new() };
        assert(s@ =~= Set::<Ipv4Addr>::empty());
        s
    }

    pub fn contains(&self, a: Ipv4Addr) -> (b: bool)
        ensures
            b == self@.contains(a),
    {
        let mut i: usize = 0;
        while i < self.addrs.len()
            invariant
                i <= self.addrs@.len(),
                forall|j: int| 0 <= j < i ==> (#[trigger] self.addrs@[j]) != a,
            decreases self.addrs@.len() - i,
        {
            if self.addrs[i] == a {
                assert(self.addrs@.contains(a));
                return true;
            }
            i = i + 1;
        }
        false
    }

    pub fn insert(&mut self, a: Ipv4Addr)
        requires
            old(self).wf(),
        ensures
            final(self).wf(),
            final(self)@ == old(self)@.insert(a),
    {
        let ghost before = self.addrs@;
        let n: u32 = a.to_number();
        let mut i: usize = 0;
        while i < self.addrs.len() && self.addrs[i].to_number() < n
            invariant
                i <= self.addrs@.len(),
                self.addrs@ == before,
                n == a.number(),
                forall|j: int| 0 <= j < i ==> (#[trigger] before[j]).number() < n,
            decreases self.addrs@.len() - i,
        {
            i = i + 1;
        }
        if i < self.addrs.len() && self.addrs[i] == a {
            proof {
                assert(before.contains(a));
                assert(self@ =~= old(self)@.insert(a));
            }
            return;
        }
        proof {
            if i < before.len() {
                lemma_ipv4_number_injective(before[i as int], a);
            }
        }
        self.addrs.insert(i, a);
        proof {
            let after = self.addrs@;
            assert(after == before.insert(i as int, a));
            assert forall|x: int, y: int| 0 <= x < y < after.len() implies (
            #[trigger] after[x]).number() < (#[trigger] after[y]).number() by {
                if x < i && y > i {
                    assert(after[y] == before[y - 1]);
                    assert(before[x].number() < before[y - 1].number());
                } else if x == i {
                    assert(after[y] == before[y - 1]);
                    if y - 1 > i {
                        assert(before[i as int].number() < before[y - 1].number());
                    }
                } else if x > i {
                    assert(before[x - 1].number() < before[y - 1].number());
                }
            }
            assert forall|x: Ipv4Addr| after.contains(x) <==> (before.contains(x) || x == a) by {
                if before.contains(x) {
                    let k = choose|k: int| 0 <= k < before.len() && before[k] == x;
                    if k < i {
                        assert(after[k] == x);
                    } else {
                        assert(after[k + 1] == x);
                    }
                }
                if after.contains(x) {
                    let k = choose|k: int| 0 <= k < after.len() && after[k] == x;
                    if k < i {
                        assert(before[k] == x);
                    } else if k > i {
                        assert(before[k - 1] == x);
                    }
                }
                if x == a {
                    assert(after[i as int] == x);
                }
            }
            assert(self@ =~= old(self)@.insert(a));
        }
    }

    /// The addresses in ascending order.
    pub fn to_list(&self) -> (v: Vec<Ipv4Addr>)
        requires
            self.wf(),
        ensures
            is_listing(v@, self@),
    {
        self.minus(&AddrSet::new())
    }

    /// The addresses that are not in `other`, in ascending order.
    pub fn minus(&self, other: &AddrSet) -> (v: Vec<Ipv4Addr>)
        requires
            self.wf(),
        ensures
            is_listing(v@, self@.difference(other@)),
    {
        let mut v: Vec<Ipv4Addr> = Vec::new();
        let mut i: usize = 0;
        while i < self.addrs.len()
            invariant
                i <= self.addrs@.len(),
                ascending(self.addrs@),
                ascending(v@),
                forall|k: int|
                    0 <= k < v@.len() && i < self.addrs@.len() ==> (#[trigger] v@[k]).number()
                        < self.addrs@[i as int].number(),
                forall|a: Ipv4Addr| #[trigger]
                    v@.contains(a) <==> self.addrs@.take(i as int).contains(a) && !other@.contains(
                        a,
                    ),
            decreases self.addrs@.len() - i,
        {
            let a: Ipv4Addr = self.addrs[i];
            let ghost before = v@;
            let skip = other.contains(a);
            if !skip {
                v.push(a);
            }
            proof {
                let was = self.addrs@.take(i as int);
                let now = self.addrs@.take(i + 1);
                assert forall|x: Ipv4Addr| #[trigger] v@.contains(x) <==> now.contains(x)
                    && !other@.contains(x) by {
                    assert(before.contains(x) <==> was.contains(x) && !other@.contains(x));
                    if was.contains(x) {
                        let k = choose|k: int| 0 <= k < was.len() && was[k] == x;
                        assert(now[k] == x);
                    }
                    if now.contains(x) {
                        let k = choose|k: int| 0 <= k < now.len() && now[k] == x;
                        if k < i {
                            assert(was[k] == x);
                        }
                    }
                    if before.contains(x) {
                        let k = choose|k: int| 0 <= k < before.len() && before[k] == x;
                        assert(v@[k] == x);
                    }
                    if v@.contains(x) {
                        let k = choose|k: int| 0 <= k < v@.len() && v@[k] == x;
                        if k < before.len() {
                            assert(before[k] == x);
                        }
                    }
                    if x == a {
                        assert(now[i as int] == x);
                        if !skip {
                            assert(v@[before.len() as int] == x);
                        }
                    }
                }
            }
            i = i + 1;
        }
        assert(self.addrs@.take(i as int) =~= self.addrs@);
        v
    }

    pub fn is_empty(&self) -> (b: bool)
        ensures
            b == (self@ == Set::<Ipv4Addr>::empty()),
    {
        proof {
            if self.addrs@.len() == 0 {
                assert(self@ =~= Set::<Ipv4Addr>::empty());
            } else {
                assert(self.addrs@.contains(self.addrs@[0]));
                assert(self@.contains(self.addrs@[0]));
            }
        }
        self.addrs.len() == 0
    }
}

} // verus!
