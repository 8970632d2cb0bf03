//! The Maglev lookup table: from a flow hash to a backend.

use vstd::arithmetic::div_mod::{
    lemma_fundamental_div_mod, lemma_fundamental_div_mod_converse, lemma_mod_bound,
};
use vstd::prelude::*;
use vstd::utf8::encode_utf8;

use crate::hashing::permutation::{
    advance, is_prime, lemma_preference_step, offset, offset_of, preference,
    preference_is_permutation, skip, skip_of, visits,
};
use crate::types::backend::Backend;

verus! {

/// Default Maglev lookup table size (must be prime, M >> N).
pub const DEFAULT_TABLE_SIZE: usize = 65537;

/// Marks a slot that no backend has claimed.
pub const UNCLAIMED: usize = usize::MAX;

/// The backends that take traffic: those with a weight above zero.
pub open spec fn active_backends(s: Seq<Backend>) -> Seq<Backend>
    decreases s.len(),
{
    if s.len() == 0 {
        Seq::empty()
    } else if s.last().weight > 0 {
        active_backends(s.drop_last()).push(s.last())
    } else {
        active_backends(s.drop_last())
    }
}

/// The bytes of a backend's name, from which its preference list is derived.
pub open spec fn name_bytes(b: Backend) -> Seq<u8> {
    encode_utf8(b.name_text())
}

/// Offset and skip of each backend.
pub open spec fn list_params(s: Seq<Backend>, m: int) -> Seq<(int, int)> {
    Seq::new(
        s.len(),
        |i: int| (offset_of(name_bytes(s[i]), m), skip_of(name_bytes(s[i]), m)),
    )
}

/// The weight of each backend.
pub open spec fn weights(s: Seq<Backend>) -> Seq<int> {
    Seq::new(s.len(), |i: int| s[i].weight as int)
}

/// The sum of the first `i` weights.
pub open spec fn weight_before(w: Seq<int>, i: int) -> int
    decreases i,
{
    if i <= 0 {
        0
    } else {
        weight_before(w, i - 1) + w[i - 1]
    }
}

/// The sum of all weights: the number of turns in one round.
pub open spec fn total_weight(w: Seq<int>) -> int {
    weight_before(w, w.len() as int)
}

/// Whether turn `k` is backend `i`'s: in each round the backends take turns in
/// order, each as many in a row as its weight.
pub open spec fn owns_turn(w: Seq<int>, i: int, k: int) -> bool {
    &&& 0 <= i < w.len()
    &&& weight_before(w, i) <= k % total_weight(w) < weight_before(w, i + 1)
}

/// The backend whose turn `k` is.
pub open spec fn turn_owner(w: Seq<int>, k: int) -> int {
    choose|i: int| owns_turn(w, i, k)
}

/// Whether the `j`-th slot of a preference list is its first unclaimed one.
pub open spec fn is_first_unclaimed(t: Seq<usize>, o: int, s: int, j: int) -> bool {
    let m = t.len() as int;
    &&& 0 <= j < m
    &&& t[preference(o, s, m, j)] == UNCLAIMED
    &&& forall|i: int| 0 <= i < j ==> t[#[trigger] preference(o, s, m, i)] != UNCLAIMED
}

/// The slot that a backend claims on its turn: the first unclaimed one of its
/// preference list.
pub open spec fn claimed_slot(t: Seq<usize>, o: int, s: int) -> int {
    preference(o, s, t.len() as int, choose|j: int| is_first_unclaimed(t, o, s, j))
}

/// The table of `m` slots after `k` turns.
pub open spec fn populated(
    params: Seq<(int, int)>,
    w: Seq<int>,
    m: nat,
    k: nat,
) -> Seq<usize>
    decreases k,
{
    if k == 0 {
        Seq::new(m, |c: int| UNCLAIMED)
    } else {
        let t = populated(params, w, m, (k - 1) as nat);
        let b = turn_owner(w, k - 1);
        t.update(claimed_slot(t, params[b].0, params[b].1), b as usize)
    }
}

/// The Maglev table of a set of active backends: `m` slots after `m` turns.
pub open spec fn maglev_entries(active: Seq<Backend>, m: int) -> Seq<usize> {
    populated(list_params(active, m), weights(active), m as nat, m as nat)
}

/// How many slots of `t` hold `v`.
pub open spec fn share(t: Seq<usize>, v: usize) -> nat
    decreases t.len(),
{
    if t.len() == 0 {
        0
    } else {
        share(t.drop_last(), v) + if t.last() == v {
            1nat
        } else {
            0nat
        }
    }
}

pub open spec fn indicator(b: bool) -> int {
    if b {
        1
    } else {
        0
    }
}

proof fn lemma_share_update(t: Seq<usize>, c: int, x: usize, v: usize)
    requires
        0 <= c < t.len(),
    ensures
        share(t.update(c, x), v) == share(t, v) - indicator(t[c] == v) + indicator(x == v),
    decreases t.len(),
{
    let u = t.update(c, x);
    if c == t.len() - 1 {
        assert(u.drop_last() =~= t.drop_last());
    } else {
        assert(u.drop_last() =~= t.drop_last().update(c, x));
        lemma_share_update(t.drop_last(), c, x, v);
    }
}

proof fn lemma_share_witness(t: Seq<usize>, v: usize)
    ensures
        share(t, v) <= t.len(),
        share(t, v) > 0 <==> exists|c: int| 0 <= c < t.len() && #[trigger] t[c] == v,
        (forall|c: int| 0 <= c < t.len() ==> #[trigger] t[c] == v) ==> share(t, v) == t.len(),
    decreases t.len(),
{
    if t.len() > 0 {
        let p = t.drop_last();
        lemma_share_witness(p, v);
        if share(t, v) > 0 {
            if t.last() == v {
                assert(t[t.len() - 1] == v);
            } else {
                let c = choose|c: int| 0 <= c < p.len() && #[trigger] p[c] == v;
                assert(t[c] == v);
            }
        }
        if exists|c: int| 0 <= c < t.len() && #[trigger] t[c] == v {
            let c = choose|c: int| 0 <= c < t.len() && #[trigger] t[c] == v;
            if c < t.len() - 1 {
                assert(p[c] == v);
            }
        }
        if forall|c: int| 0 <= c < t.len() ==> #[trigger] t[c] == v {
            assert forall|c: int| 0 <= c < p.len() implies #[trigger] p[c] == v by {
                assert(t[c] == v);
            }
            assert(t[t.len() - 1] == v);
        }
    }
}

proof fn lemma_weight_before_mono(w: Seq<int>, i: int, j: int)
    requires
        0 <= i <= j <= w.len(),
        forall|k: int| 0 <= k < w.len() ==> #[trigger] w[k] > 0,
    ensures
        weight_before(w, i) <= weight_before(w, j),
        i < j ==> weight_before(w, i) < weight_before(w, j),
    decreases j - i,
{
    if i < j {
        lemma_weight_before_mono(w, i, j - 1);
        assert(w[j - 1] > 0);
    }
}

/// A turn has one owner.
proof fn lemma_turn_owner(w: Seq<int>, i: int, k: int)
    requires
        owns_turn(w, i, k),
        forall|j: int| 0 <= j < w.len() ==> #[trigger] w[j] > 0,
    ensures
        turn_owner(w, k) == i,
{
    let o = turn_owner(w, k);
    if o < i {
        lemma_weight_before_mono(w, o + 1, i);
    } else if i < o {
        lemma_weight_before_mono(w, i + 1, o);
    }
}

/// Every turn has an owner.
pub proof fn lemma_turn_owned(w: Seq<int>, k: int, i: int) -> (o: int)
    requires
        forall|j: int| 0 <= j < w.len() ==> #[trigger] w[j] > 0,
        0 <= i <= w.len(),
        0 <= k % total_weight(w) < weight_before(w, i),
    ensures
        owns_turn(w, o, k),
        turn_owner(w, k) == o,
    decreases i,
{
    if k % total_weight(w) >= weight_before(w, i - 1) {
        lemma_turn_owner(w, i - 1, k);
        i - 1
    } else {
        lemma_turn_owned(w, k, i - 1)
    }
}

/// The slot claimed is the first unclaimed one of the list.
pub proof fn lemma_first_unclaimed(t: Seq<usize>, o: int, s: int, j: int)
    requires
        is_first_unclaimed(t, o, s, j),
    ensures
        claimed_slot(t, o, s) == preference(o, s, t.len() as int, j),
{
    let k = choose|k: int| is_first_unclaimed(t, o, s, k);
    if k < j {
        assert(t[preference(o, s, t.len() as int, k)] != UNCLAIMED);
    } else if j < k {
        assert(t[preference(o, s, t.len() as int, j)] != UNCLAIMED);
    }
}

proof fn lemma_first_unclaimed_below(t: Seq<usize>, o: int, s: int, k: int) -> (j: int)
    requires
        0 <= k < t.len(),
        t[preference(o, s, t.len() as int, k)] == UNCLAIMED,
    ensures
        is_first_unclaimed(t, o, s, j),
    decreases k,
{
    if exists|i: int| 0 <= i < k && t[#[trigger] preference(o, s, t.len() as int, i)] == UNCLAIMED {
        let i = choose|i: int|
            0 <= i < k && t[#[trigger] preference(o, s, t.len() as int, i)] == UNCLAIMED;
        lemma_first_unclaimed_below(t, o, s, i)
    } else {
        k
    }
}

/// How many of the first `k` turns are backend `i`'s.
pub open spec fn turns(w: Seq<int>, i: int, k: nat) -> nat
    decreases k,
{
    if k == 0 {
        0
    } else {
        turns(w, i, (k - 1) as nat) + if turn_owner(w, k - 1) == i {
            1nat
        } else {
            0nat
        }
    }
}

/// Whether offsets and skips are in range for a table of `m` slots.
pub open spec fn params_valid(params: Seq<(int, int)>, m: int) -> bool {
    forall|i: int|
        0 <= i < params.len() ==> 0 <= (#[trigger] params[i]).0 < m && 0 < params[i].1 < m
}

/// What `k` turns do: each claims one slot for its owner.
pub proof fn lemma_populated(params: Seq<(int, int)>, w: Seq<int>, m: nat, k: nat)
    requires
        is_prime(m as int),
        params_valid(params, m as int),
        params.len() == w.len(),
        0 < w.len() <= usize::MAX,
        forall|j: int| 0 <= j < w.len() ==> #[trigger] w[j] > 0,
        k <= m,
    ensures
        populated(params, w, m, k).len() == m,
        share(populated(params, w, m, k), UNCLAIMED) == m - k,
        forall|c: int|
            0 <= c < m ==> (#[trigger] populated(params, w, m, k)[c]) == UNCLAIMED || populated(
                params,
                w,
                m,
                k,
            )[c] < w.len(),
        forall|i: int|
            0 <= i < w.len() ==> share(populated(params, w, m, k), i as usize) == #[trigger] turns(
                w,
                i,
                k,
            ),
        k < m ==> {
            let t = populated(params, w, m, k);
            let b = turn_owner(w, k as int);
            &&& 0 <= b < w.len()
            &&& owns_turn(w, b, k as int)
            &&& exists|j: int| is_first_unclaimed(t, params[b].0, params[b].1, j)
        },
    decreases k,
{
    let t = populated(params, w, m, k);
    lemma_weight_before_mono(w, 0, w.len() as int);
    if k == 0 {
        assert forall|i: int| 0 <= i < w.len() implies share(t, i as usize) == #[trigger] turns(
            w,
            i,
            k,
        ) by {
            lemma_share_witness(t, i as usize);
        }
        lemma_share_witness(t, UNCLAIMED);
    } else {
        let k1 = (k - 1) as nat;
        lemma_populated(params, w, m, k1);
        let p = populated(params, w, m, k1);
        let b = turn_owner(w, k1 as int);
        let (o, s) = params[b];
        let c = claimed_slot(p, o, s);
        preference_is_permutation(o, s, m as int);
        assert(0 <= c < m && p[c] == UNCLAIMED);
        lemma_share_update(p, c, b as usize, UNCLAIMED);
        assert forall|i: int| 0 <= i < w.len() implies share(t, i as usize) == #[trigger] turns(
            w,
            i,
            k,
        ) by {
            assert(share(p, i as usize) == turns(w, i, k1));
            lemma_share_update(p, c, b as usize, i as usize);
        }
    }
    if k < m {
        lemma_mod_bound(k as int, total_weight(w));
        let b = lemma_turn_owned(w, k as int, w.len() as int);
        let (o, s) = params[b];
        preference_is_permutation(o, s, m as int);
        lemma_share_witness(t, UNCLAIMED);
        let c = choose|c: int| 0 <= c < t.len() && #[trigger] t[c] == UNCLAIMED;
        assert(visits(o, s, m as int, c));
        let j = choose|j: int| 0 <= j < m && #[trigger] preference(o, s, m as int, j) == c;
        let first = lemma_first_unclaimed_below(t, o, s, j);
    }
}

/// Of the first `r` turns of a round, how many are backend `i`'s.
pub open spec fn turns_in_round(w: Seq<int>, i: int, r: int) -> int {
    if r <= weight_before(w, i) {
        0
    } else if r < weight_before(w, i + 1) {
        r - weight_before(w, i)
    } else {
        w[i]
    }
}

#[verifier::spinoff_prover]
proof fn lemma_turns(w: Seq<int>, i: int, k: nat)
    requires
        0 <= i < w.len(),
        forall|j: int| 0 <= j < w.len() ==> #[trigger] w[j] > 0,
    ensures
        turns(w, i, k) == (k as int / total_weight(w)) * w[i] + turns_in_round(
            w,
            i,
            k as int % total_weight(w),
        ),
    decreases k,
{
    let total = total_weight(w);
    lemma_weight_before_mono(w, 0, w.len() as int);
    lemma_weight_before_mono(w, 0, i);
    lemma_weight_before_mono(w, i + 1, w.len() as int);
    if k == 0 {
        lemma_fundamental_div_mod_converse(0, total, 0, 0);
        assert(0 * w[i] == 0) by (nonlinear_arith);
    } else {
        let k1 = (k - 1) as nat;
        lemma_turns(w, i, k1);
        let q = k1 as int / total;
        let r = k1 as int % total;
        lemma_fundamental_div_mod(k1 as int, total);
        lemma_mod_bound(k1 as int, total);
        let o = lemma_turn_owned(w, k1 as int, w.len() as int);
        if weight_before(w, i) <= r < weight_before(w, i + 1) {
            lemma_turn_owner(w, i, k1 as int);
        }
        if r + 1 < total {
            assert(k as int == q * total + (r + 1)) by (nonlinear_arith)
                requires
                    k as int == k1 as int + 1,
                    k1 as int == total * q + r,
            ;
            lemma_fundamental_div_mod_converse(k as int, total, q, r + 1);
        } else {
            assert(k as int == (q + 1) * total + 0) by (nonlinear_arith)
                requires
                    k as int == k1 as int + 1,
                    k1 as int == total * q + r,
                    r + 1 == total,
            ;
            assert(0 <= 0 < total);
            lemma_fundamental_div_mod_converse(k as int, total, q + 1, 0);
            assert((q + 1) * w[i] == q * w[i] + w[i]) by (nonlinear_arith);
        }
    }
}

/// Every slot of a Maglev table belongs to a backend, and each backend's
/// share is its weight times the number of rounds, whole or begun: with equal
/// weights of one, the shares differ by at most one.
pub proof fn maglev_shares(active: Seq<Backend>, m: int)
    requires
        is_prime(m),
        0 < active.len() <= usize::MAX,
        forall|i: int| 0 <= i < active.len() ==> (#[trigger] active[i]).weight > 0,
    ensures
        maglev_entries(active, m).len() == m,
        forall|c: int|
            0 <= c < m ==> 0 <= #[trigger] maglev_entries(active, m)[c] < active.len(),
        forall|i: int|
            #![trigger active[i]]
            0 <= i < active.len() ==> {
                let rounds = m / total_weight(weights(active));
                &&& active[i].weight * rounds <= share(maglev_entries(active, m), i as usize)
                &&& share(maglev_entries(active, m), i as usize) <= active[i].weight * (rounds + 1)
            },
{
    let params = list_params(active, m);
    let w = weights(active);
    let t = maglev_entries(active, m);
    lemma_params_valid(active, m);
    assert forall|j: int| 0 <= j < w.len() implies #[trigger] w[j] > 0 by {
        assert(active[j].weight > 0);
    }
    lemma_populated(params, w, m as nat, m as nat);
    lemma_share_witness(t, UNCLAIMED);
    lemma_weight_before_mono(w, 0, w.len() as int);
    assert forall|i: int|
        #![trigger active[i]]
        0 <= i < active.len() implies {
        let rounds = m / total_weight(w);
        &&& active[i].weight * rounds <= share(t, i as usize)
        &&& share(t, i as usize) <= active[i].weight * (rounds + 1)
    } by {
        let rounds = m / total_weight(w);
        assert(share(t, i as usize) == turns(w, i, m as nat));
        lemma_turns(w, i, m as nat);
        let wi = active[i].weight as int;
        assert(w[i] == wi);
        assert(wi * (rounds + 1) == rounds * wi + wi) by (nonlinear_arith);
        assert(wi * rounds == rounds * wi) by (nonlinear_arith);
    }
}

/// Offsets and skips are in range, whatever the names of the backends.
pub proof fn lemma_params_valid(active: Seq<Backend>, m: int)
    requires
        m >= 2,
    ensures
        params_valid(list_params(active, m), m),
{
    let params = list_params(active, m);
    assert forall|i: int| 0 <= i < params.len() implies 0 <= (#[trigger] params[i]).0 < m && 0
        < params[i].1 < m by {
        let name = name_bytes(active[i]);
        lemma_mod_bound(crate::base::hash::xxh3_seeded_digest(name, 0) as int, m);
        lemma_mod_bound(crate::base::hash::xxh3_seeded_digest(name, 1) as int, m - 1);
    }
}

proof fn lemma_active_weights(s: Seq<Backend>)
    ensures
        active_backends(s).len() <= s.len(),
        forall|i: int|
            0 <= i < active_backends(s).len() ==> (#[trigger] active_backends(s)[i]).weight > 0
                && s.contains(active_backends(s)[i]),
        forall|b: Backend| #[trigger] s.contains(b) && b.weight > 0 ==> active_backends(s).contains(b),
    decreases s.len(),
{
    if s.len() > 0 {
        let p = s.drop_last();
        lemma_active_weights(p);
        let a = active_backends(s);
        let ap = active_backends(p);
        assert forall|i: int| 0 <= i < a.len() implies (#[trigger] a[i]).weight > 0 && s.contains(
            a[i],
        ) by {
            if i < ap.len() {
                assert(a[i] == ap[i]);
                let k = choose|k: int| 0 <= k < p.len() && p[k] == ap[i];
                assert(s[k] == a[i]);
            } else {
                assert(s[s.len() - 1] == a[i]);
            }
        }
        assert forall|b: Backend| #[trigger] s.contains(b) && b.weight > 0 implies a.contains(
            b,
        ) by {
            let k = choose|k: int| 0 <= k < s.len() && s[k] == b;
            if k < p.len() {
                assert(p[k] == b);
                assert(p.contains(b));
                let i = choose|i: int| 0 <= i < ap.len() && ap[i] == b;
                assert(a[i] == b);
            } else {
                assert(a[a.len() - 1] == b);
            }
        }
    }
}

/// A backend takes traffic if and only if it is configured with a weight
/// above zero.
pub proof fn zero_weight_is_excluded(s: Seq<Backend>, b: Backend)
    ensures
        active_backends(s).contains(b) <==> s.contains(b) && b.weight > 0,
{
    lemma_active_weights(s);
}

proof fn lemma_active_concat(a: Seq<Backend>, b: Seq<Backend>)
    ensures
        active_backends(a + b) == active_backends(a) + active_backends(b),
    decreases b.len(),
{
    if b.len() == 0 {
        assert(a + b =~= a);
        assert(active_backends(a) + active_backends(b) =~= active_backends(a));
    } else {
        lemma_active_concat(a, b.drop_last());
        assert((a + b).drop_last() =~= a + b.drop_last());
        assert((a + b).last() == b.last());
        assert(active_backends(a + b) =~= active_backends(a) + active_backends(b));
    }
}

/// A backend without weight disturbs no flow: with it or without it, the table
/// is the same.
pub proof fn weightless_backend_changes_nothing(
    a: Seq<Backend>,
    b: Backend,
    c: Seq<Backend>,
    m: int,
)
    requires
        b.weight == 0,
    ensures
        active_backends(a + seq![b] + c) == active_backends(a + c),
        maglev_entries(active_backends(a + seq![b] + c), m) == maglev_entries(
            active_backends(a + c),
            m,
        ),
{
    lemma_active_concat(a + seq![b], c);
    lemma_active_concat(a, seq![b]);
    lemma_active_concat(a, c);
    let one = seq![b];
    assert(one.last() == b && one.drop_last().len() == 0);
    reveal_with_fuel(active_backends, 2);
    assert(active_backends(one) =~= Seq::<Backend>::empty());
    assert(active_backends(a) + active_backends(one) =~= active_backends(a));
}

/// Maglev consistent hash lookup table.
///
/// Once built, the table is immutable. To update, build a new table
/// and swap it in atomically.
#[derive(Debug)]
pub struct LookupTable {
    entries: Vec<usize>,
    backends: Vec<Backend>,
}

/// What a lookup table says.
#[verifier::ext_equal]
pub struct TableView {
    pub members: Seq<Backend>,
    pub slots: Seq<usize>,
}

impl View for LookupTable {
    type V = TableView;

    open spec fn view(&self) -> TableView {
        TableView { members: self.members(), slots: self.slots() }
    }
}

impl Clone for LookupTable {
    fn clone(&self) -> (r: LookupTable)
        ensures
            r@ == self@,
    {
        let mut entries: Vec<usize> = Vec::with_capacity(self.entries.len());
        let mut i: usize = 0;
        while i < self.entries.len()
            invariant
                i <= self.entries@.len(),
                entries@ == self.entries@.take(i as int),
            decreases self.entries@.len() - i,
        {
            entries.push(self.entries[i]);
            i = i + 1;
            assert(entries@ =~= self.entries@.take(i as int));
        }
        assert(entries@ =~= self.entries@);
        let mut backends: Vec<Backend> = Vec::with_capacity(self.backends.len());
        let mut k: usize = 0;
        while k < self.backends.len()
            invariant
                k <= self.backends@.len(),
                backends@ == self.backends@.take(k as int),
            decreases self.backends@.len() - k,
        {
            backends.push(self.backends[k]);
            k = k + 1;
            assert(backends@ =~= self.backends@.take(k as int));
        }
        assert(backends@ =~= self.backends@);
        LookupTable { entries, backends }
    }
}

impl LookupTable {
    /// The backend index in each slot.
    pub closed spec fn slots(self) -> Seq<usize> {
        self.entries@
    }

    /// The backends that the indices refer to.
    pub closed spec fn members(self) -> Seq<Backend> {
        self.backends@
    }

    /// There are slots, and each refers to a backend.
    pub open spec fn wf(self) -> bool {
        &&& 0 < self.slots().len() <= usize::MAX
        &&& self.members().len() <= usize::MAX
        &&& forall|c: int|
            0 <= c < self.slots().len() ==> (#[trigger] self.slots()[c]) < self.members().len()
    }

    /// The backend that a flow hash selects.
    pub open spec fn selected(self, hash: u64) -> Backend {
        self.members()[self.slots()[hash as int % self.slots().len() as int] as int]
    }

    /// Build a Maglev lookup table from a set of backends.
    ///
    /// `m` must be prime and much larger than `backends.len()`.
    /// Returns `Err` if `backends` is empty *after* dropping zero-weight
    /// entries — `weight = 0` is treated as "this backend does not take
    /// traffic right now" (e.g. drained), the same way `Unhealthy` is
    /// treated by the controller's filter.
    ///
    /// **Weights**: per Maglev §3.4.4 the simplest weighting is to give
    /// backend `i` `weight[i]` chances per outer-loop pass to claim a
    /// slot. A backend with weight 2 fills roughly twice as many entries
    /// as a backend with weight 1.
    pub fn build(backends: &[Backend], m: usize) -> (r: Result<LookupTable, &'static str>)
        requires
            active_backends(backends@).len() > 0 ==> is_prime(m as int),
        ensures
            match r {
                Ok(t) => {
                    &&& active_backends(backends@).len() > 0
                    &&& t.wf()
                    &&& t.members() == active_backends(backends@)
                    &&& t.slots() == maglev_entries(active_backends(backends@), m as int)
                },
                Err(e) => {
                    &&& active_backends(backends@).len() == 0
                    &&& e@ == "cannot build lookup table: no backends with weight > 0"@
                },
            },
    {
        let mut active: Vec<Backend> = Vec::new();
        let mut k: usize = 0;
        while k < backends.len()
            invariant
                k <= backends@.len(),
                active@ == active_backends(backends@.take(k as int)),
            decreases backends@.len() - k,
        {
            let b: Backend = backends[k];
            if b.weight > 0 {
                active.push(b);
            }
            proof {
                assert(backends@.take(k + 1).drop_last() =~= backends@.take(k as int));
            }
            k = k + 1;
        }
        proof {
            assert(backends@.take(k as int) =~= backends@);
            lemma_active_weights(backends@);
        }
        if active.len() == 0 {
            return Err("cannot build lookup table: no backends with weight > 0");
        }
        let entries: Vec<usize> = LookupTable::fill(&active, m);
        proof {
            assert(active.len() == active@.len());
            maglev_shares(active@, m as int);
        }
        Ok(LookupTable { entries, backends: active })
    }

    /// Lets the backends take turns until every slot is claimed.
    fn fill(active: &Vec<Backend>, m: usize) -> (entries: Vec<usize>)
        requires
            is_prime(m as int),
            active@.len() > 0,
            forall|i: int| 0 <= i < active@.len() ==> (#[trigger] active@[i]).weight > 0,
        ensures
            entries@ == maglev_entries(active@, m as int),
    {
        let n: usize = active.len();
        let ghost params = list_params(active@, m as int);
        let ghost w = weights(active@);
        // Offset/skip pairs instead of full preference lists, and for each
        // backend the slot that it tries next.
        let mut cursors: Vec<usize> = Vec::with_capacity(n);
        let mut skips: Vec<usize> = Vec::with_capacity(n);
        let ghost mut next: Seq<int> = Seq::empty();
        let mut b: usize = 0;
        while b < n
            invariant
                b <= n,
                n == active@.len(),
                m >= 2,
                params == list_params(active@, m as int),
                cursors@.len() == b,
                skips@.len() == b,
                next.len() == b,
                forall|i: int|
                    0 <= i < b ==> (#[trigger] cursors@[i]) == preference(
                        params[i].0,
                        params[i].1,
                        m as int,
                        0,
                    ),
                forall|i: int| 0 <= i < b ==> (#[trigger] skips@[i]) == params[i].1,
                forall|i: int| 0 <= i < b ==> (#[trigger] next[i]) == 0,
            decreases n - b,
        {
            let name: String = active[b].name();
            let bytes: &[u8] = name.as_str().as_bytes();
            let o: usize = offset(bytes, m);
            let s: usize = skip(bytes, m);
            proof {
                vstd::arithmetic::div_mod::lemma_small_mod(o as nat, m as nat);
                next = next.push(0);
            }
            cursors.push(o);
            skips.push(s);
            b = b + 1;
        }
        proof {
            lemma_params_valid(active@, m as int);
            assert forall|j: int| 0 <= j < w.len() implies #[trigger] w[j] > 0 by {
                assert(active@[j].weight > 0);
            }
            lemma_weight_before_mono(w, 0, w.len() as int);
        }
        let mut entries: Vec<usize> = vec![UNCLAIMED; m];
        assert(entries@ =~= populated(params, w, m as nat, 0));
        let mut filled: usize = 0;
        let mut i: usize = 0;
        let mut chance: u32 = 0;
        let ghost mut round: int = 0;
        assert(total_weight(w) * round == 0) by (nonlinear_arith)
            requires
                round == 0,
        ;
        while filled < m
            invariant
                is_prime(m as int),
                n == active@.len(),
                n > 0,
                params == list_params(active@, m as int),
                w == weights(active@),
                w.len() == n,
                params.len() == n,
                params_valid(params, m as int),
                forall|j: int| 0 <= j < w.len() ==> #[trigger] w[j] > 0,
                filled <= m,
                i < n,
                0 <= chance < w[i as int],
                0 <= round,
                filled == total_weight(w) * round + weight_before(w, i as int) + chance,
                entries@ == populated(params, w, m as nat, filled as nat),
                entries@.len() == m,
                cursors@.len() == n,
                skips@.len() == n,
                next.len() == n,
                forall|a: int| 0 <= a < n ==> (#[trigger] skips@[a]) == params[a].1,
                forall|a: int|
                    0 <= a < n ==> (#[trigger] cursors@[a]) == preference(
                        params[a].0,
                        params[a].1,
                        m as int,
                        next[a],
                    ),
                forall|a: int| 0 <= a < n ==> 0 <= #[trigger] next[a],
                forall|a: int, j: int|
                    0 <= a < n && 0 <= j < next[a] ==> entries@[#[trigger] preference(
                        params[a].0,
                        params[a].1,
                        m as int,
                        j,
                    )] != UNCLAIMED,
            decreases m - filled,
        {
            let ghost (o, s) = params[i as int];
            let step: usize = skips[i];
            let mut c: usize = cursors[i];
            let ghost mut nx: int = next[i as int];
            let ghost first: int;
            proof {
                lemma_populated(params, w, m as nat, filled as nat);
                preference_is_permutation(o, s, m as int);
                lemma_weight_before_mono(w, i + 1, w.len() as int);
                lemma_weight_before_mono(w, 0, i as int);
                assert(weight_before(w, i + 1) == weight_before(w, i as int) + w[i as int]);
                assert(total_weight(w) * round == round * total_weight(w)) by (nonlinear_arith);
                lemma_fundamental_div_mod_converse(
                    filled as int,
                    total_weight(w),
                    round,
                    weight_before(w, i as int) + chance,
                );
                assert(owns_turn(w, i as int, filled as int));
                lemma_turn_owner(w, i as int, filled as int);
                first = choose|j: int| is_first_unclaimed(entries@, o, s, j);
                assert(next[i as int] <= first) by {
                    if first < next[i as int] {
                        assert(entries@[preference(o, s, m as int, first)] != UNCLAIMED);
                    }
                }
            }
            while entries[c] != UNCLAIMED
                invariant
                    entries@.len() == m,
                    0 < s < m,
                    step == s,
                    c == preference(o, s, m as int, nx),
                    c < m,
                    0 <= nx <= first,
                    is_first_unclaimed(entries@, o, s, first),
                decreases first - nx,
            {
                proof {
                    lemma_preference_step(o, s, m as int, nx);
                    nx = nx + 1;
                }
                c = advance(c, step, m);
            }
            proof {
                if nx < first {
                    assert(entries@[preference(o, s, m as int, nx)] != UNCLAIMED);
                }
                lemma_first_unclaimed(entries@, o, s, first);
                lemma_preference_step(o, s, m as int, nx);
            }
            let ghost before = entries@;
            entries[c] = i;
            cursors[i] = advance(c, step, m);
            proof {
                next = next.update(i as int, nx + 1);
                assert forall|a: int, j: int| 0 <= a < n && 0 <= j < next[a] implies entries@[
                #[trigger] preference(params[a].0, params[a].1, m as int, j)] != UNCLAIMED by {
                    lemma_mod_bound(params[a].0 + j * params[a].1, m as int);
                    let q = preference(params[a].0, params[a].1, m as int, j);
                    if a == i && j <= nx {
                        if j == nx {
                            assert(q == c);
                        } else {
                            assert(before[q] != UNCLAIMED);
                        }
                    } else {
                        assert(before[q] != UNCLAIMED);
                    }
                }
            }
            filled = filled + 1;
            if chance + 1 < active[i].weight {
                chance = chance + 1;
            } else {
                chance = 0;
                if i + 1 < n {
                    i = i + 1;
                } else {
                    proof {
                        assert(total_weight(w) * (round + 1) == total_weight(w) * round
                            + total_weight(w)) by (nonlinear_arith);
                        round = round + 1;
                    }
                    i = 0;
                }
            }
        }
        entries
    }

    /// Look up the backend for a given flow hash.
    pub fn lookup(&self, hash: u64) -> (b: &Backend)
        requires
            self.wf(),
        ensures
            *b == self.selected(hash),
    {
        let idx: usize = (hash % self.entries.len() as u64) as usize;
        proof {
            lemma_mod_bound(hash as int, self.entries@.len() as int);
            assert(self.slots()[idx as int] < self.members().len());
        }
        let backend_idx: usize = self.entries[idx];
        &self.backends[backend_idx]
    }

    /// Number of backends in this table.
    pub fn num_backends(&self) -> (n: usize)
        ensures
            n == self.members().len(),
    {
        self.backends.len()
    }

    /// The table size (M).
    pub fn table_size(&self) -> (m: usize)
        ensures
            m == self.slots().len(),
    {
        self.entries.len()
    }

    /// Get the raw entries (for testing/debugging).
    pub fn entries(&self) -> (e: &[usize])
        ensures
            e@ == self.slots(),
    {
        self.entries.as_slice()
    }

    /// Get the backends (for testing/debugging).
    pub fn backends(&self) -> (b: &[Backend])
        ensures
            b@ == self.members(),
    {
        self.backends.as_slice()
    }
}

/// The default table size is prime.
pub proof fn default_table_size_is_prime()
    ensures
        is_prime(DEFAULT_TABLE_SIZE as int),
{
    assert(forall|d: u32| 2 <= d <= 256 ==> #[trigger] (65537u32 % d) != 0) by (bit_vector);
    assert forall|d: int| 2 <= d < 65537 implies #[trigger] (65537int % d) != 0 by {
        if d <= 256 {
            assert(65537u32 % (d as u32) != 0);
        } else if 65537int % d == 0 {
            let e = 65537int / d;
            lemma_fundamental_div_mod(65537, d);
            assert(2 <= e <= 256) by (nonlinear_arith)
                requires
                    65537 == d * e,
                    256 < d < 65537,
            ;
            lemma_fundamental_div_mod_converse(65537, e, d, 0);
            assert(65537u32 % (e as u32) != 0);
        }
    }
}

/// A table hands out only its members, and one hash always selects the same
/// one.
pub proof fn selection_is_member(t: LookupTable, hash: u64)
    requires
        t.wf(),
    ensures
        t.members().contains(t.selected(hash)),
{
    lemma_mod_bound(hash as int, t.slots().len() as int);
    let c = hash as int % t.slots().len() as int;
    assert(t.slots()[c] < t.members().len());
}

/// Nodes need no coordination: two tables of one size that were built from the
/// same backends select the same backend for every flow.
pub proof fn nodes_agree(t: LookupTable, u: LookupTable, backends: Seq<Backend>, m: int, hash: u64)
    requires
        t.members() == active_backends(backends),
        t.slots() == maglev_entries(active_backends(backends), m),
        u.members() == active_backends(backends),
        u.slots() == maglev_entries(active_backends(backends), m),
    ensures
        t.selected(hash) == u.selected(hash),
{
}

} // verus!
