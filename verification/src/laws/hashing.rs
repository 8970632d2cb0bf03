//! Which backend a flow hash selects, and how a lookup table comes about.

use vstd::arithmetic::div_mod::{
    lemma_fundamental_div_mod, lemma_fundamental_div_mod_converse, lemma_mod_bound,
};
use vstd::prelude::*;
use vstd::utf8::encode_utf8;

use crate::base::hash::xxh3_seeded_digest;
use crate::base::text::decimal;
use crate::hashing::lookup_table::{
    active_backends, claimed_slot, is_first_unclaimed, lemma_first_unclaimed, lemma_params_valid,
    lemma_populated, list_params, maglev_entries, populated, share, turn_owner, weight_before,
    weights, LookupTable, UNCLAIMED,
};
use crate::hashing::permutation::{is_prime, preference, preference_is_permutation};
use crate::types::backend::Backend;

verus! {

/// A lookup goes by what is left of the hash when the table's length is taken off
/// as often as it goes: every `u64` selects the backend in that slot.
pub proof fn lookup_goes_round_the_table(t: LookupTable, hash: u64, q: int, c: int)
    requires
        t.wf(),
        0 <= c < t.slots().len(),
        hash == q * t.slots().len() + c,
    ensures
        t.selected(hash) == t.members()[t.slots()[c] as int],
{
    lemma_fundamental_div_mod_converse(hash as int, t.slots().len() as int, q, c);
}

/// Two hashes that lie a whole number of table lengths apart select the same
/// backend.
pub proof fn lookup_is_periodic(t: LookupTable, x: u64, y: u64, q: int)
    requires
        t.wf(),
        y == x + q * t.slots().len(),
    ensures
        t.selected(x) == t.selected(y),
{
    let m = t.slots().len() as int;
    let c = x as int % m;
    lemma_fundamental_div_mod(x as int, m);
    lemma_mod_bound(x as int, m);
    assert(x == (x as int / m) * m + c) by (nonlinear_arith)
        requires
            x == m * (x as int / m) + c,
    ;
    lookup_goes_round_the_table(t, x, x as int / m, c);
    assert(y == (x as int / m + q) * m + c) by (nonlinear_arith)
        requires
            x == (x as int / m) * m + c,
            y == x + q * m,
    ;
    lookup_goes_round_the_table(t, y, x as int / m + q, c);
}

/// How many of the `n` hashes from `start` on select the backend `b`.
pub open spec fn times_selected(t: LookupTable, start: int, n: nat, b: Backend) -> nat
    decreases n,
{
    if n == 0 {
        0
    } else {
        times_selected(t, start, (n - 1) as nat, b) + if t.selected((start + n - 1) as u64) == b {
            1nat
        } else {
            0nat
        }
    }
}

proof fn lemma_times_front(t: LookupTable, start: int, n: nat, b: Backend)
    ensures
        times_selected(t, start, n + 1, b) == times_selected(t, start + 1, n, b) + (if t.selected(
            start as u64,
        ) == b {
            1nat
        } else {
            0nat
        }),
    decreases n,
{
    if n == 0 {
        reveal_with_fuel(times_selected, 2);
    } else {
        lemma_times_front(t, start, (n - 1) as nat, b);
    }
}

proof fn lemma_times_from_zero(t: LookupTable, n: nat, i: usize)
    requires
        t.wf(),
        n <= t.slots().len() <= u64::MAX,
        i < t.members().len(),
        forall|j: int|
            0 <= j < t.members().len() && j != i ==> #[trigger] t.members()[j]
                != t.members()[i as int],
    ensures
        times_selected(t, 0, n, t.members()[i as int]) == share(t.slots().take(n as int), i),
    decreases n,
{
    if n > 0 {
        let c = n - 1;
        lemma_times_from_zero(t, c as nat, i);
        let s = t.slots().take(n as int);
        assert(s.drop_last() =~= t.slots().take(c));
        assert(s.last() == t.slots()[c]);
        lookup_goes_round_the_table(t, c as u64, 0, c);
        assert(t.slots()[c] < t.members().len());
    }
}

/// Every backend gets its share: over as many consecutive hashes as the table
/// has slots, wherever they start, a backend is selected exactly as often as it
/// holds slots.
pub proof fn backends_get_their_shares(t: LookupTable, start: int, i: usize)
    requires
        t.wf(),
        0 <= start,
        start + t.slots().len() <= u64::MAX,
        i < t.members().len(),
        forall|j: int|
            0 <= j < t.members().len() && j != i ==> #[trigger] t.members()[j]
                != t.members()[i as int],
    ensures
        times_selected(t, start, t.slots().len(), t.members()[i as int]) == share(t.slots(), i),
    decreases start,
{
    let m = t.slots().len();
    let b = t.members()[i as int];
    if start == 0 {
        lemma_times_from_zero(t, m, i);
        assert(t.slots().take(m as int) =~= t.slots());
    } else {
        backends_get_their_shares(t, start - 1, i);
        lemma_times_front(t, start - 1, m, b);
        lemma_times_front(t, start - 1, (m - 1) as nat, b);
        lookup_is_periodic(t, (start - 1) as u64, (start - 1 + m) as u64, 1);
    }
}

/// The share of a value is how many slots hold it: no slot more, no slot less.
pub proof fn shares_count_slots(s: Seq<usize>, x: usize, v: usize)
    ensures
        share(Seq::<usize>::empty(), v) == 0,
        share(s.push(x), v) == share(s, v) + (if x == v {
            1nat
        } else {
            0nat
        }),
{
    assert(s.push(x).drop_last() =~= s);
}

/// Backends with weight take part in their order, those without do not.
pub proof fn weighted_backends_take_part(s: Seq<Backend>, b: Backend)
    ensures
        active_backends(Seq::<Backend>::empty()) == Seq::<Backend>::empty(),
        b.weight > 0 ==> active_backends(s.push(b)) == active_backends(s).push(b),
        b.weight == 0 ==> active_backends(s.push(b)) == active_backends(s),
{
    assert(s.push(b).drop_last() =~= s);
    assert(s.push(b).last() == b);
}

/// The weights of the first `i` backends together.
pub open spec fn weight_of_first(s: Seq<Backend>, i: int) -> int
    decreases i,
{
    if i <= 0 {
        0
    } else {
        weight_of_first(s, i - 1) + s[i - 1].weight
    }
}

/// Whether turn `k` is backend `i`'s, if in each round the backends take turns in
/// their order, each as many in a row as its weight.
pub open spec fn has_turn(s: Seq<Backend>, i: int, k: int) -> bool {
    &&& 0 <= i < s.len()
    &&& weight_of_first(s, i) <= k % weight_of_first(s, s.len() as int) < weight_of_first(s, i + 1)
}

/// The `j`-th slot that a backend would like, in a table of `m` slots: the digest of
/// its name under seed 0 tells where it starts, the one under seed 1 how far apart its
/// wishes are.
pub open spec fn wished_slot(b: Backend, m: int, j: int) -> int {
    let name = encode_utf8(b.ip.text() + ":"@ + decimal(b.port as int));
    (xxh3_seeded_digest(name, 0) as int % m + j * (xxh3_seeded_digest(name, 1) as int % (m - 1)
        + 1)) % m
}

/// Whether in turn `k` backend `b` claims the slot `claims[k]`: the first of those
/// it would like that was not claimed in an earlier turn.
pub open spec fn claims_first_free(b: Backend, claims: Seq<int>, k: int) -> bool {
    exists|j: int|
        0 <= j < claims.len() && #[trigger] wished_slot(b, claims.len() as int, j) == claims[k]
            && !claims.take(k).contains(claims[k]) && forall|i: int|
            0 <= i < j ==> claims.take(k).contains(#[trigger] wished_slot(b, claims.len() as int, i))
}

/// Whether a table of slots comes about by turns: in each turn the backend whose
/// turn it is claims a slot, every slot is claimed once, and holds who claimed it.
pub open spec fn comes_about_by_turns(
    slots: Seq<usize>,
    active: Seq<Backend>,
    claims: Seq<int>,
) -> bool {
    &&& slots.len() == claims.len()
    &&& forall|k: int| 0 <= k < claims.len() ==> 0 <= #[trigger] claims[k] < slots.len()
    &&& forall|k: int|
        0 <= k < claims.len() ==> has_turn(active, slots[#[trigger] claims[k]] as int, k)
            && claims_first_free(active[slots[claims[k]] as int], claims, k)
}

proof fn lemma_weight_sums(s: Seq<Backend>, i: int)
    requires
        i <= s.len(),
    ensures
        weight_of_first(s, i) == weight_before(weights(s), i),
    decreases i,
{
    if i > 0 {
        lemma_weight_sums(s, i - 1);
    }
}

/// The slots that were claimed in the first `k` turns, in order.
spec fn claim_order(active: Seq<Backend>, m: nat, k: nat) -> Seq<int>
    decreases k,
{
    if k == 0 {
        Seq::empty()
    } else {
        let params = list_params(active, m as int);
        let w = weights(active);
        let t = populated(params, w, m, (k - 1) as nat);
        let b = turn_owner(w, k - 1);
        claim_order(active, m, (k - 1) as nat).push(
            claimed_slot(t, params[b].0, params[b].1),
        )
    }
}

proof fn lemma_claim_order(active: Seq<Backend>, m: nat, k: nat)
    requires
        is_prime(m as int),
        0 < active.len() <= usize::MAX,
        forall|i: int| 0 <= i < active.len() ==> (#[trigger] active[i]).weight > 0,
        k <= m,
    ensures
        ({
            let order = claim_order(active, m, k);
            let t = populated(list_params(active, m as int), weights(active), m, k);
            &&& order.len() == k
            &&& t.len() == m
            &&& forall|c: int|
                0 <= c < m ==> ((#[trigger] t[c]) == UNCLAIMED <==> !order.contains(c))
            &&& forall|i: int| 0 <= i < k ==> 0 <= #[trigger] order[i] < m
            &&& forall|i: int|
                0 <= i < k ==> t[#[trigger] order[i]] == turn_owner(weights(active), i) as usize
        }),
    decreases k,
{
    let params = list_params(active, m as int);
    let w = weights(active);
    lemma_params_valid(active, m as int);
    assert forall|j: int| 0 <= j < w.len() implies #[trigger] w[j] > 0 by {
        assert(active[j].weight > 0);
    }
    lemma_populated(params, w, m, k);
    let order = claim_order(active, m, k);
    let t = populated(params, w, m, k);
    if k > 0 {
        let k1 = (k - 1) as nat;
        lemma_claim_order(active, m, k1);
        lemma_populated(params, w, m, k1);
        let p = populated(params, w, m, k1);
        let b = turn_owner(w, k1 as int);
        let (o, s) = params[b];
        preference_is_permutation(o, s, m as int);
        let c = claimed_slot(p, o, s);
        let before = claim_order(active, m, k1);
        assert(0 <= c < m && p[c] == UNCLAIMED);
        assert(!before.contains(c));
        assert(order[k1 as int] == c);
        assert forall|x: int| 0 <= x < m implies ((#[trigger] t[x]) == UNCLAIMED
            <==> !order.contains(x)) by {
            assert(p[x] == UNCLAIMED <==> !before.contains(x));
            if before.contains(x) {
                let i = choose|i: int| 0 <= i < before.len() && before[i] == x;
                assert(order[i] == x);
            }
            if order.contains(x) && x != c {
                let i = choose|i: int| 0 <= i < order.len() && order[i] == x;
                assert(before[i] == x);
            }
        }
        assert forall|i: int| 0 <= i < k implies t[#[trigger] order[i]] == turn_owner(w, i) as usize
        by {
            if i < k1 {
                assert(before[i] == order[i]);
                assert(before.contains(order[i]));
            }
        }
    }
}

proof fn lemma_claim_prefix(active: Seq<Backend>, m: nat, k: nat, n: nat)
    requires
        k <= n,
    ensures
        claim_order(active, m, n).len() == n,
        claim_order(active, m, n).take(k as int) == claim_order(active, m, k),
    decreases n,
{
    if n > 0 {
        if k < n {
            lemma_claim_prefix(active, m, k, (n - 1) as nat);
        } else {
            lemma_claim_prefix(active, m, (k - 1) as nat, (n - 1) as nat);
        }
        assert(claim_order(active, m, n).take(k as int) =~= claim_order(active, m, k));
    }
}

/// A lookup table comes about by turns: the backends claim slots in weighted
/// turns, each the first free one of those its name makes it like, until every slot
/// is claimed.
pub proof fn tables_come_about_by_turns(active: Seq<Backend>, m: int)
    requires
        is_prime(m),
        0 < active.len() <= usize::MAX,
        forall|i: int| 0 <= i < active.len() ==> (#[trigger] active[i]).weight > 0,
    ensures
        exists|claims: Seq<int>|
            claims.len() == m && #[trigger] comes_about_by_turns(
                maglev_entries(active, m),
                active,
                claims,
            ),
{
    let n = m as nat;
    let params = list_params(active, m);
    let w = weights(active);
    let claims = claim_order(active, n, n);
    let slots = maglev_entries(active, m);
    lemma_params_valid(active, m);
    assert forall|j: int| 0 <= j < w.len() implies #[trigger] w[j] > 0 by {
        assert(active[j].weight > 0);
    }
    lemma_claim_order(active, n, n);
    lemma_weight_sums(active, active.len() as int);
    assert forall|k: int| 0 <= k < claims.len() implies has_turn(
        active,
        slots[#[trigger] claims[k]] as int,
        k,
    ) && claims_first_free(active[slots[claims[k]] as int], claims, k) by {
        let t = populated(params, w, n, k as nat);
        let b = turn_owner(w, k);
        lemma_populated(params, w, n, k as nat);
        lemma_weight_sums(active, b);
        lemma_weight_sums(active, b + 1);
        assert(slots[claims[k]] == b);
        lemma_claim_order(active, n, k as nat);
        lemma_claim_prefix(active, n, k as nat, n);
        lemma_claim_prefix(active, n, (k + 1) as nat, n);
        let before = claims.take(k);
        let (o, s) = params[b];
        let j = choose|j: int| is_first_unclaimed(t, o, s, j);
        lemma_first_unclaimed(t, o, s, j);
        preference_is_permutation(o, s, m);
        assert(claims.take(k + 1)[k] == claims[k]);
        assert(claims[k] == preference(o, s, m, j));
        assert forall|i: int| wished_slot(active[b], m, i) == preference(o, s, m, i) by {}
        assert(wished_slot(active[b], m, j) == claims[k]);
        assert forall|i: int| 0 <= i < j implies before.contains(
            #[trigger] wished_slot(active[b], m, i),
        ) by {
            assert(t[preference(o, s, m, i)] != UNCLAIMED);
        }
    }
    assert(comes_about_by_turns(slots, active, claims));
}

} // verus!
