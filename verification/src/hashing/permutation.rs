//! The order in which a backend prefers the slots of the lookup table.

use vstd::arithmetic::div_mod::{lemma_add_mod_noop, lemma_fundamental_div_mod, lemma_mod_bound};
use vstd::prelude::*;
use vstd::relations::injective_on;
use vstd::set_lib::{lemma_int_range, lemma_map_size, lemma_subset_equality, set_int_range};

use crate::base::hash::{xxh3_64_with_seed, xxh3_seeded_digest};

verus! {

/// Whether `m` is a prime number.
pub open spec fn is_prime(m: int) -> bool {
    m >= 2 && forall|d: int| 2 <= d < m ==> #[trigger] (m % d) != 0
}

/// Where the preference list of a backend starts.
pub open spec fn offset_of(name: Seq<u8>, m: int) -> int {
    xxh3_seeded_digest(name, 0) as int % m
}

/// How far apart neighbours in the preference list of a backend are.
pub open spec fn skip_of(name: Seq<u8>, m: int) -> int {
    xxh3_seeded_digest(name, 1) as int % (m - 1) + 1
}

/// The `j`-th slot of the preference list with offset `o` and skip `s`.
pub open spec fn preference(o: int, s: int, m: int, j: int) -> int {
    (o + j * s) % m
}

/// Whether slot `c` stands in the preference list.
pub open spec fn visits(o: int, s: int, m: int, c: int) -> bool {
    exists|j: int| 0 <= j < m && #[trigger] preference(o, s, m, j) == c
}

/// A prime divides no product of two smaller positive numbers.
proof fn lemma_prime_product(m: int, s: int, a: int, q: int)
    requires
        is_prime(m),
        0 < s < m,
        0 < a < m,
    ensures
        a * s != m * q,
    decreases a,
{
    if a == 1 {
        assert(1 * s != m * q) by (nonlinear_arith)
            requires
                0 < s < m,
        ;
    } else if a * s == m * q {
        let k = m / a;
        let r = m % a;
        lemma_fundamental_div_mod(m, a);
        lemma_mod_bound(m, a);
        assert(r != 0);
        assert(r * s == m * (s - k * q)) by (nonlinear_arith)
            requires
                m == a * k + r,
                a * s == m * q,
        ;
        lemma_prime_product(m, s, r, s - k * q);
    }
}

proof fn lemma_preference_distinct(o: int, s: int, m: int, i: int, j: int)
    requires
        is_prime(m),
        0 < s < m,
        0 <= i < j < m,
    ensures
        preference(o, s, m, i) != preference(o, s, m, j),
{
    let x = o + i * s;
    let y = o + j * s;
    lemma_fundamental_div_mod(x, m);
    lemma_fundamental_div_mod(y, m);
    if x % m == y % m {
        let q = y / m - x / m;
        assert((j - i) * s == m * q) by (nonlinear_arith)
            requires
                x == o + i * s,
                y == o + j * s,
                x == m * (x / m) + x % m,
                y == m * (y / m) + y % m,
                x % m == y % m,
                q == y / m - x / m,
        ;
        lemma_prime_product(m, s, j - i, q);
    }
}

/// For a prime table size a preference list visits every slot exactly once.
pub proof fn preference_is_permutation(o: int, s: int, m: int)
    requires
        is_prime(m),
        0 < s < m,
    ensures
        forall|j: int| 0 <= #[trigger] preference(o, s, m, j) < m,
        forall|i: int, j: int|
            0 <= i < m && 0 <= j < m && #[trigger] preference(o, s, m, i) == #[trigger] preference(
                o,
                s,
                m,
                j,
            ) ==> i == j,
        forall|c: int| 0 <= c < m ==> #[trigger] visits(o, s, m, c),
{
    let f = |j: int| preference(o, s, m, j);
    let dom = set_int_range(0, m);
    assert forall|j: int| 0 <= #[trigger] preference(o, s, m, j) < m by {
        lemma_mod_bound(o + j * s, m);
    }
    assert forall|i: int, j: int|
        0 <= i < m && 0 <= j < m && #[trigger] preference(o, s, m, i) == #[trigger] preference(
            o,
            s,
            m,
            j,
        ) implies i == j by {
        if i < j {
            lemma_preference_distinct(o, s, m, i, j);
        } else if j < i {
            lemma_preference_distinct(o, s, m, j, i);
        }
    }
    lemma_int_range(0, m);
    let image = dom.map(f);
    assert(injective_on(f, dom));
    lemma_map_size(dom, image, f);
    assert(image.subset_of(dom));
    lemma_subset_equality(image, dom);
    assert forall|c: int| 0 <= c < m implies #[trigger] visits(o, s, m, c) by {
        assert(image.contains(c));
        let j = choose|j: int| dom.contains(j) && f(j) == c;
        assert(preference(o, s, m, j) == c);
    }
}

/// The next slot of a preference list lies one skip behind the last.
pub proof fn lemma_preference_step(o: int, s: int, m: int, j: int)
    requires
        0 < s < m,
    ensures
        preference(o, s, m, j + 1) == (if preference(o, s, m, j) + s < m {
            preference(o, s, m, j) + s
        } else {
            preference(o, s, m, j) + s - m
        }),
        0 <= preference(o, s, m, j) < m,
{
    let x = o + j * s;
    assert(o + (j + 1) * s == x + s) by (nonlinear_arith)
        requires
            x == o + j * s,
    ;
    lemma_mod_bound(x, m);
    let p = x % m;
    lemma_add_mod_noop(x, s, m);
    vstd::arithmetic::div_mod::lemma_small_mod(s as nat, m as nat);
    if p + s < m {
        vstd::arithmetic::div_mod::lemma_small_mod((p + s) as nat, m as nat);
    } else {
        vstd::arithmetic::div_mod::lemma_small_mod((p + s - m) as nat, m as nat);
        vstd::arithmetic::div_mod::lemma_mod_multiples_vanish(1, p + s - m, m);
    }
}

/// Derive the `offset` for a backend's preference list.
/// Uses xxh3 with seed 0.
pub fn offset(name: &[u8], m: usize) -> (o: usize)
    requires
        m >= 1,
    ensures
        o == offset_of(name@, m as int),
        o < m,
{
    (xxh3_64_with_seed(name, 0) % m as u64) as usize
}

/// Derive the `skip` for a backend's preference list.
/// Uses xxh3 with seed 1. Result is in [1, M-1].
pub fn skip(name: &[u8], m: usize) -> (s: usize)
    requires
        m >= 2,
    ensures
        s == skip_of(name@, m as int),
        1 <= s < m,
{
    (xxh3_64_with_seed(name, 1) % (m as u64 - 1) + 1) as usize
}

/// The slot one skip behind `c`.
pub(crate) fn advance(c: usize, s: usize, m: usize) -> (r: usize)
    requires
        c < m,
        0 < s < m,
    ensures
        r == (if c + s < m {
            c + s
        } else {
            c + s - m
        }),
        r < m,
{
    if c < m - s {
        c + s
    } else {
        c - (m - s)
    }
}

/// The preference list with offset `o` and skip `s`.
pub fn preference_slots(o: usize, s: usize, m: usize) -> (list: Vec<usize>)
    requires
        o < m,
        0 < s < m,
    ensures
        list@.len() == m,
        forall|j: int| 0 <= j < m ==> #[trigger] list@[j] == preference(
            o as int,
            s as int,
            m as int,
            j,
        ),
{
    let mut list: Vec<usize> = Vec::with_capacity(m);
    let mut c: usize = o;
    let mut j: usize = 0;
    proof {
        vstd::arithmetic::div_mod::lemma_small_mod(o as nat, m as nat);
    }
    while j < m
        invariant
            j <= m,
            c < m,
            0 < s < m,
            c == preference(o as int, s as int, m as int, j as int),
            list@.len() == j,
            forall|i: int| 0 <= i < j ==> #[trigger] list@[i] == preference(
                o as int,
                s as int,
                m as int,
                i,
            ),
        decreases m - j,
    {
        list.push(c);
        proof {
            lemma_preference_step(o as int, s as int, m as int, j as int);
        }
        c = advance(c, s, m);
        j = j + 1;
    }
    list
}

/// Generate the preference list for a backend: the slot indices the backend
/// prefers, in order.
pub fn preference_list(name: &[u8], m: usize) -> (list: Vec<usize>)
    requires
        m >= 2,
    ensures
        list@.len() == m,
        forall|j: int| 0 <= j < m ==> #[trigger] list@[j] == preference(
            offset_of(name@, m as int),
            skip_of(name@, m as int),
            m as int,
            j,
        ),
{
    preference_slots(offset(name, m), skip(name, m), m)
}

} // verus!
