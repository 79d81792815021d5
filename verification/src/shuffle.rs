//! Seeded Fisher–Yates shuffle of queue positions.
//!
//! The playback queue plays tracks in a shuffled order described by a
//! permutation of the queue positions `0..n`. The permutation is produced by
//! a Fisher–Yates pass driven by a 64-bit linear congruential generator, so a
//! given seed always yields the same order.
use vstd::prelude::*;

verus! {

/// Multiplier of the linear congruential generator.
pub const LCG_MUL: u64 = 6364136223846793005u64;

/// Increment of the linear congruential generator.
pub const LCG_INC: u64 = 1442695040888963407u64;

/// One step of the generator.
pub open spec fn lcg_next(seed: u64) -> u64 {
    seed.wrapping_mul(LCG_MUL).wrapping_add(LCG_INC)
}

/// The high bits of a generator state, used as the random draw.
pub open spec fn lcg_draw(seed: u64) -> nat {
    (seed >> 33u64) as nat
}

/// `s` with the elements at positions `i` and `j` exchanged.
pub open spec fn swap_at(s: Seq<usize>, i: int, j: int) -> Seq<usize> {
    s.update(i, s[j]).update(j, s[i])
}

/// The identity order `0, 1, .., n - 1`.
pub open spec fn identity_order(n: nat) -> Seq<usize> {
    Seq::new(n, |k: int| k as usize)
}

/// `s` holds each of `0..n` exactly once.
pub open spec fn is_permutation_of_range(s: Seq<usize>, n: nat) -> bool {
    &&& s.len() == n
    &&& forall|k: int| 0 <= k < s.len() ==> (#[trigger] s[k] as int) < n
    &&& forall|a: int, b: int| 0 <= a < b < s.len() ==> #[trigger] s[a] != #[trigger] s[b]
}

/// Fisher–Yates swaps for positions `i, i - 1, .., 1`, starting from `order`
/// and generator state `seed`; yields the resulting order and generator state.
pub open spec fn fisher_yates(order: Seq<usize>, seed: u64, i: nat) -> (Seq<usize>, u64)
    decreases i,
{
    if i == 0 {
        (order, seed)
    } else {
        let s2 = lcg_next(seed);
        let j = lcg_draw(s2) % (i + 1);
        fisher_yates(swap_at(order, i as int, j as int), s2, (i - 1) as nat)
    }
}

/// The shuffled order of `n` positions for `seed`: the Fisher–Yates pass over
/// the identity order, then, when `avoid_first` names the position at the
/// front and `n > 1`, one more draw picks a position in `1..n` to exchange
/// with the front.
pub open spec fn shuffled_order(n: nat, seed: u64, avoid_first: Option<usize>) -> Seq<usize> {
    let (order, s) = if n == 0 {
        (identity_order(0), seed)
    } else {
        fisher_yates(identity_order(n), seed, (n - 1) as nat)
    };
    match avoid_first {
        Some(c) => if n > 1 && order[0] == c {
            let s2 = lcg_next(s);
            let p = 1 + lcg_draw(s2) % ((n - 1) as nat);
            swap_at(order, 0, p as int)
        } else {
            order
        },
        None => order,
    }
}

proof fn lemma_swap_keeps_permutation(s: Seq<usize>, n: nat, i: int, j: int)
    requires
        is_permutation_of_range(s, n),
        0 <= i < n,
        0 <= j < n,
    ensures
        is_permutation_of_range(swap_at(s, i, j), n),
{
    let t = swap_at(s, i, j);
    assert forall|a: int, b: int| 0 <= a < b < t.len() implies #[trigger] t[a] != #[trigger] t[b] by {
        let sa = if a == j { i } else if a == i { j } else { a };
        let sb = if b == j { i } else if b == i { j } else { b };
        assert(t[a] == s[sa]);
        assert(t[b] == s[sb]);
        assert(sa != sb);
        if sa < sb {
            assert(s[sa] != s[sb]);
        } else {
            assert(s[sb] != s[sa]);
        }
    }
    assert forall|k: int| 0 <= k < t.len() implies (#[trigger] t[k] as int) < n by {
        let sk = if k == j { i } else if k == i { j } else { k };
        assert(t[k] == s[sk]);
    }
}

proof fn lemma_fisher_yates_permutation(order: Seq<usize>, seed: u64, i: nat, n: nat)
    requires
        is_permutation_of_range(order, n),
        i < n,
    ensures
        is_permutation_of_range(fisher_yates(order, seed, i).0, n),
    decreases i,
{
    if i > 0 {
        let s2 = lcg_next(seed);
        let j = lcg_draw(s2) % (i + 1);
        lemma_swap_keeps_permutation(order, n, i as int, j as int);
        lemma_fisher_yates_permutation(swap_at(order, i as int, j as int), s2, (i - 1) as nat, n);
    }
}

proof fn lemma_identity_permutation(n: nat)
    requires
        n <= usize::MAX,
    ensures
        is_permutation_of_range(identity_order(n), n),
{
    let s = identity_order(n);
    assert forall|a: int, b: int| 0 <= a < b < s.len() implies #[trigger] s[a] != #[trigger] s[b] by {
        assert(s[a] == a as usize);
        assert(s[b] == b as usize);
    }
}

/// Every shuffled order of a machine-sized `n` holds each of `0..n` exactly once, and when
/// `avoid_first` is given with `n > 1` it does not stand at the front.
pub proof fn lemma_shuffled_order_is_permutation(n: nat, seed: u64, avoid_first: Option<usize>)
    requires
        n <= usize::MAX,
    ensures
        is_permutation_of_range(shuffled_order(n, seed, avoid_first), n),
        avoid_first is Some && n > 1 ==> shuffled_order(n, seed, avoid_first)[0] != avoid_first->0,
{
    lemma_identity_permutation(n);
    if n > 0 {
        lemma_fisher_yates_permutation(identity_order(n), seed, (n - 1) as nat, n);
    }
    let (order, s) = if n == 0 {
        (identity_order(0), seed)
    } else {
        fisher_yates(identity_order(n), seed, (n - 1) as nat)
    };
    if let Some(c) = avoid_first {
        if n > 1 && order[0] == c {
            let s2 = lcg_next(s);
            let p = 1 + lcg_draw(s2) % ((n - 1) as nat);
            lemma_swap_keeps_permutation(order, n, 0, p as int);
            let t = swap_at(order, 0, p as int);
            assert(t[0] == order[p as int]);
            assert(order[0] != order[p as int]);
        }
    }
}

proof fn lemma_fisher_yates_keeps_tail(order: Seq<usize>, seed: u64, i: nat, p: int)
    requires
        i < order.len(),
        i < p < order.len(),
    ensures
        fisher_yates(order, seed, i).0.len() == order.len(),
        fisher_yates(order, seed, i).0[p] == order[p],
    decreases i,
{
    if i > 0 {
        let s2 = lcg_next(seed);
        let j = lcg_draw(s2) % (i + 1);
        let o2 = swap_at(order, i as int, j as int);
        lemma_fisher_yates_keeps_tail(o2, s2, (i - 1) as nat, p);
    }
}

/// The last slot of a shuffled order (without a position to avoid) holds
/// the position drawn by the generator's first step, `(state >> 33) % n`
/// for the state after one step from the seed: the first Fisher–Yates swap
/// exchanges the last position with a drawn one, and no later swap touches
/// the last slot.
pub proof fn lemma_shuffle_last_slot_is_first_draw(n: nat, seed: u64)
    requires
        2 <= n <= usize::MAX,
    ensures
        shuffled_order(n, seed, None)[n - 1] == lcg_draw(lcg_next(seed)) % n,
{
    let id = identity_order(n);
    let s2 = lcg_next(seed);
    let j = lcg_draw(s2) % n;
    let o2 = swap_at(id, (n - 1) as int, j as int);
    assert(o2[n - 1] == id[j as int]);
    assert(id[j as int] == j as usize);
    lemma_fisher_yates_keeps_tail(o2, s2, (n - 2) as nat, n - 1);
    assert(fisher_yates(id, seed, (n - 1) as nat) == fisher_yates(o2, s2, (n - 2) as nat));
}

/// Shuffling really reorders: for every `n >= 2` some seed gives an order
/// other than the queue order `0, 1, .., n - 1`.
pub proof fn lemma_some_seed_reorders(n: nat)
    requires
        2 <= n <= usize::MAX,
    ensures
        exists|seed: u64| #[trigger] shuffled_order(n, seed, None) != identity_order(n),
{
    let seed: u64 = 11066951453180645397u64;
    assert(lcg_next(seed) == 0);
    assert(0u64 >> 33u64 == 0u64) by (bit_vector);
    lemma_shuffle_last_slot_is_first_draw(n, seed);
    assert(shuffled_order(n, seed, None)[n - 1] == 0);
    assert(identity_order(n)[n - 1] == (n - 1) as usize);
    assert(shuffled_order(n, seed, None) != identity_order(n));
}

fn lcg_step(seed: u64) -> (r: u64)
    ensures
        r == lcg_next(seed),
{
    seed.wrapping_mul(LCG_MUL).wrapping_add(LCG_INC)
}

fn draw_below(seed: u64, bound: usize) -> (r: usize)
    requires
        bound > 0,
    ensures
        r as nat == lcg_draw(seed) % (bound as nat),
        r < bound,
{
    let hi: u64 = seed >> 33u64;
    assert(seed >> 33u64 <= 0x7fff_ffffu64) by (bit_vector);
    let h: usize = hi as usize;
    h % bound
}

/// Shuffle the positions `0..n` with the generator seeded by `seed`; when
/// `avoid_first` names the position that lands at the front (and `n > 1`),
/// exchange it with a randomly drawn later position.
pub fn shuffle_order_from_seed(n: usize, seed: u64, avoid_first: Option<usize>) -> (order: Vec<usize>)
    ensures
        order@ == shuffled_order(n as nat, seed, avoid_first),
        is_permutation_of_range(order@, n as nat),
        avoid_first is Some && n > 1 ==> order@[0] != avoid_first->0,
{
    proof {
        lemma_shuffled_order_is_permutation(n as nat, seed, avoid_first);
    }
    let mut order: Vec<usize> = Vec::new();
    let mut k: usize = 0;
    while k < n
        invariant
            k <= n,
            order@ == identity_order(k as nat),
        decreases n - k,
    {
        order.push(k);
        k = k + 1;
        assert(order@ =~= identity_order(k as nat));
    }
    let mut s: u64 = seed;
    if n > 0 {
        let mut i: usize = n - 1;
        while i > 0
            invariant
                i < n,
                order@.len() == n,
                fisher_yates(order@, s, i as nat) == fisher_yates(identity_order(n as nat), seed, (n - 1) as nat),
            decreases i,
        {
            s = lcg_step(s);
            let j = draw_below(s, i + 1);
            let ghost before = order@;
            let a = order[i];
            let b = order[j];
            order.set(i, b);
            order.set(j, a);
            assert(order@ =~= swap_at(before, i as int, j as int));
            i = i - 1;
        }
    }
    if let Some(c) = avoid_first {
        if n > 1 && order[0] == c {
            s = lcg_step(s);
            let p = 1 + draw_below(s, n - 1);
            let ghost before = order@;
            let a = order[0];
            let b = order[p];
            order.set(0, b);
            order.set(p, a);
            assert(order@ =~= swap_at(before, 0, p as int));
        }
    }
    order
}

} // verus!
