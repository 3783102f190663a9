//! Stable top-k selection by score, as a filtered similarity search ranks its
//! hits: highest score first, equal scores kept in their input order, then
//! cut to the first `k`.

use vstd::prelude::*;

verus! {

/// The order key of an IEEE-754 single-precision value given by its bits:
/// for every non-NaN value it orders as `f32::partial_cmp` does, with `+0.0`
/// and `-0.0` sharing the key 0.
pub open spec fn float_key(bits: u32) -> int {
    if bits >= 0x8000_0000 {
        -((bits - 0x8000_0000) as int)
    } else {
        bits as int
    }
}

/// Index `a` comes before index `b`: a higher key, or an equal key and an
/// earlier position.
pub open spec fn precedes(keys: Seq<i64>, a: int, b: int) -> bool {
    keys[a] > keys[b] || (keys[a] == keys[b] && a < b)
}

/// `r` lists the first `min(k, keys.len())` indices of `keys` in descending
/// key order, ties in ascending index order: exactly what a stable
/// descending sort of the indices, cut to `k`, yields.
pub open spec fn is_top_k(keys: Seq<i64>, r: Seq<usize>, k: nat) -> bool {
    &&& r.len() == if k < keys.len() { k } else { keys.len() }
    &&& forall|i: int| 0 <= i < r.len() ==> #[trigger] r[i] < keys.len()
    &&& forall|i: int, j: int|
        0 <= i < j < r.len() ==> precedes(keys, #[trigger] r[i] as int, #[trigger] r[j] as int)
    &&& forall|x: int, i: int|
        #![trigger r.contains(x as usize), r[i]]
        0 <= x < keys.len() && !r.contains(x as usize) && 0 <= i < r.len() ==> precedes(
            keys,
            r[i] as int,
            x,
        )
}

/// The order key of a similarity given by its `f32` bits (see [`float_key`]).
pub fn float_order_key(bits: u32) -> (k: i64)
    ensures
        k == float_key(bits),
{
    if bits >= 0x8000_0000 {
        -((bits - 0x8000_0000) as i64)
    } else {
        bits as i64
    }
}

spec fn sorted_by(keys: Seq<i64>, s: Seq<usize>) -> bool {
    forall|i: int, j: int|
        0 <= i < j < s.len() ==> precedes(keys, #[trigger] s[i] as int, #[trigger] s[j] as int)
}

/// The indices of `keys` in stable descending key order, cut to the first
/// `k`.
pub fn top_k_indices(keys: &Vec<i64>, k: usize) -> (r: Vec<usize>)
    ensures
        is_top_k(keys@, r@, k as nat),
{
    let n = keys.len();
    let mut order: Vec<usize> = Vec::new();
    let mut i: usize = 0;
    while i < n
        invariant
            n == keys.len(),
            i <= n,
            order.len() == i,
            sorted_by(keys@, order@),
            forall|t: int| 0 <= t < order.len() ==> #[trigger] order@[t] < i,
            forall|x: int| 0 <= x < i ==> #[trigger] order@.contains(x as usize),
        decreases n - i,
    {
        let mut pos: usize = 0;
        while pos < order.len() && keys[order[pos]] >= keys[i]
            invariant
                n == keys.len(),
                i < n,
                pos <= order.len(),
                order.len() == i,
                sorted_by(keys@, order@),
                forall|t: int| 0 <= t < order.len() ==> #[trigger] order@[t] < i,
                forall|t: int| 0 <= t < pos ==> keys@[#[trigger] order@[t] as int] >= keys@[i as int],
            decreases order.len() - pos,
        {
            pos = pos + 1;
        }
        proof {
            assert forall|t: int| pos <= t < order.len() implies keys@[#[trigger] order@[t] as int]
                < keys@[i as int] by {
                if t > pos {
                    assert(precedes(keys@, order@[pos as int] as int, order@[t] as int));
                }
            }
        }
        let ghost old_order = order@;
        order.insert(pos, i);
        proof {
            assert(order@ == old_order.insert(pos as int, i));
            assert forall|a: int, b: int| 0 <= a < b < order@.len() implies precedes(
                keys@,
                #[trigger] order@[a] as int,
                #[trigger] order@[b] as int,
            ) by {
                if b < pos {
                    assert(order@[a] == old_order[a] && order@[b] == old_order[b]);
                } else if b == pos {
                    assert(order@[a] == old_order[a]);
                } else if a < pos {
                    assert(order@[a] == old_order[a] && order@[b] == old_order[b - 1]);
                } else if a == pos {
                    assert(order@[b] == old_order[b - 1]);
                } else {
                    assert(order@[a] == old_order[a - 1] && order@[b] == old_order[b - 1]);
                }
            }
            assert forall|t: int| 0 <= t < order.len() implies #[trigger] order@[t] < i + 1 by {
                if t < pos {
                    assert(order@[t] == old_order[t]);
                } else if t > pos {
                    assert(order@[t] == old_order[t - 1]);
                }
            }
            assert forall|x: int| 0 <= x < i + 1 implies #[trigger] order@.contains(x as usize) by {
                if x == i {
                    assert(order@[pos as int] == i);
                } else {
                    assert(old_order.contains(x as usize));
                    let t = choose|t: int| 0 <= t < old_order.len() && old_order[t] == x as usize;
                    if t < pos {
                        assert(order@[t] == old_order[t]);
                    } else {
                        assert(order@[t + 1] == old_order[t]);
                    }
                }
            }
        }
        i = i + 1;
    }
    let take = if k < n {
        k
    } else {
        n
    };
    let ghost full = order@;
    order.truncate(take);
    proof {
        assert(order@ == full.subrange(0, take as int));
        assert forall|x: int, t: int|
            #![trigger order@.contains(x as usize), order@[t]]
            0 <= x < keys@.len() && !order@.contains(x as usize) && 0 <= t < order@.len() implies
            precedes(keys@, order@[t] as int, x) by {
            assert(full.contains(x as usize));
            let u = choose|u: int| 0 <= u < full.len() && full[u] == x as usize;
            if u < take {
                assert(order@[u] == x as usize);
            } else {
                assert(order@[t] == full[t]);
                assert(precedes(keys@, full[t] as int, full[u] as int));
            }
        }
    }
    order
}

/// The order keys of similarities given by their `f32` bits.
pub open spec fn keys_of(bits: Seq<u32>) -> Seq<i64> {
    bits.map_values(|b: u32| float_key(b) as i64)
}

/// Ranks candidates by similarity (given as `f32` bits): the positions of
/// the `top_k` most similar, most similar first, ties in candidate order.
pub fn rank_by_similarity(sim_bits: &Vec<u32>, top_k: u32) -> (r: Vec<usize>)
    ensures
        is_top_k(keys_of(sim_bits@), r@, top_k as nat),
{
    let mut keys: Vec<i64> = Vec::new();
    let mut i: usize = 0;
    while i < sim_bits.len()
        invariant
            i <= sim_bits@.len(),
            keys@ == keys_of(sim_bits@).take(i as int),
        decreases sim_bits.len() - i,
    {
        let k = float_order_key(sim_bits[i]);
        keys.push(k);
        proof {
            assert(keys@ =~= keys_of(sim_bits@).take(i + 1));
        }
        i = i + 1;
    }
    assert(keys_of(sim_bits@).take(sim_bits@.len() as int) =~= keys_of(sim_bits@));
    top_k_indices(&keys, top_k as usize)
}

/// Whether the `f32` with these bits is negative in sign (its sign bit).
pub open spec fn sign_bit(b: u32) -> bool {
    b >= 0x8000_0000
}

/// The bits of an `f32` without its sign bit: exponent and fraction.
pub open spec fn magnitude_bits(b: u32) -> int {
    if sign_bit(b) {
        b - 0x8000_0000
    } else {
        b as int
    }
}

/// The bits of a NaN: every exponent bit set and a non-zero fraction.
pub open spec fn is_nan_bits(b: u32) -> bool {
    magnitude_bits(b) > 0x7F80_0000
}

/// IEEE-754 `<` between two non-NaN `f32` values given by their bits: among
/// values of the same sign the larger magnitude is further from zero, every
/// negative value is below every positive one, and `-0.0` equals `+0.0`.
pub open spec fn f32_less(a: u32, b: u32) -> bool {
    if sign_bit(a) && sign_bit(b) {
        magnitude_bits(a) > magnitude_bits(b)
    } else if !sign_bit(a) && !sign_bit(b) {
        magnitude_bits(a) < magnitude_bits(b)
    } else if sign_bit(a) {
        !(magnitude_bits(a) == 0 && magnitude_bits(b) == 0)
    } else {
        false
    }
}

/// IEEE-754 `==` between two non-NaN `f32` values given by their bits: the
/// same bits, or both zeros.
pub open spec fn f32_equal(a: u32, b: u32) -> bool {
    a == b || (magnitude_bits(a) == 0 && magnitude_bits(b) == 0)
}

/// The order key orders non-NaN similarities exactly as `f32` comparison
/// does: a smaller value has a smaller key, and two values share a key only
/// when they are equal (`-0.0` and `+0.0` included).
pub proof fn lemma_float_key_orders_like_f32(a: u32, b: u32)
    requires
        !is_nan_bits(a),
        !is_nan_bits(b),
    ensures
        float_key(a) < float_key(b) <==> f32_less(a, b),
        float_key(a) == float_key(b) <==> f32_equal(a, b),
{
}

/// In a ranking, a candidate never comes after one with a strictly smaller
/// similarity, and every candidate left out is no more similar than any
/// kept one (similarities given as non-NaN `f32` bits).
pub proof fn lemma_rank_puts_higher_similarity_first(sims: Seq<u32>, r: Seq<usize>, k: nat)
    requires
        is_top_k(keys_of(sims), r, k),
        forall|i: int| 0 <= i < sims.len() ==> !is_nan_bits(#[trigger] sims[i]),
    ensures
        forall|p: int, q: int|
            0 <= p < q < r.len() ==> !f32_less(sims[#[trigger] r[p] as int], sims[#[trigger] r[q] as int]),
        forall|x: int, p: int|
            #![trigger r.contains(x as usize), r[p]]
            0 <= x < sims.len() && !r.contains(x as usize) && 0 <= p < r.len() ==> !f32_less(
                sims[r[p] as int],
                sims[x],
            ),
{
    let keys = keys_of(sims);
    assert forall|i: int| 0 <= i < sims.len() implies #[trigger] keys[i] == float_key(sims[i]) by {
        let b = sims[i];
        assert(-0x8000_0000 <= float_key(b) <= 0xFFFF_FFFF);
    }
    assert forall|p: int, q: int| 0 <= p < q < r.len() implies !f32_less(
        sims[#[trigger] r[p] as int],
        sims[#[trigger] r[q] as int],
    ) by {
        assert(precedes(keys, r[p] as int, r[q] as int));
        assert(keys[r[p] as int] == float_key(sims[r[p] as int]));
        assert(keys[r[q] as int] == float_key(sims[r[q] as int]));
        lemma_float_key_orders_like_f32(sims[r[p] as int], sims[r[q] as int]);
    }
    assert forall|x: int, p: int|
        #![trigger r.contains(x as usize), r[p]]
        0 <= x < sims.len() && !r.contains(x as usize) && 0 <= p < r.len() implies !f32_less(
        sims[r[p] as int],
        sims[x],
    ) by {
        assert(precedes(keys, r[p] as int, x));
        assert(keys[r[p] as int] == float_key(sims[r[p] as int]));
        assert(keys[x] == float_key(sims[x]));
        lemma_float_key_orders_like_f32(sims[r[p] as int], sims[x]);
    }
}

} // verus!
