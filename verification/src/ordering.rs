use vstd::prelude::*;

verus! {

/// The integer whose order is the IEEE 754 total order of the `f64` with these bits:
/// a float without the sign bit keys to its bits, a float with the sign bit to minus one
/// minus its magnitude bits, so that a larger magnitude sorts lower.
pub open spec fn spec_total_order_key(bits: u64) -> int {
    if bits < 0x8000_0000_0000_0000 {
        bits as int
    } else {
        -1 - (bits - 0x8000_0000_0000_0000)
    }
}

/// The sort key of a float given by its bits, such that comparing keys as integers
/// compares the floats in the IEEE 754 total order (`-NaN < -inf < ... < -0.0 < 0.0 <
/// ... < inf < NaN`).
pub fn total_order_key(bits: u64) -> (res: i64)
    ensures
        res as int == spec_total_order_key(bits),
{
    let x = bits as i64;
    let res = x ^ ((((x >> 63u64) as u64) >> 1u64) as i64);
    proof {
        assert((bits < 0x8000_0000_0000_0000u64 ==> res == bits) && (bits
            >= 0x8000_0000_0000_0000u64 ==> res == -1 - (bits - 0x8000_0000_0000_0000u64)))
            by (bit_vector)
            requires
                x == bits as i64,
                res == x ^ ((((x >> 63u64) as u64) >> 1u64) as i64),
        ;
    }
    res
}

/// Different bit patterns never share a key, so the total order tells every two
/// floats apart.
pub proof fn lemma_total_order_key_injective(a: u64, b: u64)
    ensures
        spec_total_order_key(a) == spec_total_order_key(b) ==> a == b,
{
}

/// Among floats of the same sign the key order is the order of the bits, reversed for
/// negative floats; every float with the sign bit set sorts below every float without it.
pub proof fn lemma_total_order_key_order(a: u64, b: u64)
    ensures
        a >> 63u64 == 0 && b >> 63u64 == 0 ==> (spec_total_order_key(a) < spec_total_order_key(b)
            <==> a < b),
        a >> 63u64 == 1 && b >> 63u64 == 1 ==> (spec_total_order_key(a) < spec_total_order_key(b)
            <==> a > b),
        a >> 63u64 == 1 && b >> 63u64 == 0 ==> spec_total_order_key(a) < spec_total_order_key(b),
{
    assert(a >> 63u64 == 0 <==> a < 0x8000_0000_0000_0000u64) by (bit_vector);
    assert(b >> 63u64 == 0 <==> b < 0x8000_0000_0000_0000u64) by (bit_vector);
    assert(a >> 63u64 == 1 <==> a >= 0x8000_0000_0000_0000u64) by (bit_vector);
    assert(b >> 63u64 == 1 <==> b >= 0x8000_0000_0000_0000u64) by (bit_vector);
}

/// `order` lists each of `0..n` exactly once.
pub open spec fn is_permutation(order: Seq<usize>, n: nat) -> bool {
    &&& order.len() == n
    &&& forall|i: int| 0 <= i < n ==> #[trigger] order[i] < n
    &&& forall|i: int, j: int| 0 <= i < j < n ==> order[i] != order[j]
}

/// Walking `order` visits keys from the largest down.
pub open spec fn is_descending_by(order: Seq<usize>, keys: Seq<i128>) -> bool {
    forall|i: int, j: int|
        0 <= i < j < order.len() ==> keys[order[i] as int] >= keys[order[j] as int]
}

/// An order of `0..keys.len()` that visits the keys from the largest down; among
/// equal keys the order is not fixed.
pub fn descending_order(keys: &Vec<i128>) -> (res: Vec<usize>)
    ensures
        is_permutation(res@, keys@.len()),
        is_descending_by(res@, keys@),
{
    let n = keys.len();
    let mut order: Vec<usize> = Vec::new();
    let mut k: usize = 0;
    while k < n
        invariant
            n == keys@.len(),
            k <= n,
            order@.len() == k,
            forall|i: int| 0 <= i < k ==> #[trigger] order@[i] == i,
        decreases n - k,
    {
        order.push(k);
        k = k + 1;
    }
    if n == 0 {
        return order;
    }
    let mut i: usize = 1;
    while i < n
        invariant
            n == keys@.len(),
            1 <= i <= n,
            is_permutation(order@, n as nat),
            forall|a: int, b: int|
                0 <= a < b < i ==> keys@[order@[a] as int] >= keys@[order@[b] as int],
        decreases n - i,
    {
        let mut j: usize = i;
        while j > 0 && keys[order[j - 1]] < keys[order[j]]
            invariant
                n == keys@.len(),
                1 <= i < n,
                j <= i,
                is_permutation(order@, n as nat),
                forall|a: int, b: int|
                    0 <= a < b < j ==> keys@[order@[a] as int] >= keys@[order@[b] as int],
                forall|a: int, b: int|
                    j <= a < b <= i ==> keys@[order@[a] as int] >= keys@[order@[b] as int],
                forall|a: int, b: int|
                    0 <= a < j && j < b <= i ==> keys@[order@[a] as int] >= keys@[order@[
                        b
                    ] as int],
            decreases j,
        {
            let lo = order[j - 1];
            let hi = order[j];
            let ghost before = order@;
            order.set(j - 1, hi);
            order.set(j, lo);
            proof {
                assert forall|a: int, b: int| 0 <= a < b < n implies order@[a] != order@[b] by {
                    assert(before[a] != before[b]);
                }
                assert forall|a: int| 0 <= a < n implies #[trigger] order@[a] < n by {
                    assert(before[a] < n);
                }
                assert forall|a: int, b: int|
                    j - 1 <= a < b <= i implies keys@[order@[a] as int] >= keys@[order@[
                    b
                ] as int] by {
                    if a == j - 1 {
                        if b == j {
                        } else {
                            assert(keys@[before[j - 1] as int] >= keys@[before[b] as int]);
                        }
                    } else {
                        assert(keys@[before[a] as int] >= keys@[before[b] as int]);
                    }
                }
                assert forall|a: int, b: int|
                    0 <= a < j - 1 && j - 1 < b <= i implies keys@[order@[a] as int] >= keys@[order@[
                    b
                ] as int] by {
                    if b == j - 1 + 1 {
                        assert(keys@[before[a] as int] >= keys@[before[j - 1] as int]);
                    } else {
                        assert(keys@[before[a] as int] >= keys@[before[b] as int]);
                    }
                }
            }
            j = j - 1;
        }
        proof {
            assert forall|a: int, b: int|
                0 <= a < b < i + 1 implies keys@[order@[a] as int] >= keys@[order@[b] as int] by {
                if b < j {
                } else if a >= j {
                } else {
                }
            }
        }
        i = i + 1;
    }
    order
}

/// Squared Euclidean distance between two chunk positions.
pub open spec fn spec_distance_squared(a: (i32, i32, i32), b: (i32, i32, i32)) -> int {
    (a.0 - b.0) * (a.0 - b.0) + (a.1 - b.1) * (a.1 - b.1) + (a.2 - b.2) * (a.2 - b.2)
}

/// Squared Euclidean distance between two chunk positions, computed without overflow.
pub fn distance_squared(a: (i32, i32, i32), b: (i32, i32, i32)) -> (res: i128)
    ensures
        res == spec_distance_squared(a, b),
{
    let dx = a.0 as i128 - b.0 as i128;
    let dy = a.1 as i128 - b.1 as i128;
    let dz = a.2 as i128 - b.2 as i128;
    proof {
        assert(dx * dx <= 0x1_0000_0000 * 0x1_0000_0000) by (nonlinear_arith)
            requires
                -0x1_0000_0000 <= dx <= 0x1_0000_0000,
        ;
        assert(dy * dy <= 0x1_0000_0000 * 0x1_0000_0000) by (nonlinear_arith)
            requires
                -0x1_0000_0000 <= dy <= 0x1_0000_0000,
        ;
        assert(dz * dz <= 0x1_0000_0000 * 0x1_0000_0000) by (nonlinear_arith)
            requires
                -0x1_0000_0000 <= dz <= 0x1_0000_0000,
        ;
        assert(0 <= dx * dx) by (nonlinear_arith);
        assert(0 <= dy * dy) by (nonlinear_arith);
        assert(0 <= dz * dz) by (nonlinear_arith);
    }
    dx * dx + dy * dy + dz * dz
}

/// The order in which transparent chunks are drawn: farthest from the viewer's chunk
/// first, so that nearer surfaces blend over farther ones. The result holds the same
/// chunks, each once.
pub fn far_to_near(chunks: &Vec<(i32, i32, i32)>, origin: (i32, i32, i32)) -> (res: Vec<
    (i32, i32, i32),
>)
    ensures
        exists|order: Seq<usize>|
            {
                &&& is_permutation(order, chunks@.len())
                &&& res@.len() == chunks@.len()
                &&& forall|i: int| 0 <= i < res@.len() ==> #[trigger] res@[i] == chunks@[order[i] as int]
            },
        forall|i: int, j: int|
            0 <= i < j < res@.len() ==> spec_distance_squared(res@[i], origin)
                >= spec_distance_squared(res@[j], origin),
{
    let n = chunks.len();
    let mut keys: Vec<i128> = Vec::new();
    let mut k: usize = 0;
    while k < n
        invariant
            n == chunks@.len(),
            k <= n,
            keys@.len() == k,
            forall|i: int|
                0 <= i < k ==> #[trigger] keys@[i] == spec_distance_squared(chunks@[i], origin),
        decreases n - k,
    {
        keys.push(distance_squared(chunks[k], origin));
        k = k + 1;
    }
    let order = descending_order(&keys);
    let mut res: Vec<(i32, i32, i32)> = Vec::new();
    let mut i: usize = 0;
    while i < n
        invariant
            n == chunks@.len(),
            n == keys@.len(),
            forall|a: int|
                0 <= a < n ==> #[trigger] keys@[a] == spec_distance_squared(chunks@[a], origin),
            is_permutation(order@, n as nat),
            is_descending_by(order@, keys@),
            i <= n,
            res@.len() == i,
            forall|a: int| 0 <= a < i ==> #[trigger] res@[a] == chunks@[order@[a] as int],
        decreases n - i,
    {
        res.push(chunks[order[i]]);
        i = i + 1;
    }
    proof {
        assert forall|a: int, b: int| 0 <= a < b < res@.len() implies spec_distance_squared(
            res@[a],
            origin,
        ) >= spec_distance_squared(res@[b], origin) by {
            assert(keys@[order@[a] as int] >= keys@[order@[b] as int]);
        }
    }
    res
}

/// The index list that draws six-vertex faces in the given order of faces: face `f`
/// covers indices `6 * f .. 6 * f + 6`.
pub open spec fn face_index_list(order: Seq<usize>) -> Seq<u32> {
    Seq::new(6 * order.len(), |k: int| (6 * order[k / 6] + k % 6) as u32)
}

/// The index list of a blended mesh, its faces drawn from the largest key (the
/// farthest) down.
pub fn back_to_front_indices(keys: &Vec<i128>) -> (res: Vec<u32>)
    requires
        6 * keys@.len() <= u32::MAX,
    ensures
        exists|order: Seq<usize>|
            {
                &&& is_permutation(order, keys@.len())
                &&& is_descending_by(order, keys@)
                &&& res@ == face_index_list(order)
            },
{
    let order = descending_order(keys);
    let n = order.len();
    let mut res: Vec<u32> = Vec::new();
    let mut i: usize = 0;
    while i < n
        invariant
            n == order@.len(),
            n == keys@.len(),
            6 * n <= u32::MAX,
            is_permutation(order@, n as nat),
            i <= n,
            res@.len() == 6 * i,
            forall|k: int|
                0 <= k < 6 * i ==> #[trigger] res@[k] == (6 * order@[k / 6] + k % 6) as u32,
        decreases n - i,
    {
        let base: u32 = order[i] as u32 * 6;
        let mut j: u32 = 0;
        while j < 6
            invariant
                n == order@.len(),
                6 * n <= u32::MAX,
                i < n,
                order@[i as int] < n,
                base == 6 * order@[i as int],
                j <= 6,
                res@.len() == 6 * i + j,
                forall|k: int|
                    0 <= k < 6 * i + j ==> #[trigger] res@[k] == (6 * order@[k / 6] + k % 6) as u32,
            decreases 6 - j,
        {
            res.push(base + j);
            proof {
                let k = 6 * i + j;
                assert(k / 6 == i as int && k % 6 == j as int);
            }
            j = j + 1;
        }
        i = i + 1;
    }
    proof {
        assert(res@ =~= face_index_list(order@));
    }
    res
}

/// The vertices of a transparent mesh, regrouped so that its six-vertex faces come
/// from the largest key (the farthest) down; vertices past the last whole face are
/// dropped.
pub fn faces_back_to_front<V: Copy>(vertices: &Vec<V>, keys: &Vec<i128>) -> (res: Vec<V>)
    requires
        keys@.len() == vertices@.len() / 6,
    ensures
        exists|order: Seq<usize>|
            {
                &&& is_permutation(order, keys@.len())
                &&& is_descending_by(order, keys@)
                &&& res@.len() == 6 * keys@.len()
                &&& forall|k: int|
                    0 <= k < res@.len() ==> #[trigger] res@[k] == vertices@[6 * order[k / 6] + k % 6]
            },
{
    let order = descending_order(keys);
    let n = order.len();
    let mut res: Vec<V> = Vec::new();
    let mut i: usize = 0;
    while i < n
        invariant
            n == order@.len(),
            n == keys@.len(),
            n == vertices@.len() / 6,
            is_permutation(order@, n as nat),
            i <= n,
            res@.len() == 6 * i,
            forall|k: int|
                0 <= k < 6 * i ==> #[trigger] res@[k] == vertices@[6 * order@[k / 6] + k % 6],
        decreases n - i,
    {
        proof {
            let f = order@[i as int] as int;
            let len = vertices.len() as int;
            assert(6 * f + 6 <= len) by (nonlinear_arith)
                requires
                    0 <= f < len / 6,
                    len >= 0,
            ;
        }
        let base: usize = order[i] * 6;
        let mut j: usize = 0;
        while j < 6
            invariant
                n == order@.len(),
                n == vertices@.len() / 6,
                i < n,
                order@[i as int] < n,
                base == 6 * order@[i as int],
                base + 6 <= vertices.len(),
                j <= 6,
                res@.len() == 6 * i + j,
                forall|k: int|
                    0 <= k < 6 * i + j ==> #[trigger] res@[k] == vertices@[6 * order@[k / 6] + k % 6],
            decreases 6 - j,
        {
            res.push(vertices[base + j]);
            proof {
                let k = 6 * i + j;
                assert(k / 6 == i as int && k % 6 == j as int);
            }
            j = j + 1;
        }
        i = i + 1;
    }
    res
}

} // verus!
