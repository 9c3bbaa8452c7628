//! Gray-code utilities for exhaustive enumeration, and the canonical-shape
//! extraction used by the cluster catalog.
//!
//! The Gray code of `i` is `i ^ (i >> 1)`; successive codes differ in exactly
//! one bit, whose index is the number of trailing zeros of `i`. That lets an
//! enumeration visit all `2^k` spin patterns of a cluster with one flip per
//! step.
use vstd::prelude::*;

use crate::bits::{bits_get, bits_len, bits_push, bits_of, SpinState};
use vstd::std_specs::bits::u64_trailing_zeros;
use crate::element::{Element, COORD_LIMIT};
use crate::matrix::Matrix;
use crate::system::System;

verus! {

/// The Gray code of `i`.
pub open spec fn gray_of(i: u64) -> u64 {
    i ^ (i >> 1)
}

/// The inverse of the Gray code: the XOR of all right shifts of `p`,
/// computed by doubling the shift.
pub open spec fn gray_inv_of(p: u64) -> u64 {
    let a = p ^ (p >> 1);
    let b = a ^ (a >> 2);
    let c = b ^ (b >> 4);
    let d = c ^ (c >> 8);
    let e = d ^ (d >> 16);
    e ^ (e >> 32)
}

pub fn gray_code(i: u64) -> (r: u64)
    ensures
        r == gray_of(i),
{
    i ^ (i >> 1)
}

/// The Gray code maps `[0, 2^k)` into itself.
pub proof fn lemma_gray_in_range(i: u64, k: u64)
    requires
        k < 64,
        i < (1u64 << k),
    ensures
        gray_of(i) < (1u64 << k),
{
    assert(i < (1u64 << k) ==> (i ^ (i >> 1)) < (1u64 << k)) by (bit_vector)
        requires
            k < 64,
    ;
}

/// Every pattern in `[0, 2^k)` is the Gray code of exactly `gray_inv_of` it:
/// the code is onto.
pub proof fn lemma_gray_inverse(p: u64, k: u64)
    requires
        k < 64,
        p < (1u64 << k),
    ensures
        gray_inv_of(p) < (1u64 << k),
        gray_of(gray_inv_of(p)) == p,
{
    let a = p ^ (p >> 1);
    let b = a ^ (a >> 2);
    let c = b ^ (b >> 4);
    let d = c ^ (c >> 8);
    let e = d ^ (d >> 16);
    let f = e ^ (e >> 32);
    assert(f ^ (f >> 1) == p && (p < (1u64 << k) ==> f < (1u64 << k))) by (bit_vector)
        requires
            a == p ^ (p >> 1),
            b == a ^ (a >> 2),
            c == b ^ (b >> 4),
            d == c ^ (c >> 8),
            e == d ^ (d >> 16),
            f == e ^ (e >> 32),
            k < 64,
    ;
}

/// Between `i - 1` and `i`, the Gray code changes in exactly the bit indexed
/// by the trailing zeros of `i`, and that bit index stays below `k` when `i`
/// does not reach `2^k`.
pub proof fn lemma_gray_step(i: u64, k: u64)
    requires
        1 <= i,
        k < 64,
        i < (1u64 << k),
    ensures
        u64_trailing_zeros(i) < k,
        gray_of(i) == gray_of((i - 1) as u64) ^ (1u64 << u64_trailing_zeros(i) as u64),
{
    broadcast use vstd::std_specs::bits::axiom_u64_trailing_zeros;

    let t = u64_trailing_zeros(i) as u64;
    assert(t < 64);
    assert((i >> t) & 1u64 == 1u64);
    let s = (64 - t as int) as u64;
    assert(i << s == 0);
    assert(t < k) by (bit_vector)
        requires
            (i >> t) & 1u64 == 1u64,
            i < (1u64 << k),
            k < 64,
            t < 64,
    ;
    let j = (i - 1) as u64;
    assert((i ^ (i >> 1)) == (j ^ (j >> 1)) ^ (1u64 << t)) by (bit_vector)
        requires
            1 <= i,
            j + 1 == i,
            t < 64,
            t + s == 64,
            (i >> t) & 1u64 == 1u64,
            i << s == 0,
    ;
}

/// The number of trailing zeros of `i`, as a byte-sized integer.
pub fn trailing_zeros_u64(i: u64) -> (r: u32)
    ensures
        r == u64_trailing_zeros(i),
{
    i.trailing_zeros()
}

/// The bitwise Gray code of a bit vector read least significant first:
/// output bit `t` is input bit `t` XOR input bit `t + 1`.
pub fn grey_bitvec(g: &SpinState) -> (r: SpinState)
    requires
        bits_of(*g).len() <= 0x100_0000,
    ensures
        bits_of(r).len() == bits_of(*g).len(),
        forall|t: int|
            0 <= t < bits_of(*g).len() ==> #[trigger] bits_of(r)[t] == (bits_of(*g)[t] ^ (if t + 1
                < bits_of(*g).len() {
                bits_of(*g)[t + 1]
            } else {
                false
            })),
{
    let n = bits_len(g);
    let mut r = crate::bits::bits_repeat(false, 0);
    let mut t: usize = 0;
    while t < n
        invariant
            t <= n,
            n == bits_of(*g).len(),
            n <= 0x100_0000,
            bits_of(r).len() == t,
            forall|u: int|
                0 <= u < t ==> #[trigger] bits_of(r)[u] == (bits_of(*g)[u] ^ (if u + 1 < n {
                    bits_of(*g)[u + 1]
                } else {
                    false
                })),
        decreases n - t,
    {
        let lo = bits_get(g, t);
        let hi = if t + 1 < n {
            bits_get(g, t + 1)
        } else {
            false
        };
        bits_push(&mut r, lo ^ hi);
        t += 1;
    }
    r
}

/// `r` holds the listed sites of `sys`, in order, with every position
/// shifted by the same offset `(ox, oy)`.
pub open spec fn translated_by(
    r: Seq<Element>,
    sys: System,
    indices: Seq<usize>,
    ox: int,
    oy: int,
) -> bool {
    forall|t: int|
        0 <= t < r.len() ==> (#[trigger] r[t]).x == sys.elements@[indices[t] as int].x - ox
            && r[t].y == sys.elements@[indices[t] as int].y - oy
}

/// The listed sites of a system, in the given order, translated so that the
/// smallest x and the smallest y among them are both zero. Two clusters with
/// the same geometry give the same list, which makes it a canonical key.
/// Moments are kept as they are; the spread of the listed positions must not
/// pass `COORD_LIMIT`, so that the translated sites are well formed.
pub fn get_part_from_system(system: &System, indices: &Vec<usize>) -> (r: Vec<Element>)
    requires
        system.wf(),
        indices@.len() > 0,
        forall|t: int| 0 <= t < indices@.len() ==> (#[trigger] indices@[t]) < system.n(),
        forall|t1: int, t2: int|
            0 <= t1 < indices@.len() && 0 <= t2 < indices@.len() ==> (#[trigger] system.elements@[indices@[t1] as int].x)
                - (#[trigger] system.elements@[indices@[t2] as int].x) <= COORD_LIMIT
                && system.elements@[indices@[t1] as int].y
                - system.elements@[indices@[t2] as int].y <= COORD_LIMIT,
    ensures
        r@.len() == indices@.len(),
        forall|t: int| 0 <= t < r@.len() ==> (#[trigger] r@[t]).wf(),
        forall|t: int|
            0 <= t < r@.len() ==> (#[trigger] r@[t]).mx == system.elements@[indices@[t] as int].mx
                && r@[t].my == system.elements@[indices@[t] as int].my,
        exists|ox: int, oy: int| #[trigger] translated_by(r@, *system, indices@, ox, oy),
        forall|t: int| 0 <= t < r@.len() ==> (#[trigger] r@[t]).x >= 0 && r@[t].y >= 0,
        exists|t: int| 0 <= t < r@.len() && (#[trigger] r@[t]).x == 0,
        exists|t: int| 0 <= t < r@.len() && (#[trigger] r@[t]).y == 0,
{
    let k = indices.len();
    let mut min_x: i64 = system.elements[indices[0]].x;
    let mut min_y: i64 = system.elements[indices[0]].y;
    let mut t: usize = 1;
    while t < k
        invariant
            1 <= t <= k,
            k == indices@.len(),
            system.wf(),
            forall|u: int| 0 <= u < k ==> (#[trigger] indices@[u]) < system.n(),
            exists|u: int|
                0 <= u < t && min_x == (#[trigger] system.elements@[indices@[u] as int]).x,
            exists|u: int|
                0 <= u < t && min_y == (#[trigger] system.elements@[indices@[u] as int]).y,
            forall|u: int| 0 <= u < t ==> min_x <= (#[trigger] system.elements@[indices@[u] as int]).x,
            forall|u: int| 0 <= u < t ==> min_y <= (#[trigger] system.elements@[indices@[u] as int]).y,
        decreases k - t,
    {
        let e = &system.elements[indices[t]];
        if e.x < min_x {
            min_x = e.x;
        }
        if e.y < min_y {
            min_y = e.y;
        }
        t += 1;
    }
    let mut r: Vec<Element> = Vec::new();
    let mut t: usize = 0;
    while t < k
        invariant
            t <= k,
            k == indices@.len(),
            system.wf(),
            forall|u: int| 0 <= u < k ==> (#[trigger] indices@[u]) < system.n(),
            forall|u1: int, u2: int|
                0 <= u1 < k && 0 <= u2 < k ==> (#[trigger] system.elements@[indices@[u1] as int].x)
                    - (#[trigger] system.elements@[indices@[u2] as int].x) <= COORD_LIMIT
                    && system.elements@[indices@[u1] as int].y
                    - system.elements@[indices@[u2] as int].y <= COORD_LIMIT,
            exists|u: int|
                0 <= u < k && min_x == (#[trigger] system.elements@[indices@[u] as int]).x,
            exists|u: int|
                0 <= u < k && min_y == (#[trigger] system.elements@[indices@[u] as int]).y,
            forall|u: int| 0 <= u < k ==> min_x <= (#[trigger] system.elements@[indices@[u] as int]).x,
            forall|u: int| 0 <= u < k ==> min_y <= (#[trigger] system.elements@[indices@[u] as int]).y,
            r@.len() == t,
            forall|u: int| 0 <= u < t ==> (#[trigger] r@[u]).wf(),
            forall|u: int|
                0 <= u < t ==> (#[trigger] r@[u]).x == system.elements@[indices@[u] as int].x
                    - min_x && r@[u].y == system.elements@[indices@[u] as int].y - min_y && r@[u].mx
                    == system.elements@[indices@[u] as int].mx && r@[u].my
                    == system.elements@[indices@[u] as int].my,
        decreases k - t,
    {
        let e = &system.elements[indices[t]];
        r.push(Element { x: e.x - min_x, y: e.y - min_y, mx: e.mx, my: e.my });
        t += 1;
    }
    proof {
        assert(translated_by(r@, *system, indices@, min_x as int, min_y as int));
        let ux = choose|u: int|
            0 <= u < k && min_x == (#[trigger] system.elements@[indices@[u] as int]).x;
        assert(r@[ux].x == 0);
        let uy = choose|u: int|
            0 <= u < k && min_y == (#[trigger] system.elements@[indices@[u] as int]).y;
        assert(r@[uy].y == 0);
    }
    r
}

/// The square sub-matrix of the system's pair energies over the listed
/// sites, in the given order: entry `(a, b)` is the parent entry at
/// `(indices[a], indices[b])`. Pair energies depend only on relative
/// geometry, so this is exactly the pair-energy matrix of the extracted
/// cluster.
pub fn part_matrix(system: &System, indices: &Vec<usize>) -> (r: Matrix)
    requires
        system.wf(),
        indices@.len() <= crate::MAX_SITES,
        forall|t: int| 0 <= t < indices@.len() ==> (#[trigger] indices@[t]) < system.n(),
    ensures
        r.wf(),
        r.spec_size() == indices@.len(),
        forall|a: int, b: int|
            0 <= a < indices@.len() && 0 <= b < indices@.len() ==> #[trigger] r.at(a, b)
                == system.mat().at(indices@[a] as int, indices@[b] as int),
{
    let k = indices.len();
    let mut r = Matrix::new(k);
    let mut a: usize = 0;
    while a < k
        invariant
            a <= k,
            k == indices@.len(),
            k <= crate::MAX_SITES,
            system.wf(),
            forall|t: int| 0 <= t < k ==> (#[trigger] indices@[t]) < system.n(),
            r.wf_shape(),
            r.spec_size() == k,
            forall|x: int, y: int|
                0 <= x < a && 0 <= y < k ==> #[trigger] r.at(x, y) == system.mat().at(
                    indices@[x] as int,
                    indices@[y] as int,
                ),
        decreases k - a,
    {
        let mut b: usize = 0;
        while b < k
            invariant
                a < k,
                b <= k,
                k == indices@.len(),
                k <= crate::MAX_SITES,
                system.wf(),
                forall|t: int| 0 <= t < k ==> (#[trigger] indices@[t]) < system.n(),
                r.wf_shape(),
                r.spec_size() == k,
                forall|x: int, y: int|
                    0 <= x < a && 0 <= y < k ==> #[trigger] r.at(x, y) == system.mat().at(
                        indices@[x] as int,
                        indices@[y] as int,
                    ),
                forall|y: int|
                    0 <= y < b ==> #[trigger] r.at(a as int, y) == system.mat().at(
                        indices@[a as int] as int,
                        indices@[y] as int,
                    ),
            decreases k - b,
        {
            let v = system.default_energy_matrix().get(indices[a], indices[b]);
            r.set(a, b, v);
            b += 1;
        }
        a += 1;
    }
    proof {
        assert forall|i: int, j: int|
            0 <= i < k && 0 <= j < k implies -crate::matrix::ENERGY_LIMIT
            <= #[trigger] r.at(i, j) <= crate::matrix::ENERGY_LIMIT by {
            assert(r.at(i, j) == system.mat().at(indices@[i] as int, indices@[j] as int));
        }
        assert forall|i: int, j: int| 0 <= i < k && 0 <= j < k implies #[trigger] r.at(i, j)
            == r.at(j, i) by {
            assert(r.at(i, j) == system.mat().at(indices@[i] as int, indices@[j] as int));
            assert(r.at(j, i) == system.mat().at(indices@[j] as int, indices@[i] as int));
        }
        assert forall|i: int| 0 <= i < k implies #[trigger] r.at(i, i) == 0 by {
            assert(r.at(i, i) == system.mat().at(indices@[i] as int, indices@[i] as int));
        }
    }
    r
}

/// Field-for-field equality of two site lists.
pub fn elements_equal(a: &Vec<Element>, b: &Vec<Element>) -> (r: bool)
    ensures
        r == (a@ =~= b@),
{
    if a.len() != b.len() {
        proof {
            assert(!(a@ =~= b@));
        }
        return false;
    }
    let n = a.len();
    let mut t: usize = 0;
    while t < n
        invariant
            t <= n,
            n == a@.len(),
            n == b@.len(),
            forall|u: int| 0 <= u < t ==> a@[u] == b@[u],
        decreases n - t,
    {
        let x = a[t];
        let y = b[t];
        if !(x.x == y.x && x.y == y.y && x.mx == y.mx && x.my == y.my) {
            proof {
                assert(a@[t as int] != b@[t as int]);
                assert(!(a@ =~= b@));
            }
            return false;
        }
        t += 1;
    }
    proof {
        assert(a@ =~= b@);
    }
    true
}

} // verus!
