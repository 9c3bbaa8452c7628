//! The mutable spin system: site list, neighbor index, pair-energy matrix,
//! spin vector, and the incrementally maintained energy bookkeeping.
//!
//! Every energy is a fixed-point integer (the caller fixes the scale when it
//! fills the pair-energy matrix), so all the invariants below are exact.
use vstd::prelude::*;

use crate::bits::{bits_clone, bits_get, bits_len, bits_repeat, bits_set, SpinState};
use crate::bits::bits_of;
use crate::element::Element;
use crate::matrix::{Matrix, ENERGY_LIMIT, ROW_ENERGY_LIMIT, TOTAL_ENERGY_LIMIT};
use crate::summation::{sum, lemma_sum_eq, lemma_sum_update, lemma_sum_neg, lemma_sum_add, lemma_sum_bound, lemma_sum_scale, lemma_symmetric_double_sum_even};

verus! {

#[derive(Clone, Copy, Debug, PartialEq, Eq, Structural)]
pub enum Orientation {
    Down,
    Up,
}

/// The ±1 weight a spin bit puts on its site's moment.
pub open spec fn sign_of(b: bool) -> int {
    if b {
        -1
    } else {
        1
    }
}

/// One realized pair energy: the matrix entry weighted by both signs.
pub open spec fn pair_term(mat: Matrix, bs: Seq<bool>, i: int, j: int) -> int {
    mat.at(i, j) * sign_of(bs[i]) * sign_of(bs[j])
}

/// The contribution of site `i`: its realized pair energies summed over all
/// partner sites.
pub open spec fn row_energy_of(mat: Matrix, bs: Seq<bool>, i: int) -> int {
    sum(mat.spec_size(), |j: int| pair_term(mat, bs, i, j))
}

/// The unhalved total: the sum of all row energies, every pair counted twice.
pub open spec fn total_energy_of(mat: Matrix, bs: Seq<bool>) -> int {
    sum(mat.spec_size(), |i: int| row_energy_of(mat, bs, i))
}

/// Up spins minus down spins.
pub open spec fn excess_of(bs: Seq<bool>) -> int {
    sum(bs.len(), |i: int| sign_of(bs[i]))
}

pub struct System {
    pub elements: Vec<Element>,
    pub element_neighbors: Vec<Vec<(usize, i64)>>,
    pub system_state: SpinState,
    pub system_signs: Vec<i8>,
    pub energy_matrix_default: Matrix,
    pub row_energies: Vec<i64>,
    pub energy: i64,
    pub spin_excess: i32,
}

impl System {
    /// The number of sites.
    pub open spec fn n(self) -> nat {
        self.elements@.len()
    }

    /// The spin bits; `false` is up, `true` is down.
    pub open spec fn bits(self) -> Seq<bool> {
        bits_of(self.system_state)
    }

    pub open spec fn mat(self) -> Matrix {
        self.energy_matrix_default
    }

    /// Entry `k` of site `i`'s neighbor list: a site index and the squared
    /// distance to it.
    pub open spec fn nbr(self, i: int, k: int) -> (usize, i64) {
        self.element_neighbors@[i]@[k]
    }

    /// The neighbor index is total, correct, sorted by distance, and lists
    /// every site exactly once per row.
    pub open spec fn wf_neighbors(self) -> bool {
        &&& self.element_neighbors@.len() == self.n()
        &&& forall|i: int| 0 <= i < self.n() ==> (#[trigger] self.element_neighbors@[i])@.len() == self.n()
        &&& forall|i: int, k: int|
            0 <= i < self.n() && 0 <= k < self.n() ==> (#[trigger] self.nbr(i, k)).0 < self.n()
        &&& forall|i: int, k: int|
            0 <= i < self.n() && 0 <= k < self.n() ==> (#[trigger] self.nbr(i, k)).1 as int
                == self.elements@[i].spec_distance_sq(self.elements@[self.nbr(i, k).0 as int])
        &&& forall|i: int, k1: int, k2: int|
            0 <= i < self.n() && 0 <= k1 <= k2 < self.n() ==> (#[trigger] self.nbr(i, k1)).1 <= (
            #[trigger] self.nbr(i, k2)).1
        &&& forall|i: int, k1: int, k2: int|
            0 <= i < self.n() && 0 <= k1 < k2 < self.n() ==> (#[trigger] self.nbr(i, k1)).0 != (
            #[trigger] self.nbr(i, k2)).0
        &&& forall|i: int, j: int|
            0 <= i < self.n() && 0 <= j < self.n() ==> #[trigger] self.has_neighbor_entry(i, j)
    }

    /// Some entry of row `i` names site `j`.
    pub open spec fn has_neighbor_entry(self, i: int, j: int) -> bool {
        exists|k: int| 0 <= k < self.n() && (#[trigger] self.nbr(i, k)).0 == j
    }

    /// Everything the constructor establishes and every mutation preserves.
    pub open spec fn wf(self) -> bool {
        &&& self.n() <= crate::MAX_SITES
        &&& forall|i: int| 0 <= i < self.n() ==> (#[trigger] self.elements@[i]).wf()
        &&& self.mat().wf()
        &&& self.mat().spec_size() == self.n()
        &&& self.wf_neighbors()
        &&& self.bits().len() == self.n()
        &&& self.system_signs@.len() == self.n()
        &&& forall|i: int|
            0 <= i < self.n() ==> (#[trigger] self.system_signs@[i]) as int == sign_of(
                self.bits()[i],
            )
        &&& self.row_energies@.len() == self.n()
        &&& forall|i: int|
            0 <= i < self.n() ==> (#[trigger] self.row_energies@[i]) as int == row_energy_of(
                self.mat(),
                self.bits(),
                i,
            )
        &&& self.energy as int == total_energy_of(self.mat(), self.bits())
        &&& self.spin_excess as int == excess_of(self.bits())
    }

    /// The immutable part: sites, neighbor index and pair energies.
    pub open spec fn same_geometry(self, other: System) -> bool {
        &&& self.elements@ == other.elements@
        &&& self.element_neighbors@.len() == other.element_neighbors@.len()
        &&& forall|i: int|
            0 <= i < self.element_neighbors@.len() ==> (#[trigger] self.element_neighbors@[i])@
                == other.element_neighbors@[i]@
        &&& self.mat().size == other.mat().size
        &&& self.mat().memory@ == other.mat().memory@
    }

    /// Builds a system from its sites and their pair-energy matrix, with
    /// every spin up. The matrix is supplied by the caller, which fixes the
    /// fixed-point scale once; the neighbor index is built and sorted here.
    pub fn new(elements: Vec<Element>, energy_matrix: Matrix) -> (r: Self)
        requires
            elements@.len() <= crate::MAX_SITES,
            forall|k: int| 0 <= k < elements@.len() ==> (#[trigger] elements@[k]).wf(),
            energy_matrix.wf(),
            energy_matrix.spec_size() == elements@.len(),
        ensures
            r.wf(),
            r.elements@ == elements@,
            r.mat() == energy_matrix,
            r.n() == elements@.len(),
            r.bits() == Seq::new(elements@.len(), |i: int| false),
    {
        let n: usize = elements.len();
        let mut element_neighbors: Vec<Vec<(usize, i64)>> = Vec::new();
        let mut i: usize = 0;
        while i < n
            invariant
                i <= n,
                n == elements@.len(),
                n <= crate::MAX_SITES,
                forall|k: int| 0 <= k < n ==> (#[trigger] elements@[k]).wf(),
                element_neighbors@.len() == i,
                forall|t: int|
                    0 <= t < i ==> (#[trigger] element_neighbors@[t])@.len() == n,
                forall|t: int, k: int|
                    0 <= t < i && 0 <= k < n ==> ((#[trigger] element_neighbors@[t]@[k]).0 < n
                        && element_neighbors@[t]@[k].1 as int
                        == elements@[t].spec_distance_sq(
                        elements@[element_neighbors@[t]@[k].0 as int],
                    )),
                forall|t: int, k1: int, k2: int|
                    0 <= t < i && 0 <= k1 <= k2 < n ==> (#[trigger] element_neighbors@[t]@[k1]).1
                        <= (#[trigger] element_neighbors@[t]@[k2]).1,
                forall|t: int, k1: int, k2: int|
                    0 <= t < i && 0 <= k1 < k2 < n ==> (#[trigger] element_neighbors@[t]@[k1]).0
                        != (#[trigger] element_neighbors@[t]@[k2]).0,
                forall|t: int, j: int|
                    0 <= t < i && 0 <= j < n ==> #[trigger] row_lists_index(
                        element_neighbors@[t]@,
                        j,
                    ),
            decreases n - i,
        {
            let row = sorted_neighbor_row(&elements, i);
            element_neighbors.push(row);
            i += 1;
        }
        let system_state = bits_repeat(false, n);
        let mut system_signs: Vec<i8> = Vec::new();
        let mut i: usize = 0;
        while i < n
            invariant
                i <= n,
                system_signs@.len() == i,
                forall|k: int| 0 <= k < i ==> (#[trigger] system_signs@[k]) == 1i8,
            decreases n - i,
        {
            system_signs.push(1i8);
            i += 1;
        }
        let mut row_energies: Vec<i64> = Vec::new();
        let mut i: usize = 0;
        while i < n
            invariant
                i <= n,
                row_energies@.len() == i,
            decreases n - i,
        {
            row_energies.push(0i64);
            i += 1;
        }
        let mut r = System {
            elements,
            element_neighbors,
            system_state,
            system_signs,
            energy_matrix_default: energy_matrix,
            row_energies,
            energy: 0,
            spin_excess: 0,
        };
        proof {
            assert(r.bits().len() == n);
            assert forall|k: int| 0 <= k < n implies (#[trigger] r.system_signs@[k]) as int
                == sign_of(r.bits()[k]) by {
                assert(r.bits()[k] == false);
            }
            assert(r.wf_neighbors()) by {
                assert forall|a: int, j: int|
                    0 <= a < r.n() && 0 <= j < r.n() implies #[trigger] r.has_neighbor_entry(
                    a,
                    j,
                ) by {
                    assert(row_lists_index(r.element_neighbors@[a]@, j));
                    let k = choose|k: int|
                        0 <= k < r.element_neighbors@[a]@.len() && (#[trigger] r.element_neighbors@[a]@[k]).0
                            == j;
                    assert(r.nbr(a, k).0 == j);
                }
            }
            assert(r.wf_base());
        }
        r.recalculate_spin_excess();
        r.recalculate_energy();
        r
    }

    #[inline(always)]
    pub fn spin_excess(&self) -> (r: i32)
        requires
            self.wf(),
        ensures
            r as int == excess_of(self.bits()),
    {
        self.spin_excess
    }

    #[inline(always)]
    pub fn size(&self) -> (r: usize)
        ensures
            r == self.n(),
    {
        self.elements.len()
    }

    /// The reported energy: half the unhalved total, each pair counted once.
    /// The division is exact, because the total is always even.
    #[inline(always)]
    pub fn energy(&self) -> (r: i64)
        requires
            self.wf(),
        ensures
            2 * r == total_energy_of(self.mat(), self.bits()),
    {
        proof {
            lemma_total_even(self.mat(), self.bits());
        }
        self.energy / 2
    }

    #[inline(always)]
    pub fn system_state(&self) -> (r: &SpinState)
        ensures
            bits_of(*r) == self.bits(),
    {
        &self.system_state
    }

    #[inline(always)]
    pub fn row_energies(&self) -> (r: &Vec<i64>)
        ensures
            r@ == self.row_energies@,
    {
        &self.row_energies
    }

    #[inline(always)]
    pub fn default_energy_matrix(&self) -> (r: &Matrix)
        ensures
            *r == self.mat(),
    {
        &self.energy_matrix_default
    }

    #[inline(always)]
    pub fn element_neighbors(&self) -> (r: &Vec<Vec<(usize, i64)>>)
        ensures
            r@ == self.element_neighbors@,
    {
        &self.element_neighbors
    }

    #[inline(always)]
    pub fn elements(&self) -> (r: &Vec<Element>)
        ensures
            r@ == self.elements@,
    {
        &self.elements
    }

    /// Recomputes the spin excess from the state alone.
    pub fn recalculate_spin_excess(&mut self)
        requires
            old(self).wf_base(),
        ensures
            *final(self) == (System { spin_excess: final(self).spin_excess, ..*old(self) }),
            final(self).spin_excess as int == excess_of(old(self).bits()),
            final(self).wf_except_energy(),
            old(self).wf() ==> final(self).wf(),
    {
        let n: usize = self.elements.len();
        let mut acc: i32 = 0;
        let mut i: usize = 0;
        while i < n
            invariant
                i <= n,
                n == self.n(),
                self.wf_base(),
                acc as int == sum(i as nat, |k: int| sign_of(self.bits()[k])),
                -(i as int) <= acc as int <= i as int,
            decreases n - i,
        {
            let ghost f = |k: int| sign_of(self.bits()[k]);
            let b = bits_get(&self.system_state, i);
            if b {
                acc = acc - 1;
            } else {
                acc = acc + 1;
            }
            proof {
                assert(sum((i + 1) as nat, f) == sum(i as nat, f) + f(i as int));
            }
            i += 1;
        }
        proof {
            lemma_sum_eq(
                n as nat,
                |k: int| sign_of(self.bits()[k]),
                |k: int| sign_of(bits_of(self.system_state)[k]),
            );
        }
        self.spin_excess = acc;
        proof {
            lemma_wf_neighbors_congruence(*old(self), *self);
        }
    }

    /// Recomputes every row energy and the total from the state alone.
    pub fn recalculate_energy(&mut self)
        requires
            old(self).wf_except_energy(),
        ensures
            final(self).wf(),
            final(self).same_geometry(*old(self)),
            final(self).energy_matrix_default == old(self).energy_matrix_default,
            final(self).elements@ == old(self).elements@,
            final(self).bits() == old(self).bits(),
            final(self).system_signs@ == old(self).system_signs@,
            final(self).spin_excess == old(self).spin_excess,
            final(self).energy_matrix_default == old(self).energy_matrix_default,
            final(self).element_neighbors@ == old(self).element_neighbors@,
            final(self).elements@ == old(self).elements@,
            final(self).system_state == old(self).system_state,
    {
        let n: usize = self.elements.len();
        let mut row_energies: Vec<i64> = Vec::new();
        let mut row: usize = 0;
        while row < n
            invariant
                row <= n,
                n == self.n(),
                self.wf_except_energy(),
                row_energies@.len() == row,
                forall|t: int|
                    0 <= t < row ==> (#[trigger] row_energies@[t]) as int == row_energy_of(
                        self.mat(),
                        self.bits(),
                        t,
                    ),
            decreases n - row,
        {
            let e = self.compute_row_energy(row);
            row_energies.push(e);
            row += 1;
        }
        self.row_energies = row_energies;
        proof {
            lemma_wf_neighbors_congruence(*old(self), *self);
            assert(self.wf_except_energy());
        }
        let mut acc: i64 = 0;
        let mut i: usize = 0;
        while i < n
            invariant
                i <= n,
                n == self.n(),
                self.wf_except_energy(),
                self.row_energies@.len() == n,
                forall|t: int|
                    0 <= t < n ==> (#[trigger] self.row_energies@[t]) as int == row_energy_of(
                        self.mat(),
                        self.bits(),
                        t,
                    ),
                acc as int == sum(i as nat, |t: int| row_energy_of(self.mat(), self.bits(), t)),
                -(i as int) * (ROW_ENERGY_LIMIT as int) <= acc as int <= (i as int) * (
                ROW_ENERGY_LIMIT as int),
            decreases n - i,
        {
            let ghost f = |t: int| row_energy_of(self.mat(), self.bits(), t);
            proof {
                lemma_row_energy_bound(self.mat(), self.bits(), i as int);
                lemma_sum_bound_step(i as nat, self.n());
                assert(sum((i + 1) as nat, f) == sum(i as nat, f) + f(i as int));
            }
            acc = acc + self.row_energies[i];
            i += 1;
        }
        self.energy = acc;
        proof {
            lemma_wf_neighbors_congruence(*old(self), *self);
            assert(total_energy_of(self.mat(), self.bits()) == sum(
                self.mat().spec_size(),
                |t: int| row_energy_of(self.mat(), self.bits(), t),
            ));
        }
    }

    /// The hot path: flips one spin and updates every row energy, the total
    /// and the spin excess in O(N), with no recomputation and no allocation.
    pub fn reverse_spin(&mut self, spin: usize)
        requires
            old(self).wf(),
            spin < old(self).n(),
        ensures
            final(self).wf(),
            final(self).same_geometry(*old(self)),
            final(self).energy_matrix_default == old(self).energy_matrix_default,
            final(self).elements@ == old(self).elements@,
            final(self).bits() == old(self).bits().update(
                spin as int,
                !old(self).bits()[spin as int],
            ),
            total_energy_of(final(self).mat(), final(self).bits()) == total_energy_of(
                old(self).mat(),
                old(self).bits(),
            ) - 4 * row_energy_of(old(self).mat(), old(self).bits(), spin as int),
            excess_of(final(self).bits()) == excess_of(old(self).bits()) + (if old(
                self,
            ).bits()[spin as int] {
                2int
            } else {
                -2int
            }),
    {
        let ghost ob = old(self).bits();
        let ghost m = old(self).mat();
        let ghost nb = ob.update(spin as int, !ob[spin as int]);
        let n: usize = self.elements.len();

        let new_spin: bool = !bits_get(&self.system_state, spin);
        bits_set(&mut self.system_state, spin, new_spin);
        let old_sign: i8 = self.system_signs[spin];
        let new_sign: i8 = -old_sign;
        self.system_signs[spin] = new_sign;
        proof {
            assert(self.bits() =~= nb);
            assert forall|k: int| 0 <= k < n implies (#[trigger] self.system_signs@[k]) as int
                == sign_of(nb[k]) by {}
            lemma_excess_bound(ob);
            lemma_sum_update(
                n as nat,
                |k: int| sign_of(ob[k]),
                |k: int| sign_of(nb[k]),
                spin as int,
            );
        }
        if new_spin {
            self.spin_excess = self.spin_excess - 2;
        } else {
            self.spin_excess = self.spin_excess + 2;
        }
        proof {
            assert(excess_of(nb) == sum(n as nat, |k: int| sign_of(nb[k])));
            assert(self.spin_excess as int == excess_of(nb));
        }

        let ghost deltaf = |k: int| flip_delta(m, nb, spin as int, k);
        let mut row_energy: i64 = self.row_energies[spin];
        let mut energy: i64 = self.energy;
        let mut i: usize = 0;
        while i < n
            invariant
                i <= n,
                spin < n,
                n == self.n(),
                self.elements@ == old(self).elements@,
                self.element_neighbors@ == old(self).element_neighbors@,
                self.energy_matrix_default == old(self).energy_matrix_default,
                self.energy == old(self).energy,
                m == self.mat(),
                m.wf(),
                m.spec_size() == n,
                ob.len() == n,
                nb == ob.update(spin as int, !ob[spin as int]),
                self.bits() == nb,
                self.system_signs@.len() == n,
                forall|k: int|
                    0 <= k < n ==> (#[trigger] self.system_signs@[k]) as int == sign_of(nb[k]),
                self.spin_excess as int == excess_of(nb),
                self.row_energies@.len() == n,
                forall|k: int|
                    0 <= k < i ==> (#[trigger] self.row_energies@[k]) as int == row_energy_of(
                        m,
                        ob,
                        k,
                    ) + deltaf(k),
                forall|k: int|
                    i <= k < n ==> (#[trigger] self.row_energies@[k]) as int == row_energy_of(
                        m,
                        ob,
                        k,
                    ),
                deltaf == (|k: int| flip_delta(m, nb, spin as int, k)),
                new_sign as int == sign_of(nb[spin as int]),
                row_energy as int == row_energy_of(m, ob, spin as int) + sum(i as nat, deltaf),
                energy as int == total_energy_of(m, ob) + 2 * sum(i as nat, deltaf),
                -(i as int) * 0x2_0000_0000 <= sum(i as nat, deltaf) <= (i as int) * 0x2_0000_0000,
            decreases n - i,
        {
            let si: i8 = self.system_signs[i];
            let cell: i64 = self.energy_matrix_default.get(spin, i);
            proof {
                let at = m.at(spin as int, i as int);
                let s1 = new_sign as int;
                let s2 = si as int;
                assert(s1 == sign_of(nb[spin as int]) && s2 == sign_of(nb[i as int]));
                assert(cell as int * 2 * s1 * s2 == 2 * (at * s1 * s2) && -(0x2_0000_0000int)
                    <= cell as int * 2 * s1 * s2 <= 0x2_0000_0000 && -(0x2_0000_0000int) <= cell as int
                    * 2 <= 0x2_0000_0000 && -(0x2_0000_0000int) <= cell as int * 2 * s1
                    <= 0x2_0000_0000) by (nonlinear_arith)
                    requires
                        cell as int == at,
                        -0x1_0000_0000 <= at <= 0x1_0000_0000,
                        (s1 == 1 || s1 == -1) && (s2 == 1 || s2 == -1),
                ;
                assert(2 * (at * s1 * s2) == flip_delta(m, nb, spin as int, i as int)) by {
                    assert(pair_term(m, nb, spin as int, i as int) == at * s1 * s2);
                }
                lemma_row_energy_bound(m, ob, spin as int);
                lemma_row_energy_bound(m, ob, i as int);
                lemma_total_bound(m, ob);
            }
            let cell_energy: i64 = cell * 2 * (new_sign as i64) * (si as i64);
            row_energy = row_energy + cell_energy;
            let re: i64 = self.row_energies[i];
            self.row_energies[i] = re + cell_energy;
            energy = energy + 2 * cell_energy;
            proof {
                lemma_row_energy_bound(m, ob, i as int);
                assert(sum((i + 1) as nat, deltaf) == sum(i as nat, deltaf) + deltaf(i as int));
            }
            i += 1;
        }
        self.row_energies[spin] = row_energy;
        self.energy = energy;
        proof {
            lemma_wf_neighbors_congruence(*old(self), *self);
            lemma_flip_row_self(m, ob, spin as int);
            lemma_flip_delta_sum(m, ob, spin as int);
            lemma_flip_total(m, ob, spin as int);
            assert forall|k: int|
                0 <= k < n implies (#[trigger] self.row_energies@[k]) as int == row_energy_of(
                m,
                nb,
                k,
            ) by {
                if k != spin as int {
                    lemma_flip_row_other(m, ob, spin as int, k);
                }
            }
            assert(self.energy as int == total_energy_of(m, nb));
            assert(excess_of(nb) == excess_of(ob) + (if ob[spin as int] {
                2int
            } else {
                -2int
            }));
        }
    }

    /// Sets one spin to a given value: flips it exactly when it differs.
    pub fn set_spin(&mut self, spin: usize, state: bool)
        requires
            old(self).wf(),
            spin < old(self).n(),
        ensures
            final(self).wf(),
            final(self).same_geometry(*old(self)),
            final(self).energy_matrix_default == old(self).energy_matrix_default,
            final(self).elements@ == old(self).elements@,
            final(self).bits() == old(self).bits().update(spin as int, state),
    {
        if bits_get(&self.system_state, spin) != state {
            self.reverse_spin(spin);
        } else {
            proof {
                assert(self.bits() =~= old(self).bits().update(spin as int, state));
            }
        }
    }

    /// Sets several spins, first to last.
    pub fn set_spins(&mut self, spins: &Vec<(usize, bool)>)
        requires
            old(self).wf(),
            forall|t: int| 0 <= t < spins@.len() ==> (#[trigger] spins@[t]).0 < old(self).n(),
        ensures
            final(self).wf(),
            final(self).same_geometry(*old(self)),
            final(self).energy_matrix_default == old(self).energy_matrix_default,
            final(self).elements@ == old(self).elements@,
            final(self).bits() == apply_spin_list(old(self).bits(), spins@),
    {
        let ghost orig = *old(self);
        let mut t: usize = 0;
        while t < spins.len()
            invariant
                t <= spins@.len(),
                self.wf(),
                self.same_geometry(orig),
                self.energy_matrix_default == orig.energy_matrix_default,
                self.elements@ == orig.elements@,
                self.n() == orig.n(),
                forall|u: int| 0 <= u < spins@.len() ==> (#[trigger] spins@[u]).0 < orig.n(),
                self.bits() == apply_spin_list(orig.bits(), spins@.subrange(0, t as int)),
            decreases spins@.len() - t,
        {
            let (spin, state) = spins[t];
            self.set_spin(spin, state);
            proof {
                assert(spins@.subrange(0, t + 1).drop_last() =~= spins@.subrange(0, t as int));
                assert(spins@.subrange(0, t + 1).last() == spins@[t as int]);
            }
            t += 1;
        }
        proof {
            assert(spins@.subrange(0, spins@.len() as int) =~= spins@);
        }
    }

    /// Flips several spins, first to last.
    pub fn reverse_spins(&mut self, spins: &Vec<usize>)
        requires
            old(self).wf(),
            forall|t: int| 0 <= t < spins@.len() ==> (#[trigger] spins@[t]) < old(self).n(),
        ensures
            final(self).wf(),
            final(self).same_geometry(*old(self)),
            final(self).energy_matrix_default == old(self).energy_matrix_default,
            final(self).elements@ == old(self).elements@,
            final(self).bits() == flip_list(old(self).bits(), spins@),
    {
        let ghost orig = *old(self);
        let mut t: usize = 0;
        while t < spins.len()
            invariant
                t <= spins@.len(),
                self.wf(),
                self.same_geometry(orig),
                self.energy_matrix_default == orig.energy_matrix_default,
                self.elements@ == orig.elements@,
                self.n() == orig.n(),
                forall|u: int| 0 <= u < spins@.len() ==> (#[trigger] spins@[u]) < orig.n(),
                self.bits() == flip_list(orig.bits(), spins@.subrange(0, t as int)),
            decreases spins@.len() - t,
        {
            let spin = spins[t];
            self.reverse_spin(spin);
            proof {
                assert(spins@.subrange(0, t + 1).drop_last() =~= spins@.subrange(0, t as int));
                assert(spins@.subrange(0, t + 1).last() == spins@[t as int]);
            }
            t += 1;
        }
        proof {
            assert(spins@.subrange(0, spins@.len() as int) =~= spins@);
        }
    }

    /// Replaces the whole spin vector and recomputes signs, energies and the
    /// excess from scratch.
    pub fn set_system_state(&mut self, state: SpinState)
        requires
            old(self).wf(),
            bits_of(state).len() == old(self).n(),
        ensures
            final(self).wf(),
            final(self).same_geometry(*old(self)),
            final(self).energy_matrix_default == old(self).energy_matrix_default,
            final(self).elements@ == old(self).elements@,
            final(self).bits() == bits_of(state),
    {
        let n: usize = self.elements.len();
        self.system_state = state;
        proof {
            lemma_wf_neighbors_congruence(*old(self), *self);
        }
        let mut i: usize = 0;
        while i < n
            invariant
                i <= n,
                n == self.n(),
                self.elements@ == old(self).elements@,
                self.element_neighbors@ == old(self).element_neighbors@,
                self.energy_matrix_default == old(self).energy_matrix_default,
                self.n() <= crate::MAX_SITES,
                forall|k: int| 0 <= k < n ==> (#[trigger] self.elements@[k]).wf(),
                self.mat().wf(),
                self.mat().spec_size() == n,
                self.wf_neighbors(),
                self.bits() == bits_of(state),
                self.bits().len() == n,
                self.system_signs@.len() == n,
                forall|k: int|
                    0 <= k < i ==> (#[trigger] self.system_signs@[k]) as int == sign_of(
                        self.bits()[k],
                    ),
            decreases n - i,
        {
            let b = bits_get(&self.system_state, i);
            let sign: i8 = if b {
                -1
            } else {
                1
            };
            let ghost pre = *self;
            self.system_signs[i] = sign;
            proof {
                lemma_wf_neighbors_congruence(pre, *self);
            }
            i += 1;
        }
        proof {
            lemma_wf_neighbors_congruence(*old(self), *self);
            assert(self.wf_base());
        }
        self.recalculate_spin_excess();
        self.recalculate_energy();
    }

    /// The spin-weighted orientation of one site's moment: `Down` when the
    /// realized moment points weakly upward in the y axis (ties broken by x).
    pub fn spin_orientation(&self, spin: usize) -> (r: Orientation)
        requires
            self.wf(),
            spin < self.n(),
        ensures
            r == orientation_of(
                self.elements@[spin as int],
                self.bits()[spin as int],
            ),
    {
        let e = self.elements[spin];
        let s: i8 = self.system_signs[spin];
        let dx: i64 = if s < 0 {
            -e.mx
        } else {
            e.mx
        };
        let dy: i64 = if s < 0 {
            -e.my
        } else {
            e.my
        };
        if dy > 0 || (dy == 0 && dx >= 0) {
            Orientation::Down
        } else {
            Orientation::Up
        }
    }

    /// Flips the spin exactly when its orientation differs from the target.
    pub fn set_spin_orientation(&mut self, spin: usize, orientation: Orientation)
        requires
            old(self).wf(),
            spin < old(self).n(),
        ensures
            final(self).wf(),
            final(self).same_geometry(*old(self)),
            final(self).energy_matrix_default == old(self).energy_matrix_default,
            final(self).elements@ == old(self).elements@,
            orientation_of(final(self).elements@[spin as int], final(self).bits()[spin as int])
                == orientation || (final(self).elements@[spin as int].mx == 0
                && final(self).elements@[spin as int].my == 0),
    {
        let current = self.spin_orientation(spin);
        if current != orientation {
            self.reverse_spin(spin);
        }
    }

    /// The neighbors of `index` with squared distance at most `radius_sq`, in
    /// ascending distance order: the maximal prefix of the sorted row, so no
    /// entries past the first too-distant one are visited.
    pub fn neighbors(&self, index: usize, radius_sq: i64) -> (r: Vec<(usize, i64)>)
        requires
            self.wf(),
            index < self.n(),
        ensures
            r@.len() <= self.n(),
            forall|k: int| 0 <= k < r@.len() ==> #[trigger] r@[k] == self.nbr(index as int, k),
            forall|k: int| 0 <= k < r@.len() ==> (#[trigger] r@[k]).1 <= radius_sq,
            forall|k: int|
                r@.len() <= k < self.n() ==> (#[trigger] self.nbr(index as int, k)).1 > radius_sq,
            radius_sq >= 0 ==> r@.len() > 0 && r@[0].1 == 0,
    {
        proof {
            lemma_neighbor_head_distance(*self, index as int);
        }
        let n: usize = self.elements.len();
        let row = &self.element_neighbors[index];
        let mut r: Vec<(usize, i64)> = Vec::new();
        let mut k: usize = 0;
        while k < n
            invariant
                k <= n,
                n == self.n(),
                self.wf(),
                index < n,
                row@ == self.element_neighbors@[index as int]@,
                self.nbr(index as int, 0).1 == 0,
                r@.len() == k,
                forall|t: int| 0 <= t < k ==> #[trigger] r@[t] == self.nbr(index as int, t),
                forall|t: int| 0 <= t < k ==> (#[trigger] r@[t]).1 <= radius_sq,
            decreases n - k,
        {
            let entry = row[k];
            if entry.1 > radius_sq {
                proof {
                    assert forall|t: int|
                        k <= t < self.n() implies (#[trigger] self.nbr(index as int, t)).1
                        > radius_sq by {
                        assert(self.nbr(index as int, k as int).1 <= self.nbr(index as int, t).1);
                    }
                }
                return r;
            }
            r.push(entry);
            k += 1;
        }
        r
    }

    /// Like `neighbors`, with the indices alone.
    pub fn neighbors2(&self, index: usize, radius_sq: i64) -> (r: Vec<usize>)
        requires
            self.wf(),
            index < self.n(),
        ensures
            r@.len() <= self.n(),
            forall|k: int|
                0 <= k < r@.len() ==> #[trigger] r@[k] == self.nbr(index as int, k).0 && self.nbr(
                    index as int,
                    k,
                ).1 <= radius_sq,
            forall|k: int|
                r@.len() <= k < self.n() ==> (#[trigger] self.nbr(index as int, k)).1 > radius_sq,
            radius_sq >= 0 ==> r@.len() > 0,
    {
        let pairs = self.neighbors(index, radius_sq);
        let mut r: Vec<usize> = Vec::new();
        let mut k: usize = 0;
        while k < pairs.len()
            invariant
                k <= pairs@.len(),
                r@.len() == k,
                forall|t: int| 0 <= t < k ==> #[trigger] r@[t] == pairs@[t].0,
            decreases pairs@.len() - k,
        {
            r.push(pairs[k].0);
            k += 1;
        }
        r
    }

    /// The largest squared distance between any two sites: the last entry of
    /// any sorted neighbor row, maximized over rows.
    pub fn max_radius(&self) -> (r: i64)
        requires
            self.wf(),
            self.n() > 0,
        ensures
            forall|i: int, k: int|
                0 <= i < self.n() && 0 <= k < self.n() ==> (#[trigger] self.nbr(i, k)).1 <= r,
            exists|i: int, k: int|
                0 <= i < self.n() && 0 <= k < self.n() && (#[trigger] self.nbr(i, k)).1 == r,
    {
        let n: usize = self.elements.len();
        let row0 = &self.element_neighbors[0];
        let mut best: i64 = row0[n - 1].1;
        proof {
            assert(self.nbr(0, n - 1 as int).1 == best);
        }
        let mut i: usize = 1;
        while i < n
            invariant
                1 <= i <= n,
                n == self.n(),
                self.wf(),
                forall|t: int, k: int|
                    0 <= t < i && 0 <= k < n ==> (#[trigger] self.nbr(t, k)).1 <= best,
                exists|t: int, k: int|
                    0 <= t < n && 0 <= k < n && (#[trigger] self.nbr(t, k)).1 == best,
            decreases n - i,
        {
            let row = &self.element_neighbors[i];
            let last = row[n - 1].1;
            if last > best {
                best = last;
                proof {
                    assert(self.nbr(i as int, n - 1 as int).1 == best);
                }
            }
            proof {
                assert forall|k: int| 0 <= k < n implies (#[trigger] self.nbr(i as int, k)).1
                    <= best by {
                    assert(self.nbr(i as int, k).1 <= self.nbr(i as int, n - 1 as int).1);
                }
            }
            i += 1;
        }
        best
    }

    /// A fresh system with the same sites, geometry, state and bookkeeping.
    pub fn duplicate(&self) -> (r: Self)
        requires
            self.wf(),
        ensures
            r.wf(),
            r.same_geometry(*self),
            r.bits() == self.bits(),
            r.n() == self.n(),
            r.row_energies@ == self.row_energies@,
            r.energy == self.energy,
            r.spin_excess == self.spin_excess,
    {
        let n: usize = self.elements.len();
        let mut elements: Vec<Element> = Vec::new();
        let mut i: usize = 0;
        while i < n
            invariant
                i <= n,
                n == self.elements@.len(),
                elements@ == self.elements@.subrange(0, i as int),
            decreases n - i,
        {
            elements.push(self.elements[i]);
            i += 1;
        }
        let mut element_neighbors: Vec<Vec<(usize, i64)>> = Vec::new();
        let mut i: usize = 0;
        while i < n
            invariant
                i <= n,
                n == self.element_neighbors@.len(),
                element_neighbors@.len() == i,
                forall|t: int|
                    0 <= t < i ==> (#[trigger] element_neighbors@[t])@
                        == self.element_neighbors@[t]@,
            decreases n - i,
        {
            let row = &self.element_neighbors[i];
            let m: usize = row.len();
            let mut copy: Vec<(usize, i64)> = Vec::new();
            let mut k: usize = 0;
            while k < m
                invariant
                    k <= m,
                    m == row@.len(),
                    copy@ == row@.subrange(0, k as int),
                decreases m - k,
            {
                copy.push(row[k]);
                k += 1;
            }
            proof {
                assert(copy@ =~= row@);
            }
            element_neighbors.push(copy);
            i += 1;
        }
        let mut system_signs: Vec<i8> = Vec::new();
        let mut i: usize = 0;
        while i < n
            invariant
                i <= n,
                n == self.system_signs@.len(),
                system_signs@ == self.system_signs@.subrange(0, i as int),
            decreases n - i,
        {
            system_signs.push(self.system_signs[i]);
            i += 1;
        }
        let mut row_energies: Vec<i64> = Vec::new();
        let mut i: usize = 0;
        while i < n
            invariant
                i <= n,
                n == self.row_energies@.len(),
                row_energies@ == self.row_energies@.subrange(0, i as int),
            decreases n - i,
        {
            row_energies.push(self.row_energies[i]);
            i += 1;
        }
        proof {
            assert(elements@ =~= self.elements@);
            assert(system_signs@ =~= self.system_signs@);
            assert(row_energies@ =~= self.row_energies@);
        }
        let r = System {
            elements,
            element_neighbors,
            system_state: bits_clone(&self.system_state),
            system_signs,
            energy_matrix_default: self.energy_matrix_default.duplicate(),
            row_energies,
            energy: self.energy,
            spin_excess: self.spin_excess,
        };
        proof {
            assert(r.mat().wf() && r.mat().spec_size() == r.n()) by {
                lemma_matrix_view_congruence(self.mat(), r.mat());
            }
            lemma_wf_neighbors_congruence(*self, r);
            lemma_energy_congruence(self.mat(), r.mat(), r.bits());
            assert(r.wf());
        }
        r
    }

    /// Everything `wf` asks except the three derived quantities.
    pub open spec fn wf_base(self) -> bool {
        &&& self.n() <= crate::MAX_SITES
        &&& forall|i: int| 0 <= i < self.n() ==> (#[trigger] self.elements@[i]).wf()
        &&& self.mat().wf()
        &&& self.mat().spec_size() == self.n()
        &&& self.wf_neighbors()
        &&& self.bits().len() == self.n()
        &&& self.system_signs@.len() == self.n()
        &&& forall|i: int|
            0 <= i < self.n() ==> (#[trigger] self.system_signs@[i]) as int == sign_of(
                self.bits()[i],
            )
    }

    /// Everything `wf` asks except the row energies and the total.
    pub open spec fn wf_except_energy(self) -> bool {
        &&& self.wf_base()
        &&& self.spin_excess as int == excess_of(self.bits())
    }

    /// One row energy, summed directly from the matrix and the signs.
    fn compute_row_energy(&self, row: usize) -> (r: i64)
        requires
            self.wf_except_energy(),
            row < self.n(),
        ensures
            r as int == row_energy_of(self.mat(), self.bits(), row as int),
    {
        let n: usize = self.elements.len();
        let ghost f = |j: int| pair_term(self.mat(), self.bits(), row as int, j);
        let sr: i8 = self.system_signs[row];
        let mut acc: i64 = 0;
        let mut j: usize = 0;
        while j < n
            invariant
                j <= n,
                n == self.n(),
                row < n,
                self.wf_except_energy(),
                sr == self.system_signs@[row as int],
                f == (|j: int| pair_term(self.mat(), self.bits(), row as int, j)),
                acc as int == sum(j as nat, f),
                -(j as int) * (ENERGY_LIMIT as int) <= acc as int <= (j as int) * (
                ENERGY_LIMIT as int),
            decreases n - j,
        {
            let cell = self.energy_matrix_default.get(row, j);
            let sj: i8 = self.system_signs[j];
            proof {
                let at = self.mat().at(row as int, j as int);
                let si = self.system_signs@[row as int] as int;
                let sjv = self.system_signs@[j as int] as int;
                assert(at * si <= ENERGY_LIMIT as int && -(ENERGY_LIMIT as int) <= at * si && at
                    * si * sjv <= ENERGY_LIMIT as int && -(ENERGY_LIMIT as int) <= at * si * sjv)
                    by (nonlinear_arith)
                    requires
                        (si == 1 || si == -1) && (sjv == 1 || sjv == -1),
                        -(ENERGY_LIMIT as int) <= at <= ENERGY_LIMIT as int,
                ;
            }
            let term: i64 = cell * (sr as i64) * (sj as i64);
            proof {
                lemma_pair_term_value(self.mat(), self.bits(), row as int, j as int);
                assert forall|k: int| 0 <= k < j implies -(ENERGY_LIMIT as int) <= #[trigger] f(k)
                    <= ENERGY_LIMIT as int by {
                    lemma_pair_term_value(self.mat(), self.bits(), row as int, k);
                }
                lemma_sum_bound(j as nat, f, ENERGY_LIMIT as int);
                assert(sum((j + 1) as nat, f) == sum(j as nat, f) + f(j as int));
                assert((j + 1) as int * (ENERGY_LIMIT as int) == (j as int) * (ENERGY_LIMIT as int)
                    + ENERGY_LIMIT as int) by (nonlinear_arith);
            }
            acc = acc + term;
            j += 1;
        }
        acc
    }
}

/// Entry `k` of `s` names site `j`, for some `k`.
pub open spec fn row_lists_index(s: Seq<(usize, i64)>, j: int) -> bool {
    exists|k: int| 0 <= k < s.len() && (#[trigger] s[k]).0 == j
}

/// One site's neighbor row: every site paired with its squared distance,
/// sorted ascending by distance (stable, so ties keep index order).
fn sorted_neighbor_row(elements: &Vec<Element>, i: usize) -> (r: Vec<(usize, i64)>)
    requires
        forall|k: int| 0 <= k < elements@.len() ==> (#[trigger] elements@[k]).wf(),
        i < elements@.len(),
        elements@.len() <= crate::MAX_SITES,
    ensures
        r@.len() == elements@.len(),
        forall|k: int|
            0 <= k < r@.len() ==> (#[trigger] r@[k]).0 < elements@.len() && r@[k].1 as int
                == elements@[i as int].spec_distance_sq(elements@[r@[k].0 as int]),
        forall|k1: int, k2: int| 0 <= k1 <= k2 < r@.len() ==> (#[trigger] r@[k1]).1 <= (
        #[trigger] r@[k2]).1,
        forall|k1: int, k2: int| 0 <= k1 < k2 < r@.len() ==> (#[trigger] r@[k1]).0 != (
        #[trigger] r@[k2]).0,
        forall|j: int| 0 <= j < elements@.len() ==> #[trigger] row_lists_index(r@, j),
{
    let n: usize = elements.len();
    let center = elements[i];
    let mut r: Vec<(usize, i64)> = Vec::new();
    let mut j: usize = 0;
    while j < n
        invariant
            j <= n,
            n == elements@.len(),
            i < n,
            forall|k: int| 0 <= k < n ==> (#[trigger] elements@[k]).wf(),
            center == elements@[i as int],
            r@.len() == j,
            forall|k: int|
                0 <= k < r@.len() ==> (#[trigger] r@[k]).0 < j && r@[k].1 as int
                    == elements@[i as int].spec_distance_sq(elements@[r@[k].0 as int]),
            forall|k1: int, k2: int| 0 <= k1 <= k2 < r@.len() ==> (#[trigger] r@[k1]).1 <= (
            #[trigger] r@[k2]).1,
            forall|k1: int, k2: int| 0 <= k1 < k2 < r@.len() ==> (#[trigger] r@[k1]).0 != (
            #[trigger] r@[k2]).0,
            forall|t: int| 0 <= t < j ==> #[trigger] row_lists_index(r@, t),
        decreases n - j,
    {
        let d = center.distance_sq(&elements[j]);
        let entry = (j, d);
        let mut pos: usize = 0;
        while pos < r.len() && r[pos].1 <= d
            invariant
                pos <= r@.len(),
                forall|k: int| 0 <= k < pos ==> (#[trigger] r@[k]).1 <= d,
            decreases r@.len() - pos,
        {
            pos += 1;
        }
        let ghost before = r@;
        r.insert(pos, entry);
        proof {
            assert(r@ == before.insert(pos as int, entry));
            assert(r@.len() == j + 1);
            assert forall|k: int| 0 <= k < r@.len() implies (#[trigger] r@[k]).0 < j + 1
                && r@[k].1 as int == elements@[i as int].spec_distance_sq(
                elements@[r@[k].0 as int],
            ) by {
                if k < pos {
                    assert(r@[k] == before[k]);
                } else if k == pos {
                    assert(r@[k] == entry);
                } else {
                    assert(r@[k] == before[k - 1]);
                }
            }
            assert forall|k1: int, k2: int| 0 <= k1 <= k2 < r@.len() implies (#[trigger] r@[k1]).1
                <= (#[trigger] r@[k2]).1 by {
                if pos < before.len() {
                    assert(before[pos as int].1 > d);
                }
            }
            assert forall|k1: int, k2: int| 0 <= k1 < k2 < r@.len() implies (#[trigger] r@[k1]).0
                != (#[trigger] r@[k2]).0 by {}
            assert forall|t: int| 0 <= t < j + 1 implies #[trigger] row_lists_index(r@, t) by {
                if t == j {
                    assert(r@[pos as int].0 == j);
                } else {
                    assert(row_lists_index(before, t));
                    let k = choose|k: int| 0 <= k < before.len() && (#[trigger] before[k]).0 == t;
                    if k < pos {
                        assert(r@[k].0 == t);
                    } else {
                        assert(r@[k + 1].0 == t);
                    }
                }
            }
        }
        j += 1;
    }
    r
}

/// The state after setting the listed spins, first to last.
pub open spec fn apply_spin_list(bs: Seq<bool>, spins: Seq<(usize, bool)>) -> Seq<bool>
    decreases spins.len(),
{
    if spins.len() == 0 {
        bs
    } else {
        apply_spin_list(bs, spins.drop_last()).update(
            spins.last().0 as int,
            spins.last().1,
        )
    }
}

/// The state after flipping the listed spins, first to last.
pub open spec fn flip_list(bs: Seq<bool>, spins: Seq<usize>) -> Seq<bool>
    decreases spins.len(),
{
    if spins.len() == 0 {
        bs
    } else {
        let prev = flip_list(bs, spins.drop_last());
        let i = spins.last() as int;
        prev.update(i, !prev[i])
    }
}

/// Which way a site's realized moment points: `Down` when the y component is
/// positive, or zero with a nonnegative x component.
pub open spec fn orientation_of(e: Element, spin: bool) -> Orientation {
    let dx = if spin {
        -e.mx as int
    } else {
        e.mx as int
    };
    let dy = if spin {
        -e.my as int
    } else {
        e.my as int
    };
    if dy > 0 || (dy == 0 && dx >= 0) {
        Orientation::Down
    } else {
        Orientation::Up
    }
}

/// A matrix with the same view is as well formed, entry for entry.
pub proof fn lemma_matrix_view_congruence(a: Matrix, b: Matrix)
    requires
        a.wf(),
        b.memory@ == a.memory@,
        b.size == a.size,
    ensures
        b.wf(),
        forall|i: int, j: int|
            0 <= i < b.spec_size() && 0 <= j < b.spec_size() ==> #[trigger] b.at(i, j) == a.at(
                i,
                j,
            ),
{
    assert forall|i: int, j: int|
        0 <= i < b.spec_size() && 0 <= j < b.spec_size() implies #[trigger] b.at(i, j) == a.at(
        i,
        j,
    ) by {}
}

/// Energies depend on the matrix only through its entries, so a matrix with
/// the same view carries the same row energies and total.
pub proof fn lemma_energy_congruence(a: Matrix, b: Matrix, bs: Seq<bool>)
    requires
        b.memory@ == a.memory@,
        b.size == a.size,
    ensures
        forall|i: int| #[trigger] row_energy_of(b, bs, i) == row_energy_of(a, bs, i),
        total_energy_of(b, bs) == total_energy_of(a, bs),
{
    assert forall|i: int| #[trigger] row_energy_of(b, bs, i) == row_energy_of(a, bs, i) by {
        let f = |j: int| pair_term(a, bs, i, j);
        let g = |j: int| pair_term(b, bs, i, j);
        assert forall|j: int| 0 <= j < b.spec_size() implies #[trigger] f(j) == g(j) by {
            assert(b.at(i, j) == a.at(i, j));
        }
        lemma_sum_eq(b.spec_size(), f, g);
    }
    let ra = |i: int| row_energy_of(a, bs, i);
    let rb = |i: int| row_energy_of(b, bs, i);
    assert forall|i: int| 0 <= i < b.spec_size() implies #[trigger] ra(i) == rb(i) by {}
    lemma_sum_eq(b.spec_size(), ra, rb);
}

/// The change a flip of `spin` makes to row `k`, with the flipped state.
pub open spec fn flip_delta(mat: Matrix, nb: Seq<bool>, spin: int, k: int) -> int {
    2 * pair_term(mat, nb, spin, k)
}

/// The spin excess lies within ±n.
pub proof fn lemma_excess_bound(bs: Seq<bool>)
    ensures
        -(bs.len() as int) <= excess_of(bs) <= bs.len() as int,
{
    let f = |k: int| sign_of(bs[k]);
    assert forall|k: int| 0 <= k < bs.len() implies -1 <= #[trigger] f(k) <= 1 by {}
    lemma_sum_bound(bs.len(), f, 1);
}

/// Flipping `spin` shifts every other row energy by `flip_delta`.
pub proof fn lemma_flip_row_other(mat: Matrix, ob: Seq<bool>, spin: int, k: int)
    requires
        mat.wf(),
        ob.len() == mat.spec_size(),
        0 <= spin < mat.spec_size(),
        0 <= k < mat.spec_size(),
        k != spin,
    ensures
        row_energy_of(mat, ob.update(spin, !ob[spin]), k) == row_energy_of(mat, ob, k)
            + flip_delta(mat, ob.update(spin, !ob[spin]), spin, k),
{
    let nb = ob.update(spin, !ob[spin]);
    let f = |j: int| pair_term(mat, ob, k, j);
    let g = |j: int| pair_term(mat, nb, k, j);
    assert forall|j: int| 0 <= j < mat.spec_size() && j != spin implies #[trigger] f(j) == g(j) by {}
    lemma_sum_update(mat.spec_size(), f, g, spin);
    let at = mat.at(k, spin);
    let sk = sign_of(ob[k]);
    let so = sign_of(ob[spin]);
    let sn = sign_of(nb[spin]);
    assert(g(spin) - f(spin) == 2 * (mat.at(spin, k) * sn * sk)) by (nonlinear_arith)
        requires
            g(spin) == at * sk * sn,
            f(spin) == at * sk * so,
            so == -sn,
            at == mat.at(spin, k),
    ;
    assert(flip_delta(mat, nb, spin, k) == 2 * (mat.at(spin, k) * sn * sk));
}

/// Flipping `spin` negates its own row energy.
pub proof fn lemma_flip_row_self(mat: Matrix, ob: Seq<bool>, spin: int)
    requires
        mat.wf(),
        ob.len() == mat.spec_size(),
        0 <= spin < mat.spec_size(),
    ensures
        row_energy_of(mat, ob.update(spin, !ob[spin]), spin) == -row_energy_of(mat, ob, spin),
{
    let nb = ob.update(spin, !ob[spin]);
    let f = |j: int| pair_term(mat, ob, spin, j);
    let g = |j: int| pair_term(mat, nb, spin, j);
    assert forall|j: int| 0 <= j < mat.spec_size() implies #[trigger] g(j) == -f(j) by {
        let at = mat.at(spin, j);
        if j == spin {
            assert(f(j) == 0 && g(j) == 0) by (nonlinear_arith)
                requires
                    at == 0,
                    f(j) == at * sign_of(ob[spin]) * sign_of(ob[spin]),
                    g(j) == at * sign_of(nb[spin]) * sign_of(nb[spin]),
            ;
        } else {
            assert(g(j) == -f(j)) by (nonlinear_arith)
                requires
                    f(j) == at * sign_of(ob[spin]) * sign_of(ob[j]),
                    g(j) == at * sign_of(nb[spin]) * sign_of(ob[j]),
                    sign_of(nb[spin]) == -sign_of(ob[spin]),
            ;
        }
    }
    lemma_sum_neg(mat.spec_size(), f, g);
}

/// The deltas of one flip sum to twice the flipped row's new energy.
pub proof fn lemma_flip_delta_sum(mat: Matrix, ob: Seq<bool>, spin: int)
    requires
        mat.wf(),
        ob.len() == mat.spec_size(),
        0 <= spin < mat.spec_size(),
    ensures
        sum(mat.spec_size(), |k: int| flip_delta(mat, ob.update(spin, !ob[spin]), spin, k)) == 2
            * row_energy_of(mat, ob.update(spin, !ob[spin]), spin),
{
    let nb = ob.update(spin, !ob[spin]);
    let f = |k: int| pair_term(mat, nb, spin, k);
    let g = |k: int| flip_delta(mat, nb, spin, k);
    assert forall|k: int| 0 <= k < mat.spec_size() implies #[trigger] g(k) == 2 * f(k) by {}
    lemma_sum_scale(mat.spec_size(), f, g, 2);
}

/// The total after one flip: down by four times the flipped row's old energy.
pub proof fn lemma_flip_total(mat: Matrix, ob: Seq<bool>, spin: int)
    requires
        mat.wf(),
        ob.len() == mat.spec_size(),
        0 <= spin < mat.spec_size(),
    ensures
        total_energy_of(mat, ob.update(spin, !ob[spin])) == total_energy_of(mat, ob) + 2 * sum(
            mat.spec_size(),
            |k: int| flip_delta(mat, ob.update(spin, !ob[spin]), spin, k),
        ),
        total_energy_of(mat, ob.update(spin, !ob[spin])) == total_energy_of(mat, ob) - 4
            * row_energy_of(mat, ob, spin),
{
    let n = mat.spec_size();
    let nb = ob.update(spin, !ob[spin]);
    let rows_o = |k: int| row_energy_of(mat, ob, k);
    let rows_n = |k: int| row_energy_of(mat, nb, k);
    let deltaf = |k: int| flip_delta(mat, nb, spin, k);
    let d2 = |k: int| rows_n(k) - rows_o(k);
    lemma_flip_row_self(mat, ob, spin);
    lemma_flip_delta_sum(mat, ob, spin);
    assert forall|k: int| 0 <= k < n && k != spin implies #[trigger] d2(k) == deltaf(k) by {
        lemma_flip_row_other(mat, ob, spin, k);
    }
    lemma_sum_add(n, rows_o, d2, rows_n);
    lemma_sum_update(n, deltaf, d2, spin);
    assert(deltaf(spin) == 0) by {
        assert(pair_term(mat, nb, spin, spin) == 0) by (nonlinear_arith)
            requires
                pair_term(mat, nb, spin, spin) == mat.at(spin, spin) * sign_of(nb[spin]) * sign_of(
                    nb[spin],
                ),
                mat.at(spin, spin) == 0,
        ;
    }
    assert(d2(spin) == 2 * rows_n(spin));
    assert(sum(n, d2) == sum(n, deltaf) - deltaf(spin) + d2(spin));
    assert(total_energy_of(mat, nb) == sum(n, rows_n));
    assert(total_energy_of(mat, ob) == sum(n, rows_o));
}

/// `wf_neighbors` depends only on the sites and the neighbor rows, so it
/// carries over to any system that shares them.
pub proof fn lemma_wf_neighbors_congruence(a: System, b: System)
    requires
        a.wf_neighbors(),
        b.elements@.len() == a.elements@.len(),
        b.element_neighbors@.len() == a.element_neighbors@.len(),
        forall|i: int|
            0 <= i < a.element_neighbors@.len() ==> (#[trigger] b.element_neighbors@[i])@
                == a.element_neighbors@[i]@,
        forall|i: int| 0 <= i < a.elements@.len() ==> #[trigger] b.elements@[i] == a.elements@[i],
    ensures
        b.wf_neighbors(),
{
    let n = a.n() as int;
    assert forall|i: int, k: int| 0 <= i < n && 0 <= k < n implies #[trigger] b.nbr(i, k) == a.nbr(
        i,
        k,
    ) by {
        assert(b.element_neighbors@[i]@ == a.element_neighbors@[i]@);
    }
    assert forall|i: int, j: int| 0 <= i < n && 0 <= j < n implies #[trigger] b.has_neighbor_entry(
        i,
        j,
    ) by {
        assert(a.has_neighbor_entry(i, j));
        let k = choose|k: int| 0 <= k < a.n() && (#[trigger] a.nbr(i, k)).0 == j;
        assert(b.nbr(i, k).0 == j);
    }
}

/// A realized pair term is the matrix entry or its negation, so it obeys the
/// same bound.
pub proof fn lemma_pair_term_value(mat: Matrix, bs: Seq<bool>, i: int, j: int)
    requires
        0 <= i < bs.len(),
        0 <= j < bs.len(),
    ensures
        pair_term(mat, bs, i, j) == if sign_of(bs[i]) == sign_of(bs[j]) {
            mat.at(i, j)
        } else {
            -mat.at(i, j)
        },
{
    let at = mat.at(i, j);
    let si = sign_of(bs[i]);
    let sj = sign_of(bs[j]);
    assert(at * si * sj == if si == sj {
        at
    } else {
        -at
    }) by (nonlinear_arith)
        requires
            (si == 1 || si == -1) && (sj == 1 || sj == -1),
    ;
}

/// Each row energy is bounded by the number of sites times the entry bound.
pub proof fn lemma_row_energy_bound(mat: Matrix, bs: Seq<bool>, i: int)
    requires
        mat.wf(),
        bs.len() == mat.spec_size(),
        0 <= i < mat.spec_size(),
    ensures
        -(ROW_ENERGY_LIMIT as int) <= row_energy_of(mat, bs, i) <= ROW_ENERGY_LIMIT as int,
{
    let f = |j: int| pair_term(mat, bs, i, j);
    assert forall|j: int| 0 <= j < mat.spec_size() implies -(ENERGY_LIMIT as int) <= #[trigger] f(j)
        <= ENERGY_LIMIT as int by {
        lemma_pair_term_value(mat, bs, i, j);
    }
    lemma_sum_bound(mat.spec_size(), f, ENERGY_LIMIT as int);
    assert(mat.spec_size() as int * ENERGY_LIMIT as int <= ROW_ENERGY_LIMIT as int)
        by (nonlinear_arith)
        requires
            mat.spec_size() <= 4096,
            ENERGY_LIMIT == 0x1_0000_0000,
            ROW_ENERGY_LIMIT == 0x1000_0000_0000,
    ;
}

/// A partial sum of row energies stays below the total's limit.
proof fn lemma_sum_bound_step(i: nat, n: nat)
    requires
        i < n,
        n <= crate::MAX_SITES,
    ensures
        (i + 1) * (ROW_ENERGY_LIMIT as int) <= TOTAL_ENERGY_LIMIT as int,
{
    assert((i + 1) * (ROW_ENERGY_LIMIT as int) <= TOTAL_ENERGY_LIMIT as int) by (nonlinear_arith)
        requires
            i < n <= 4096,
            ROW_ENERGY_LIMIT == 0x1000_0000_0000,
            TOTAL_ENERGY_LIMIT == 0x100_0000_0000_0000,
    ;
}

/// The unhalved total is even: the realized matrix is symmetric with a zero
/// diagonal, so every pair is counted exactly twice.
pub proof fn lemma_total_even(mat: Matrix, bs: Seq<bool>)
    requires
        mat.wf(),
        bs.len() == mat.spec_size(),
    ensures
        total_energy_of(mat, bs) % 2 == 0,
{
    let a = |i: int, j: int| pair_term(mat, bs, i, j);
    let n = mat.spec_size();
    assert forall|i: int, j: int| 0 <= i < n && 0 <= j < n implies #[trigger] a(i, j) == a(j, i) by {
        lemma_pair_term_value(mat, bs, i, j);
        lemma_pair_term_value(mat, bs, j, i);
    }
    assert forall|i: int| 0 <= i < n implies #[trigger] a(i, i) == 0 by {
        lemma_pair_term_value(mat, bs, i, i);
    }
    lemma_symmetric_double_sum_even(n, a);
    let rows = |t: int| row_energy_of(mat, bs, t);
    let outer = |t: int| sum(n, |j: int| a(t, j));
    assert forall|i: int| 0 <= i < n implies #[trigger] rows(i) == outer(i) by {
        lemma_sum_eq(n, |j: int| pair_term(mat, bs, i, j), |j: int| a(i, j));
    }
    lemma_sum_eq(n, rows, outer);
}

/// The total is bounded by `n` row bounds; with the site and entry limits it
/// fits comfortably in an `i64`.
pub proof fn lemma_total_bound(mat: Matrix, bs: Seq<bool>)
    requires
        mat.wf(),
        bs.len() == mat.spec_size(),
    ensures
        -(TOTAL_ENERGY_LIMIT as int) <= total_energy_of(mat, bs) <= TOTAL_ENERGY_LIMIT as int,
{
    let n = mat.spec_size();
    let f = |i: int| row_energy_of(mat, bs, i);
    assert forall|i: int|
        0 <= i < n implies -(ROW_ENERGY_LIMIT as int) <= #[trigger] f(i) <= ROW_ENERGY_LIMIT as int by {
        lemma_row_energy_bound(mat, bs, i);
    }
    lemma_sum_bound(n, f, ROW_ENERGY_LIMIT as int);
    assert(n * (ROW_ENERGY_LIMIT as int) <= TOTAL_ENERGY_LIMIT as int) by (nonlinear_arith)
        requires
            n <= 4096,
            ROW_ENERGY_LIMIT == 0x1000_0000_0000,
            TOTAL_ENERGY_LIMIT == 0x100_0000_0000_0000,
    ;
}

/// Every reachable state keeps each stored row energy equal to its defining
/// sum over the pair-energy matrix and the signs.
pub proof fn lemma_row_energy_invariant(s: System, i: int)
    requires
        s.wf(),
        0 <= i < s.n(),
    ensures
        s.row_energies@[i] as int == sum(
            s.n(),
            |j: int| s.mat().at(i, j) * sign_of(s.bits()[i]) * sign_of(s.bits()[j]),
        ),
{
    assert(s.mat().spec_size() == s.n());
    lemma_sum_eq(
        s.n(),
        |j: int| pair_term(s.mat(), s.bits(), i, j),
        |j: int| s.mat().at(i, j) * sign_of(s.bits()[i]) * sign_of(s.bits()[j]),
    );
}

/// The stored total is exactly the sum of the stored row energies.
pub proof fn lemma_total_is_sum_of_rows(s: System)
    requires
        s.wf(),
    ensures
        s.energy as int == sum(s.n(), |i: int| s.row_energies@[i] as int),
{
    lemma_sum_eq(
        s.n(),
        |i: int| row_energy_of(s.mat(), s.bits(), i),
        |i: int| s.row_energies@[i] as int,
    );
}

/// Two well-formed systems over the same pair energies and the same state
/// agree on every derived quantity: the energy bookkeeping is a function of
/// the state, however the state was reached. In particular an incremental
/// walk of flips and a recomputation from scratch agree exactly, and
/// restoring a saved state restores the exact energy.
pub proof fn lemma_state_determines_energy(a: System, b: System)
    requires
        a.wf(),
        b.wf(),
        a.mat().memory@ == b.mat().memory@,
        a.mat().size == b.mat().size,
        a.n() == b.n(),
        a.bits() == b.bits(),
    ensures
        a.energy == b.energy,
        a.spin_excess == b.spin_excess,
        forall|i: int| 0 <= i < a.n() ==> a.row_energies@[i] == b.row_energies@[i],
{
    lemma_energy_congruence(a.mat(), b.mat(), a.bits());
    assert forall|i: int| 0 <= i < a.n() implies a.row_energies@[i] == b.row_energies@[i] by {
        assert(row_energy_of(b.mat(), b.bits(), i) == row_energy_of(a.mat(), a.bits(), i));
    }
}

/// Every sorted neighbor row starts at distance zero: the site itself is
/// listed, at distance zero from itself, and no distance is negative.
pub proof fn lemma_neighbor_head_distance(s: System, i: int)
    requires
        s.wf(),
        0 <= i < s.n(),
    ensures
        s.nbr(i, 0).1 == 0,
{
    assert(s.has_neighbor_entry(i, i));
    let k = choose|k: int| 0 <= k < s.n() && (#[trigger] s.nbr(i, k)).0 == i as usize;
    let ei = s.elements@[i];
    assert(ei.spec_distance_sq(ei) == 0) by (nonlinear_arith);
    assert(s.nbr(i, k).1 as int == 0);
    let e0 = s.elements@[s.nbr(i, 0).0 as int];
    assert(ei.spec_distance_sq(e0) >= 0) by (nonlinear_arith)
        requires
            ei.spec_distance_sq(e0) == (ei.x - e0.x) * (ei.x - e0.x) + (ei.y - e0.y) * (ei.y
                - e0.y),
    ;
    assert(s.nbr(i, 0).1 <= s.nbr(i, k).1);
}

/// When no other site shares site `i`'s position, its neighbor row starts
/// with the site itself at distance zero.
pub proof fn lemma_neighbor_row_head(s: System, i: int)
    requires
        s.wf(),
        0 <= i < s.n(),
        forall|j: int|
            0 <= j < s.n() && j != i ==> s.elements@[i].spec_distance_sq(
                #[trigger] s.elements@[j],
            ) != 0,
    ensures
        s.nbr(i, 0).0 == i as usize,
        s.nbr(i, 0).1 == 0,
{
    lemma_neighbor_head_distance(s, i);
    let ei = s.elements@[i];
    if s.nbr(i, 0).0 != i as usize {
        assert(ei.spec_distance_sq(s.elements@[s.nbr(i, 0).0 as int]) != 0);
        assert(false);
    }
}

/// Flipping the same spin twice returns the state, and with it every energy
/// quantity, to exactly what it was.
pub proof fn lemma_flip_twice_is_identity(bs: Seq<bool>, i: int)
    requires
        0 <= i < bs.len(),
    ensures
        ({
            let once = bs.update(i, !bs[i]);
            once.update(i, !once[i]) =~= bs
        }),
{
}

} // verus!
