//! Ground-state search for two-dimensional dipole-coupled spin lattices.
//!
//! A [`system::System`] holds sites, their pair-energy matrix in fixed-point
//! integers, and a spin per site, with exact incremental energy bookkeeping.
//! The search algorithms — greedy descent, the hybrid "gibrid" walk, a
//! cluster-substitution walk, exhaustive Gray-coded enumeration and a
//! Metropolis sweep — mutate a system in place and report every candidate to
//! a [`runner::StateRegistererInner`], whose recorded minimum can only
//! improve.
pub mod algorithn_state;
pub mod bits;
pub mod element;
pub mod matrix;
pub mod metropolis;
pub mod mfsys;
pub mod perebor;
pub mod random;
pub mod runner;
pub mod summation;
pub mod system;
pub mod utils;

use vstd::prelude::*;

use crate::bits::{bits_get, bits_len};
use crate::element::{Element, COORD_LIMIT};
use crate::matrix::{Matrix, TOTAL_ENERGY_LIMIT};
use crate::random::{random_below, random_permutation};
use crate::runner::{reg_evolved, SearchStep, State, StateRegistererInner};
use crate::system::{lemma_total_bound, row_energy_of, total_energy_of, System};
use crate::utils::{elements_equal, get_part_from_system, part_matrix};

verus! {

/// Largest number of lattice sites a system may hold.
pub const MAX_SITES: usize = 4096;

/// The site with the largest row energy, first occurrence on ties.
fn argmax_row(system: &System) -> (r: usize)
    requires
        system.wf(),
        system.n() > 0,
    ensures
        r < system.n(),
        forall|j: int|
            0 <= j < system.n() ==> (#[trigger] system.row_energies@[j])
                <= system.row_energies@[r as int],
        forall|j: int|
            0 <= j < r ==> (#[trigger] system.row_energies@[j]) < system.row_energies@[r as int],
{
    let n: usize = system.size();
    let rows = system.row_energies();
    let mut best: usize = 0;
    let mut i: usize = 1;
    while i < n
        invariant
            1 <= i <= n,
            best < i,
            n == system.n(),
            rows@ == system.row_energies@,
            system.wf(),
            forall|j: int| 0 <= j < i ==> (#[trigger] rows@[j]) <= rows@[best as int],
            forall|j: int| 0 <= j < best ==> (#[trigger] rows@[j]) < rows@[best as int],
        decreases n - i,
    {
        if rows[i] > rows[best] {
            best = i;
        }
        i += 1;
    }
    best
}

/// The site with the smallest row energy, first occurrence on ties.
fn argmin_row(system: &System) -> (r: usize)
    requires
        system.wf(),
        system.n() > 0,
    ensures
        r < system.n(),
        forall|j: int|
            0 <= j < system.n() ==> (#[trigger] system.row_energies@[j])
                >= system.row_energies@[r as int],
        forall|j: int|
            0 <= j < r ==> (#[trigger] system.row_energies@[j]) > system.row_energies@[r as int],
{
    let n: usize = system.size();
    let rows = system.row_energies();
    let mut best: usize = 0;
    let mut i: usize = 1;
    while i < n
        invariant
            1 <= i <= n,
            best < i,
            n == system.n(),
            rows@ == system.row_energies@,
            system.wf(),
            forall|j: int| 0 <= j < i ==> (#[trigger] rows@[j]) >= rows@[best as int],
            forall|j: int| 0 <= j < best ==> (#[trigger] rows@[j]) > rows@[best as int],
        decreases n - i,
    {
        if rows[i] < rows[best] {
            best = i;
        }
        i += 1;
    }
    best
}

/// Greedy descent: repeatedly flips the site with the largest positive row
/// energy, registering after every flip, until every row energy is at most
/// zero. Each flip lowers the unhalved total by at least four fixed-point
/// quanta, which both bounds the flip count by a quarter of the energy
/// descent and proves termination.
pub fn greedy(system: &mut System, registerer: &mut StateRegistererInner) -> (flips: u64)
    requires
        old(system).wf(),
        old(registerer).wf_for(old(system).mat()),
    ensures
        final(system).wf(),
        final(system).same_geometry(*old(system)),
        final(system).energy_matrix_default == old(system).energy_matrix_default,
        final(system).elements@ == old(system).elements@,
        forall|i: int|
            0 <= i < final(system).n() ==> (#[trigger] final(system).row_energies@[i]) <= 0,
        final(registerer).wf_for(final(system).mat()),
        reg_evolved(*old(registerer), *final(registerer)),
        total_energy_of(final(system).mat(), final(system).bits()) <= total_energy_of(
            old(system).mat(),
            old(system).bits(),
        ),
        4 * flips as int <= total_energy_of(old(system).mat(), old(system).bits())
            - total_energy_of(final(system).mat(), final(system).bits()),
        flips > 0 ==> final(registerer).has_min() && 2 * final(registerer).threshold()
            <= total_energy_of(final(system).mat(), final(system).bits()),
        flips == 0 ==> final(system).bits() == old(system).bits() && *final(registerer) == *old(
            registerer,
        ),
{
    let ghost m = old(system).mat();
    let ghost total0 = total_energy_of(m, old(system).bits());
    let n: usize = system.size();
    if n == 0 {
        return 0;
    }
    proof {
        lemma_total_bound(m, old(system).bits());
    }
    let mut flips: u64 = 0;
    loop
        invariant
            system.wf(),
            n == system.n(),
            n > 0,
            system.same_geometry(*old(system)),
            system.energy_matrix_default == old(system).energy_matrix_default,
            system.elements@ == old(system).elements@,
            m == system.mat(),
            total0 == total_energy_of(m, old(system).bits()),
            -TOTAL_ENERGY_LIMIT <= total0 <= TOTAL_ENERGY_LIMIT,
            registerer.wf_for(m),
            reg_evolved(*old(registerer), *registerer),
            total_energy_of(m, system.bits()) <= total0,
            4 * flips as int <= total0 - total_energy_of(m, system.bits()),
            flips > 0 ==> registerer.has_min() && 2 * registerer.threshold() <= total_energy_of(
                m,
                system.bits(),
            ),
            flips == 0 ==> system.bits() == old(system).bits() && *registerer == *old(registerer),
        ensures
            forall|i: int| 0 <= i < system.n() ==> (#[trigger] system.row_energies@[i]) <= 0,
            flips == 0 ==> system.bits() == old(system).bits() && *registerer == *old(registerer),
        decreases total_energy_of(m, system.bits()) + TOTAL_ENERGY_LIMIT,
    {
        proof {
            lemma_total_bound(m, system.bits());
        }
        let best = argmax_row(system);
        let rows = system.row_energies();
        if rows[best] <= 0 {
            break;
        }
        let ghost pre_total = total_energy_of(m, system.bits());
        let ghost row_best = row_energy_of(m, system.bits(), best as int);
        proof {
            assert(row_best >= 1);
        }
        system.reverse_spin(best);
        proof {
            lemma_total_bound(m, system.bits());
            assert(total_energy_of(m, system.bits()) == pre_total - 4 * row_best);
            assert(4 * (flips as int + 1) <= total0 - total_energy_of(m, system.bits()));
            assert(flips as int + 1 <= u64::MAX as int);
        }
        registerer.register(system);
        flips += 1;
    }
    flips
}

/// The hybrid walk: first a greedy descent; then, in one random order, each
/// site is flipped, the site whose row energy fell lowest is flipped too
/// (unless it is the perturbed site itself, which undoes the perturbation),
/// and a fresh greedy descent follows. Everything reached is registered, so
/// the recorded minimum never worsens — running the walk again cannot raise
/// it. Every path through the walk ends in, or restores, a greedy descent,
/// so on return every row energy is at most zero.
pub fn gibrid(system: &mut System, registerer: &mut StateRegistererInner)
    requires
        old(system).wf(),
        old(registerer).wf_for(old(system).mat()),
    ensures
        final(system).wf(),
        final(system).same_geometry(*old(system)),
        final(system).energy_matrix_default == old(system).energy_matrix_default,
        final(system).elements@ == old(system).elements@,
        final(registerer).wf_for(final(system).mat()),
        reg_evolved(*old(registerer), *final(registerer)),
        old(system).n() > 0 ==> forall|i: int|
            0 <= i < final(system).n() ==> (#[trigger] final(system).row_energies@[i]) <= 0,
{
    let ghost m = old(system).mat();
    let ghost reg0 = *old(registerer);
    greedy(system, registerer);
    let n: usize = system.size();
    if n == 0 {
        return ;
    }
    let indexes = random_permutation(n);
    let mut t: usize = 0;
    while t < n
        invariant
            t <= n,
            system.wf(),
            n == system.n(),
            n > 0,
            system.same_geometry(*old(system)),
            system.energy_matrix_default == old(system).energy_matrix_default,
            system.elements@ == old(system).elements@,
            m == system.mat(),
            indexes@.len() == n,
            forall|k: int| 0 <= k < indexes@.len() ==> (#[trigger] indexes@[k]) < n,
            registerer.wf_for(m),
            reg_evolved(reg0, *registerer),
            forall|k: int| 0 <= k < n ==> (#[trigger] system.row_energies@[k]) <= 0,
        decreases n - t,
    {
        let i = indexes[t];
        let ghost pre = *system;
        system.reverse_spin(i);
        let j = argmin_row(system);
        if j == i {
            system.reverse_spin(i);
            proof {
                assert(system.bits() =~= pre.bits());
                assert forall|k: int| 0 <= k < n implies (#[trigger] system.row_energies@[k])
                    <= 0 by {
                    assert(system.row_energies@[k] as int == row_energy_of(m, system.bits(), k));
                    assert(pre.row_energies@[k] as int == row_energy_of(m, pre.bits(), k));
                }
            }
        } else {
            registerer.register(system);
            system.reverse_spin(j);
            registerer.register(system);
            greedy(system, registerer);
        }
        t += 1;
    }
}

/// `shape` is the position-and-moment list of site `i`'s radius cluster,
/// every position shifted by the one offset `(ox, oy)`, entry `t` taken
/// from the `t`-th nearest site.
pub open spec fn shape_translates_site(
    s: System,
    shape: Seq<Element>,
    i: int,
    ox: int,
    oy: int,
) -> bool {
    forall|t: int|
        0 <= t < shape.len() ==> {
            let src = s.elements@[s.nbr(i, t).0 as int];
            (#[trigger] shape[t]).x == src.x - ox && shape[t].y == src.y - oy && shape[t].mx
                == src.mx && shape[t].my == src.my
        }
}

/// `shape` is the canonical shape of site `i` at squared radius `rsq`: its
/// length is exactly the count of in-range neighbors, and its sites are the
/// cluster's, in distance order, translated by one common offset.
pub open spec fn site_shape_matches(s: System, shape: Seq<Element>, i: int, rsq: int) -> bool {
    &&& prefix_within(s, i, rsq, shape.len() as int)
    &&& exists|ox: int, oy: int| #[trigger] shape_translates_site(s, shape, i, ox, oy)
}

/// The state of a standalone shape system whose cluster is all of its `len`
/// sites in index order, set to the bits of the pattern word `p` from the
/// all-up start.
pub open spec fn shape_pattern(len: nat, p: u64) -> Seq<bool> {
    crate::perebor::with_pattern(
        Seq::new(len, |i: int| false),
        Seq::new(len, |i: int| i as usize),
        p,
    )
}

/// One cached neighborhood shape, the minimum its exhaustive enumeration
/// found, and the near-minimum spin patterns kept from that enumeration.
pub struct ShapeEntry {
    pub shape: Vec<Element>,
    pub states: Vec<State>,
    pub minimal_energy: i64,
}

impl ShapeEntry {
    /// The cached patterns against one pair-energy matrix `m` of the
    /// shape's size: every cached state is one of the shape's `2^k` spin
    /// patterns, carries the exact halved energy of its bits under `m`, and
    /// lies within the forty-percent band around the entry's enumeration
    /// minimum.
    pub open spec fn wf_for(self, m: Matrix) -> bool {
        &&& m.wf()
        &&& m.spec_size() == self.shape@.len()
        &&& forall|t: int|
            0 <= t < self.states@.len() ==> {
                &&& crate::bits::bits_of((#[trigger] self.states@[t]).state).len()
                    == self.shape@.len()
                &&& 2 * self.states@[t].energy == crate::system::total_energy_of(
                    m,
                    crate::bits::bits_of(self.states@[t].state),
                )
                &&& crate::perebor::in_band(
                    self.states@[t].energy as int,
                    self.minimal_energy as int,
                )
                &&& exists|p: u64|
                    p < (1u64 << self.shape@.len()) && crate::bits::bits_of(
                        self.states@[t].state,
                    ) == #[trigger] shape_pattern(self.shape@.len(), p)
            }
    }

    /// An entry either caches nothing, or is truthful for some matrix.
    pub open spec fn wf(self) -> bool {
        self.states@.len() == 0 || exists|m: Matrix| #[trigger] self.wf_for(m)
    }
}

/// The precomputed cluster catalog: for each site, the index of its
/// canonical shape, and for each shape the near-minimum patterns found by
/// exhaustive enumeration. `radius` holds the squared cluster radius.
pub struct GibridState {
    pub states_map: Vec<ShapeEntry>,
    pub identity_map: Vec<usize>,
    pub radius: i64,
}

impl GibridState {
    /// Built for a system of `n` sites: one shape index per site, every
    /// entry truthful for its own shape matrix.
    pub open spec fn wf_n(self, n: nat) -> bool {
        &&& self.identity_map@.len() == n
        &&& forall|i: int|
            0 <= i < self.identity_map@.len() ==> (#[trigger] self.identity_map@[i])
                < self.states_map@.len()
        &&& forall|e: int| 0 <= e < self.states_map@.len() ==> (#[trigger] self.states_map@[e]).wf()
    }
}

/// Every site's position lies in the middle half of the coordinate range,
/// so any translated cluster shape stays within bounds.
pub open spec fn elements_centered(s: System) -> bool {
    forall|i: int|
        0 <= i < s.n() ==> -COORD_LIMIT / 2 <= (#[trigger] s.elements@[i]).x <= COORD_LIMIT / 2
            && -COORD_LIMIT / 2 <= s.elements@[i].y <= COORD_LIMIT / 2
}

/// A plain copy of a site list.
fn copy_elements(src: &Vec<Element>) -> (r: Vec<Element>)
    ensures
        r@ == src@,
{
    let n = src.len();
    let mut r: Vec<Element> = Vec::new();
    let mut t: usize = 0;
    while t < n
        invariant
            t <= n,
            n == src@.len(),
            r@ == src@.subrange(0, t as int),
        decreases n - t,
    {
        r.push(src[t]);
        t += 1;
    }
    proof {
        assert(r@ =~= src@);
    }
    r
}

/// `0, 1, ..., k - 1` as a vector.
fn identity_indices(k: usize) -> (r: Vec<usize>)
    ensures
        r@.len() == k,
        forall|t: int| 0 <= t < k ==> (#[trigger] r@[t]) == t as usize,
{
    let mut r: Vec<usize> = Vec::new();
    let mut t: usize = 0;
    while t < k
        invariant
            t <= k,
            r@.len() == t,
            forall|u: int| 0 <= u < t ==> (#[trigger] r@[u]) == u as usize,
        decreases k - t,
    {
        r.push(t);
        t += 1;
    }
    r
}

/// Builds the cluster catalog: for every site, its radius-bounded cluster is
/// translated into a canonical shape; the first time a shape appears, all
/// its spin patterns are enumerated exhaustively (over the pair energies cut
/// from this very system) and the near-minimum ones are cached.
#[verifier::rlimit(100)]
pub fn get_states(system: &System, radius_sq: i64) -> (r: (Vec<ShapeEntry>, Vec<usize>))
    requires
        system.wf(),
        elements_centered(*system),
        radius_sq >= 0,
    ensures
        r.1@.len() == system.n(),
        forall|i: int| 0 <= i < r.1@.len() ==> (#[trigger] r.1@[i]) < r.0@.len(),
        forall|e: int| 0 <= e < r.0@.len() ==> (#[trigger] r.0@[e]).wf(),
        forall|i: int|
            0 <= i < system.n() ==> #[trigger] site_shape_matches(
                *system,
                r.0@[r.1@[i] as int].shape@,
                i,
                radius_sq as int,
            ),
{
    let n: usize = system.size();
    let mut states_map: Vec<ShapeEntry> = Vec::new();
    let mut identity_map: Vec<usize> = Vec::new();
    let mut i: usize = 0;
    while i < n
        invariant
            i <= n,
            n == system.n(),
            system.wf(),
            elements_centered(*system),
            radius_sq >= 0,
            identity_map@.len() == i,
            forall|t: int|
                0 <= t < identity_map@.len() ==> (#[trigger] identity_map@[t])
                    < states_map@.len(),
            forall|e: int| 0 <= e < states_map@.len() ==> (#[trigger] states_map@[e]).wf(),
            forall|t: int|
                0 <= t < i ==> #[trigger] site_shape_matches(
                    *system,
                    states_map@[identity_map@[t] as int].shape@,
                    t,
                    radius_sq as int,
                ),
        decreases n - i,
    {
        let cluster = system.neighbors2(i, radius_sq);
        if cluster.len() == 0 {
            let entry = ShapeEntry {
                shape: Vec::new(),
                states: Vec::new(),
                minimal_energy: i64::MAX,
            };
            states_map.push(entry);
            identity_map.push(states_map.len() - 1);
        } else {
            proof {
                assert forall|t1: int, t2: int|
                    0 <= t1 < cluster@.len() && 0 <= t2 < cluster@.len() implies (
                #[trigger] system.elements@[cluster@[t1] as int].x) - (
                #[trigger] system.elements@[cluster@[t2] as int].x) <= COORD_LIMIT
                    && system.elements@[cluster@[t1] as int].y
                    - system.elements@[cluster@[t2] as int].y <= COORD_LIMIT by {
                    assert(cluster@[t1] < system.n() && cluster@[t2] < system.n());
                }
            }
            let shape = get_part_from_system(system, &cluster);
            proof {
                assert(site_shape_matches(*system, shape@, i as int, radius_sq as int)) by {
                    assert forall|k: int|
                        0 <= k < shape@.len() implies (#[trigger] system.nbr(i as int, k)).1
                        <= radius_sq by {
                        assert(cluster@[k] == system.nbr(i as int, k).0);
                    }
                    assert(prefix_within(*system, i as int, radius_sq as int, shape@.len() as int));
                    let (ox, oy) = choose|ox: int, oy: int|
                        #[trigger] crate::utils::translated_by(shape@, *system, cluster@, ox, oy);
                    assert(shape_translates_site(*system, shape@, i as int, ox, oy));
                }
            }
            let mut found: Option<usize> = None;
            let mut e: usize = 0;
            while e < states_map.len()
                invariant
                    e <= states_map@.len(),
                    match found {
                        Option::Some(f) => f < states_map@.len() && states_map@[f as int].shape@
                            == shape@,
                        Option::None => true,
                    },
                decreases states_map@.len() - e,
            {
                if elements_equal(&states_map[e].shape, &shape) {
                    found = Some(e);
                }
                e += 1;
            }
            match found {
                Option::Some(f) => {
                    identity_map.push(f);
                    proof {
                        assert(site_shape_matches(
                            *system,
                            states_map@[f as int].shape@,
                            i as int,
                            radius_sq as int,
                        ));
                    }
                },
                Option::None => {
                    if cluster.len() <= 62 {
                        let mat = part_matrix(system, &cluster);
                        let shape_copy = copy_elements(&shape);
                        let shape_system = System::new(shape_copy, mat);
                        let ids = identity_indices(cluster.len());
                        let saver = crate::perebor::perebor_states(&shape_system, &ids);
                        let entry = ShapeEntry {
                            shape,
                            states: saver.states,
                            minimal_energy: saver.minimal_state.energy,
                        };
                        proof {
                            assert(shape_system.bits() =~= Seq::new(
                                entry.shape@.len(),
                                |i: int| false,
                            ));
                            assert(ids@ =~= Seq::new(entry.shape@.len(), |i: int| i as usize));
                            assert(entry.wf()) by {
                                if entry.states@.len() > 0 {
                                    assert forall|t: int|
                                        0 <= t < entry.states@.len() implies (crate::bits::bits_of(
                                        (#[trigger] entry.states@[t]).state,
                                    ).len() == entry.shape@.len() && exists|p: u64|
                                        p < (1u64 << entry.shape@.len()) && crate::bits::bits_of(
                                            entry.states@[t].state,
                                        ) == #[trigger] shape_pattern(entry.shape@.len(), p)) by {
                                        assert(entry.states@[t] == saver.states@[t]);
                                        let p = choose|p: u64|
                                            p < (1u64 << ids@.len())
                                                && crate::bits::bits_of(entry.states@[t].state)
                                                == #[trigger] crate::perebor::with_pattern(
                                                shape_system.bits(),
                                                ids@,
                                                p,
                                            );
                                        crate::perebor::lemma_with_pattern_index(
                                            shape_system.bits(),
                                            ids@,
                                            p,
                                        );
                                        assert(crate::bits::bits_of(entry.states@[t].state)
                                            == shape_pattern(entry.shape@.len(), p));
                                    }
                                    assert(entry.wf_for(shape_system.mat()));
                                }
                            }
                        }
                        states_map.push(entry);
                        identity_map.push(states_map.len() - 1);
                    } else {
                        let entry = ShapeEntry { shape, states: Vec::new(), minimal_energy: i64::MAX };
                        states_map.push(entry);
                        identity_map.push(states_map.len() - 1);
                    }
                },
            }
        }
        i += 1;
    }
    (states_map, identity_map)
}

/// The first `c` entries of site `i`'s sorted neighbor row are within
/// squared radius `rsq`, and nothing after them is.
pub open spec fn prefix_within(s: System, i: int, rsq: int, c: int) -> bool {
    &&& 0 <= c <= s.n()
    &&& c == s.n() || s.nbr(i, c).1 > rsq
    &&& forall|k: int| 0 <= k < c ==> (#[trigger] s.nbr(i, k)).1 <= rsq
}

/// Site `i` has at least `d` neighbors within squared radius `rsq`.
pub open spec fn degree_at_least(s: System, i: int, rsq: int, d: int) -> bool {
    exists|c: int| #[trigger] prefix_within(s, i, rsq, c) && d <= c
}

/// Every pair of sites lies within squared radius `rsq`.
pub open spec fn all_within(s: System, rsq: int) -> bool {
    forall|a: int, b: int|
        0 <= a < s.n() && 0 <= b < s.n() ==> (#[trigger] s.nbr(a, b)).1 <= rsq
}

/// The in-range prefix of a sorted row is unique: two prefix lengths for
/// the same site and radius agree.
proof fn lemma_prefix_unique(s: System, i: int, rsq: int, c1: int, c2: int)
    requires
        s.wf(),
        0 <= i < s.n(),
        prefix_within(s, i, rsq, c1),
        prefix_within(s, i, rsq, c2),
    ensures
        c1 == c2,
{
    if c1 < c2 {
        assert(s.nbr(i, c1).1 <= rsq);
        assert(s.nbr(i, c1).1 > rsq);
    }
    if c2 < c1 {
        assert(s.nbr(i, c2).1 <= rsq);
        assert(s.nbr(i, c2).1 > rsq);
    }
}

/// Some site has fewer than `k` neighbors within the squared radius.
pub open spec fn degree_short(s: System, rsq: int, k: int) -> bool {
    exists|i: int| 0 <= i < s.n() && !degree_at_least(s, i, rsq, k)
}

/// `r` is the square of the radius reached after `steps` scan steps of
/// width `step`, and at every earlier grid radius some site fell short of
/// `k` neighbors: the scan stopped at the first workable grid point.
pub open spec fn first_grid_radius(s: System, step: int, k: int, steps: int, r: int) -> bool {
    &&& 0 <= steps
    &&& r == (steps * step) * (steps * step)
    &&& forall|t: int| 0 <= t < steps ==> #[trigger] degree_short(s, (t * step) * (t * step), k)
}

/// A degree bound survives lowering the bound.
proof fn lemma_degree_mono(s: System, i: int, rsq: int, d1: int, d2: int)
    requires
        degree_at_least(s, i, rsq, d1),
        d2 <= d1,
    ensures
        degree_at_least(s, i, rsq, d2),
{
    let c = choose|c: int| #[trigger] prefix_within(s, i, rsq, c) && d1 <= c;
    assert(prefix_within(s, i, rsq, c) && d2 <= c);
}

/// The smallest neighbor count any site has within the squared radius.
pub fn min_degree(system: &System, radius_sq: i64) -> (r: usize)
    requires
        system.wf(),
        system.n() > 0,
    ensures
        forall|i: int|
            0 <= i < system.n() ==> #[trigger] degree_at_least(
                *system,
                i,
                radius_sq as int,
                r as int,
            ),
        exists|i: int| 0 <= i < system.n() && prefix_within(*system, i, radius_sq as int, r as int),
{
    let n: usize = system.size();
    let mut min_count: usize = n;
    let mut i: usize = 0;
    while i < n
        invariant
            i <= n,
            n == system.n(),
            system.wf(),
            min_count <= n,
            i == 0 ==> min_count == n,
            forall|t: int|
                0 <= t < i ==> #[trigger] degree_at_least(
                    *system,
                    t,
                    radius_sq as int,
                    min_count as int,
                ),
            i > 0 ==> exists|t: int|
                0 <= t < n && prefix_within(*system, t, radius_sq as int, min_count as int),
        decreases n - i,
    {
        let nb = system.neighbors2(i, radius_sq);
        let count = nb.len();
        let ghost old_min = min_count as int;
        if count < min_count {
            min_count = count;
        }
        proof {
            let c = nb@.len() as int;
            assert(degree_at_least(*system, i as int, radius_sq as int, min_count as int)) by {
                assert forall|k: int| 0 <= k < c implies (#[trigger] system.nbr(i as int, k)).1
                    <= radius_sq by {
                    assert(nb@[k] == system.nbr(i as int, k).0);
                }
                assert(prefix_within(*system, i as int, radius_sq as int, c) && min_count as int
                    <= c);
            }
            assert forall|t: int| 0 <= t < i + 1 implies #[trigger] degree_at_least(
                *system,
                t,
                radius_sq as int,
                min_count as int,
            ) by {
                if t < i {
                    lemma_degree_mono(*system, t, radius_sq as int, old_min, min_count as int);
                }
            }
            assert(exists|t: int|
                0 <= t < n && prefix_within(*system, t, radius_sq as int, min_count as int)) by {
                if min_count as int == c {
                    assert(prefix_within(*system, i as int, radius_sq as int, min_count as int));
                } else {
                    assert(i > 0 && min_count == old_min);
                    let w = choose|t: int|
                        0 <= t < n && prefix_within(*system, t, radius_sq as int, old_min);
                    assert(prefix_within(*system, w, radius_sq as int, min_count as int));
                }
            }
        }
        i += 1;
    }
    min_count
}

/// Scans the radius outward from zero in fixed steps until every site has
/// at least `rnd_count` neighbors in range, or the whole system is within
/// range. Returns the squared radius it settled on; a system of at most one
/// site needs no scan and gets radius zero.
pub fn adapt_radius(system: &System, rnd_count: usize, radius_step: i64) -> (r: i64)
    requires
        system.wf(),
        0 < radius_step <= 0x10_0000,
    ensures
        0 <= r,
        (forall|i: int|
            0 <= i < system.n() ==> #[trigger] degree_at_least(
                *system,
                i,
                r as int,
                rnd_count as int,
            )) || all_within(*system, r as int),
        system.n() <= 1 ==> r == 0,
        exists|steps: int|
            #[trigger] first_grid_radius(
                *system,
                radius_step as int,
                rnd_count as int,
                steps,
                r as int,
            ),
{
    let n: usize = system.size();
    if n <= 1 {
        proof {
            if n == 1 {
                assert forall|a: int, b: int|
                    0 <= a < system.n() && 0 <= b < system.n() implies (#[trigger] system.nbr(
                    a,
                    b,
                )).1 <= 0 by {
                    let e1 = system.elements@[a];
                    let e2 = system.elements@[system.nbr(a, b).0 as int];
                    assert(e1 == e2);
                    assert(e1.spec_distance_sq(e2) == 0) by (nonlinear_arith)
                        requires
                            e1 == e2,
                            e1.spec_distance_sq(e2) == (e1.x - e2.x) * (e1.x - e2.x) + (e1.y
                                - e2.y) * (e1.y - e2.y),
                    ;
                }
            }
            assert(all_within(*system, 0));
            assert((0int * radius_step) * (0int * radius_step) == 0) by (nonlinear_arith);
            assert(first_grid_radius(*system, radius_step as int, rnd_count as int, 0, 0));
        }
        return 0;
    }
    let max_sq = system.max_radius();
    let mut radius: i64 = 0;
    let mut result: i64 = 0;
    let mut done = false;
    let ghost steps_taken: int = 0;
    let ghost result_steps: int = 0;
    while !done
        invariant
            system.wf(),
            n == system.n(),
            n > 0,
            0 <= radius <= 0x8000_0000i64,
            0 < radius_step <= 0x10_0000,
            radius == steps_taken * radius_step,
            0 <= steps_taken,
            forall|t: int|
                0 <= t < steps_taken ==> #[trigger] degree_short(
                    *system,
                    (t * radius_step) * (t * radius_step),
                    rnd_count as int,
                ),
            forall|a: int, b: int|
                0 <= a < system.n() && 0 <= b < system.n() ==> (#[trigger] system.nbr(a, b)).1
                    <= max_sq,
            done ==> 0 <= result && result == (result_steps * radius_step) * (result_steps
                * radius_step) && 0 <= result_steps <= steps_taken && ((forall|i: int|
                0 <= i < system.n() ==> #[trigger] degree_at_least(
                    *system,
                    i,
                    result as int,
                    rnd_count as int,
                )) || all_within(*system, result as int)),
        decreases (if done {
            0int
        } else {
            1int
        }), 0x8000_0000i64 - radius,
    {
        proof {
            assert(radius * radius <= 0x8000_0000i64 * 0x8000_0000i64 && 0 <= radius * radius)
                by (nonlinear_arith)
                requires
                    0 <= radius <= 0x8000_0000i64,
            ;
        }
        let rsq: i64 = radius * radius;
        let count = min_degree(system, rsq);
        if count >= rnd_count {
            result = rsq;
            done = true;
            proof {
                result_steps = steps_taken;
                assert(rsq == (steps_taken * radius_step) * (steps_taken * radius_step));
                assert forall|i: int| 0 <= i < system.n() implies #[trigger] degree_at_least(
                    *system,
                    i,
                    result as int,
                    rnd_count as int,
                ) by {
                    lemma_degree_mono(*system, i, rsq as int, count as int, rnd_count as int);
                }
            }
        } else if rsq >= max_sq {
            result = rsq;
            done = true;
            proof {
                result_steps = steps_taken;
                assert(rsq == (steps_taken * radius_step) * (steps_taken * radius_step));
                assert(all_within(*system, result as int));
            }
        } else if radius >= 0x8000_0000i64 - radius_step {
            proof {
                assert(radius * radius >= 0x2000_0000_0000_0000i64) by (nonlinear_arith)
                    requires
                        radius >= 0x8000_0000i64 - 0x10_0000,
                ;
                assert forall|a: int, b: int|
                    0 <= a < system.n() && 0 <= b < system.n() implies (#[trigger] system.nbr(
                    a,
                    b,
                )).1 <= rsq by {
                    let e1 = system.elements@[a];
                    let e2 = system.elements@[system.nbr(a, b).0 as int];
                    assert(e1.spec_distance_sq(e2) <= 0x2000_0000_0000_0000i64)
                        by (nonlinear_arith)
                        requires
                            e1.wf(),
                            e2.wf(),
                            crate::element::COORD_LIMIT == 0x2000_0000,
                            e1.spec_distance_sq(e2) == (e1.x - e2.x) * (e1.x - e2.x) + (e1.y
                                - e2.y) * (e1.y - e2.y),
                    ;
                }
            }
            result = rsq;
            done = true;
            proof {
                result_steps = steps_taken;
                assert(rsq == (steps_taken * radius_step) * (steps_taken * radius_step));
            }
        } else {
            proof {
                // The scan moves on only because some site falls short at
                // this grid radius.
                let w = choose|i: int|
                    0 <= i < system.n() && prefix_within(
                        *system,
                        i,
                        rsq as int,
                        count as int,
                    );
                assert(!degree_at_least(*system, w, rsq as int, rnd_count as int)) by {
                    if degree_at_least(*system, w, rsq as int, rnd_count as int) {
                        let c = choose|c: int|
                            #[trigger] prefix_within(*system, w, rsq as int, c) && rnd_count as int
                                <= c;
                        lemma_prefix_unique(*system, w, rsq as int, c, count as int);
                    }
                }
                assert(degree_short(*system, (steps_taken * radius_step) * (steps_taken
                    * radius_step), rnd_count as int)) by {
                    assert(rsq == (steps_taken * radius_step) * (steps_taken * radius_step));
                }
                steps_taken = steps_taken + 1;
                assert((steps_taken) * radius_step == radius + radius_step) by (nonlinear_arith)
                    requires
                        (steps_taken - 1) * radius_step == radius,
                ;
            }
            radius = radius + radius_step;
        }
    }
    proof {
        assert(first_grid_radius(
            *system,
            radius_step as int,
            rnd_count as int,
            result_steps,
            result as int,
        ));
    }
    result
}

/// Chooses a cluster radius with `adapt_radius`, then builds the catalog at
/// that radius.
pub fn prepare_state(system: &System, rnd_count: usize, radius_step: i64) -> (r: GibridState)
    requires
        system.wf(),
        elements_centered(*system),
        0 < radius_step <= 0x10_0000,
    ensures
        r.wf_n(system.n()),
        r.radius >= 0,
        (forall|i: int|
            0 <= i < system.n() ==> #[trigger] degree_at_least(
                *system,
                i,
                r.radius as int,
                rnd_count as int,
            )) || all_within(*system, r.radius as int),
        forall|i: int|
            0 <= i < system.n() ==> #[trigger] site_shape_matches(
                *system,
                r.states_map@[r.identity_map@[i] as int].shape@,
                i,
                r.radius as int,
            ),
        exists|steps: int|
            #[trigger] first_grid_radius(
                *system,
                radius_step as int,
                rnd_count as int,
                steps,
                r.radius as int,
            ),
{
    let radius_sq = adapt_radius(system, rnd_count, radius_step);
    let (states_map, identity_map) = get_states(system, radius_sq);
    GibridState { states_map, identity_map, radius: radius_sq }
}

/// The cluster-substitution walk: for each of `n` rounds, a random site's
/// cluster is replaced by one of its shape's cached near-minimum patterns
/// (when the catalog has any of matching size), the result is registered,
/// and the hybrid walk polishes it.
pub fn gibrid2(system: &mut System, registerer: &mut StateRegistererInner, state: &GibridState)
    requires
        old(system).wf(),
        old(system).n() > 0,
        old(registerer).wf_for(old(system).mat()),
        state.wf_n(old(system).n()),
        state.radius >= 0,
    ensures
        final(system).wf(),
        final(system).same_geometry(*old(system)),
        final(system).energy_matrix_default == old(system).energy_matrix_default,
        final(system).elements@ == old(system).elements@,
        final(registerer).wf_for(final(system).mat()),
        reg_evolved(*old(registerer), *final(registerer)),
        final(system).bits() == old(system).bits() || forall|i: int|
            0 <= i < final(system).n() ==> (#[trigger] final(system).row_energies@[i]) <= 0,
{
    let ghost m = old(system).mat();
    let ghost reg0 = *old(registerer);
    let n: usize = system.size();
    let mut step: usize = 0;
    while step < n
        invariant
            step <= n,
            system.wf(),
            n == system.n(),
            n > 0,
            system.same_geometry(*old(system)),
            system.energy_matrix_default == old(system).energy_matrix_default,
            system.elements@ == old(system).elements@,
            m == system.mat(),
            registerer.wf_for(m),
            reg_evolved(reg0, *registerer),
            state.wf_n(n as nat),
            state.radius >= 0,
            system.bits() == old(system).bits() || forall|i: int|
                0 <= i < n ==> (#[trigger] system.row_energies@[i]) <= 0,
        decreases n - step,
    {
        let random = random_below(n);
        let cluster = system.neighbors2(random, state.radius);
        let entry = &state.states_map[state.identity_map[random]];
        if entry.states.len() > 0 {
            let chosen = random_below(entry.states.len());
            let pattern = &entry.states[chosen];
            if bits_len(&pattern.state) == cluster.len() {
                let k = cluster.len();
                let mut pairs: Vec<(usize, bool)> = Vec::new();
                let mut t: usize = 0;
                while t < k
                    invariant
                        t <= k,
                        k == cluster@.len(),
                        k == crate::bits::bits_of(pattern.state).len(),
                        pairs@.len() == t,
                        system.wf(),
                        n == system.n(),
                        forall|u: int|
                            0 <= u < cluster@.len() ==> (#[trigger] cluster@[u])
                                < system.n(),
                        forall|u: int|
                            0 <= u < t ==> (#[trigger] pairs@[u]).0 < system.n(),
                    decreases k - t,
                {
                    pairs.push((cluster[t], bits_get(&pattern.state, t)));
                    t += 1;
                }
                system.set_spins(&pairs);
                registerer.register(system);
                gibrid(system, registerer);
            }
        }
        step += 1;
    }
}

/// One polishing attempt at a matrix cell `(x, y)`.
///
/// When the realized entry is positive and no larger-magnitude entry shares
/// row `y`, the cheaper of flipping `x` alone or `y` alone is applied if it
/// improves the energy; otherwise both are flipped together and kept only on
/// strict improvement. The energy never goes up.
fn minimize_cell(
    system: &mut System,
    registerer: &mut StateRegistererInner,
    x: usize,
    y: usize,
    key: i64,
)
    requires
        old(system).wf(),
        x < old(system).n(),
        y < old(system).n(),
        old(registerer).wf_for(old(system).mat()),
    ensures
        final(system).wf(),
        final(system).same_geometry(*old(system)),
        final(system).energy_matrix_default == old(system).energy_matrix_default,
        final(system).elements@ == old(system).elements@,
        final(registerer).wf_for(final(system).mat()),
        reg_evolved(*old(registerer), *final(registerer)),
        total_energy_of(final(system).mat(), final(system).bits()) <= total_energy_of(
            old(system).mat(),
            old(system).bits(),
        ),
{
    let ghost m = old(system).mat();
    let ghost base = old(system).bits();
    let n: usize = system.size();
    proof {
        lemma_total_bound(m, base);
    }
    let e_old = system.energy();
    let pv = system.default_energy_matrix().get(y, x);
    let sy: i8 = system.system_signs[y];
    let sx: i8 = system.system_signs[x];
    let realized_positive = (pv > 0 && sy == sx) || (pv < 0 && sy != sx);
    let mut constrained = false;
    let mut k: usize = 0;
    while k < n
        invariant
            k <= n,
            n == system.n(),
            system.wf(),
            y < n,
        decreases n - k,
    {
        let c = system.default_energy_matrix().get(y, k);
        let a = if c >= 0 {
            c
        } else {
            -c
        };
        if a > key {
            constrained = true;
        }
        k += 1;
    }
    if realized_positive && !constrained {
        system.reverse_spin(x);
        proof {
            lemma_total_bound(m, system.bits());
        }
        let e1 = system.energy();
        system.reverse_spin(x);
        proof {
            assert(system.bits() =~= base);
        }
        system.reverse_spin(y);
        proof {
            lemma_total_bound(m, system.bits());
        }
        let e2 = system.energy();
        system.reverse_spin(y);
        proof {
            assert(system.bits() =~= base);
        }
        if e_old > e1 || e_old > e2 {
            if e1 < e2 {
                system.reverse_spin(x);
            } else {
                system.reverse_spin(y);
            }
            registerer.register(system);
        }
    } else {
        system.reverse_spin(x);
        system.reverse_spin(y);
        proof {
            lemma_total_bound(m, system.bits());
        }
        let e2 = system.energy();
        if e2 < e_old {
            registerer.register(system);
        } else {
            system.reverse_spin(y);
            system.reverse_spin(x);
            proof {
                assert(system.bits() =~= base);
            }
        }
    }
}

/// True iff `v` holds `key`.
fn holds_key(v: &Vec<i64>, key: i64) -> (r: bool)
    ensures
        r == v@.contains(key),
{
    let n = v.len();
    let mut t: usize = 0;
    while t < n
        invariant
            t <= n,
            n == v@.len(),
            forall|u: int| 0 <= u < t ==> (#[trigger] v@[u]) != key,
        decreases n - t,
    {
        if v[t] == key {
            proof {
                assert(v@.contains(key));
            }
            return true;
        }
        t += 1;
    }
    proof {
        assert(forall|u: int| 0 <= u < v@.len() ==> (#[trigger] v@[u]) != key);
        assert(!v@.contains(key));
    }
    false
}

/// A pair-local polishing pass over the realized energy matrix: the nonzero
/// entries are bucketed by magnitude, the five largest buckets are walked in
/// a random cell order, and each cell gets one `minimize_cell` attempt.
/// Best effort: the energy never goes up, and everything accepted is
/// registered.
pub fn minimize_cells(system: &mut System, registerer: &mut StateRegistererInner)
    requires
        old(system).wf(),
        old(registerer).wf_for(old(system).mat()),
    ensures
        final(system).wf(),
        final(system).same_geometry(*old(system)),
        final(system).energy_matrix_default == old(system).energy_matrix_default,
        final(system).elements@ == old(system).elements@,
        final(registerer).wf_for(final(system).mat()),
        reg_evolved(*old(registerer), *final(registerer)),
        total_energy_of(final(system).mat(), final(system).bits()) <= total_energy_of(
            old(system).mat(),
            old(system).bits(),
        ),
{
    let ghost m = old(system).mat();
    let ghost reg0 = *old(registerer);
    let n: usize = system.size();
    let mut keys: Vec<i64> = Vec::new();
    let mut y: usize = 0;
    while y < n
        invariant
            y <= n,
            n == system.n(),
            system.wf(),
        decreases n - y,
    {
        let mut x: usize = 0;
        while x < n
            invariant
                x <= n,
                y < n,
                n == system.n(),
                system.wf(),
            decreases n - x,
        {
            let c = system.default_energy_matrix().get(y, x);
            let a = if c >= 0 {
                c
            } else {
                -c
            };
            if a != 0 && !holds_key(&keys, a) {
                keys.push(a);
            }
            x += 1;
        }
        y += 1;
    }
    let mut prev: i64 = i64::MAX;
    let mut round: usize = 0;
    while round < 5
        invariant
            round <= 5,
            system.wf(),
            n == system.n(),
            system.same_geometry(*old(system)),
            system.energy_matrix_default == old(system).energy_matrix_default,
            system.elements@ == old(system).elements@,
            m == system.mat(),
            registerer.wf_for(m),
            reg_evolved(reg0, *registerer),
            total_energy_of(m, system.bits()) <= total_energy_of(m, old(system).bits()),
        decreases 5 - round,
    {
        let mut best: i64 = 0;
        let mut found = false;
        let mut t: usize = 0;
        while t < keys.len()
            invariant
                t <= keys@.len(),
            decreases keys@.len() - t,
        {
            let kv = keys[t];
            if kv < prev && (!found || kv > best) {
                best = kv;
                found = true;
            }
            t += 1;
        }
        if !found {
            round = 5;
        } else {
            prev = best;
            let mut cells: Vec<(usize, usize)> = Vec::new();
            let mut cy: usize = 0;
            while cy < n
                invariant
                    cy <= n,
                    n == system.n(),
                    system.wf(),
                    forall|u: int|
                        0 <= u < cells@.len() ==> (#[trigger] cells@[u]).0 < n && cells@[u].1 < n,
                decreases n - cy,
            {
                let mut cx: usize = 0;
                while cx < n
                    invariant
                        cx <= n,
                        cy < n,
                        n == system.n(),
                        system.wf(),
                        forall|u: int|
                            0 <= u < cells@.len() ==> (#[trigger] cells@[u]).0 < n && cells@[u].1
                                < n,
                    decreases n - cx,
                {
                    let c = system.default_energy_matrix().get(cy, cx);
                    let a = if c >= 0 {
                        c
                    } else {
                        -c
                    };
                    if a == best {
                        cells.push((cx, cy));
                    }
                    cx += 1;
                }
                cy += 1;
            }
            let order = random_permutation(cells.len());
            let mut t: usize = 0;
            while t < order.len()
                invariant
                    t <= order@.len(),
                    order@.len() == cells@.len(),
                    forall|u: int| 0 <= u < order@.len() ==> (#[trigger] order@[u]) < cells@.len(),
                    forall|u: int|
                        0 <= u < cells@.len() ==> (#[trigger] cells@[u]).0 < n && cells@[u].1 < n,
                    system.wf(),
                    n == system.n(),
                    system.same_geometry(*old(system)),
                    system.energy_matrix_default == old(system).energy_matrix_default,
                    system.elements@ == old(system).elements@,
                    m == system.mat(),
                    registerer.wf_for(m),
                    reg_evolved(reg0, *registerer),
                    total_energy_of(m, system.bits()) <= total_energy_of(m, old(system).bits()),
                decreases order@.len() - t,
            {
                let (cx, cy) = cells[order[t]];
                minimize_cell(system, registerer, cx, cy, best);
                t += 1;
            }
            round += 1;
        }
    }
}

/// Greedy descent as a driver step.
pub struct GreedyStep;

impl SearchStep for GreedyStep {
    fn step(&self, system: &mut System, registerer: &mut StateRegistererInner) {
        greedy(system, registerer);
    }
}

/// The hybrid walk as a driver step.
pub struct GibridStep;

impl SearchStep for GibridStep {
    fn step(&self, system: &mut System, registerer: &mut StateRegistererInner) {
        gibrid(system, registerer);
    }
}

} // verus!
