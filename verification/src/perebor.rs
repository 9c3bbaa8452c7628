//! Exhaustive enumeration of a cluster's spin patterns.
//!
//! All `2^k` assignments to a cluster of `k` sites are visited in Gray-code
//! order, so each step is a single `reverse_spin`. The returned minimum is
//! proved to be the minimum over every pattern — for a cluster of all sites,
//! the true global minimum.
use vstd::prelude::*;

use crate::bits::{bits_clone, bits_of, bits_repeat, SpinState};
use crate::matrix::Matrix;
use crate::runner::{State, StateRegistererInner};
use crate::system::{
    apply_spin_list, lemma_energy_congruence, total_energy_of, System,
};
use crate::utils::{
    gray_code, gray_inv_of, gray_of, lemma_gray_in_range, lemma_gray_inverse, lemma_gray_step,
    trailing_zeros_u64,
};

verus! {

/// Bit `t` of the pattern word `p`.
pub open spec fn pattern_bit(p: u64, t: int) -> bool {
    (p >> (t as u64)) & 1u64 == 1u64
}

/// The cluster's sites paired with the pattern's bits, in cluster order.
pub open spec fn pattern_pairs(cluster: Seq<usize>, p: u64) -> Seq<(usize, bool)> {
    Seq::new(cluster.len(), |t: int| (cluster[t], pattern_bit(p, t)))
}

/// The base state with the cluster's spins replaced by the pattern's bits.
pub open spec fn with_pattern(base: Seq<bool>, cluster: Seq<usize>, p: u64) -> Seq<bool> {
    apply_spin_list(base, pattern_pairs(cluster, p))
}

/// A cluster is a list of distinct site indices below `n`.
pub open spec fn cluster_wf(cluster: Seq<usize>, n: nat) -> bool {
    &&& forall|t: int| 0 <= t < cluster.len() ==> (#[trigger] cluster[t]) < n
    &&& forall|t1: int, t2: int|
        0 <= t1 < t2 < cluster.len() ==> (#[trigger] cluster[t1]) != (#[trigger] cluster[t2])
}

/// Point by point: applying a list of spin writes leaves every site outside
/// the list alone, and gives each listed site its last written value.
proof fn lemma_apply_pairs_index(base: Seq<bool>, ps: Seq<(usize, bool)>)
    requires
        forall|t: int| 0 <= t < ps.len() ==> (#[trigger] ps[t]).0 < base.len(),
    ensures
        apply_spin_list(base, ps).len() == base.len(),
        forall|i: int|
            0 <= i < base.len() && (forall|t: int| 0 <= t < ps.len() ==> (#[trigger] ps[t]).0 != i)
                ==> #[trigger] apply_spin_list(base, ps)[i] == base[i],
        forall|t: int|
            0 <= t < ps.len() && (forall|u: int|
                t < u < ps.len() ==> (#[trigger] ps[u]).0 != ps[t].0)
                ==> #[trigger] apply_spin_list(base, ps)[ps[t].0 as int] == ps[t].1,
    decreases ps.len(),
{
    if ps.len() > 0 {
        lemma_apply_pairs_index(base, ps.drop_last());
        let prev = apply_spin_list(base, ps.drop_last());
        let last = ps.last();
        assert forall|t: int|
            0 <= t < ps.len() && (forall|u: int|
                t < u < ps.len() ==> (#[trigger] ps[u]).0 != ps[t].0) implies #[trigger] apply_spin_list(
            base,
            ps,
        )[ps[t].0 as int] == ps[t].1 by {
            if t == ps.len() - 1 {
            } else {
                assert(ps[ps.len() - 1].0 != ps[t].0);
                assert(forall|u: int|
                    t < u < ps.drop_last().len() ==> (#[trigger] ps.drop_last()[u]).0
                        != ps.drop_last()[t].0);
            }
        }
    }
}

/// Point by point: the cluster substitution writes pattern bit `t` at site
/// `cluster[t]` and leaves every other site with its base spin.
pub proof fn lemma_with_pattern_index(base: Seq<bool>, cluster: Seq<usize>, p: u64)
    requires
        cluster_wf(cluster, base.len()),
    ensures
        with_pattern(base, cluster, p).len() == base.len(),
        forall|t: int|
            0 <= t < cluster.len() ==> #[trigger] with_pattern(base, cluster, p)[cluster[t] as int]
                == pattern_bit(p, t),
        forall|i: int|
            0 <= i < base.len() && (forall|t: int|
                0 <= t < cluster.len() ==> (#[trigger] cluster[t]) != i) ==> #[trigger] with_pattern(
                base,
                cluster,
                p,
            )[i] == base[i],
{
    let ps = pattern_pairs(cluster, p);
    lemma_apply_pairs_index(base, ps);
    assert forall|t: int|
        0 <= t < cluster.len() implies #[trigger] with_pattern(base, cluster, p)[cluster[t] as int]
        == pattern_bit(p, t) by {
        assert(forall|u: int| t < u < ps.len() ==> (#[trigger] ps[u]).0 != ps[t].0);
        assert(apply_spin_list(base, ps)[ps[t].0 as int] == ps[t].1);
    }
}

/// Toggling bit `t` of the pattern flips exactly the spin of `cluster[t]`.
pub proof fn lemma_with_pattern_flip(base: Seq<bool>, cluster: Seq<usize>, p: u64, t: int)
    requires
        cluster_wf(cluster, base.len()),
        0 <= t < cluster.len(),
        cluster.len() <= 63,
    ensures
        with_pattern(base, cluster, (p ^ (1u64 << (t as u64)))) == with_pattern(
            base,
            cluster,
            p,
        ).update(cluster[t] as int, !with_pattern(base, cluster, p)[cluster[t] as int]),
{
    let q = p ^ (1u64 << (t as u64));
    lemma_with_pattern_index(base, cluster, p);
    lemma_with_pattern_index(base, cluster, q);
    let a = with_pattern(base, cluster, q);
    let b = with_pattern(base, cluster, p).update(
        cluster[t] as int,
        !with_pattern(base, cluster, p)[cluster[t] as int],
    );
    assert forall|u: int| 0 <= u < cluster.len() implies #[trigger] pattern_bit(q, u) == (if u == t {
        !pattern_bit(p, u)
    } else {
        pattern_bit(p, u)
    }) by {
        let uu = u as u64;
        let tt = t as u64;
        assert((((p ^ (1u64 << tt)) >> uu) & 1u64 == 1u64) == (if uu == tt {
            !((p >> uu) & 1u64 == 1u64)
        } else {
            ((p >> uu) & 1u64 == 1u64)
        })) by (bit_vector)
            requires
                uu < 63u64,
                tt < 63u64,
        ;
    }
    assert forall|i: int| 0 <= i < base.len() implies a[i] == b[i] by {
        if exists|u: int| 0 <= u < cluster.len() && (#[trigger] cluster[u]) == i {
            let u = choose|u: int| 0 <= u < cluster.len() && (#[trigger] cluster[u]) == i;
            assert(a[cluster[u] as int] == pattern_bit(q, u));
            assert(with_pattern(base, cluster, p)[cluster[u] as int] == pattern_bit(p, u));
            if u == t {
            } else {
                assert(cluster[u] != cluster[t]);
            }
        } else {
            assert(forall|u: int| 0 <= u < cluster.len() ==> (#[trigger] cluster[u]) != i);
        }
    }
    assert(a =~= b);
}

/// The pattern's spin pairs, as a vector ready for `set_spins`.
fn pattern_vec(cluster: &Vec<usize>, p: u64) -> (r: Vec<(usize, bool)>)
    requires
        cluster@.len() <= 63,
    ensures
        r@ == pattern_pairs(cluster@, p),
{
    let k = cluster.len();
    let mut r: Vec<(usize, bool)> = Vec::new();
    let mut t: usize = 0;
    while t < k
        invariant
            t <= k,
            k == cluster@.len(),
            k <= 63,
            r@.len() == t,
            forall|u: int| 0 <= u < t ==> #[trigger] r@[u] == (cluster@[u], pattern_bit(p, u)),
        decreases k - t,
    {
        let bit = (p >> (t as u64)) & 1u64 == 1u64;
        r.push((cluster[t], bit));
        t += 1;
    }
    proof {
        assert(r@ =~= pattern_pairs(cluster@, p));
    }
    r
}

/// One worker's share of an exhaustive enumeration: visits the patterns
/// `gray_of(q)` for every `q` in `[start, end)` — one `reverse_spin` per
/// step after the first — holding all spins outside the cluster fixed, and
/// returns the lowest-energy configuration met. Splitting `[0, 2^k)` into
/// ranges and merging the results by minimum covers the whole pattern
/// space, one range per worker.
pub fn perebor_range(system: &System, cluster: &Vec<usize>, start: u64, end: u64) -> (r: State)
    requires
        system.wf(),
        cluster_wf(cluster@, system.n()),
        cluster@.len() <= 62,
        start < end,
        end <= (1u64 << cluster@.len()),
    ensures
        bits_of(r.state).len() == system.n(),
        2 * r.energy == total_energy_of(system.mat(), bits_of(r.state)),
        exists|q: u64|
            start <= q < end && bits_of(r.state) == #[trigger] with_pattern(
                system.bits(),
                cluster@,
                gray_of(q),
            ),
        forall|q: u64|
            start <= q < end ==> 2 * r.energy <= total_energy_of(
                system.mat(),
                #[trigger] with_pattern(system.bits(), cluster@, gray_of(q)),
            ),
{
    let ghost base = system.bits();
    let ghost mref = system.mat();
    let k: usize = cluster.len();
    let kk: u64 = k as u64;
    let mut sys = system.duplicate();
    let ghost m = sys.mat();
    let g0 = gray_code(start);
    let pairs = pattern_vec(cluster, g0);
    sys.set_spins(&pairs);
    proof {
        assert(sys.bits() == with_pattern(base, cluster@, gray_of(start)));
    }
    let mut reg = StateRegistererInner::new();
    reg.register(&sys);
    let mut i: u64 = start + 1;
    while i < end
        invariant
            start + 1 <= i <= end,
            end <= (1u64 << kk),
            kk == cluster@.len(),
            kk <= 62,
            k == cluster@.len(),
            sys.wf(),
            sys.n() == base.len(),
            base.len() == sys.bits().len(),
            cluster_wf(cluster@, sys.n()),
            m == sys.mat(),
            sys.bits() == with_pattern(base, cluster@, gray_of((i - 1) as u64)),
            reg.wf_for(m),
            reg.has_min(),
            exists|q: u64|
                start <= q < i && bits_of(reg.current_minimal->Some_0.state)
                    == #[trigger] with_pattern(base, cluster@, gray_of(q)),
            forall|q: u64|
                start <= q < i ==> 2 * reg.threshold() <= total_energy_of(
                    m,
                    #[trigger] with_pattern(base, cluster@, gray_of(q)),
                ),
        decreases end - i,
    {
        let tz: u32 = trailing_zeros_u64(i);
        proof {
            lemma_gray_step(i, kk);
            lemma_with_pattern_flip(base, cluster@, gray_of((i - 1) as u64), tz as int);
        }
        let site = cluster[tz as usize];
        sys.reverse_spin(site);
        proof {
            assert((gray_of((i - 1) as u64) ^ (1u64 << (tz as u64))) == gray_of(i));
            assert(sys.bits() == with_pattern(base, cluster@, gray_of(i)));
        }
        reg.register(&sys);
        i += 1;
    }
    let best = reg.minimal_state();
    let r = match best {
        Option::Some(s) => s,
        Option::None => {
            proof {
                assert(false);
            }
            State { energy: 0, state: bits_repeat(false, 0) }
        },
    };
    proof {
        lemma_energy_congruence(m, mref, bits_of(r.state));
        assert forall|q: u64| start <= q < end implies 2 * r.energy <= total_energy_of(
            mref,
            #[trigger] with_pattern(base, cluster@, gray_of(q)),
        ) by {
            assert(2 * reg.threshold() <= total_energy_of(
                m,
                with_pattern(base, cluster@, gray_of(q)),
            ));
            lemma_energy_congruence(m, mref, with_pattern(base, cluster@, gray_of(q)));
        }
    }
    r
}

/// Exhaustive enumeration over one cluster: every one of the `2^k`
/// assignments to the cluster's spins is visited by a Gray-code walk (one
/// flip per step, each visited once), all other spins held fixed, and the
/// lowest-energy configuration met is returned. Its stored energy is exact,
/// its state is one of the visited patterns, and no pattern beats it: for a
/// cluster of all sites this is the true global minimum.
pub fn perebor_cluster(system: &System, cluster: &Vec<usize>) -> (r: State)
    requires
        system.wf(),
        cluster_wf(cluster@, system.n()),
        cluster@.len() <= 62,
    ensures
        bits_of(r.state).len() == system.n(),
        2 * r.energy == total_energy_of(system.mat(), bits_of(r.state)),
        exists|p: u64|
            p < (1u64 << cluster@.len()) && bits_of(r.state) == #[trigger] with_pattern(
                system.bits(),
                cluster@,
                p,
            ),
        forall|p: u64|
            p < (1u64 << cluster@.len()) ==> 2 * r.energy <= total_energy_of(
                system.mat(),
                #[trigger] with_pattern(system.bits(), cluster@, p),
            ),
{
    let ghost base = system.bits();
    let kk: u64 = cluster.len() as u64;
    let total: u64 = 1u64 << kk;
    proof {
        assert(1u64 <= (1u64 << kk)) by (bit_vector)
            requires
                kk <= 62u64,
        ;
    }
    let r = perebor_range(system, cluster, 0, total);
    proof {
        assert forall|p: u64| p < (1u64 << cluster@.len()) implies 2 * r.energy
            <= total_energy_of(system.mat(), #[trigger] with_pattern(base, cluster@, p)) by {
            lemma_gray_inverse(p, kk);
            let q = gray_inv_of(p);
            assert(2 * r.energy <= total_energy_of(
                system.mat(),
                with_pattern(base, cluster@, gray_of(q)),
            ));
        }
        let qw = choose|q: u64|
            0 <= q < total && bits_of(r.state) == #[trigger] with_pattern(
                base,
                cluster@,
                gray_of(q),
            );
        lemma_gray_in_range(qw, kk);
        assert(bits_of(r.state) == with_pattern(base, cluster@, gray_of(qw)));
    }
    r
}

/// The spread of the integer `x` from zero.
pub open spec fn abs_of(x: int) -> int {
    if x >= 0 {
        x
    } else {
        -x
    }
}

/// A halved energy `e` lies within forty percent of `|emin|` around `emin`.
pub open spec fn in_band(e: int, emin: int) -> bool {
    5 * abs_of(e - emin) <= 2 * abs_of(emin)
}

/// Collects the configurations an enumeration visits that lie near the
/// minimum, beside the minimum itself.
pub struct StateSaver {
    pub minimal_state: State,
    pub states: Vec<State>,
}

impl StateSaver {
    /// Every stored record is truthful for the pair energies in `m`.
    pub open spec fn wf_for(self, m: Matrix) -> bool {
        &&& self.minimal_state.energy == i64::MAX || (bits_of(self.minimal_state.state).len()
            == m.spec_size() && 2 * self.minimal_state.energy == total_energy_of(
            m,
            bits_of(self.minimal_state.state),
        ))
        &&& forall|t: int|
            0 <= t < self.states@.len() ==> bits_of((#[trigger] self.states@[t]).state).len()
                == m.spec_size() && 2 * self.states@[t].energy == total_energy_of(
                m,
                bits_of(self.states@[t].state),
            )
    }

    pub fn new(count: usize) -> (r: Self)
        ensures
            r.minimal_state.energy == i64::MAX,
            r.states@.len() == 0,
            forall|m: Matrix| #[trigger] r.wf_for(m),
    {
        let _ = count;
        StateSaver { minimal_state: State::default(), states: Vec::new() }
    }

    /// Keeps the configuration exactly when it is negative and within the
    /// forty-percent band around the running minimum, and takes it as the
    /// new minimum exactly when it is strictly better.
    pub fn save(&mut self, system: &System)
        requires
            system.wf(),
            old(self).wf_for(system.mat()),
        ensures
            final(self).wf_for(system.mat()),
            final(self).minimal_state.energy <= old(self).minimal_state.energy,
            2 * final(self).minimal_state.energy <= total_energy_of(system.mat(), system.bits()),
            ({
                let e = total_energy_of(system.mat(), system.bits()) / 2;
                let me = old(self).minimal_state.energy as int;
                if e < 0 && me < i64::MAX && 5 * abs_of(e - me) <= 2 * abs_of(me) {
                    final(self).states@.len() == old(self).states@.len() + 1 && bits_of(
                        final(self).states@.last().state,
                    ) == system.bits() && final(self).states@.last().energy as int == e && (
                    forall|t: int|
                        0 <= t < old(self).states@.len() ==> final(self).states@[t] == old(self).states@[t])
                } else {
                    final(self).states@ == old(self).states@
                }
            }),
            ({
                let e = total_energy_of(system.mat(), system.bits()) / 2;
                if e < old(self).minimal_state.energy {
                    bits_of(final(self).minimal_state.state) == system.bits() && final(self).minimal_state.energy as int == e
                } else {
                    final(self).minimal_state == old(self).minimal_state
                }
            }),
    {
        proof {
            crate::system::lemma_total_even(system.mat(), system.bits());
        }
        proof {
            crate::system::lemma_total_bound(system.mat(), system.bits());
            if self.minimal_state.energy < i64::MAX {
                crate::system::lemma_total_bound(
                    system.mat(),
                    bits_of(self.minimal_state.state),
                );
            }
        }
        let e = system.energy();
        let me = self.minimal_state.energy;
        if e < 0 && me < i64::MAX {
            let diff: i64 = if me >= e {
                me - e
            } else {
                e - me
            };
            let band: i64 = if me >= 0 {
                me
            } else {
                -me
            };
            if 5 * (diff as i128) <= 2 * (band as i128) {
                self.states.push(
                    State { energy: e, state: bits_clone(system.system_state()) },
                );
            }
        }
        if self.minimal_state.energy > e {
            self.minimal_state = State { energy: e, state: bits_clone(system.system_state()) };
        }
    }

    /// Folds another saver in: the smaller minimum is kept whole, and the
    /// collected states are concatenated, this saver's first.
    pub fn merge(&mut self, rhs: Self)
        ensures
            final(self).minimal_state == if old(self).minimal_state.energy
                <= rhs.minimal_state.energy {
                old(self).minimal_state
            } else {
                rhs.minimal_state
            },
            final(self).states@ == old(self).states@ + rhs.states@,
    {
        let StateSaver { minimal_state, states } = rhs;
        let mut states = states;
        self.states.append(&mut states);
        if self.minimal_state.energy > minimal_state.energy {
            self.minimal_state = minimal_state;
        }
    }

    /// `merge`, by value.
    pub fn merged(self, rhs: Self) -> (r: Self)
        ensures
            r.minimal_state == if self.minimal_state.energy <= rhs.minimal_state.energy {
                self.minimal_state
            } else {
                rhs.minimal_state
            },
            r.states@ == self.states@ + rhs.states@,
    {
        let mut this = self;
        this.merge(rhs);
        this
    }
}

/// Full exhaustive enumeration: visits every one of the `2^k` assignments to
/// the cluster, returns the true minimum, and collects exactly the visited
/// configurations whose energy lies within forty percent of `|E*|` of the
/// minimum `E*` — every such pattern appears in the collection, and nothing
/// else does.
#[verifier::rlimit(80)]
pub fn perebor_states(system: &System, cluster: &Vec<usize>) -> (r: StateSaver)
    requires
        system.wf(),
        cluster_wf(cluster@, system.n()),
        cluster@.len() <= 62,
    ensures
        bits_of(r.minimal_state.state).len() == system.n(),
        2 * r.minimal_state.energy == total_energy_of(
            system.mat(),
            bits_of(r.minimal_state.state),
        ),
        forall|p: u64|
            p < (1u64 << cluster@.len()) ==> 2 * r.minimal_state.energy <= total_energy_of(
                system.mat(),
                #[trigger] with_pattern(system.bits(), cluster@, p),
            ),
        forall|t: int|
            0 <= t < r.states@.len() ==> {
                &&& 2 * (#[trigger] r.states@[t]).energy == total_energy_of(
                    system.mat(),
                    bits_of(r.states@[t].state),
                )
                &&& in_band(r.states@[t].energy as int, r.minimal_state.energy as int)
                &&& exists|p: u64|
                    p < (1u64 << cluster@.len()) && bits_of(r.states@[t].state)
                        == #[trigger] with_pattern(system.bits(), cluster@, p)
            },
        forall|p: u64|
            p < (1u64 << cluster@.len()) && in_band(
                total_energy_of(system.mat(), #[trigger] with_pattern(system.bits(), cluster@, p))
                    / 2,
                r.minimal_state.energy as int,
            ) ==> exists|t: int|
                0 <= t < r.states@.len() && bits_of(r.states@[t].state) == with_pattern(
                    system.bits(),
                    cluster@,
                    p,
                ),
{
    let ghost base = system.bits();
    let ghost mref = system.mat();
    let minimum = perebor_cluster(system, cluster);
    let emin = minimum.energy;
    let k: usize = cluster.len();
    let kk: u64 = k as u64;
    let total: u64 = 1u64 << kk;
    let mut sys = system.duplicate();
    let ghost m = sys.mat();
    let pairs = pattern_vec(cluster, 0u64);
    sys.set_spins(&pairs);
    proof {
        assert(gray_of(0u64) == 0u64) by (bit_vector);
        assert(sys.bits() == with_pattern(base, cluster@, gray_of(0u64)));
        assert(1u64 <= (1u64 << kk)) by (bit_vector)
            requires
                kk <= 62u64,
        ;
        lemma_energy_congruence(mref, m, bits_of(minimum.state));
    }
    let mut saver = StateSaver { minimal_state: minimum, states: Vec::new() };
    proof {
        assert forall|p: u64| p < (1u64 << kk) implies 2 * emin <= total_energy_of(
            m,
            #[trigger] with_pattern(base, cluster@, p),
        ) by {
            lemma_energy_congruence(mref, m, with_pattern(base, cluster@, p));
        }
        assert(gray_of(0u64) < (1u64 << kk)) by (bit_vector)
            requires
                kk <= 62u64,
        ;
    }
    saver.save_in_band(&sys);
    let mut i: u64 = 1;
    while i < total
        invariant
            1 <= i <= total,
            total == (1u64 << kk),
            kk == cluster@.len(),
            kk <= 62,
            k == cluster@.len(),
            sys.wf(),
            sys.n() == base.len(),
            base.len() == sys.bits().len(),
            cluster_wf(cluster@, sys.n()),
            m == sys.mat(),
            sys.bits() == with_pattern(base, cluster@, gray_of((i - 1) as u64)),
            forall|p: u64|
                p < (1u64 << kk) ==> 2 * emin <= total_energy_of(
                    m,
                    #[trigger] with_pattern(base, cluster@, p),
                ),
            saver.wf_for(m),
            saver.minimal_state.energy == emin,
            2 * emin == total_energy_of(m, bits_of(saver.minimal_state.state)),
            forall|t: int|
                0 <= t < saver.states@.len() ==> in_band(
                    (#[trigger] saver.states@[t]).energy as int,
                    emin as int,
                ) && exists|q: u64|
                    q < i && bits_of(saver.states@[t].state) == #[trigger] with_pattern(
                        base,
                        cluster@,
                        gray_of(q),
                    ),
            forall|q: u64|
                q < i && in_band(
                    total_energy_of(m, #[trigger] with_pattern(base, cluster@, gray_of(q))) / 2,
                    emin as int,
                ) ==> exists|t: int|
                    0 <= t < saver.states@.len() && bits_of(saver.states@[t].state) == with_pattern(
                        base,
                        cluster@,
                        gray_of(q),
                    ),
        decreases total - i,
    {
        let tz: u32 = trailing_zeros_u64(i);
        proof {
            lemma_gray_step(i, kk);
            lemma_with_pattern_flip(base, cluster@, gray_of((i - 1) as u64), tz as int);
        }
        let site = cluster[tz as usize];
        sys.reverse_spin(site);
        proof {
            assert((gray_of((i - 1) as u64) ^ (1u64 << (tz as u64))) == gray_of(i));
            assert(sys.bits() == with_pattern(base, cluster@, gray_of(i)));
        }
        proof {
            lemma_gray_in_range(i, kk);
        }
        saver.save_in_band(&sys);
        i += 1;
    }
    proof {
        let r = saver;
        lemma_energy_congruence(m, mref, bits_of(r.minimal_state.state));
        assert forall|t: int| 0 <= t < r.states@.len() implies 2 * (#[trigger] r.states@[t]).energy
            == total_energy_of(mref, bits_of(r.states@[t].state)) by {
            lemma_energy_congruence(m, mref, bits_of(r.states@[t].state));
        }
        assert forall|t: int|
            0 <= t < r.states@.len() implies exists|p: u64|
            p < (1u64 << cluster@.len()) && bits_of((#[trigger] r.states@[t]).state)
                == with_pattern(base, cluster@, p) by {
            let q = choose|q: u64|
                q < total && bits_of(r.states@[t].state) == #[trigger] with_pattern(
                    base,
                    cluster@,
                    gray_of(q),
                );
            lemma_gray_in_range(q, kk);
        }
        assert forall|p: u64|
            p < (1u64 << cluster@.len()) && in_band(
                total_energy_of(mref, #[trigger] with_pattern(base, cluster@, p)) / 2,
                r.minimal_state.energy as int,
            ) implies exists|t: int|
            0 <= t < r.states@.len() && bits_of(r.states@[t].state) == with_pattern(
                base,
                cluster@,
                p,
            ) by {
            lemma_gray_inverse(p, kk);
            let q = gray_inv_of(p);
            lemma_energy_congruence(m, mref, with_pattern(base, cluster@, p));
            assert(in_band(
                total_energy_of(m, with_pattern(base, cluster@, gray_of(q))) / 2,
                emin as int,
            ));
        }
    }
    saver
}

impl StateSaver {
    /// Keeps the configuration exactly when its energy lies in the band
    /// around the already-known enumeration minimum.
    fn save_in_band(&mut self, system: &System)
        requires
            system.wf(),
            old(self).wf_for(system.mat()),
            old(self).minimal_state.energy < i64::MAX,
            2 * old(self).minimal_state.energy <= total_energy_of(system.mat(), system.bits()),
        ensures
            final(self).wf_for(system.mat()),
            final(self).minimal_state == old(self).minimal_state,
            in_band(
                total_energy_of(system.mat(), system.bits()) / 2,
                old(self).minimal_state.energy as int,
            ) ==> final(self).states@.len() == old(self).states@.len() + 1 && bits_of(
                final(self).states@.last().state,
            ) == system.bits() && final(self).states@.last().energy as int == total_energy_of(
                system.mat(),
                system.bits(),
            ) / 2 && forall|t: int|
                0 <= t < old(self).states@.len() ==> final(self).states@[t] == old(self).states@[t],
            !in_band(
                total_energy_of(system.mat(), system.bits()) / 2,
                old(self).minimal_state.energy as int,
            ) ==> final(self).states@ == old(self).states@,
    {
        proof {
            crate::system::lemma_total_bound(system.mat(), system.bits());
            crate::system::lemma_total_even(system.mat(), system.bits());
            crate::system::lemma_total_bound(system.mat(), bits_of(self.minimal_state.state));
        }
        let e = system.energy();
        let me = self.minimal_state.energy;
        let diff: i64 = if e >= me {
            e - me
        } else {
            me - e
        };
        let band: i64 = if me >= 0 {
            me
        } else {
            -me
        };
        if 5 * (diff as i128) <= 2 * (band as i128) {
            self.states.push(State { energy: e, state: bits_clone(system.system_state()) });
        }
    }
}

} // verus!
