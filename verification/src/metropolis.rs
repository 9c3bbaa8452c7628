//! One Metropolis sweep at a fixed temperature.
//!
//! The acceptance rule compares `exp((e2 - e1) / T)` against a uniform draw
//! `u`; for positive `T` that is exactly `e2 - e1 < T * ln(u)`. The
//! right-hand side depends on floating point and chance, so the caller hands
//! in one precomputed threshold `T * ln(u)` per step, in the same halved
//! fixed-point unit as the energies, and the sweep itself is verified for
//! every value of them. (A uniform `u` lies in `[0, 1)`, so each threshold
//! is nonpositive while an uphill difference is nonnegative: like its
//! floating-point ancestor, the rule then never rejects; the shape is kept
//! so the caller controls it.)
use vstd::prelude::*;

use crate::random::random_below;
use crate::runner::{reg_evolved, StateRegistererInner};
use crate::system::{lemma_total_bound, total_energy_of, System};

verus! {

pub fn metropolis_mc_step(
    system: &mut System,
    registerer: &mut StateRegistererInner,
    uphill_thresholds: &Vec<i64>,
)
    requires
        old(system).wf(),
        old(system).n() > 0,
        old(registerer).wf_for(old(system).mat()),
    ensures
        final(system).wf(),
        final(system).same_geometry(*old(system)),
        final(system).energy_matrix_default == old(system).energy_matrix_default,
        final(system).elements@ == old(system).elements@,
        final(registerer).wf_for(final(system).mat()),
        reg_evolved(*old(registerer), *final(registerer)),
        final(registerer).has_min(),
        2 * final(registerer).threshold() <= total_energy_of(old(system).mat(), old(system).bits()),
{
    let ghost m = old(system).mat();
    let ghost reg0 = *old(registerer);
    let ghost entry_total = total_energy_of(old(system).mat(), old(system).bits());
    let size: usize = system.size();
    registerer.register(system);
    let steps: usize = uphill_thresholds.len();
    let mut step: usize = 0;
    while step < steps
        invariant
            step <= steps,
            system.wf(),
            system.n() > 0,
            size == system.n(),
            system.same_geometry(*old(system)),
            system.energy_matrix_default == old(system).energy_matrix_default,
            system.elements@ == old(system).elements@,
            m == system.mat(),
            registerer.wf_for(m),
            reg_evolved(reg0, *registerer),
            registerer.has_min(),
            2 * registerer.threshold() <= entry_total,
            entry_total == total_energy_of(old(system).mat(), old(system).bits()),
            steps == uphill_thresholds@.len(),
        decreases steps - step,
    {
        proof {
            lemma_total_bound(m, system.bits());
        }
        let e1 = system.energy();
        let spin = random_below(size);
        system.reverse_spin(spin);
        registerer.register(system);
        proof {
            lemma_total_bound(m, system.bits());
        }
        let e2 = system.energy();
        if e2 >= e1 {
            let threshold = uphill_thresholds[step];
            if e2 - e1 < threshold {
                system.reverse_spin(spin);
            }
        }
        step += 1;
    }
}

} // verus!
