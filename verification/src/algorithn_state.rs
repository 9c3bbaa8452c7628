//! A registry that, besides the running minimum, keeps an audit trail of
//! every step a search took and which phase of the algorithm produced it.
use vstd::prelude::*;

use crate::bits::{bits_clone, bits_of, bits_repeat, SpinState};
use crate::matrix::Matrix;
use crate::system::{excess_of, lemma_total_bound, total_energy_of, System};

verus! {

/// A recorded configuration: spin bits, halved energy, and spin excess.
pub struct State {
    pub state: SpinState,
    pub energy: i64,
    pub spin_excess: i32,
}

impl State {
    pub fn duplicate(&self) -> (r: Self)
        ensures
            r.energy == self.energy,
            r.spin_excess == self.spin_excess,
            bits_of(r.state) == bits_of(self.state),
    {
        State {
            state: bits_clone(&self.state),
            energy: self.energy,
            spin_excess: self.spin_excess,
        }
    }
}

impl Default for State {
    /// The empty record: no bits, and an energy worse than any real one.
    fn default() -> (r: Self)
        ensures
            r.energy == i64::MAX,
            r.spin_excess == 0,
            bits_of(r.state).len() == 0,
    {
        State { state: bits_repeat(false, 0), energy: i64::MAX, spin_excess: 0 }
    }
}

/// Which phase of a search produced a recorded step.
#[derive(Clone, Copy, Debug, PartialEq, Eq, Structural)]
pub enum StepKind {
    Greedy,
    Step2,
    Step3,
    Minimize1,
    Minimize2,
}

/// One recorded step: the configuration and the phase that reached it.
pub struct Step {
    pub state: State,
    pub step_kind: StepKind,
}

pub struct AlgorithmState {
    pub minimal_state: State,
    pub new_minimal_state: bool,
    pub steps: Vec<Step>,
}

impl AlgorithmState {
    /// The recorded minimum is truthful for the pair energies in `m`, or
    /// still the empty sentinel.
    pub open spec fn wf_for(self, m: Matrix) -> bool {
        self.minimal_state.energy == i64::MAX || (bits_of(self.minimal_state.state).len()
            == m.spec_size() && 2 * self.minimal_state.energy == total_energy_of(
            m,
            bits_of(self.minimal_state.state),
        ) && self.minimal_state.spin_excess as int == excess_of(bits_of(self.minimal_state.state)))
    }

    pub fn new() -> (r: Self)
        ensures
            r.minimal_state.energy == i64::MAX,
            !r.new_minimal_state,
            r.steps@.len() == 0,
            forall|m: Matrix| #[trigger] r.wf_for(m),
    {
        AlgorithmState { minimal_state: State::default(), new_minimal_state: false, steps: Vec::new() }
    }

    /// Appends the configuration to the trail and takes it as the new
    /// minimum when it is strictly better.
    pub fn save_step_state(&mut self, system: &System, step_type: StepKind)
        requires
            system.wf(),
            old(self).wf_for(system.mat()),
        ensures
            final(self).wf_for(system.mat()),
            final(self).minimal_state.energy <= old(self).minimal_state.energy,
            final(self).steps@.len() == old(self).steps@.len() + 1,
            forall|t: int|
                0 <= t < old(self).steps@.len() ==> final(self).steps@[t] == old(self).steps@[t],
            final(self).steps@.last().step_kind == step_type,
            bits_of(final(self).steps@.last().state.state) == system.bits(),
            2 * final(self).steps@.last().state.energy == total_energy_of(
                system.mat(),
                system.bits(),
            ),
            final(self).steps@.last().state.spin_excess as int == excess_of(system.bits()),
            2 * final(self).minimal_state.energy <= total_energy_of(system.mat(), system.bits()),
            final(self).minimal_state.energy < old(self).minimal_state.energy ==> final(self).new_minimal_state,
    {
        proof {
            lemma_total_bound(system.mat(), system.bits());
        }
        self.save_step_state2(system, step_type);
        let snapshot = State {
            state: bits_clone(system.system_state()),
            energy: system.energy(),
            spin_excess: system.spin_excess(),
        };
        self.steps.push(Step { state: snapshot, step_kind: step_type });
    }

    /// Takes the configuration as the new minimum when it is strictly
    /// better, without recording a trail entry.
    pub fn save_step_state2(&mut self, system: &System, step_type: StepKind)
        requires
            system.wf(),
            old(self).wf_for(system.mat()),
        ensures
            final(self).wf_for(system.mat()),
            final(self).minimal_state.energy <= old(self).minimal_state.energy,
            final(self).steps@ == old(self).steps@,
            2 * final(self).minimal_state.energy <= total_energy_of(system.mat(), system.bits()),
            final(self).minimal_state.energy < old(self).minimal_state.energy ==> final(self).new_minimal_state,
    {
        proof {
            lemma_total_bound(system.mat(), system.bits());
        }
        let e = system.energy();
        if self.minimal_state.energy > e {
            self.minimal_state = State {
                state: bits_clone(system.system_state()),
                energy: e,
                spin_excess: system.spin_excess(),
            };
            self.new_minimal_state = true;
        }
    }

    /// Drops the audit trail, keeping the minimum.
    pub fn clear_steps(&mut self)
        ensures
            final(self).steps@.len() == 0,
            final(self).minimal_state == old(self).minimal_state,
            final(self).new_minimal_state == old(self).new_minimal_state,
    {
        self.steps.clear();
    }

    /// Hands out a copy of the minimum iff it is new since the last call.
    pub fn consume_minimal_state(&mut self) -> (r: Option<State>)
        ensures
            !final(self).new_minimal_state,
            final(self).minimal_state == old(self).minimal_state,
            final(self).steps@ == old(self).steps@,
            r is Some <==> old(self).new_minimal_state,
            match r {
                Option::Some(s) => s.energy == old(self).minimal_state.energy && bits_of(s.state)
                    == bits_of(old(self).minimal_state.state) && s.spin_excess == old(
                    self,
                ).minimal_state.spin_excess,
                Option::None => true,
            },
    {
        if self.new_minimal_state {
            self.new_minimal_state = false;
            Some(self.minimal_state.duplicate())
        } else {
            None
        }
    }
}

} // verus!
