//! The best-state registry and the search driver.
//!
//! A `StateRegistererInner` remembers the lowest-energy configuration seen so
//! far, and the one before it; its recorded minimum can only go down. The
//! single-threaded driver runs a search step repeatedly until the last two
//! minima agree or a budget of stagnant steps runs out. (The multi-threaded
//! driver shares one registerer under a lock and dispatches the same steps to
//! replicas; the lock and the threads live outside the verified library.)
use vstd::prelude::*;

use crate::bits::{bits_clone, bits_of, bits_repeat, SpinState};
use crate::matrix::Matrix;
use crate::system::{total_energy_of, System};

verus! {

/// Convergence tolerance on the halved fixed-point energies: with exact
/// integer energies, two minima "agree" when they are equal.
pub const CONVERGENCE_EPS: i64 = 1;

/// A recorded configuration: its spin bits and its (halved) energy.
pub struct State {
    pub energy: i64,
    pub state: SpinState,
}

impl State {
    /// A fresh copy; its contract carries the fields into proofs, which a
    /// derived clone would not.
    pub fn duplicate(&self) -> (r: Self)
        ensures
            r.energy == self.energy,
            bits_of(r.state) == bits_of(self.state),
    {
        State { energy: self.energy, state: bits_clone(&self.state) }
    }
}

impl Default for State {
    /// The empty record: no bits, and an energy worse than any real one.
    fn default() -> (r: Self)
        ensures
            r.energy == i64::MAX,
            bits_of(r.state).len() == 0,
    {
        State { energy: i64::MAX, state: bits_repeat(false, 0) }
    }
}

pub struct StateRegistererInner {
    pub current_minimal: Option<State>,
    pub previous_minimal: Option<State>,
    pub is_changed: bool,
}

impl StateRegistererInner {
    /// The energy a candidate must beat: the recorded minimum, or the worst
    /// representable energy while none is recorded.
    pub open spec fn threshold(self) -> int {
        match self.current_minimal {
            Option::Some(s) => s.energy as int,
            Option::None => i64::MAX as int,
        }
    }

    pub open spec fn has_min(self) -> bool {
        self.current_minimal is Some
    }

    /// Both recorded states are truthful for the pair energies in `m`: each
    /// stored energy is exactly half the total its stored bits give.
    pub open spec fn wf_for(self, m: Matrix) -> bool {
        &&& match self.current_minimal {
            Option::Some(s) => {
                &&& bits_of(s.state).len() == m.spec_size()
                &&& 2 * s.energy == total_energy_of(m, bits_of(s.state))
                &&& -i64::MAX <= 2 * s.energy <= i64::MAX
            },
            Option::None => true,
        }
        &&& match self.previous_minimal {
            Option::Some(s) => -i64::MAX <= 2 * s.energy <= i64::MAX,
            Option::None => true,
        }
    }

    pub fn new() -> (r: Self)
        ensures
            r.current_minimal is None,
            r.previous_minimal is None,
            !r.is_changed,
            forall|m: Matrix| #[trigger] r.wf_for(m),
    {
        StateRegistererInner { current_minimal: None, previous_minimal: None, is_changed: false }
    }

    /// Records the system's configuration iff it is strictly better than the
    /// recorded minimum; the minimum never goes up.
    pub fn register(&mut self, system: &System)
        requires
            system.wf(),
            old(self).wf_for(system.mat()),
        ensures
            final(self).wf_for(system.mat()),
            reg_evolved(*old(self), *final(self)),
            final(self).has_min(),
            2 * final(self).threshold() <= total_energy_of(system.mat(), system.bits()),
            total_energy_of(system.mat(), system.bits()) < 2 * old(self).threshold() ==> (2
                * final(self).threshold() == total_energy_of(system.mat(), system.bits())
                && bits_of(final(self).current_minimal->Some_0.state) == system.bits() && final(self).previous_minimal == old(self).current_minimal && final(self).is_changed),
            total_energy_of(system.mat(), system.bits()) >= 2 * old(self).threshold() ==> *final(self) == *old(self),
    {
        proof {
            crate::system::lemma_total_bound(system.mat(), system.bits());
        }
        let e = system.energy();
        let beats = match &self.current_minimal {
            Option::Some(s) => s.energy > e,
            Option::None => true,
        };
        if beats {
            let fresh = State { energy: e, state: bits_clone(system.system_state()) };
            let prev = self.current_minimal.take();
            self.current_minimal = Some(fresh);
            self.previous_minimal = prev;
            self.is_changed = true;
        }
    }

    /// Folds another registry's recorded minimum into this one: afterwards
    /// the threshold is the smaller of the two, and the change flag reports
    /// an improvement as usual. This is the O(1) merge a shared registry
    /// needs when workers search into private registries and pool their
    /// results under a briefly held lock.
    pub fn absorb(&mut self, other: &StateRegistererInner)
        ensures
            reg_evolved(*old(self), *final(self)),
            final(self).threshold() == if other.threshold() < old(self).threshold() {
                other.threshold()
            } else {
                old(self).threshold()
            },
            forall|m: Matrix|
                old(self).wf_for(m) && other.wf_for(m) ==> #[trigger] final(self).wf_for(m),
    {
        match &other.current_minimal {
            Option::Some(s) => {
                let e = s.energy;
                let beats = match &self.current_minimal {
                    Option::Some(c) => c.energy > e,
                    Option::None => e < i64::MAX,
                };
                if beats {
                    let fresh = s.duplicate();
                    let prev = self.current_minimal.take();
                    self.current_minimal = Some(fresh);
                    self.previous_minimal = prev;
                    self.is_changed = true;
                }
            },
            Option::None => {},
        }
    }

    /// A copy of the recorded minimum, if any.
    pub fn minimal_state(&self) -> (r: Option<State>)
        ensures
            r is Some <==> self.has_min(),
            match r {
                Option::Some(s) => s.energy as int == self.threshold() && bits_of(s.state)
                    == bits_of(self.current_minimal->Some_0.state),
                Option::None => true,
            },
    {
        match &self.current_minimal {
            Option::Some(s) => Some(s.duplicate()),
            Option::None => None,
        }
    }

    /// Reads and clears the change flag.
    pub fn check_if_changed(&mut self) -> (r: bool)
        ensures
            r == old(self).is_changed,
            !final(self).is_changed,
            final(self).current_minimal == old(self).current_minimal,
            final(self).previous_minimal == old(self).previous_minimal,
    {
        let r = self.is_changed;
        self.is_changed = false;
        r
    }

    /// True iff both minima are recorded and they differ by less than `eps`.
    pub fn diff_between_mins(&self, eps: i64) -> (r: bool)
        requires
            match self.current_minimal {
                Option::Some(s) => -i64::MAX <= 2 * s.energy <= i64::MAX,
                Option::None => true,
            },
            match self.previous_minimal {
                Option::Some(s) => -i64::MAX <= 2 * s.energy <= i64::MAX,
                Option::None => true,
            },
        ensures
            r == match (self.current_minimal, self.previous_minimal) {
                (Option::Some(a), Option::Some(b)) => -eps < a.energy - b.energy < eps,
                _ => false,
            },
    {
        match (&self.current_minimal, &self.previous_minimal) {
            (Option::Some(a), Option::Some(b)) => {
                let d = if a.energy >= b.energy {
                    a.energy - b.energy
                } else {
                    b.energy - a.energy
                };
                d < eps
            },
            _ => false,
        }
    }
}

/// How a registry may change under any amount of search activity: the
/// recorded minimum never goes up, and the change flag records exactly
/// whether it went down (and is never cleared by searching).
pub open spec fn reg_evolved(pre: StateRegistererInner, post: StateRegistererInner) -> bool {
    &&& post.threshold() <= pre.threshold()
    &&& (post.threshold() < pre.threshold() ==> post.is_changed)
    &&& (post.is_changed ==> pre.is_changed || post.threshold() < pre.threshold())
    &&& (pre.is_changed ==> post.is_changed)
}

/// `reg_evolved` composes.
pub proof fn lemma_reg_evolved_trans(
    a: StateRegistererInner,
    b: StateRegistererInner,
    c: StateRegistererInner,
)
    requires
        reg_evolved(a, b),
        reg_evolved(b, c),
    ensures
        reg_evolved(a, c),
{
}

/// The per-iteration hooks of the driver: a context may do bookkeeping after
/// every round, and may adjust each replica from the shared registry.
pub trait AlgorithmState: Sized {
    fn after_step(&mut self);

    fn after_step_for_system(&self, system: &mut System, registerer: &mut StateRegistererInner)
        requires
            old(system).wf(),
            old(registerer).wf_for(old(system).mat()),
        ensures
            final(system).wf(),
            final(system).same_geometry(*old(system)),
            final(system).energy_matrix_default == old(system).energy_matrix_default,
            final(registerer).wf_for(final(system).mat()),
            reg_evolved(*old(registerer), *final(registerer)),
    ;
}

/// The do-nothing context.
pub struct NoContext;

impl AlgorithmState for NoContext {
    fn after_step(&mut self) {
    }

    fn after_step_for_system(&self, system: &mut System, registerer: &mut StateRegistererInner) {
    }
}

/// The replicate context: after every round, each replica restarts from the
/// best configuration recorded so far.
pub struct Replicate;

impl Replicate {
    /// Writes the recorded best state into the replica; with nothing
    /// recorded, the replica is left alone.
    pub fn replicate_best(system: &mut System, registerer: &StateRegistererInner)
        requires
            old(system).wf(),
            registerer.wf_for(old(system).mat()),
        ensures
            final(system).wf(),
            final(system).same_geometry(*old(system)),
            final(system).energy_matrix_default == old(system).energy_matrix_default,
            final(system).elements@ == old(system).elements@,
            registerer.has_min() ==> final(system).bits() == bits_of(
                registerer.current_minimal->Some_0.state,
            ),
            !registerer.has_min() ==> final(system).bits() == old(system).bits(),
    {
        let best = registerer.minimal_state();
        match best {
            Option::Some(state) => {
                system.set_system_state(state.state);
            },
            Option::None => {},
        }
    }
}

impl AlgorithmState for Replicate {
    fn after_step(&mut self) {
    }

    fn after_step_for_system(&self, system: &mut System, registerer: &mut StateRegistererInner) {
        Replicate::replicate_best(system, registerer);
    }
}

/// One round of a search algorithm, run by the driver against a system and
/// the shared registry.
pub trait SearchStep: Sized {
    fn step(&self, system: &mut System, registerer: &mut StateRegistererInner)
        requires
            old(system).wf(),
            old(registerer).wf_for(old(system).mat()),
        ensures
            final(system).wf(),
            final(system).same_geometry(*old(system)),
            final(system).energy_matrix_default == old(system).energy_matrix_default,
            final(registerer).wf_for(final(system).mat()),
            reg_evolved(*old(registerer), *final(registerer)),
    ;
}

/// Runs `f` on the system until the last two recorded minima agree within
/// `CONVERGENCE_EPS`, or `max_steps` rounds pass with no improvement.
/// Returns the recorded minimum: a state whose stored energy is exactly half
/// the total energy its bits give over the system's pair energies.
pub fn runner_one_thread<S: AlgorithmState, F: SearchStep>(
    system: System,
    max_steps: usize,
    algorithm_state: S,
    f: F,
) -> (r: Option<State>)
    requires
        system.wf(),
    ensures
        match r {
            Option::Some(s) => bits_of(s.state).len() == system.n() && 2 * s.energy
                == total_energy_of(system.mat(), bits_of(s.state)),
            Option::None => true,
        },
{
    let ghost m = system.mat();
    let mut system = system;
    let mut algorithm_state = algorithm_state;
    let mut state_register = StateRegistererInner::new();
    let mut steps: usize = 0;

    while !state_register.diff_between_mins(CONVERGENCE_EPS) && steps < max_steps
        invariant
            system.wf(),
            system.mat() == m,
            state_register.wf_for(m),
            !state_register.is_changed,
            steps <= max_steps,
            match state_register.previous_minimal {
                Option::Some(s) => -i64::MAX <= 2 * s.energy <= i64::MAX,
                Option::None => true,
            },
        decreases (state_register.threshold() - i64::MIN), max_steps - steps,
    {
        let ghost th0 = state_register.threshold();
        f.step(&mut system, &mut state_register);
        algorithm_state.after_step();
        algorithm_state.after_step_for_system(&mut system, &mut state_register);
        if state_register.check_if_changed() {
            steps = 0;
            proof {
                assert(state_register.threshold() < th0);
            }
        } else {
            steps += 1;
        }
    }
    state_register.minimal_state()
}

} // verus!
