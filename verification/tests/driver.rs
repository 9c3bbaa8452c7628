use std::sync::Mutex;

use system_greedy::algorithn_state::{AlgorithmState, StepKind};
use system_greedy::bits::{bits_repeat, bits_set};
use system_greedy::element::Element;
use system_greedy::matrix::Matrix;
use system_greedy::perebor::perebor_cluster;
use system_greedy::runner::{runner_one_thread, NoContext, Replicate, StateRegistererInner};
use system_greedy::system::System;
use system_greedy::{adapt_radius, gibrid2, greedy, prepare_state, GibridStep, GreedyStep};

type Site = ((f64, f64), (f64, f64));

fn dipole(p1: (f64, f64), m1: (f64, f64), p2: (f64, f64), m2: (f64, f64)) -> f64 {
    let rx = p1.0 - p2.0;
    let ry = p1.1 - p2.1;
    let r = (rx * rx + ry * ry).sqrt();
    let r3 = r * r * r;
    let r5 = r3 * r * r;
    let res = (m1.0 * m2.0 + m1.1 * m2.1) / r3
        - 3.0 * ((m1.0 * rx + m1.1 * ry) * (m2.0 * rx + m2.1 * ry)) / r5;
    if res.is_nan() {
        0.0
    } else {
        res
    }
}

fn build(sites: &[Site], coord_scale: f64, energy_scale: f64) -> System {
    let n = sites.len();
    let mut elements = Vec::new();
    for &(p, m) in sites {
        elements.push(Element::new(
            (p.0 * coord_scale).round() as i64,
            (p.1 * coord_scale).round() as i64,
            (m.0 * coord_scale).round() as i64,
            (m.1 * coord_scale).round() as i64,
        ));
    }
    let mut mat = Matrix::new(n);
    for i in 0..n {
        for j in (i + 1)..n {
            let e = dipole(sites[i].0, sites[i].1, sites[j].0, sites[j].1);
            let v = (e * energy_scale).round() as i64;
            mat.set(i, j, v);
            mat.set(j, i, v);
        }
    }
    System::new(elements, mat)
}

fn lcg(state: &mut u64) -> u64 {
    *state = state
        .wrapping_mul(6364136223846793005)
        .wrapping_add(1442695040888963407);
    *state
}

/// The trimer lattice of the reference geometry: three sites per cell.
fn trimer_sites(a: f64, b: f64, rows: usize, cols: usize) -> Vec<Site> {
    let l = 300.0;
    let phis = [
        60.0f64.to_radians(),
        180.0f64.to_radians(),
        300.0f64.to_radians(),
    ];
    let dx = b;
    let dy = b * phis[0].sin();
    let offset = b * phis[0].cos();
    let mut sites = Vec::new();
    for row in 0..rows {
        for col in 0..cols {
            let shift = if row % 2 == 0 { 0.0 } else { offset };
            for phi in phis {
                sites.push((
                    (
                        a * phi.cos() + shift + dx * col as f64,
                        a * phi.sin() + dy * row as f64,
                    ),
                    (l * phi.cos(), l * phi.sin()),
                ));
            }
        }
    }
    sites
}

fn twelve_site_sites() -> Vec<Site> {
    let mut sites = Vec::new();
    for k in 0..12 {
        let phi = (k as f64) * std::f64::consts::PI * 2.0 / 12.0;
        sites.push(((2.0 * phi.cos(), 2.0 * phi.sin()), (0.0, 1.0)));
    }
    sites
}

/// Twelve sites with one and the same positive coupling between every pair:
/// the ground states are exactly the balanced ones, and greedy descent
/// reaches one from any start, because with an even site count some row
/// stays positive until the split is even.
fn twelve_site_equal_couplings() -> System {
    let mut elements = Vec::new();
    for k in 0..12i64 {
        elements.push(Element::new(1000 * k, 0, 0, 1000));
    }
    let mut mat = Matrix::new(12);
    for i in 0..12 {
        for j in 0..12 {
            if i != j {
                mat.set(i, j, 1000);
            }
        }
    }
    System::new(elements, mat)
}

/// The single-threaded driver converges and returns a state whose energy is
/// truthful.
#[test]
fn runner_converges() {
    let sites = twelve_site_sites();
    let system = build(&sites, 1000.0, 1_000_000.0);
    let result = runner_one_thread(system.duplicate(), 4, NoContext, GreedyStep)
        .expect("driver registered nothing");
    let mut check = system.duplicate();
    check.set_system_state(result.state);
    assert_eq!(check.energy(), result.energy);
}

/// The replicate context pushes the shared best state back into the system
/// between rounds.
#[test]
fn runner_with_replicate() {
    let sites = twelve_site_sites();
    let system = build(&sites, 1000.0, 1_000_000.0);
    let result = runner_one_thread(system.duplicate(), 4, Replicate, GibridStep)
        .expect("driver registered nothing");
    let cluster: Vec<usize> = (0..12).collect();
    let truth = perebor_cluster(&system, &cluster);
    assert!(result.energy >= truth.energy);
}

/// Two workers run greedy from independent random starts into one shared
/// registry; over twenty trials, the pooled minimum reaches the true ground
/// energy in at least nineteen.
#[test]
fn replicated_workers_find_the_ground_state() {
    let system = twelve_site_equal_couplings();
    let cluster: Vec<usize> = (0..12).collect();
    let truth = perebor_cluster(&system, &cluster).energy;
    let mut successes = 0;
    let mut seed = 555u64;
    for _ in 0..20 {
        let shared = Mutex::new(StateRegistererInner::new());
        let mut seeds = [0u64; 2];
        for s in seeds.iter_mut() {
            *s = lcg(&mut seed);
        }
        rayon::join(
            || {
                let mut sys = system.duplicate();
                let mut local_seed = seeds[0];
                randomize(&mut sys, &mut local_seed);
                let mut guard = shared.lock().unwrap();
                greedy(&mut sys, &mut guard);
                guard.register(&sys);
            },
            || {
                let mut sys = system.duplicate();
                let mut local_seed = seeds[1];
                randomize(&mut sys, &mut local_seed);
                let mut guard = shared.lock().unwrap();
                greedy(&mut sys, &mut guard);
                guard.register(&sys);
            },
        );
        let found = shared.lock().unwrap().minimal_state();
        if let Some(s) = found {
            if s.energy == truth {
                successes += 1;
            }
        }
    }
    assert!(successes >= 19, "only {successes} of 20 trials found the minimum");
}

fn randomize(sys: &mut System, seed: &mut u64) {
    let n = sys.size();
    let mut state = bits_repeat(false, n);
    for i in 0..n {
        bits_set(&mut state, i, (lcg(seed) >> 33) % 2 == 1);
    }
    sys.set_system_state(state);
}

/// Radius adaptation on the 5 by 5 trimer lattice: with a demanded degree
/// of twenty, every one of the 75 sites has at least twenty neighbors
/// within the returned radius, counted by brute force.
#[test]
fn trimer_radius_adaptation() {
    let sites = trimer_sites(225.0, 680.0, 5, 5);
    assert_eq!(sites.len(), 75);
    let system = build(&sites, 1000.0, 1_000_000_000.0);
    let rsq = adapt_radius(&system, 20, 10_000);
    let elements = system.elements();
    for i in 0..75 {
        let mut count = 0;
        for j in 0..75 {
            let dx = (elements[i].x - elements[j].x) as i128;
            let dy = (elements[i].y - elements[j].y) as i128;
            if dx * dx + dy * dy <= rsq as i128 {
                count += 1;
            }
        }
        assert!(count >= 20, "site {i} has only {count} neighbors in range");
    }
}

/// The cluster-substitution walk with a freshly prepared catalog never
/// worsens the registered minimum.
#[test]
fn gibrid2_with_catalog() {
    let sites: Vec<Site> = vec![
        ((0.0, 0.0), (1.0, 0.0)),
        ((1.0, 0.0), (0.3, 1.0)),
        ((0.1, 1.0), (1.0, 0.2)),
        ((1.1, 1.1), (0.6, 0.8)),
        ((2.0, 0.5), (0.0, 1.0)),
    ];
    let mut system = build(&sites, 1000.0, 1_000_000.0);
    let catalog = prepare_state(&system, 3, 1000);
    let mut reg = StateRegistererInner::new();
    reg.register(&system);
    let start = reg.minimal_state().unwrap().energy;
    gibrid2(&mut system, &mut reg, &catalog);
    let end = reg.minimal_state().unwrap().energy;
    assert!(end <= start);
}

/// The audit-trail registry records steps and hands out a new minimum once.
#[test]
fn audit_trail_registry() {
    let sites: Vec<Site> = vec![((0.0, 0.0), (0.0, 1.0)), ((1.0, 0.0), (0.0, 1.0))];
    let mut system = build(&sites, 1000.0, 1_000_000.0);
    let mut audit = AlgorithmState::new();
    audit.save_step_state(&system, StepKind::Greedy);
    system.reverse_spin(0);
    audit.save_step_state(&system, StepKind::Step2);
    assert_eq!(audit.steps.len(), 2);
    assert_eq!(audit.steps[0].state.spin_excess, 2);
    assert_eq!(audit.steps[1].step_kind, StepKind::Step2);
    let min = audit.consume_minimal_state().expect("no new minimum");
    assert_eq!(min.energy, system.energy());
    assert!(audit.consume_minimal_state().is_none());
    audit.clear_steps();
    assert_eq!(audit.steps.len(), 0);
}
