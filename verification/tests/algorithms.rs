use system_greedy::bits::{bits_get, bits_len, bits_repeat, bits_set};
use system_greedy::element::Element;
use system_greedy::matrix::Matrix;
use system_greedy::runner::StateRegistererInner;
use system_greedy::system::System;
use system_greedy::{gibrid, greedy, metropolis::metropolis_mc_step, minimize_cells};

type Site = ((f64, f64), (f64, f64));

fn dipole(p1: (f64, f64), m1: (f64, f64), p2: (f64, f64), m2: (f64, f64)) -> f64 {
    let rx = p1.0 - p2.0;
    let ry = p1.1 - p2.1;
    let r = (rx * rx + ry * ry).sqrt();
    let r3 = r * r * r;
    let r5 = r3 * r * r;
    let res = (m1.0 * m2.0 + m1.1 * m2.1) / r3
        - 3.0 * ((m1.0 * rx + m1.1 * ry) * (m2.0 * rx + m2.1 * ry)) / r5;
    if res.is_nan() {
        0.0
    } else {
        res
    }
}

fn build(sites: &[Site], coord_scale: f64, energy_scale: f64) -> System {
    let n = sites.len();
    let mut elements = Vec::new();
    for &(p, m) in sites {
        elements.push(Element::new(
            (p.0 * coord_scale).round() as i64,
            (p.1 * coord_scale).round() as i64,
            (m.0 * coord_scale).round() as i64,
            (m.1 * coord_scale).round() as i64,
        ));
    }
    let mut mat = Matrix::new(n);
    for i in 0..n {
        for j in (i + 1)..n {
            let e = dipole(sites[i].0, sites[i].1, sites[j].0, sites[j].1);
            let v = (e * energy_scale).round() as i64;
            mat.set(i, j, v);
            mat.set(j, i, v);
        }
    }
    System::new(elements, mat)
}

fn square_sites() -> Vec<Site> {
    vec![
        ((0.0, 0.0), (1.0, 0.0)),
        ((1.0, 0.0), (1.0, 0.0)),
        ((0.0, 1.0), (1.0, 0.0)),
        ((1.0, 1.0), (1.0, 0.0)),
    ]
}

/// The lowest energy over every state of the system, found by plain
/// exhaustive substitution, with no Gray coding involved.
fn brute_force_min(system: &System) -> i64 {
    let n = system.size();
    let mut sys = system.duplicate();
    let mut best = i64::MAX;
    for p in 0u64..(1u64 << n) {
        let mut state = bits_repeat(false, n);
        for t in 0..n {
            bits_set(&mut state, t, (p >> t) & 1 == 1);
        }
        sys.set_system_state(state);
        if sys.energy() < best {
            best = sys.energy();
        }
    }
    best
}

/// Four sites in a unit square with x moments: the exhaustive enumeration
/// finds exactly the brute-force ground energy over all sixteen states,
/// while greedy from the all-up start descends to a strict local minimum
/// above it (the descent alone cannot leave it).
#[test]
fn four_site_square() {
    let mut system = build(&square_sites(), 1000.0, 1_000_000.0);
    let truth = brute_force_min(&system);
    let cluster: Vec<usize> = (0..4).collect();
    let enumerated = system_greedy::perebor::perebor_cluster(&system, &cluster);
    assert_eq!(enumerated.energy, truth);
    let mut reg = StateRegistererInner::new();
    greedy(&mut system, &mut reg);
    assert!(system.energy() >= truth);
    for &row in system.row_energies().iter() {
        assert!(row <= 0);
    }
}

/// After greedy, every row energy is at most zero, and the flip count obeys
/// the energy-descent bound (and, here, the coarse n-squared bound).
#[test]
fn greedy_postconditions() {
    let sites: Vec<Site> = vec![
        ((0.0, 0.0), (1.0, 0.0)),
        ((1.0, 0.1), (0.3, 1.0)),
        ((0.2, 1.0), (1.0, 0.5)),
        ((1.3, 1.2), (0.1, 1.0)),
        ((2.2, 0.4), (1.0, 0.0)),
        ((2.4, 1.6), (0.0, 1.0)),
    ];
    let mut system = build(&sites, 1000.0, 1_000_000.0);
    let e0 = system.energy();
    let mut reg = StateRegistererInner::new();
    let flips = greedy(&mut system, &mut reg);
    for &row in system.row_energies().iter() {
        assert!(row <= 0);
    }
    let n = system.size() as u64;
    assert!(2 * flips as i64 <= e0 - system.energy());
    assert!(flips <= n * n);
}

/// Running the hybrid walk twice never raises the recorded minimum.
#[test]
fn gibrid_minimum_is_monotone() {
    let sites: Vec<Site> = vec![
        ((0.0, 0.0), (1.0, 0.0)),
        ((1.0, 0.0), (0.2, 1.0)),
        ((0.0, 1.1), (1.0, 0.4)),
        ((1.2, 1.0), (0.6, 0.8)),
        ((2.1, 0.3), (1.0, 0.1)),
    ];
    let mut system = build(&sites, 1000.0, 1_000_000.0);
    let mut reg = StateRegistererInner::new();
    gibrid(&mut system, &mut reg);
    let first = reg.minimal_state().expect("gibrid registered nothing").energy;
    gibrid(&mut system, &mut reg);
    let second = reg.minimal_state().expect("minimum vanished").energy;
    assert!(second <= first);
    // The walk always hands back a local minimum of the descent.
    for &row in system.row_energies().iter() {
        assert!(row <= 0);
    }
}

/// The saver keeps exactly the negative states within forty percent of the
/// running minimum, and merging concatenates the collections.
#[test]
fn state_saver_band_and_merge() {
    let sites: Vec<Site> = vec![((0.0, 0.0), (0.0, 1.0)), ((1.0, 0.0), (0.0, 1.0))];
    let mut system = build(&sites, 1000.0, 1_000_000.0);
    let mut a = system_greedy::perebor::StateSaver::new(4);
    a.save(&system);
    // First sight: becomes the minimum, but the band test against the empty
    // sentinel keeps the collection empty.
    assert_eq!(a.states.len(), 0);
    assert_eq!(a.minimal_state.energy, system.energy());
    system.reverse_spin(0);
    a.save(&system);
    // The new minimum is negative but far below the old one: not in band.
    assert_eq!(a.states.len(), 0);
    assert_eq!(a.minimal_state.energy, system.energy());
    a.save(&system);
    // Saving the minimum again: in its own band, collected.
    assert_eq!(a.states.len(), 1);
    let mut b = system_greedy::perebor::StateSaver::new(4);
    b.save(&system);
    let merged = a.merged(b);
    assert_eq!(merged.states.len(), 1);
    assert_eq!(merged.minimal_state.energy, system.energy());
}

/// A one-site system needs no radius scan: adaptation returns zero.
#[test]
fn radius_adaptation_single_site() {
    let sites: Vec<Site> = vec![((0.0, 0.0), (0.0, 1.0))];
    let system = build(&sites, 1000.0, 1_000_000.0);
    assert_eq!(system_greedy::adapt_radius(&system, 20, 10_000), 0);
}

/// The registered minimum is monotone non-increasing under any interleaving
/// of register calls.
#[test]
fn registered_minimum_is_monotone() {
    let sites: Vec<Site> = vec![
        ((0.0, 0.0), (1.0, 0.0)),
        ((1.0, 0.0), (0.0, 1.0)),
        ((0.0, 1.0), (1.0, 1.0)),
    ];
    let mut system = build(&sites, 1000.0, 1_000_000.0);
    let mut reg = StateRegistererInner::new();
    let mut last = i64::MAX;
    for i in [0usize, 1, 2, 1, 0, 2, 2, 1] {
        system.reverse_spin(i);
        reg.register(&system);
        let cur = reg.minimal_state().unwrap().energy;
        assert!(cur <= last);
        assert!(cur <= system.energy());
        last = cur;
    }
}

/// The registerer's exact update behavior: strict improvements shift the
/// minima and set the flag; anything else is a no-op.
#[test]
fn registerer_behavior() {
    let sites: Vec<Site> = vec![((0.0, 0.0), (0.0, 1.0)), ((1.0, 0.0), (0.0, 1.0))];
    let mut system = build(&sites, 1000.0, 1_000_000.0);
    let mut reg = StateRegistererInner::new();
    assert!(reg.minimal_state().is_none());
    assert!(!reg.check_if_changed());
    reg.register(&system);
    assert!(reg.check_if_changed());
    assert!(!reg.check_if_changed());
    // Same state again: no change.
    reg.register(&system);
    assert!(!reg.check_if_changed());
    assert!(!reg.diff_between_mins(1));
    // A strictly better state: both minima recorded, flag set.
    system.reverse_spin(0);
    reg.register(&system);
    assert!(reg.check_if_changed());
    assert!(!reg.diff_between_mins(1));
    let worse = reg.minimal_state().unwrap().energy;
    // Register an equal-energy state through a fresh system copy: no change,
    // so the two recorded minima still differ.
    reg.register(&system);
    assert_eq!(reg.minimal_state().unwrap().energy, worse);
    assert!(reg.diff_between_mins(3 * 1_000_000));
}

/// The cell-polishing pass never raises the energy.
#[test]
fn minimize_cells_never_raises_energy() {
    let sites: Vec<Site> = vec![
        ((0.0, 0.0), (1.0, 0.0)),
        ((1.0, 0.0), (0.4, 1.0)),
        ((0.1, 1.0), (1.0, 0.2)),
        ((1.1, 1.1), (0.7, 0.7)),
    ];
    let mut system = build(&sites, 1000.0, 1_000_000.0);
    let e0 = system.energy();
    let mut reg = StateRegistererInner::new();
    minimize_cells(&mut system, &mut reg);
    assert!(system.energy() <= e0);
}

/// A Metropolis sweep with the faithful acceptance rule: the thresholds are
/// nonpositive, so no uphill move is ever rejected, and the registry holds
/// the best state seen along the walk.
#[test]
fn metropolis_sweep() {
    let sites: Vec<Site> = vec![
        ((0.0, 0.0), (1.0, 0.0)),
        ((1.0, 0.0), (0.0, 1.0)),
        ((0.0, 1.0), (1.0, 1.0)),
        ((1.0, 1.0), (0.5, 1.0)),
    ];
    let mut system = build(&sites, 1000.0, 1_000_000.0);
    let e0 = system.energy();
    let mut reg = StateRegistererInner::new();
    // Thresholds play the role of T * ln(u) for uniform u in [0, 1).
    let thresholds: Vec<i64> = vec![-50_000; 64];
    metropolis_mc_step(&mut system, &mut reg, &thresholds);
    let best = reg.minimal_state().expect("sweep registered nothing");
    assert!(best.energy <= e0);
    assert!(best.energy <= system.energy());
}

/// A random permutation holds each index exactly once; a random draw stays
/// in range.
#[test]
fn randomness_contracts() {
    for _ in 0..20 {
        let v = system_greedy::random::random_permutation(9);
        let mut seen = [false; 9];
        assert_eq!(v.len(), 9);
        for &x in v.iter() {
            assert!(x < 9);
            assert!(!seen[x]);
            seen[x] = true;
        }
        assert!(system_greedy::random::random_below(5) < 5);
    }
}

/// Absorbing one registry into another keeps the smaller minimum and flags
/// an improvement, under any interleaving.
#[test]
fn absorb_pools_minima() {
    let sites: Vec<Site> = vec![((0.0, 0.0), (0.0, 1.0)), ((1.0, 0.0), (0.0, 1.0))];
    let mut system = build(&sites, 1000.0, 1_000_000.0);
    let mut shared = StateRegistererInner::new();
    let mut worker_a = StateRegistererInner::new();
    worker_a.register(&system);
    let high = worker_a.minimal_state().unwrap().energy;
    system.reverse_spin(0);
    let mut worker_b = StateRegistererInner::new();
    worker_b.register(&system);
    let low = worker_b.minimal_state().unwrap().energy;
    assert!(low < high);
    shared.absorb(&worker_a);
    assert_eq!(shared.minimal_state().unwrap().energy, high);
    assert!(shared.check_if_changed());
    shared.absorb(&worker_b);
    assert_eq!(shared.minimal_state().unwrap().energy, low);
    shared.absorb(&worker_a);
    assert_eq!(shared.minimal_state().unwrap().energy, low);
    assert!(shared.check_if_changed());
    assert!(!shared.check_if_changed());
}

/// The replicate hook writes the recorded best state into the replica.
#[test]
fn replicate_writes_best_state() {
    let sites: Vec<Site> = vec![((0.0, 0.0), (0.0, 1.0)), ((1.0, 0.0), (0.0, 1.0))];
    let mut system = build(&sites, 1000.0, 1_000_000.0);
    let mut reg = StateRegistererInner::new();
    system.reverse_spin(1);
    reg.register(&system);
    let best = reg.minimal_state().unwrap().energy;
    system.reverse_spin(1);
    assert!(system.energy() > best);
    system_greedy::runner::Replicate::replicate_best(&mut system, &reg);
    assert_eq!(system.energy(), best);
    assert!(bits_get(system.system_state(), 1));
}

/// The spin state really moves through the bit vector: setting and reading
/// one bit round-trips, and a flip changes exactly that stored bit.
#[test]
fn bit_vector_carries_the_state() {
    let sites: Vec<Site> = vec![((0.0, 0.0), (0.0, 1.0)), ((1.0, 0.0), (0.0, 1.0))];
    let mut system = build(&sites, 1000.0, 1_000_000.0);
    assert_eq!(bits_len(system.system_state()), 2);
    assert!(!bits_get(system.system_state(), 1));
    system.reverse_spin(1);
    assert!(bits_get(system.system_state(), 1));
    assert!(!bits_get(system.system_state(), 0));
    let mut fresh = bits_repeat(true, 2);
    bits_set(&mut fresh, 0, false);
    system.set_system_state(fresh);
    assert!(!bits_get(system.system_state(), 0));
    assert!(bits_get(system.system_state(), 1));
}
