use system_greedy::bits::{bits_get, bits_repeat, bits_set};
use system_greedy::element::Element;
use system_greedy::matrix::Matrix;
use system_greedy::perebor::{perebor_cluster, perebor_range, perebor_states};
use system_greedy::system::System;
use system_greedy::utils::gray_code;

type Site = ((f64, f64), (f64, f64));

fn dipole(p1: (f64, f64), m1: (f64, f64), p2: (f64, f64), m2: (f64, f64)) -> f64 {
    let rx = p1.0 - p2.0;
    let ry = p1.1 - p2.1;
    let r = (rx * rx + ry * ry).sqrt();
    let r3 = r * r * r;
    let r5 = r3 * r * r;
    let res = (m1.0 * m2.0 + m1.1 * m2.1) / r3
        - 3.0 * ((m1.0 * rx + m1.1 * ry) * (m2.0 * rx + m2.1 * ry)) / r5;
    if res.is_nan() {
        0.0
    } else {
        res
    }
}

fn build(sites: &[Site], coord_scale: f64, energy_scale: f64) -> System {
    let n = sites.len();
    let mut elements = Vec::new();
    for &(p, m) in sites {
        elements.push(Element::new(
            (p.0 * coord_scale).round() as i64,
            (p.1 * coord_scale).round() as i64,
            (m.0 * coord_scale).round() as i64,
            (m.1 * coord_scale).round() as i64,
        ));
    }
    let mut mat = Matrix::new(n);
    for i in 0..n {
        for j in (i + 1)..n {
            let e = dipole(sites[i].0, sites[i].1, sites[j].0, sites[j].1);
            let v = (e * energy_scale).round() as i64;
            mat.set(i, j, v);
            mat.set(j, i, v);
        }
    }
    System::new(elements, mat)
}

fn lcg(state: &mut u64) -> u64 {
    *state = state
        .wrapping_mul(6364136223846793005)
        .wrapping_add(1442695040888963407);
    *state
}

fn random_sites(n: usize, seed: u64) -> Vec<Site> {
    let mut s = seed;
    let mut sites = Vec::new();
    for _ in 0..n {
        let x = (lcg(&mut s) % 1000) as f64 / 100.0;
        let y = (lcg(&mut s) % 1000) as f64 / 100.0;
        let a = (lcg(&mut s) % 628) as f64 / 100.0;
        sites.push(((x, y), (a.cos(), a.sin())));
    }
    sites
}

fn brute_force_min(system: &System) -> i64 {
    let n = system.size();
    let mut sys = system.duplicate();
    let mut best = i64::MAX;
    for p in 0u64..(1u64 << n) {
        let mut state = bits_repeat(false, n);
        for t in 0..n {
            bits_set(&mut state, t, (p >> t) & 1 == 1);
        }
        sys.set_system_state(state);
        if sys.energy() < best {
            best = sys.energy();
        }
    }
    best
}

/// Over six bits, the Gray codes of 0..64 cover each of the 64 patterns
/// exactly once.
#[test]
fn gray_code_coverage() {
    let mut seen = [false; 64];
    for i in 0u64..64 {
        let g = gray_code(i) as usize;
        assert!(g < 64);
        assert!(!seen[g]);
        seen[g] = true;
    }
    assert!(seen.iter().all(|&b| b));
    // Successive codes differ in exactly one bit.
    for i in 1u64..64 {
        let d = gray_code(i) ^ gray_code(i - 1);
        assert_eq!(d.count_ones(), 1);
    }
}

/// Exhaustive enumeration of all twelve sites finds the true global
/// minimum, checked against plain brute force.
#[test]
fn enumerate_all_matches_brute_force() {
    let sites = random_sites(12, 99);
    let system = build(&sites, 1000.0, 1_000_000.0);
    let cluster: Vec<usize> = (0..12).collect();
    let best = perebor_cluster(&system, &cluster);
    assert_eq!(best.energy, brute_force_min(&system));
}

/// Enumerating a strict sub-cluster holds the other spins fixed.
#[test]
fn enumerate_cluster_respects_fixed_spins() {
    let sites = random_sites(6, 4);
    let mut system = build(&sites, 1000.0, 1_000_000.0);
    system.reverse_spin(5);
    let cluster: Vec<usize> = vec![0, 2, 3];
    let best = perebor_cluster(&system, &cluster);
    // Spin 5 stays down and spins 1 and 4 stay up in the returned state.
    assert!(bits_get(&best.state, 5));
    assert!(!bits_get(&best.state, 1));
    assert!(!bits_get(&best.state, 4));
    // And the result is no worse than any manual assignment of the cluster.
    let mut sys = system.duplicate();
    for p in 0u64..8 {
        let mut state = bits_repeat(false, 6);
        bits_set(&mut state, 5, true);
        for (t, &site) in cluster.iter().enumerate() {
            bits_set(&mut state, site, (p >> t) & 1 == 1);
        }
        sys.set_system_state(state);
        assert!(best.energy <= sys.energy());
    }
}

/// Splitting the pattern range across workers and merging by minimum gives
/// the same answer as one whole walk.
#[test]
fn range_partition_covers_everything() {
    let sites = random_sites(8, 77);
    let system = build(&sites, 1000.0, 1_000_000.0);
    let cluster: Vec<usize> = (0..8).collect();
    let whole = perebor_cluster(&system, &cluster);
    let mut best = i64::MAX;
    for w in 0..4u64 {
        let start = w * 64;
        let part = perebor_range(&system, &cluster, start, start + 64);
        if part.energy < best {
            best = part.energy;
        }
    }
    assert_eq!(best, whole.energy);
}

/// The empty cluster returns the current state unchanged.
#[test]
fn enumerate_empty_cluster() {
    let sites = random_sites(4, 11);
    let mut system = build(&sites, 1000.0, 1_000_000.0);
    system.reverse_spin(1);
    let best = perebor_cluster(&system, &Vec::new());
    assert_eq!(best.energy, system.energy());
    for i in 0..4 {
        assert_eq!(bits_get(&best.state, i), bits_get(system.system_state(), i));
    }
}

/// The collected near-minimum band: every returned state lies within forty
/// percent of the minimum's magnitude, with its exact energy.
#[test]
fn near_minimum_band() {
    let sites = random_sites(8, 21);
    let system = build(&sites, 1000.0, 1_000_000.0);
    let cluster: Vec<usize> = (0..8).collect();
    let saver = perebor_states(&system, &cluster);
    let emin = saver.minimal_state.energy;
    assert_eq!(emin, brute_force_min(&system));
    let mut sys = system.duplicate();
    let mut in_band_count = 0u64;
    for p in 0u64..256 {
        let mut state = bits_repeat(false, 8);
        for t in 0..8 {
            bits_set(&mut state, t, (p >> t) & 1 == 1);
        }
        sys.set_system_state(state);
        let e = sys.energy();
        if 5 * (e - emin).abs() <= 2 * emin.abs() {
            in_band_count += 1;
        }
    }
    assert_eq!(saver.states.len() as u64, in_band_count);
    for s in saver.states.iter() {
        assert!(5 * (s.energy - emin).abs() <= 2 * emin.abs());
    }
}
