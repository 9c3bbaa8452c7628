use system_greedy::bits::{bits_get, bits_len, bits_repeat, bits_set, SpinState};
use system_greedy::element::Element;
use system_greedy::matrix::Matrix;
use system_greedy::runner::StateRegistererInner;
use system_greedy::system::{Orientation, System};

type Site = ((f64, f64), (f64, f64));

fn dipole(p1: (f64, f64), m1: (f64, f64), p2: (f64, f64), m2: (f64, f64)) -> f64 {
    let rx = p1.0 - p2.0;
    let ry = p1.1 - p2.1;
    let r = (rx * rx + ry * ry).sqrt();
    let r3 = r * r * r;
    let r5 = r3 * r * r;
    let res = (m1.0 * m2.0 + m1.1 * m2.1) / r3
        - 3.0 * ((m1.0 * rx + m1.1 * ry) * (m2.0 * rx + m2.1 * ry)) / r5;
    if res.is_nan() {
        0.0
    } else {
        res
    }
}

fn build(sites: &[Site], coord_scale: f64, energy_scale: f64) -> System {
    let n = sites.len();
    let mut elements = Vec::new();
    for &(p, m) in sites {
        elements.push(Element::new(
            (p.0 * coord_scale).round() as i64,
            (p.1 * coord_scale).round() as i64,
            (m.0 * coord_scale).round() as i64,
            (m.1 * coord_scale).round() as i64,
        ));
    }
    let mut mat = Matrix::new(n);
    for i in 0..n {
        for j in (i + 1)..n {
            let e = dipole(sites[i].0, sites[i].1, sites[j].0, sites[j].1);
            let v = (e * energy_scale).round() as i64;
            mat.set(i, j, v);
            mat.set(j, i, v);
        }
    }
    System::new(elements, mat)
}

fn lcg(state: &mut u64) -> u64 {
    *state = state
        .wrapping_mul(6364136223846793005)
        .wrapping_add(1442695040888963407);
    *state
}

fn states_equal(a: &SpinState, b: &SpinState) -> bool {
    if bits_len(a) != bits_len(b) {
        return false;
    }
    for i in 0..bits_len(a) {
        if bits_get(a, i) != bits_get(b, i) {
            return false;
        }
    }
    true
}

/// Two sites on the x axis, both moments along y: the pair energy is
/// exactly `+1`, so anti-aligned spins are favored. With the chosen scale
/// the reported energies and row energies are exact integers.
#[test]
fn two_site_antiferromagnet() {
    let s: f64 = 1_000_000.0;
    let sites: Vec<Site> = vec![((0.0, 0.0), (0.0, 1.0)), ((1.0, 0.0), (0.0, 1.0))];
    let mut system = build(&sites, 1000.0, s);
    // Pair energy is +1: each row energy is +s, the unhalved total 2s, the
    // reported energy s.
    assert_eq!(system.row_energies().as_slice(), &[s as i64, s as i64]);
    assert_eq!(system.energy(), s as i64);
    assert_eq!(system.spin_excess(), 2);

    let mut reg = StateRegistererInner::new();
    let flips = system_greedy::greedy(&mut system, &mut reg);
    assert_eq!(flips, 1);
    assert_eq!(system.energy(), -(s as i64));
    assert_eq!(system.row_energies().as_slice(), &[-(s as i64), -(s as i64)]);
    assert_eq!(system.spin_excess(), 0);
    // The one flip was registered: the recorded minimum is the final state.
    assert_eq!(reg.minimal_state().unwrap().energy, -(s as i64));
}

/// The incremental bookkeeping of a random flip walk agrees exactly with a
/// recomputation from scratch.
#[test]
fn incremental_matches_recompute() {
    let sites: Vec<Site> = vec![
        ((0.0, 0.0), (1.0, 0.0)),
        ((1.0, 0.0), (1.0, 0.0)),
        ((0.0, 1.0), (0.0, 1.0)),
        ((1.0, 1.0), (0.5, 0.5)),
        ((2.0, 0.5), (1.0, 0.2)),
    ];
    let mut system = build(&sites, 1000.0, 1_000_000.0);
    let mut seed = 7u64;
    for _ in 0..200 {
        let i = (lcg(&mut seed) % 5) as usize;
        system.reverse_spin(i);
        let mut fresh = system.duplicate();
        fresh.recalculate_energy();
        fresh.recalculate_spin_excess();
        assert_eq!(fresh.energy(), system.energy());
        assert_eq!(fresh.spin_excess(), system.spin_excess());
        assert_eq!(fresh.row_energies().as_slice(), system.row_energies().as_slice());
    }
}

/// The stored row energies equal the defining sums, and the total is their
/// sum, exactly.
#[test]
fn row_energy_invariant() {
    let sites: Vec<Site> = vec![
        ((0.0, 0.0), (1.0, 0.0)),
        ((1.5, 0.0), (0.0, 1.0)),
        ((0.0, 1.5), (1.0, 1.0)),
    ];
    let mut system = build(&sites, 1000.0, 1_000_000.0);
    system.reverse_spin(1);
    let n = system.size();
    let mat = system.default_energy_matrix().duplicate();
    let mut signs = Vec::new();
    for i in 0..n {
        signs.push(if bits_get(system.system_state(), i) { -1i64 } else { 1i64 });
    }
    let mut total = 0i64;
    for i in 0..n {
        let mut row = 0i64;
        for j in 0..n {
            row += mat.get(i, j) * signs[i] * signs[j];
        }
        assert_eq!(system.row_energies()[i], row);
        total += row;
    }
    assert_eq!(system.energy(), total / 2);
}

/// Flipping the same spin twice leaves energy and spin excess exactly as
/// they were.
#[test]
fn flip_twice_is_identity() {
    let sites: Vec<Site> = vec![
        ((0.0, 0.0), (1.0, 0.0)),
        ((1.0, 0.0), (0.0, 1.0)),
        ((0.5, 1.0), (1.0, 1.0)),
    ];
    let mut system = build(&sites, 1000.0, 1_000_000.0);
    system.reverse_spin(2);
    let e = system.energy();
    let x = system.spin_excess();
    let rows: Vec<i64> = system.row_energies().clone();
    system.reverse_spin(1);
    system.reverse_spin(1);
    assert_eq!(system.energy(), e);
    assert_eq!(system.spin_excess(), x);
    assert_eq!(system.row_energies().clone(), rows);
}

/// Restoring the current state through `set_system_state` keeps the energy
/// identical.
#[test]
fn set_state_of_own_state_is_identity() {
    let sites: Vec<Site> = vec![
        ((0.0, 0.0), (1.0, 0.0)),
        ((1.0, 0.2), (0.3, 1.0)),
        ((0.1, 1.0), (1.0, 0.4)),
        ((1.2, 1.1), (0.2, 0.9)),
    ];
    let mut system = build(&sites, 1000.0, 1_000_000.0);
    system.reverse_spin(0);
    system.reverse_spin(3);
    let e = system.energy();
    let n = system.size();
    let mut copy = bits_repeat(false, n);
    for i in 0..n {
        bits_set(&mut copy, i, bits_get(system.system_state(), i));
    }
    system.set_system_state(copy);
    assert_eq!(system.energy(), e);
}

/// `set_spin` flips only on change; `set_spins` and `reverse_spins` apply in
/// order.
#[test]
fn spin_setters() {
    let sites: Vec<Site> = vec![
        ((0.0, 0.0), (1.0, 0.0)),
        ((1.0, 0.0), (0.0, 1.0)),
        ((0.0, 1.0), (1.0, 1.0)),
    ];
    let mut system = build(&sites, 1000.0, 1_000_000.0);
    system.set_spin(0, false);
    assert!(!bits_get(system.system_state(), 0));
    system.set_spin(0, true);
    assert!(bits_get(system.system_state(), 0));
    system.set_spins(&vec![(0, false), (1, true), (1, false)]);
    assert!(!bits_get(system.system_state(), 0));
    assert!(!bits_get(system.system_state(), 1));
    system.reverse_spins(&vec![2, 2, 1]);
    assert!(!bits_get(system.system_state(), 2));
    assert!(bits_get(system.system_state(), 1));
}

/// The neighbor index is sorted by distance, starts at the site itself, and
/// `neighbors` returns exactly the in-range prefix.
#[test]
fn neighbor_index() {
    let sites: Vec<Site> = vec![
        ((0.0, 0.0), (1.0, 0.0)),
        ((3.0, 0.0), (1.0, 0.0)),
        ((1.0, 0.0), (1.0, 0.0)),
        ((0.0, 2.0), (1.0, 0.0)),
    ];
    let system = build(&sites, 1000.0, 1_000_000.0);
    let rows = system.element_neighbors();
    for i in 0..4 {
        assert_eq!(rows[i][0], (i, 0));
        for k in 1..4 {
            assert!(rows[i][k - 1].1 <= rows[i][k].1);
        }
    }
    // Site 0: itself (0), then (1000,0) at 1e6, then (0,2000) at 4e6, then
    // (3000,0) at 9e6.
    assert_eq!(rows[0][1], (2, 1_000_000));
    assert_eq!(rows[0][2], (3, 4_000_000));
    assert_eq!(rows[0][3], (1, 9_000_000));
    // The farthest pair overall is (3,0)-(0,2): 9 + 4 units squared.
    assert_eq!(system.max_radius(), 13_000_000);

    let within = system.neighbors(0, 4_000_000);
    assert_eq!(within, vec![(0usize, 0i64), (2, 1_000_000), (3, 4_000_000)]);
    let within2 = system.neighbors2(0, 999_999);
    assert_eq!(within2, vec![0usize]);
}

/// Orientation follows the realized moment and flips with the spin.
#[test]
fn orientation() {
    let sites: Vec<Site> = vec![((0.0, 0.0), (0.0, 1.0)), ((1.0, 0.0), (1.0, 0.0))];
    let mut system = build(&sites, 1000.0, 1_000_000.0);
    assert_eq!(system.spin_orientation(0), Orientation::Down);
    system.reverse_spin(0);
    assert_eq!(system.spin_orientation(0), Orientation::Up);
    system.set_spin_orientation(0, Orientation::Down);
    assert_eq!(system.spin_orientation(0), Orientation::Down);
    assert!(!bits_get(system.system_state(), 0));
    // A moment along +x counts as Down as well (the tie goes to x >= 0).
    assert_eq!(system.spin_orientation(1), Orientation::Down);
}

/// `duplicate` really is independent and identical.
#[test]
fn duplicate_is_deep() {
    let sites: Vec<Site> = vec![((0.0, 0.0), (0.0, 1.0)), ((1.0, 0.0), (0.0, 1.0))];
    let mut system = build(&sites, 1000.0, 1_000_000.0);
    let copy = system.duplicate();
    assert!(states_equal(system.system_state(), copy.system_state()));
    system.reverse_spin(0);
    assert!(!states_equal(system.system_state(), copy.system_state()));
    assert_eq!(copy.energy(), -system.energy());
}
