use system_greedy::bits::{bits_get, bits_len, bits_repeat, bits_set};
use system_greedy::element::Element;
use system_greedy::matrix::Matrix;
use system_greedy::mfsys::MfsysError;
use system_greedy::system::System;

type Site = ((f64, f64), (f64, f64));

fn dipole(p1: (f64, f64), m1: (f64, f64), p2: (f64, f64), m2: (f64, f64)) -> f64 {
    let rx = p1.0 - p2.0;
    let ry = p1.1 - p2.1;
    let r = (rx * rx + ry * ry).sqrt();
    let r3 = r * r * r;
    let r5 = r3 * r * r;
    let res = (m1.0 * m2.0 + m1.1 * m2.1) / r3
        - 3.0 * ((m1.0 * rx + m1.1 * ry) * (m2.0 * rx + m2.1 * ry)) / r5;
    if res.is_nan() {
        0.0
    } else {
        res
    }
}

fn build(sites: &[Site], coord_scale: f64, energy_scale: f64) -> System {
    let n = sites.len();
    let mut elements = Vec::new();
    for &(p, m) in sites {
        elements.push(Element::new(
            (p.0 * coord_scale).round() as i64,
            (p.1 * coord_scale).round() as i64,
            (m.0 * coord_scale).round() as i64,
            (m.1 * coord_scale).round() as i64,
        ));
    }
    let mut mat = Matrix::new(n);
    for i in 0..n {
        for j in (i + 1)..n {
            let e = dipole(sites[i].0, sites[i].1, sites[j].0, sites[j].1);
            let v = (e * energy_scale).round() as i64;
            mat.set(i, j, v);
            mat.set(j, i, v);
        }
    }
    System::new(elements, mat)
}

/// The cairo pentagon lattice, as the reference geometry for the round-trip
/// scenario.
fn cairo_sites(a: f64, b: f64, c: f64, l: f64, cols: u64, rows: u64) -> Vec<Site> {
    let sin60 = (std::f64::consts::FRAC_PI_3).sin();
    let yd = (2.0 * a - c) / 2.0;
    let xd = yd / 2.0;
    let points = [
        (0.0, 0.0),
        (xd + b / 2.0, yd * sin60),
        (xd + b / 2.0, -yd * sin60),
        (-xd - b / 2.0, -yd * sin60),
        (-xd - b / 2.0, yd * sin60),
    ];
    let magn = [
        (l, 0.0),
        (l * 0.5, l * sin60),
        (l * 0.5, -l * sin60),
        (-l * 0.5, -l * sin60),
        (-l * 0.5, l * sin60),
    ];
    let points2 = [
        (points[0].1, points[0].0),
        (points[1].1, points[1].0),
        (points[4].1, points[4].0),
        (points[3].1, points[3].0),
        (points[2].1, points[2].0),
    ];
    let magn2 = [
        (magn[0].1, magn[0].0),
        (magn[1].1, magn[1].0),
        (magn[4].1, magn[4].0),
        (magn[3].1, magn[3].0),
        (magn[2].1, magn[2].0),
    ];
    let mut sites = Vec::new();
    for i in 0..cols {
        for j in 0..rows {
            for k in 0..5 {
                let (mut p, mut m) = if i % 2 == j % 2 {
                    (points[k], magn[k])
                } else {
                    (points2[k], magn2[k])
                };
                if m.1.is_sign_negative() {
                    m = (-m.0, -m.1);
                } else if m.1 == 0.0 && m.0.is_sign_negative() {
                    m = (-m.0, m.1);
                }
                p = (p.0 + i as f64 * 816.0, p.1 + j as f64 * 816.0);
                sites.push((p, m));
            }
        }
    }
    sites
}

fn lcg(state: &mut u64) -> u64 {
    *state = state
        .wrapping_mul(6364136223846793005)
        .wrapping_add(1442695040888963407);
    *state
}

/// Save, load, save: the second save is byte-identical and the loaded
/// system's energy matches exactly.
#[test]
fn save_load_save_small() {
    let sites: Vec<Site> = vec![
        ((0.0, 0.0), (1.0, 0.0)),
        ((1.0, 0.0), (0.0, 1.0)),
        ((-0.5, 1.0), (-1.0, 0.3)),
    ];
    let mut system = build(&sites, 1000.0, 1_000_000.0);
    system.reverse_spin(1);
    let bytes = system.save_mfsys();
    let loaded = System::load_mfsys(&bytes, system.default_energy_matrix().duplicate())
        .expect("canonical bytes failed to load");
    let again = loaded.save_mfsys();
    assert_eq!(bytes, again);
    assert_eq!(loaded.energy(), system.energy());
    for i in 0..3 {
        assert_eq!(
            bits_get(loaded.system_state(), i),
            bits_get(system.system_state(), i)
        );
    }
}

/// The round trip on a 5 by 5 cairo lattice with a random state.
#[test]
fn cairo_round_trip() {
    let sites = cairo_sites(472.0, 344.0, 376.0, 300.0, 5, 5);
    assert_eq!(sites.len(), 125);
    let mut system = build(&sites, 1000.0, 1_000_000_000.0);
    let n = system.size();
    let mut seed = 2024u64;
    let mut state = bits_repeat(false, n);
    for i in 0..n {
        bits_set(&mut state, i, (lcg(&mut seed) >> 33) % 2 == 1);
    }
    system.set_system_state(state);
    let saved = system.save_mfsys();
    let loaded = System::load_mfsys(&saved, system.default_energy_matrix().duplicate())
        .expect("saved lattice failed to load");
    let saved_again = loaded.save_mfsys();
    assert_eq!(saved, saved_again);
    assert_eq!(loaded.energy(), system.energy());
    assert_eq!(loaded.spin_excess(), system.spin_excess());
    assert_eq!(bits_len(loaded.system_state()), n);
}

/// A file with no parts section is malformed.
#[test]
fn load_rejects_garbage() {
    let bytes: Vec<u8> = b"not a site file at all".to_vec();
    let mat = Matrix::new(0);
    assert_eq!(
        System::load_mfsys(&bytes, mat).err(),
        Some(MfsysError::Malformed)
    );
}

/// A row with an unparseable number is malformed.
#[test]
fn load_rejects_bad_number() {
    let bytes: Vec<u8> = b"[parts]\n0\t12x\t0\t0\t1\t0\t0\t0\n".to_vec();
    let mat = Matrix::new(1);
    assert_eq!(
        System::load_mfsys(&bytes, mat).err(),
        Some(MfsysError::Malformed)
    );
}

/// A well-formed file whose site count disagrees with the matrix is a size
/// mismatch.
#[test]
fn load_rejects_size_mismatch() {
    let sites: Vec<Site> = vec![((0.0, 0.0), (0.0, 1.0)), ((1.0, 0.0), (0.0, 1.0))];
    let system = build(&sites, 1000.0, 1_000_000.0);
    let bytes = system.save_mfsys();
    let mat = Matrix::new(3);
    assert_eq!(
        System::load_mfsys(&bytes, mat).err(),
        Some(MfsysError::SizeMismatch)
    );
}

/// The loader accepts exactly the canonical form the saver writes: padding
/// a saved file, even with a blank line, is rejected.
#[test]
fn load_rejects_non_canonical_bytes() {
    let sites: Vec<Site> = vec![((0.0, 0.0), (0.0, 1.0)), ((1.0, 0.0), (0.0, 1.0))];
    let system = build(&sites, 1000.0, 1_000_000.0);
    let mut bytes = system.save_mfsys();
    bytes.push(b'\n');
    assert_eq!(
        System::load_mfsys(&bytes, system.default_energy_matrix().duplicate()).err(),
        Some(MfsysError::Malformed)
    );
}

/// Down spins are stored with inverted moments, and loading restores the
/// "up" moments.
#[test]
fn moment_inversion_convention() {
    let sites: Vec<Site> = vec![((0.0, 0.0), (0.0, 1.0)), ((1.0, 0.0), (0.0, 1.0))];
    let mut system = build(&sites, 1000.0, 1_000_000.0);
    system.reverse_spin(0);
    let bytes = system.save_mfsys();
    let text = String::from_utf8(bytes.clone()).unwrap();
    // Site 0 is down: its stored moment is (0, -1000), its flag 1.
    let row: Vec<&str> = text
        .lines()
        .skip_while(|l| *l != "[parts]")
        .nth(1)
        .unwrap()
        .split_whitespace()
        .collect();
    assert_eq!(row[4], "0");
    assert_eq!(row[5], "-1000");
    assert_eq!(row[7], "1");
    let loaded = System::load_mfsys(&bytes, system.default_energy_matrix().duplicate()).unwrap();
    assert_eq!(loaded.elements()[0].my, 1000);
    assert!(bits_get(loaded.system_state(), 0));
}
