use lattice_pi::character::{chi, sum_chi};
use lattice_pi::lattice::{
    num_latice_points_in_circle_sqrtn, num_latice_points_of_factors, num_latice_points_sqrtn,
};

#[test]
fn test_chi() {
    let cases: [(u32, i8); 9] = [
        (0, 0),
        (1, 1),
        (2, 0),
        (3, -1),
        (4, 0),
        (5, 1),
        (6, 0),
        (7, -1),
        (8, 0),
    ];
    for (input, expected) in cases {
        assert_eq!(chi(input), expected);
    }
}

#[test]
fn chi_values_and_parity() {
    for n in 0u32..1000 {
        let c = chi(n);
        assert!(c == -1 || c == 0 || c == 1);
        assert_eq!(c == 0, n % 2 == 0);
    }
    assert_eq!(chi(u32::MAX), -1);
    assert_eq!(chi(u32::MAX - 2), 1);
}

#[test]
fn chi_on_residue_classes() {
    for k in 0u32..1000 {
        assert_eq!(chi(4 * k + 1), 1);
        assert_eq!(chi(4 * k + 3), -1);
    }
    assert_eq!(chi(0), 0);
}

#[test]
fn test_sum_chi() {
    let cases: [(u32, u32, u64); 10] = [
        (2, 2, 1),
        (2, 3, 1),
        (2, 4, 1),
        (3, 1, 0),
        (3, 2, 1),
        (3, 3, 0),
        (3, 4, 1),
        (5, 1, 2),
        (5, 2, 3),
        (5, 3, 4),
    ];
    for (prime, pow, expected) in cases {
        assert_eq!(sum_chi(prime, pow), expected);
    }
}

#[test]
fn sum_chi_with_no_exponent_is_one() {
    for p in [2u32, 3, 5, 7, 11, 13, 4294967291] {
        assert_eq!(sum_chi(p, 0), 1);
    }
}

#[test]
fn sum_chi_of_two_is_one() {
    for max_pow in [0u32, 1, 2, 31, 32, 1000] {
        assert_eq!(sum_chi(2, max_pow), 1);
    }
}

#[test]
fn sum_chi_large_exponents() {
    assert_eq!(sum_chi(13, 99), 100);
    assert_eq!(sum_chi(7, 99), 0);
    assert_eq!(sum_chi(7, 100), 1);
}

#[test]
fn lattice_points_radius_one() {
    assert_eq!(num_latice_points_sqrtn(1), 4);
}

#[test]
fn lattice_points_radius_two() {
    assert_eq!(num_latice_points_sqrtn(2), 4);
}

#[test]
fn lattice_points_radius_five() {
    // (+-1, +-2) and (+-2, +-1)
    assert_eq!(num_latice_points_sqrtn(5), 8);
}

#[test]
fn lattice_points_other_radii() {
    assert_eq!(num_latice_points_sqrtn(3), 0);
    assert_eq!(num_latice_points_sqrtn(4), 4);
    assert_eq!(num_latice_points_sqrtn(9), 4);
    assert_eq!(num_latice_points_sqrtn(25), 12);
    assert_eq!(num_latice_points_sqrtn(65), 16);
    assert_eq!(num_latice_points_sqrtn(21), 0);
}

#[test]
fn lattice_points_match_enumeration() {
    for n in 1u32..=300 {
        let mut count: u64 = 0;
        for x in -20i64..=20 {
            for y in -20i64..=20 {
                if x * x + y * y == n as i64 {
                    count += 1;
                }
            }
        }
        assert_eq!(num_latice_points_sqrtn(n), count, "radius squared {}", n);
    }
}

#[test]
fn total_small_bounds() {
    assert_eq!(num_latice_points_in_circle_sqrtn(0), 0);
    assert_eq!(num_latice_points_in_circle_sqrtn(1), 4);
    assert_eq!(num_latice_points_in_circle_sqrtn(2), 8);
    assert_eq!(num_latice_points_in_circle_sqrtn(5), 20);
}

#[test]
fn total_for_radius_one_hundred() {
    // 31417 points with x^2 + y^2 <= 10000, less the origin
    assert_eq!(num_latice_points_in_circle_sqrtn(10000), 31416);
}

#[test]
fn total_across_block_boundary() {
    let n: u32 = 70000;
    let mut expected: u64 = 0;
    for r in 1..=n {
        expected += num_latice_points_sqrtn(r);
    }
    assert_eq!(num_latice_points_in_circle_sqrtn(n), expected);
}

#[test]
fn total_is_monotone() {
    let mut prev = num_latice_points_in_circle_sqrtn(0);
    for n in 1u32..200 {
        let t = num_latice_points_in_circle_sqrtn(n);
        assert!(t >= prev);
        prev = t;
    }
}

#[test]
fn pi_estimate_converges() {
    let n: u32 = 10000;
    let estimate = num_latice_points_in_circle_sqrtn(n) as f64 / n as f64;
    assert!((estimate - std::f64::consts::PI).abs() < 0.01);
    let coarse = num_latice_points_in_circle_sqrtn(100) as f64 / 100.0;
    assert!((estimate - std::f64::consts::PI).abs() <= (coarse - std::f64::consts::PI).abs());
}

#[test]
fn total_in_any_order() {
    let n: u32 = 500;
    let mut counts: Vec<u64> = (1..=n).map(num_latice_points_sqrtn).collect();
    let forward: u64 = counts.iter().sum();
    counts.reverse();
    let backward: u64 = counts.iter().sum();
    let mut interleaved: u64 = 0;
    for i in (0..counts.len()).step_by(2).chain((1..counts.len()).step_by(2)) {
        interleaved += counts[i];
    }
    let total = num_latice_points_in_circle_sqrtn(n);
    assert_eq!(forward, total);
    assert_eq!(backward, total);
    assert_eq!(interleaved, total);
}

#[test]
fn total_twice_is_identical() {
    assert_eq!(
        num_latice_points_in_circle_sqrtn(12345),
        num_latice_points_in_circle_sqrtn(12345)
    );
}

#[test]
fn lattice_points_from_factorization() {
    assert_eq!(num_latice_points_of_factors(&vec![]), 4);
    assert_eq!(num_latice_points_of_factors(&vec![(2, 1)]), 4);
    assert_eq!(num_latice_points_of_factors(&vec![(5, 1)]), 8);
    assert_eq!(num_latice_points_of_factors(&vec![(5, 1), (13, 1)]), 16);
    assert_eq!(num_latice_points_of_factors(&vec![(3, 1), (5, 2)]), 0);
    assert_eq!(num_latice_points_of_factors(&vec![(2, 3), (3, 2), (5, 1)]), 8);
}
