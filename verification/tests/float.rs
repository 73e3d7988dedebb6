use ecore_launcher::float::{divide, Double, Single, SINGLE_EPSILON, SINGLE_ONE};
use ecore_launcher::topology::detector::{
    DetectorPolicy, DEFAULT_CLUSTER_SPREAD, DEFAULT_FREQUENCY_RATIO, EXPLICIT_CONFIDENCE,
    HEURISTIC_CONFIDENCE, SINGLE_TYPE_CONFIDENCE, UNIFORM_CONFIDENCE, UNKNOWN_CONFIDENCE,
};

/// Numbers that follow one another without a pattern.
fn numbers(count: usize) -> Vec<u64> {
    let mut state: u64 = 0x9E37_79B9_7F4A_7C15;
    let mut all = Vec::new();
    for _ in 0..count {
        state ^= state << 13;
        state ^= state >> 7;
        state ^= state << 17;
        all.push(state);
    }
    all
}

fn edges() -> Vec<u64> {
    vec![
        0,
        1,
        2,
        3,
        7,
        10,
        16,
        17,
        1000,
        2127,
        2_000_000,
        2_127_000,
        (1 << 53) - 1,
        1 << 53,
        (1 << 53) + 1,
        (1 << 53) + 3,
        (1 << 54) + 2,
        (1 << 54) + 6,
        (1 << 63) - 1,
        1 << 63,
        (1 << 63) + 1024,
        u64::MAX - 1024,
        u64::MAX - 1,
        u64::MAX,
    ]
}

#[test]
fn division_rounds_as_the_machine_does() {
    let mut pairs: Vec<(u64, u64)> = Vec::new();
    for a in edges() {
        for b in edges() {
            pairs.push((a, b));
        }
    }
    let many = numbers(4000);
    for pair in many.windows(2) {
        pairs.push((pair[0], pair[1]));
        pairs.push((pair[0] >> 30, pair[1] >> 41));
        pairs.push((pair[0] >> 44, pair[1] >> 44));
        pairs.push((pair[0] >> 60, pair[1]));
    }
    for (a, b) in pairs {
        if b == 0 {
            continue;
        }
        assert_eq!(
            divide(a, b).bits,
            (a as f64 / b as f64).to_bits(),
            "{a} / {b}"
        );
    }
}

#[test]
fn quotients_are_shown_with_three_decimals() {
    let mut pairs: Vec<(u64, u64)> = vec![
        (2_127_000, 2_000_000),
        (17, 16),
        (1, 16),
        (3, 16),
        (1, 3),
        (2, 3),
        (1999, 2000),
        (19999, 10000),
        (u64::MAX, 1),
        (1, u64::MAX),
        (0, 1),
    ];
    for pair in numbers(2000).windows(2) {
        pairs.push((pair[0] >> 44, (pair[1] >> 50) + 1));
        pairs.push((pair[0] >> 20, (pair[1] >> 50) + 1));
    }
    for thousandth in 0..4000_u64 {
        pairs.push((2 * thousandth + 1, 2000));
    }
    for (a, b) in pairs {
        let number = a as f64 / b as f64;
        assert_eq!(
            divide(a, b).with_three_decimals(),
            format!("{number:.3}"),
            "{a} / {b}"
        );
    }
    assert_eq!(divide(2_127_000, 2_000_000).with_three_decimals(), "1.063");
    assert_eq!(divide(17, 16).with_three_decimals(), "1.062");
}

#[test]
fn singles_are_shown_with_two_decimals() {
    let mut all: Vec<f32> = vec![
        0.0,
        -0.0,
        0.82,
        0.72,
        0.98,
        0.25,
        0.95,
        0.125,
        0.375,
        0.005,
        0.015,
        1.0,
        -1.5,
        12_345.678,
        f32::MAX,
        f32::MIN,
        f32::MIN_POSITIVE,
        1e-45,
        f32::INFINITY,
        f32::NEG_INFINITY,
        f32::NAN,
    ];
    for number in numbers(4000) {
        all.push(f32::from_bits((number >> 32) as u32));
        all.push((number >> 50) as f32 / 1000.0);
    }
    for value in all {
        let shown = Single {
            bits: value.to_bits(),
        };
        assert_eq!(shown.with_two_decimals(), format!("{value:.2}"), "{value}");
    }
}

#[test]
fn an_epsilon_is_taken_off_as_the_machine_does() {
    let mut all: Vec<f32> = vec![0.0, 1.0, 0.98, 0.4, 0.5, 0.25, 0.1, 1e-3, 1e-6, f32::EPSILON];
    for number in numbers(4000) {
        all.push((number >> 40) as f32 / (1 << 24) as f32);
        all.push((number >> 40) as f32 / 1e10);
    }
    for value in all {
        let less = Single {
            bits: value.to_bits(),
        }
        .minus_epsilon();
        assert_eq!(
            f32::from_bits(less.bits),
            (value - f32::EPSILON).max(0.0),
            "{value}"
        );
    }
}

#[test]
fn sizes_are_compared_as_numbers() {
    let values = [0.0_f32, 1e-45, 1e-30, 0.5, 0.72, 0.98, 1.0, 3.5, 1e30];
    for a in values {
        for b in values {
            let left = Single { bits: a.to_bits() };
            let right = Single {
                bits: (-b).to_bits(),
            };
            assert_eq!(left.is_smaller(right), a < b);
        }
    }
    let wide = [0.0_f64, 5e-324, 0.08, 1.25, 1.5, 1e300];
    for a in wide {
        for b in wide {
            let left = Double { bits: a.to_bits() };
            let right = Double { bits: b.to_bits() };
            assert_eq!(left.is_smaller(right), a < b);
        }
    }
    let odd = Double {
        bits: f64::NAN.to_bits(),
    };
    assert!(!odd.is_finite());
    let below = Double {
        bits: (-2.0_f64).to_bits(),
    };
    assert!(below.is_negative() && below.is_finite());
}

#[test]
fn constants_are_the_bits_of_their_numbers() {
    assert_eq!(SINGLE_ONE, 1.0_f32.to_bits());
    assert_eq!(SINGLE_EPSILON, f32::EPSILON.to_bits());
    assert_eq!(DEFAULT_FREQUENCY_RATIO, 1.25_f64.to_bits());
    assert_eq!(DEFAULT_CLUSTER_SPREAD, 0.08_f64.to_bits());
    assert_eq!(EXPLICIT_CONFIDENCE, 0.98_f32.to_bits());
    assert_eq!(HEURISTIC_CONFIDENCE, 0.72_f32.to_bits());
    assert_eq!(SINGLE_TYPE_CONFIDENCE, 0.95_f32.to_bits());
    assert_eq!(UNIFORM_CONFIDENCE, 0.82_f32.to_bits());
    assert_eq!(UNKNOWN_CONFIDENCE, 0.25_f32.to_bits());
    assert_eq!(DetectorPolicy::default().minimum_cores_per_cluster, 2);
}
