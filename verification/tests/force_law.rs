use particle_life::force::{force, ConfigError, ForceModel, ForceTable};
use particle_life::math::{isqrt, mul_div};
use particle_life::model::{distance, ParticleType, Vec2};

fn standard_table(param: i64) -> ForceTable {
    ForceTable::new(vec![param, param, param, param]).unwrap()
}

#[test]
fn near_field_is_repulsive_and_rises() {
    let m = ForceModel::standard();
    assert_eq!(m.magnitude(1000, 0), -100_000);
    assert_eq!(m.magnitude(1000, 2500), -50_000);
    assert_eq!(m.magnitude(1000, 5000), 0);
    assert!(m.magnitude(1000, 0) < m.magnitude(1000, 2500));
    assert!(m.magnitude(1000, 2500) < m.magnitude(1000, 5000));
    // the parameter plays no part below the clamp radius
    assert_eq!(m.magnitude(-1000, 2500), -50_000);
}

#[test]
fn tent_peaks_at_peak_distance() {
    let m = ForceModel::standard();
    // halfway up the rising side: param 1.0 gives exactly half the peak
    assert_eq!(m.magnitude(1000, 12_500), 50_000);
    // the peak itself: exactly param * max_force
    assert_eq!(m.magnitude(1000, 20_000), 100_000);
    // one rising-side width past the peak: back to zero
    assert_eq!(m.magnitude(1000, 35_000), 0);
    // beyond that the force keeps falling and reverses sign
    assert_eq!(m.magnitude(1000, 40_000), -33_333);
}

#[test]
fn tent_is_symmetric_about_peak() {
    let m = ForceModel::standard();
    for t in [0i64, 1000, 2500, 7000, 14_000] {
        assert_eq!(m.magnitude(1000, 20_000 - t), m.magnitude(1000, 20_000 + t));
        assert_eq!(m.magnitude(-700, 20_000 - t), m.magnitude(-700, 20_000 + t));
    }
}

#[test]
fn negative_parameter_mirrors_the_tent() {
    let m = ForceModel::standard();
    assert_eq!(m.magnitude(-1000, 20_000), -100_000);
    assert_eq!(m.magnitude(-1000, 12_500), -50_000);
    assert_eq!(m.magnitude(0, 10_000), 0);
}

#[test]
fn lookup_is_row_major_and_asymmetric() {
    let t = ForceTable::new(vec![1000, 2000, 3000, 4000]).unwrap();
    let m = ForceModel::standard();
    assert_eq!(force(&t, &m, ParticleType::Red, ParticleType::Red, 20_000), 100_000);
    assert_eq!(force(&t, &m, ParticleType::Red, ParticleType::Blue, 20_000), 200_000);
    assert_eq!(force(&t, &m, ParticleType::Blue, ParticleType::Red, 20_000), 300_000);
    assert_eq!(force(&t, &m, ParticleType::Blue, ParticleType::Blue, 20_000), 400_000);
}

#[test]
fn model_construction_rejects_degenerate_constants() {
    assert_eq!(
        ForceModel::new(5000, 5000, 100_000).unwrap_err(),
        ConfigError::InvalidDistances
    );
    assert_eq!(
        ForceModel::new(0, 20_000, 100_000).unwrap_err(),
        ConfigError::InvalidDistances
    );
    assert_eq!(
        ForceModel::new(5000, 20_000, 0).unwrap_err(),
        ConfigError::InvalidMaxForce
    );
    let m = ForceModel::new(5000, 20_000, 100_000).unwrap();
    assert_eq!(m, ForceModel::standard());
}

#[test]
fn table_construction_rejects_bad_tables() {
    assert_eq!(
        ForceTable::new(vec![0, 0, 0]).unwrap_err(),
        ConfigError::WrongTableSize
    );
    assert_eq!(
        ForceTable::new(vec![0, 0, 0, 2_000_000]).unwrap_err(),
        ConfigError::ParamOutOfRange
    );
    assert!(ForceTable::new(vec![0, 0, 0, 0]).is_ok());
    let _ = standard_table(1000);
}

#[test]
fn integer_square_root_brackets_its_input() {
    assert_eq!(isqrt(0), 0);
    assert_eq!(isqrt(15), 3);
    assert_eq!(isqrt(16), 4);
    assert_eq!(isqrt(24), 4);
    assert_eq!(isqrt(25), 5);
    assert_eq!(isqrt(999_999), 999);
    assert_eq!(isqrt(1_000_000), 1000);
}

#[test]
fn distance_is_euclidean_and_zero_only_when_coincident() {
    let p = Vec2 { x: 0, y: 0 };
    let q = Vec2 { x: 3000, y: 4000 };
    assert_eq!(distance(p, q), 5000);
    assert_eq!(distance(q, p), 5000);
    assert_eq!(distance(p, p), 0);
    // a separation that is no perfect square rounds down
    assert_eq!(distance(p, Vec2 { x: 1000, y: 1000 }), 1414);
}

#[test]
fn mul_div_truncates_toward_zero() {
    assert_eq!(mul_div(7, 3, 2), 10);
    assert_eq!(mul_div(-7, 3, 2), -10);
    assert_eq!(mul_div(7, -3, 2), -10);
    assert_eq!(mul_div(-7, -3, 2), 10);
    assert_eq!(mul_div(0, 5, 3), 0);
}
