use particle_life::emitter::emit;
use particle_life::force::{ForceModel, ForceTable};
use particle_life::integrator::step;
use particle_life::model::{Particle, ParticleType, Vec2};
use particle_life::render::{screen_cell, ScreenCell};

fn at_rest(x: i64, y: i64, id: ParticleType) -> Particle {
    Particle {
        p: Vec2 { x, y },
        v: Vec2 { x: 0, y: 0 },
        a: Vec2 { x: 0, y: 0 },
        id,
    }
}

#[test]
fn emit_scatters_inside_the_region_at_rest() {
    let particles = emit(10, 10, 10, ParticleType::Red);
    assert_eq!(particles.len(), 10);
    for q in &particles {
        assert!(0 <= q.p.x && q.p.x < 10_000);
        assert!(0 <= q.p.y && q.p.y < 10_000);
        assert_eq!(q.p.x % 1000, 0);
        assert_eq!(q.p.y % 1000, 0);
        assert_eq!(q.v, Vec2 { x: 0, y: 0 });
        assert_eq!(q.a, Vec2 { x: 0, y: 0 });
        assert_eq!(q.id, ParticleType::Red);
    }
}

#[test]
fn emit_of_zero_count_is_empty() {
    assert_eq!(emit(0, 10, 10, ParticleType::Blue).len(), 0);
}

#[test]
fn peak_separation_accelerates_at_exactly_max_force() {
    let table = ForceTable::new(vec![1000, 1000, 1000, 1000]).unwrap();
    let model = ForceModel::standard();
    let mut pop = vec![
        at_rest(0, 0, ParticleType::Red),
        at_rest(20_000, 0, ParticleType::Blue),
    ];
    step(&mut pop, &table, &model, 0);
    // 100.0 scaled, straight toward the other particle
    assert_eq!(pop[0].a, Vec2 { x: 100_000, y: 0 });
    assert_eq!(pop[1].a, Vec2 { x: -100_000, y: 0 });
}

#[test]
fn zero_tick_is_a_no_op_on_positions_and_velocities() {
    let table = ForceTable::new(vec![1000, -500, 250, 1000]).unwrap();
    let model = ForceModel::standard();
    let before = vec![
        Particle {
            p: Vec2 { x: 1234, y: -4321 },
            v: Vec2 { x: 55, y: -7 },
            a: Vec2 { x: 9, y: 9 },
            id: ParticleType::Red,
        },
        Particle {
            p: Vec2 { x: 20_000, y: 3 },
            v: Vec2 { x: -1, y: 2 },
            a: Vec2 { x: 0, y: 0 },
            id: ParticleType::Blue,
        },
    ];
    let mut pop = before.clone();
    step(&mut pop, &table, &model, 0);
    for (now, was) in pop.iter().zip(before.iter()) {
        assert_eq!(now.p, was.p);
        assert_eq!(now.v, was.v);
        assert_eq!(now.id, was.id);
    }
}

#[test]
fn zero_table_leaves_separated_particles_fixed() {
    let table = ForceTable::new(vec![0, 0, 0, 0]).unwrap();
    let model = ForceModel::standard();
    let mut pop = vec![
        at_rest(0, 0, ParticleType::Red),
        at_rest(10_000, 10_000, ParticleType::Blue),
        at_rest(-8_000, 6_000, ParticleType::Red),
    ];
    let initial = pop.clone();
    for _ in 0..25 {
        step(&mut pop, &table, &model, 100);
        for (now, was) in pop.iter().zip(initial.iter()) {
            assert_eq!(now.p, was.p);
            assert_eq!(now.v, Vec2 { x: 0, y: 0 });
            assert_eq!(now.a, Vec2 { x: 0, y: 0 });
            assert_eq!(now.id, was.id);
        }
    }
}

#[test]
fn one_tick_advances_velocity_then_position() {
    let table = ForceTable::new(vec![1000, 1000, 1000, 1000]).unwrap();
    let model = ForceModel::standard();
    let mut pop = vec![
        at_rest(0, 0, ParticleType::Red),
        at_rest(20_000, 0, ParticleType::Red),
    ];
    step(&mut pop, &table, &model, 100);
    // accel 100.0 toward the other; dv = 100000 * 100 / 1000 = 10000;
    // dp = 10000 * 100 / 1000 = 1000, applied with the fresh velocity
    assert_eq!(pop[0].a, Vec2 { x: 100_000, y: 0 });
    assert_eq!(pop[0].v, Vec2 { x: 10_000, y: 0 });
    assert_eq!(pop[0].p, Vec2 { x: 1000, y: 0 });
    assert_eq!(pop[1].v, Vec2 { x: -10_000, y: 0 });
    assert_eq!(pop[1].p, Vec2 { x: 19_000, y: 0 });
}

#[test]
fn near_field_pair_repels_and_separates() {
    let table = ForceTable::new(vec![0, 0, 0, 0]).unwrap();
    let model = ForceModel::standard();
    // 2.5 units apart: inside the clamp radius, so they repel even with a
    // zero parameter
    let mut pop = vec![
        at_rest(0, 0, ParticleType::Red),
        at_rest(2_500, 0, ParticleType::Red),
    ];
    step(&mut pop, &table, &model, 100);
    // force is -50.0 scaled; the minus sign points away from the other
    assert_eq!(pop[0].a, Vec2 { x: -50_000, y: 0 });
    assert_eq!(pop[1].a, Vec2 { x: 50_000, y: 0 });
    assert!(pop[1].p.x - pop[0].p.x > 2_500);
}

#[test]
fn clamped_pair_separates_tick_over_tick() {
    let table = ForceTable::new(vec![1000, 1000, 1000, 1000]).unwrap();
    let model = ForceModel::standard();
    // 3 units apart: inside the clamp radius, so the pair repels
    let mut pop = vec![
        at_rest(0, 0, ParticleType::Red),
        at_rest(3_000, 0, ParticleType::Red),
    ];
    let mut gap: i64 = 3_000;
    for _ in 0..5 {
        step(&mut pop, &table, &model, 50);
        let widened: i64 = pop[1].p.x - pop[0].p.x;
        assert!(widened >= gap);
        gap = widened;
        assert_eq!(pop[0].p.y, 0);
        assert_eq!(pop[1].p.y, 0);
        assert!(pop[0].v.x <= 0);
        assert!(pop[1].v.x >= 0);
    }
    assert!(gap > 3_000);
}

#[test]
fn population_length_and_tags_never_change() {
    let table = ForceTable::new(vec![1000, -1000, 500, -500]).unwrap();
    let model = ForceModel::standard();
    let mut pop = vec![
        at_rest(0, 0, ParticleType::Red),
        at_rest(7_000, 1_000, ParticleType::Blue),
        at_rest(-3_000, 9_000, ParticleType::Red),
        at_rest(15_000, -2_000, ParticleType::Blue),
    ];
    let tags: Vec<ParticleType> = pop.iter().map(|q| q.id).collect();
    for _ in 0..10 {
        step(&mut pop, &table, &model, 16);
        assert_eq!(pop.len(), 4);
        for (now, tag) in pop.iter().zip(tags.iter()) {
            assert_eq!(now.id, *tag);
        }
    }
}

#[test]
fn screen_cell_scales_and_truncates_like_the_renderer() {
    let center = Vec2 { x: 1_000_000, y: 1_000_000 };
    assert_eq!(
        screen_cell(Vec2 { x: 0, y: 0 }, center),
        ScreenCell { x: 9995, y: 9995 }
    );
    assert_eq!(
        screen_cell(Vec2 { x: 3000, y: -1000 }, center),
        ScreenCell { x: 10_025, y: 9985 }
    );
    let origin = Vec2 { x: 0, y: 0 };
    assert_eq!(
        screen_cell(Vec2 { x: -2000, y: 1000 }, origin),
        ScreenCell { x: -25, y: 5 }
    );
}
