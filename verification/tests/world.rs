use particle_sim::fixed::ONE;
use particle_sim::group::ParticleGroup;
use particle_sim::particle::Particle;
use particle_sim::render::{Color, DrawCall};
use particle_sim::vec2::Vec2;
use particle_sim::world::{
    starting_world, step, STARTING_MASS, STARTING_PARTICLES, STARTING_RADIUS, TIME_STEP,
};
use std::collections::HashMap;

fn milli(n: i64) -> i64 {
    n * (ONE / 1000)
}

fn red() -> Color {
    Color { r: milli(900), g: milli(160), b: milli(220), a: ONE }
}

fn green() -> Color {
    Color { r: 0, g: milli(890), b: milli(190), a: ONE }
}

fn group_of(id: u128, color: Color, mass: i64, places: &[(i64, i64)]) -> ParticleGroup {
    let mut particles = Vec::new();
    for &(x, y) in places {
        particles.push(Particle::new(Vec2::new(x, y)));
    }
    ParticleGroup { particles, color, mass, radius: ONE, id, interactions: HashMap::new() }
}

fn small_world() -> Vec<ParticleGroup> {
    let mut a = group_of(1, red(), ONE / 10, &[(milli(-500), 0), (milli(300), milli(400)), (0, milli(-700))]);
    let mut b = group_of(2, green(), ONE / 10, &[(milli(600), milli(-100)), (milli(-200), milli(800))]);
    a.interactions.insert(1, ONE);
    a.interactions.insert(2, -ONE);
    b.interactions.insert(1, 3 * ONE);
    a.particles[0].vel = Vec2::new(milli(200), milli(-100));
    b.particles[1].vel = Vec2::new(milli(-900), milli(300));
    vec![a, b]
}

fn same_groups(left: &[ParticleGroup], right: &[ParticleGroup]) -> bool {
    left.len() == right.len()
        && left.iter().zip(right.iter()).all(|(l, r)| {
            l.id == r.id
                && l.particles == r.particles
                && l.color == r.color
                && l.mass == r.mass
                && l.radius == r.radius
                && l.interactions == r.interactions
        })
}

#[test]
fn constants_of_the_starting_world() {
    assert_eq!(TIME_STEP, ONE / 100);
    assert_eq!(STARTING_MASS, ONE / 10);
    assert_eq!(STARTING_RADIUS, ONE);
    assert_eq!(STARTING_PARTICLES, 3);
}

#[test]
fn starting_world_has_two_groups_of_three() {
    let world = starting_world(red(), green());
    assert_eq!(world.len(), 2);
    assert_eq!(world[0].color, red());
    assert_eq!(world[1].color, green());
    for group in &world {
        assert_eq!(group.mass, 100_000_000);
        assert_eq!(group.radius, ONE);
        assert_eq!(group.particles.len(), 3);
        for p in &group.particles {
            assert!(-ONE <= p.pos.x && p.pos.x <= ONE);
            assert!(-ONE <= p.pos.y && p.pos.y <= ONE);
            assert_eq!(p.vel, Vec2::zero());
        }
    }
}

#[test]
fn starting_world_lets_only_the_first_group_feel_forces() {
    let world = starting_world(red(), green());
    assert_ne!(world[0].id, world[1].id);
    for group in &world {
        assert_eq!((group.id >> 76) & 0xf, 4);
        assert_eq!((group.id >> 62) & 0x3, 2);
    }
    assert_eq!(world[0].interactions.len(), 2);
    assert_eq!(world[0].interactions.get(&world[0].id), Some(&ONE));
    assert_eq!(world[0].interactions.get(&world[1].id), Some(&-ONE));
    assert!(world[1].interactions.is_empty());
}

#[test]
fn second_group_of_the_starting_world_never_moves() {
    let mut world = starting_world(red(), green());
    let before = world[1].particles.clone();
    for _ in 0..25 {
        world = step(&world, TIME_STEP, 10 * ONE, 800 * ONE, 600 * ONE).0;
    }
    assert_eq!(world[1].particles, before);
    assert!(world[0].particles.iter().any(|p| p.vel != Vec2::zero()));
}

#[test]
fn step_of_an_empty_world() {
    let (next, calls) = step(&Vec::new(), TIME_STEP, ONE, ONE, ONE);
    assert!(next.is_empty());
    assert!(calls.is_empty());
}

#[test]
fn step_is_repeatable() {
    let world = small_world();
    let (first, first_calls) = step(&world, TIME_STEP, 10 * ONE, 800 * ONE, 600 * ONE);
    let (second, second_calls) = step(&world, TIME_STEP, 10 * ONE, 800 * ONE, 600 * ONE);
    assert!(same_groups(&first, &second));
    assert_eq!(first_calls, second_calls);
    assert!(same_groups(&world, &small_world()));
}

#[test]
fn many_steps_are_repeatable() {
    let mut one = small_world();
    let mut two = small_world();
    for _ in 0..200 {
        one = step(&one, TIME_STEP, ONE, ONE, ONE).0;
    }
    for _ in 0..200 {
        two = step(&two, TIME_STEP, ONE, ONE, ONE).0;
    }
    assert!(same_groups(&one, &two));
    assert!(!same_groups(&one, &small_world()));
}

#[test]
fn step_gives_each_group_what_the_old_world_does_to_it() {
    let world = small_world();
    let (next, _) = step(&world, TIME_STEP, ONE, ONE, ONE);
    let mut expected = Vec::new();
    for group in world.iter().rev() {
        let mut new_group = group.interact_all(&world, TIME_STEP);
        new_group.update(TIME_STEP);
        expected.push(new_group);
    }
    expected.reverse();
    assert!(same_groups(&next, &expected));
}

#[test]
fn step_does_not_show_a_group_the_new_state_of_another() {
    let world = small_world();
    let (next, _) = step(&world, TIME_STEP, ONE, ONE, ONE);
    let mut first = world[0].interact_all(&world, TIME_STEP);
    first.update(TIME_STEP);
    let half_done = vec![first, world[1].clone()];
    let mut second_from_new = world[1].interact_all(&half_done, TIME_STEP);
    second_from_new.update(TIME_STEP);
    let mut second_from_old = world[1].interact_all(&world, TIME_STEP);
    second_from_old.update(TIME_STEP);
    assert_eq!(next[1].particles, second_from_old.particles);
    assert_ne!(next[1].particles, second_from_new.particles);
}

#[test]
fn step_draws_before_it_moves() {
    let mut a = group_of(1, red(), ONE, &[(0, 0)]);
    a.particles[0].vel = Vec2::new(ONE, 0);
    let world = vec![a];
    let (next, calls) = step(&world, milli(100), 10 * ONE, 800 * ONE, 600 * ONE);
    assert_eq!(calls, vec![DrawCall { x: 400 * ONE, y: 300 * ONE, radius: 10 * ONE, color: red() }]);
    assert_eq!(next[0].particles[0].pos, Vec2::new(milli(100), 0));
    let (_, later) = step(&next, milli(100), 10 * ONE, 800 * ONE, 600 * ONE);
    assert_eq!(later, vec![DrawCall { x: 440 * ONE, y: 300 * ONE, radius: 10 * ONE, color: red() }]);
}

#[test]
fn step_draws_group_after_group() {
    let world = small_world();
    let (_, calls) = step(&world, TIME_STEP, 10 * ONE, 800 * ONE, 600 * ONE);
    let mut expected = Vec::new();
    for group in &world {
        expected.extend(group.draw(10 * ONE, 800 * ONE, 600 * ONE));
    }
    assert_eq!(calls.len(), 5);
    assert_eq!(calls, expected);
    assert!(calls[..3].iter().all(|c| c.color == red()));
    assert!(calls[3..].iter().all(|c| c.color == green()));
}

#[test]
fn step_keeps_identities_and_interaction_maps() {
    let world = small_world();
    let (next, _) = step(&world, TIME_STEP, ONE, ONE, ONE);
    assert_eq!(next.len(), 2);
    for (old, new) in world.iter().zip(next.iter()) {
        assert_eq!(old.id, new.id);
        assert_eq!(old.interactions, new.interactions);
        assert_eq!(old.mass, new.mass);
        assert_eq!(old.radius, new.radius);
        assert_eq!(old.color, new.color);
        assert_eq!(old.particles.len(), new.particles.len());
    }
}

#[test]
fn particles_stay_in_the_box_and_below_speed_one() {
    let mut world = small_world();
    world[0].interactions.insert(1, 40 * ONE);
    world[1].interactions.insert(2, -25 * ONE);
    for _ in 0..300 {
        world = step(&world, TIME_STEP, ONE, ONE, ONE).0;
        for group in &world {
            for p in &group.particles {
                assert!(-ONE <= p.pos.x && p.pos.x <= ONE);
                assert!(-ONE <= p.pos.y && p.pos.y <= ONE);
                let speed_squared = (p.vel.x as i128).pow(2) + (p.vel.y as i128).pow(2);
                assert!(speed_squared <= (ONE as i128).pow(2));
            }
        }
    }
}

fn as_float(v: i64) -> f64 {
    v as f64 / ONE as f64
}

/// One tick of a world in double precision, with the same formulas.
fn float_step(
    places: &mut Vec<Vec<[f64; 2]>>,
    speeds: &mut Vec<Vec<[f64; 2]>>,
    masses: &[f64],
    coefficients: &[Vec<Option<f64>>],
    dt: f64,
) {
    let old_places = places.clone();
    for g in 0..places.len() {
        for o in 0..old_places.len() {
            let Some(coefficient) = coefficients[g][o] else {
                continue;
            };
            for i in 0..places[g].len() {
                let mut force = [0.0f64, 0.0f64];
                for q in &old_places[o] {
                    let dx = q[0] - old_places[g][i][0];
                    let dy = q[1] - old_places[g][i][1];
                    let dist = (dx * dx + dy * dy).sqrt();
                    if dist == 0.0 {
                        continue;
                    }
                    let size = coefficient * masses[g] * masses[o] / (dist * dist);
                    force[0] += dx / dist * size;
                    force[1] += dy / dist * size;
                }
                let v = &mut speeds[g][i];
                v[0] += dt * force[0];
                v[1] += dt * force[1];
                let speed = (v[0] * v[0] + v[1] * v[1]).sqrt();
                if speed > 1.0 {
                    v[0] /= speed;
                    v[1] /= speed;
                }
            }
        }
        for i in 0..places[g].len() {
            for axis in 0..2 {
                places[g][i][axis] += speeds[g][i][axis] * dt;
                if places[g][i][axis] < -1.0 {
                    places[g][i][axis] = -1.0;
                    speeds[g][i][axis] = -speeds[g][i][axis];
                }
                if places[g][i][axis] > 1.0 {
                    places[g][i][axis] = 1.0;
                    speeds[g][i][axis] = -speeds[g][i][axis];
                }
            }
        }
    }
}

#[test]
fn steps_agree_with_double_precision() {
    let mut world = small_world();
    let masses: Vec<f64> = world.iter().map(|g| as_float(g.mass)).collect();
    let coefficients: Vec<Vec<Option<f64>>> = world
        .iter()
        .map(|g| world.iter().map(|o| g.interactions.get(&o.id).map(|&c| as_float(c))).collect())
        .collect();
    let mut places: Vec<Vec<[f64; 2]>> = world
        .iter()
        .map(|g| g.particles.iter().map(|p| [as_float(p.pos.x), as_float(p.pos.y)]).collect())
        .collect();
    let mut speeds: Vec<Vec<[f64; 2]>> = world
        .iter()
        .map(|g| g.particles.iter().map(|p| [as_float(p.vel.x), as_float(p.vel.y)]).collect())
        .collect();
    for _ in 0..100 {
        world = step(&world, TIME_STEP, ONE, ONE, ONE).0;
        float_step(&mut places, &mut speeds, &masses, &coefficients, as_float(TIME_STEP));
    }
    for (g, group) in world.iter().enumerate() {
        for (i, p) in group.particles.iter().enumerate() {
            assert!((as_float(p.pos.x) - places[g][i][0]).abs() < 1e-5);
            assert!((as_float(p.pos.y) - places[g][i][1]).abs() < 1e-5);
            assert!((as_float(p.vel.x) - speeds[g][i][0]).abs() < 1e-5);
            assert!((as_float(p.vel.y) - speeds[g][i][1]).abs() < 1e-5);
        }
    }
}
