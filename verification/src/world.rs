//! The world is the list of all groups. One tick derives the next world from
//! the current one; the current one is read and never changed, so no group
//! sees what the tick has already made of another.

use crate::fixed::ONE;
use crate::group::{
    after_interactions, lemma_interactions_cap_speed, lemma_interactions_keep_places, views,
    GroupView, ParticleGroup,
};
use crate::particle::{
    draw_call, in_box, integrated, lemma_integrated_keeps_speed, lemma_integrated_stays_in_box,
    Particle,
};
use crate::random::is_random_uuid;
use crate::render::{Color, DrawCall};
use crate::vec2::{norm_squared, zero_vector};
use vstd::prelude::*;

verus! {

broadcast use vstd::std_specs::hash::group_hash_axioms;

/// The time that one tick advances the world: a hundredth.
pub const TIME_STEP: i64 = 10_000_000;

/// The mass of a particle of the starting world: a tenth.
pub const STARTING_MASS: i64 = 100_000_000;

/// The radius of the groups of the starting world: one.
pub const STARTING_RADIUS: i64 = 1_000_000_000;

/// The number of particles in each group of the starting world.
pub const STARTING_PARTICLES: usize = 3;

/// The group `group` one tick after the world `world`: all groups of the
/// world have acted on it, then its particles have moved.
pub open spec fn advanced(group: GroupView, world: Seq<GroupView>, dt: i64) -> GroupView {
    group.with_particles(
        after_interactions(group, world, dt).map_values(|p: Particle| integrated(p, dt)),
    )
}

/// The world one tick after `world`.
pub open spec fn next_world(world: Seq<GroupView>, dt: i64) -> Seq<GroupView> {
    Seq::new(world.len(), |i: int| advanced(world[i], world, dt))
}

/// The requests to draw `group` during a tick on `world`: its particles
/// with the velocities that the tick has given them, at the places where the
/// tick has found them.
pub open spec fn picture_of(
    group: GroupView,
    world: Seq<GroupView>,
    dt: i64,
    radius: i64,
    width: i64,
    height: i64,
) -> Seq<DrawCall> {
    after_interactions(group, world, dt).map_values(
        |p: Particle| draw_call(p, group.color, radius, width, height),
    )
}

/// The requests to draw the first `count` groups of `world` during a tick,
/// group after group.
pub open spec fn picture(
    world: Seq<GroupView>,
    count: nat,
    dt: i64,
    radius: i64,
    width: i64,
    height: i64,
) -> Seq<DrawCall>
    decreases count,
{
    if count == 0 {
        Seq::empty()
    } else {
        picture(world, (count - 1) as nat, dt, radius, width, height) + picture_of(
            world[count - 1],
            world,
            dt,
            radius,
            width,
            height,
        )
    }
}

/// What a tick makes of a group depends on that group and on the world that
/// the tick started from, and on nothing else: not on the place of the group
/// in the order of work, nor on what the tick has made of any other group.
/// The next world has the groups of the old one, in the same order, each
/// with its identity, colour, mass, radius and interaction map.
pub proof fn lemma_tick_reads_snapshot(world: Seq<GroupView>, dt: i64, i: int)
    requires
        0 <= i < world.len(),
    ensures
        next_world(world, dt).len() == world.len(),
        next_world(world, dt)[i] == advanced(world[i], world, dt),
        next_world(world, dt)[i] == world[i].with_particles(next_world(world, dt)[i].particles),
        next_world(world, dt)[i].particles.len() == world[i].particles.len(),
{
    lemma_interactions_keep_places(world[i], world, dt);
}

/// A world is settled when every particle of every group lies in the box
/// and is no faster than one.
pub open spec fn settled(world: Seq<GroupView>) -> bool {
    forall|i: int, k: int|
        0 <= i < world.len() && 0 <= k < world[i].particles.len() ==> in_box(
            (#[trigger] world[i].particles[k]).pos,
        ) && norm_squared(world[i].particles[k].vel) <= ONE * ONE
}

/// After a tick every particle lies in the box, wherever it was; and the
/// world that follows a settled world is settled.
pub proof fn lemma_tick_keeps_the_world_settled(world: Seq<GroupView>, dt: i64)
    ensures
        forall|i: int, k: int|
            0 <= i < next_world(world, dt).len() && 0 <= k < next_world(
                world,
                dt,
            )[i].particles.len() ==> in_box((#[trigger] next_world(world, dt)[i].particles[k]).pos),
        settled(world) ==> settled(next_world(world, dt)),
{
    let next = next_world(world, dt);
    assert forall|i: int, k: int|
        0 <= i < next.len() && 0 <= k < next[i].particles.len() implies in_box(
        (#[trigger] next[i].particles[k]).pos,
    ) && (settled(world) ==> norm_squared(next[i].particles[k].vel) <= ONE * ONE) by {
        lemma_interactions_keep_places(world[i], world, dt);
        let forced = after_interactions(world[i], world, dt)[k];
        lemma_integrated_stays_in_box(forced, dt);
        if settled(world) {
            assert(norm_squared(world[i].particles[k].vel) <= ONE * ONE);
            lemma_interactions_cap_speed(world[i], world, dt, k);
            lemma_integrated_keeps_speed(forced, dt);
        }
    }
}

/// One tick.
///
/// Returns the next world and the requests to draw this tick's picture. For
/// each group of `world`, in order: all groups of `world` act on it; it is
/// drawn, with disks of radius `radius` on a screen `width` wide and `height`
/// high, where its particles were before the tick; then its particles move
/// for the time `dt`.
pub fn step(world: &Vec<ParticleGroup>, dt: i64, radius: i64, width: i64, height: i64) -> (out: (
    Vec<ParticleGroup>,
    Vec<DrawCall>,
))
    ensures
        out.0@.len() == world@.len(),
        views(out.0@) == next_world(views(world@), dt),
        out.1@ == picture(views(world@), world@.len(), dt, radius, width, height),
{
    let mut new_groups: Vec<ParticleGroup> = Vec::new();
    let mut calls: Vec<DrawCall> = Vec::new();
    let mut i: usize = 0;
    while i < world.len()
        invariant
            i <= world.len(),
            new_groups@.len() == i,
            forall|k: int|
                0 <= k < i ==> (#[trigger] new_groups@[k])@ == advanced(
                    views(world@)[k],
                    views(world@),
                    dt,
                ),
            calls@ == picture(views(world@), i as nat, dt, radius, width, height),
        decreases world.len() - i,
    {
        let mut new_group = world[i].interact_all(world, dt);
        let mut drawn = new_group.draw(radius, width, height);
        calls.append(&mut drawn);
        new_group.update(dt);
        proof {
            assert(views(world@)[i as int] == world@[i as int]@);
            assert(new_group@ =~= advanced(views(world@)[i as int], views(world@), dt));
        }
        new_groups.push(new_group);
        i = i + 1;
    }
    assert(views(new_groups@) =~= next_world(views(world@), dt));
    (new_groups, calls)
}

/// The world that a run starts from: two groups of three particles each, at
/// rest at random places in the box, of mass a tenth and radius one. On the
/// first group act the first group itself, with the coefficient one, and the
/// second, with the coefficient minus one; nothing acts on the second.
pub fn starting_world(first: Color, second: Color) -> (world: Vec<ParticleGroup>)
    ensures
        world@.len() == 2,
        settled(views(world@)),
        world@[0].color == first,
        world@[1].color == second,
        is_random_uuid(world@[0].id),
        is_random_uuid(world@[1].id),
        world@[0]@.interactions == Map::<u128, i64>::empty().insert(world@[0].id, ONE).insert(
            world@[1].id,
            (-ONE) as i64,
        ),
        world@[1]@.interactions == Map::<u128, i64>::empty(),
        forall|i: int|
            0 <= i < 2 ==> {
                &&& (#[trigger] world@[i]).mass == STARTING_MASS
                &&& world@[i].radius == STARTING_RADIUS
                &&& world@[i]@.particles.len() == STARTING_PARTICLES
                &&& forall|k: int|
                    0 <= k < STARTING_PARTICLES ==> in_box(
                        (#[trigger] world@[i]@.particles[k]).pos,
                    ) && world@[i]@.particles[k].vel == zero_vector()
            },
{
    let mut group = ParticleGroup::new(first, STARTING_MASS, STARTING_RADIUS);
    group.fill(STARTING_PARTICLES);
    let mut other_group = ParticleGroup::new(second, STARTING_MASS, STARTING_RADIUS);
    other_group.fill(STARTING_PARTICLES);
    group.interactions.insert(group.id, ONE);
    group.interactions.insert(other_group.id, -ONE);
    let mut world: Vec<ParticleGroup> = Vec::new();
    world.push(group);
    world.push(other_group);
    world
}

} // verus!
