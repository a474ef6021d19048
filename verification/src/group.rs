//! Groups of particles that share mass, colour and radius, and the forces
//! that one group feels from another.

use crate::fixed::{fixed_mul, product, quotient, ratio, saturate, ONE};
use crate::particle::{draw_call, in_box, integrated, Particle};
use crate::random::{fresh_identity, is_random_uuid};
use crate::render::{Color, DrawCall};
use crate::vec2::{
    capped, lemma_capped_is_bounded, lemma_norm_covers_components, lemma_unit_components,
    norm_squared, scale, scaled, unit, vector_difference, vector_sum, zero_vector, Vec2,
};
use std::collections::HashMap;
use vstd::prelude::*;

verus! {

broadcast use vstd::std_specs::hash::group_hash_axioms;

/// A cluster of particles of one kind.
///
/// `id` is given once, by `new`, and carried along unchanged by everything
/// that derives a group from another. `interactions` maps the identity of a
/// group to the coefficient of the force that its particles exert on the
/// particles of this one; a group that is no key exerts none.
///
/// Two groups are equal when they have the same identity, whatever they
/// hold.
#[derive(Clone, Debug)]
pub struct ParticleGroup {
    pub particles: Vec<Particle>,
    pub color: Color,
    pub mass: i64,
    pub radius: i64,
    pub id: u128,
    pub interactions: HashMap<u128, i64>,
}

/// What a group is, as plain mathematics.
#[verifier::ext_equal]
pub struct GroupView {
    pub particles: Seq<Particle>,
    pub color: Color,
    pub mass: i64,
    pub radius: i64,
    pub id: u128,
    pub interactions: Map<u128, i64>,
}

impl GroupView {
    /// This group with `particles` in place of its own.
    pub open spec fn with_particles(self, particles: Seq<Particle>) -> GroupView {
        GroupView { particles, ..self }
    }
}

impl View for ParticleGroup {
    type V = GroupView;

    open spec fn view(&self) -> GroupView {
        GroupView {
            particles: self.particles@,
            color: self.color,
            mass: self.mass,
            radius: self.radius,
            id: self.id,
            interactions: self.interactions@,
        }
    }
}

impl PartialEq for ParticleGroup {
    fn eq(&self, other: &Self) -> (same: bool) {
        self.id == other.id
    }
}

impl Eq for ParticleGroup {

}

impl vstd::std_specs::cmp::PartialEqSpecImpl for ParticleGroup {
    open spec fn obeys_eq_spec() -> bool {
        true
    }

    open spec fn eq_spec(&self, other: &Self) -> bool {
        self.id == other.id
    }
}

/// The group with the given identity, colour, mass and radius that has no
/// particles and feels no other group.
pub open spec fn empty_group(id: u128, color: Color, mass: i64, radius: i64) -> GroupView {
    GroupView { particles: Seq::empty(), color, mass, radius, id, interactions: Map::empty() }
}

/// The views of a list of groups, in the same order.
pub open spec fn views(groups: Seq<ParticleGroup>) -> Seq<GroupView> {
    groups.map_values(|g: ParticleGroup| g@)
}

/// The strength `g * mass * other_mass` of the force between two particles
/// at distance one.
pub open spec fn coupling(g: i64, mass: i64, other_mass: i64) -> i64 {
    product(product(g as int, mass as int), other_mass as int) as i64
}

/// The force that a particle at `source` exerts on a particle at `at`: along
/// the unit vector from `at` toward `source`, of size `factor` divided by the
/// square of their distance. Two particles at the same place exert no force
/// on each other.
pub open spec fn pair_force(at: Vec2, source: Vec2, factor: i64) -> Vec2 {
    let toward = vector_difference(source, at);
    if norm_squared(toward) == 0 {
        zero_vector()
    } else {
        Vec2 {
            x: saturate(quotient(unit(toward).x * factor * ONE, norm_squared(toward))) as i64,
            y: saturate(quotient(unit(toward).y * factor * ONE, norm_squared(toward))) as i64,
        }
    }
}

/// The sum of the forces that the particles `sources` exert on a particle at
/// `at`, added up in the order of the sequence.
pub open spec fn net_force(at: Vec2, sources: Seq<Particle>, factor: i64) -> Vec2
    decreases sources.len(),
{
    if sources.len() == 0 {
        zero_vector()
    } else {
        vector_sum(
            net_force(at, sources.drop_last(), factor),
            pair_force(at, sources.last().pos, factor),
        )
    }
}

/// The particle `p` after `force` has acted on it for the time `dt`: where
/// it was, with the velocity `vel + dt * force`, capped at length one.
pub open spec fn pushed(p: Particle, force: Vec2, dt: i64) -> Particle {
    Particle { pos: p.pos, vel: capped(vector_sum(p.vel, scaled(dt, force))) }
}

/// The particles `particles`, each of mass `mass`, after the particles
/// `sources`, each of mass `source_mass`, have acted on them with the
/// coefficient `g` for the time `dt`.
pub open spec fn interaction(
    particles: Seq<Particle>,
    mass: i64,
    sources: Seq<Particle>,
    source_mass: i64,
    g: i64,
    dt: i64,
) -> Seq<Particle> {
    Seq::new(
        particles.len(),
        |i: int|
            pushed(
                particles[i],
                net_force(particles[i].pos, sources, coupling(g, mass, source_mass)),
                dt,
            ),
    )
}

/// The particles of `group` after every group of `others` that is a key of
/// its interaction map has acted on them, one after the other in the order
/// of `others`, each on what the one before has left.
pub open spec fn after_interactions(group: GroupView, others: Seq<GroupView>, dt: i64) -> Seq<
    Particle,
>
    decreases others.len(),
{
    if others.len() == 0 {
        group.particles
    } else {
        let before = after_interactions(group, others.drop_last(), dt);
        let other = others.last();
        if group.interactions.contains_key(other.id) {
            interaction(
                before,
                group.mass,
                other.particles,
                other.mass,
                group.interactions[other.id],
                dt,
            )
        } else {
            before
        }
    }
}

/// A particle feels nothing from a particle at its own place, so the force
/// that a group exerts on its own `i`-th particle is the sum of what the
/// other particles of the group exert on it.
pub proof fn lemma_net_force_skips_self(particles: Seq<Particle>, i: int, factor: i64)
    requires
        0 <= i < particles.len(),
    ensures
        net_force(particles[i].pos, particles, factor) == net_force(
            particles[i].pos,
            particles.remove(i),
            factor,
        ),
{
    lemma_net_force_skips_coincident(particles[i].pos, particles, i, factor);
}

/// A source that lies where the particle lies adds nothing to the net force.
pub proof fn lemma_net_force_skips_coincident(
    at: Vec2,
    sources: Seq<Particle>,
    i: int,
    factor: i64,
)
    requires
        0 <= i < sources.len(),
        sources[i].pos == at,
    ensures
        net_force(at, sources, factor) == net_force(at, sources.remove(i), factor),
    decreases sources.len(),
{
    let rest = sources.drop_last();
    if i == sources.len() - 1 {
        assert(sources.remove(i) =~= rest);
        assert(pair_force(at, sources.last().pos, factor) == zero_vector()) by {
            lemma_norm_covers_components(vector_difference(at, at));
        }
    } else {
        lemma_net_force_skips_coincident(at, rest, i, factor);
        assert(sources.remove(i).drop_last() =~= rest.remove(i));
        assert(sources.remove(i).last() == sources.last());
    }
}

/// No sources, no force.
pub proof fn lemma_net_force_of_nothing(at: Vec2, factor: i64)
    ensures
        net_force(at, Seq::<Particle>::empty(), factor) == zero_vector(),
{
}

/// Every particle leaves an interaction where it was and no faster than one.
pub proof fn lemma_interaction_caps_speed(
    particles: Seq<Particle>,
    mass: i64,
    sources: Seq<Particle>,
    source_mass: i64,
    g: i64,
    dt: i64,
)
    ensures
        interaction(particles, mass, sources, source_mass, g, dt).len() == particles.len(),
        forall|i: int|
            0 <= i < particles.len() ==> {
                &&& (#[trigger] interaction(particles, mass, sources, source_mass, g, dt)[i]).pos
                    == particles[i].pos
                &&& norm_squared(interaction(particles, mass, sources, source_mass, g, dt)[i].vel)
                    <= ONE * ONE
            },
{
    let after = interaction(particles, mass, sources, source_mass, g, dt);
    assert forall|i: int| 0 <= i < particles.len() implies {
        &&& (#[trigger] after[i]).pos == particles[i].pos
        &&& norm_squared(after[i].vel) <= ONE * ONE
    } by {
        let force = net_force(particles[i].pos, sources, coupling(g, mass, source_mass));
        lemma_capped_is_bounded(vector_sum(particles[i].vel, scaled(dt, force)));
    }
}

/// An interaction with a group that has no particles changes no particle
/// that is no faster than one.
pub proof fn lemma_interaction_with_nothing(
    particles: Seq<Particle>,
    mass: i64,
    source_mass: i64,
    g: i64,
    dt: i64,
)
    requires
        forall|i: int| 0 <= i < particles.len() ==> norm_squared(particles[i].vel) <= ONE * ONE,
    ensures
        interaction(particles, mass, Seq::<Particle>::empty(), source_mass, g, dt) == particles,
{
    let after = interaction(particles, mass, Seq::<Particle>::empty(), source_mass, g, dt);
    assert forall|i: int| 0 <= i < particles.len() implies after[i] == particles[i] by {
        assert(scaled(dt, zero_vector()) == zero_vector());
        assert(vector_sum(particles[i].vel, zero_vector()) == particles[i].vel);
    }
    assert(after =~= particles);
}

/// Groups that are no keys of the interaction map leave the particles as
/// they are; so does an empty list of groups.
pub proof fn lemma_strangers_change_nothing(group: GroupView, others: Seq<GroupView>, dt: i64)
    requires
        forall|j: int| 0 <= j < others.len() ==> !group.interactions.contains_key(others[j].id),
    ensures
        after_interactions(group, others, dt) == group.particles,
    decreases others.len(),
{
    if others.len() > 0 {
        lemma_strangers_change_nothing(group, others.drop_last(), dt);
    }
}

/// A group that is no key of the interaction map may stand anywhere in the
/// list or be left out of it: the outcome is the same.
pub proof fn lemma_stranger_may_be_left_out(
    group: GroupView,
    others: Seq<GroupView>,
    j: int,
    dt: i64,
)
    requires
        0 <= j < others.len(),
        !group.interactions.contains_key(others[j].id),
    ensures
        after_interactions(group, others, dt) == after_interactions(group, others.remove(j), dt),
    decreases others.len(),
{
    let rest = others.drop_last();
    if j == others.len() - 1 {
        assert(others.remove(j) =~= rest);
    } else {
        lemma_stranger_may_be_left_out(group, rest, j, dt);
        assert(others.remove(j).drop_last() =~= rest.remove(j));
        assert(others.remove(j).last() == others.last());
    }
}

/// Forces change velocities only: after any list of groups has acted, the
/// particles are as many as they were, each at its place.
pub proof fn lemma_interactions_keep_places(group: GroupView, others: Seq<GroupView>, dt: i64)
    ensures
        after_interactions(group, others, dt).len() == group.particles.len(),
        forall|k: int|
            0 <= k < group.particles.len() ==> (#[trigger] after_interactions(
                group,
                others,
                dt,
            )[k]).pos == group.particles[k].pos,
    decreases others.len(),
{
    if others.len() > 0 {
        lemma_interactions_keep_places(group, others.drop_last(), dt);
    }
}

/// After a list of groups has acted, a particle is no faster than one if it
/// was no faster than one before, or if any group of the list is a key of
/// the interaction map.
pub proof fn lemma_interactions_cap_speed(
    group: GroupView,
    others: Seq<GroupView>,
    dt: i64,
    k: int,
)
    requires
        0 <= k < group.particles.len(),
        norm_squared(group.particles[k].vel) <= ONE * ONE || exists|j: int|
            0 <= j < others.len() && group.interactions.contains_key((#[trigger] others[j]).id),
    ensures
        norm_squared(after_interactions(group, others, dt)[k].vel) <= ONE * ONE,
    decreases others.len(),
{
    if others.len() > 0 {
        let rest = others.drop_last();
        let other = others.last();
        lemma_interactions_keep_places(group, rest, dt);
        if group.interactions.contains_key(other.id) {
            lemma_interaction_caps_speed(
                after_interactions(group, rest, dt),
                group.mass,
                other.particles,
                other.mass,
                group.interactions[other.id],
                dt,
            );
        } else {
            if !(norm_squared(group.particles[k].vel) <= ONE * ONE) {
                let j = choose|j: int|
                    0 <= j < others.len() && group.interactions.contains_key(
                        (#[trigger] others[j]).id,
                    );
                assert(rest[j] == others[j]);
            }
            lemma_interactions_cap_speed(group, rest, dt, k);
        }
    }
}

impl ParticleGroup {
    /// An empty group with a new, random identity.
    pub fn new(color: Color, mass: i64, radius: i64) -> (group: ParticleGroup)
        ensures
            group@ == empty_group(group.id, color, mass, radius),
            is_random_uuid(group.id),
    {
        ParticleGroup::with_identity(fresh_identity(), color, mass, radius)
    }

    /// An empty group with the identity `id`: no particles, and nothing that
    /// acts on it.
    pub fn with_identity(id: u128, color: Color, mass: i64, radius: i64) -> (group: ParticleGroup)
        ensures
            group@ == empty_group(id, color, mass, radius),
    {
        let group = ParticleGroup {
            particles: Vec::new(),
            color,
            mass,
            radius,
            id,
            interactions: HashMap::new(),
        };
        assert(group@ =~= empty_group(id, color, mass, radius));
        group
    }

    /// A group with the identity, colour, mass, radius and interaction map
    /// of this one, and no particles.
    pub fn clone_empty(&self) -> (group: ParticleGroup)
        ensures
            group@ == self@.with_particles(Seq::empty()),
    {
        let group = ParticleGroup {
            particles: Vec::new(),
            color: self.color,
            mass: self.mass,
            id: self.id,
            radius: self.radius,
            interactions: self.interactions.clone(),
        };
        assert(group@ =~= self@.with_particles(Seq::empty()));
        group
    }

    /// Appends `n` particles at rest at random places in the box.
    pub fn fill(&mut self, n: usize)
        ensures
            final(self)@.particles.len() == old(self)@.particles.len() + n,
            final(self)@.particles.subrange(0, old(self)@.particles.len() as int) == old(
                self,
            )@.particles,
            forall|i: int|
                old(self)@.particles.len() <= i < final(self)@.particles.len() ==> in_box(
                    (#[trigger] final(self)@.particles[i]).pos,
                ) && final(self)@.particles[i].vel == zero_vector(),
            final(self)@ == old(self)@.with_particles(final(self)@.particles),
    {
        let ghost before = self@;
        let mut added: usize = 0;
        while added < n
            invariant
                added <= n,
                self@.particles.len() == before.particles.len() + added,
                self@.particles.subrange(0, before.particles.len() as int) == before.particles,
                forall|i: int|
                    before.particles.len() <= i < self@.particles.len() ==> in_box(
                        (#[trigger] self@.particles[i]).pos,
                    ) && self@.particles[i].vel == zero_vector(),
                self@ == before.with_particles(self@.particles),
            decreases n - added,
        {
            let ghost previous = self@.particles;
            self.particles.push(Particle::random());
            added = added + 1;
            assert(self@.particles.subrange(0, before.particles.len() as int)
                =~= previous.subrange(0, before.particles.len() as int));
            assert(self@ =~= before.with_particles(self@.particles));
        }
    }

    /// This group after all the groups of `groups` have acted on it for the
    /// time `dt`.
    ///
    /// The groups act one after the other, in the order of the list, each on
    /// the velocities that the one before has left; a group whose identity
    /// is no key of this group's interaction map does not act. Since every
    /// acting group caps the speeds, the order matters. Neither this group
    /// nor the list is changed; the result has this group's identity,
    /// colour, mass, radius and interaction map, and its particles at their
    /// old places.
    pub fn interact_all(&self, groups: &Vec<ParticleGroup>, dt: i64) -> (group: ParticleGroup)
        ensures
            group@ == self@.with_particles(after_interactions(self@, views(groups@), dt)),
            (forall|j: int|
                0 <= j < groups.len() ==> !self@.interactions.contains_key(
                    (#[trigger] groups[j]).id,
                )) ==> group@ == self@,
            group@.particles.len() == self@.particles.len(),
            forall|k: int|
                0 <= k < self@.particles.len() ==> (#[trigger] group@.particles[k]).pos
                    == self@.particles[k].pos,
    {
        let mut new_group = self.clone_empty();
        new_group.particles = self.particles.clone();
        assert(new_group@.particles =~= self@.particles);
        let mut j: usize = 0;
        while j < groups.len()
            invariant
                j <= groups.len(),
                new_group@ == self@.with_particles(
                    after_interactions(self@, views(groups@).subrange(0, j as int), dt),
                ),
            decreases groups.len() - j,
        {
            let other = &groups[j];
            let ghost seen = views(groups@).subrange(0, j as int);
            let ghost next = views(groups@).subrange(0, j + 1);
            proof {
                assert(next.drop_last() =~= seen);
                assert(next.last() == other@);
            }
            match self.interactions.get(&other.id) {
                Some(coefficient) => {
                    new_group.particles = new_group.interact(other, *coefficient, dt);
                },
                None => {},
            }
            assert(new_group@ =~= self@.with_particles(after_interactions(self@, next, dt)));
            j = j + 1;
        }
        proof {
            assert(views(groups@).subrange(0, groups.len() as int) =~= views(groups@));
            lemma_interactions_keep_places(self@, views(groups@), dt);
            if forall|j: int|
                0 <= j < groups.len() ==> !self@.interactions.contains_key(
                    (#[trigger] groups[j]).id,
                ) {
                assert forall|j: int| 0 <= j < views(groups@).len() implies !self@.interactions
                    .contains_key(views(groups@)[j].id) by {
                    assert(views(groups@)[j].id == groups[j].id);
                }
                lemma_strangers_change_nothing(self@, views(groups@), dt);
                assert(new_group@ =~= self@);
            }
        }
        new_group
    }

    /// The particles of this group after the particles of `other` have acted
    /// on them with the coefficient `g` for the time `dt`.
    ///
    /// On each particle acts the sum, over the particles of `other`, of the
    /// force `g * mass * other.mass / distance^2` along the unit vector toward
    /// that particle; a particle at the same place adds nothing. The
    /// particle's velocity grows by `dt` times that sum and is then capped at
    /// length one. Positions stay, and neither group is changed.
    pub fn interact(&self, other: &ParticleGroup, g: i64, dt: i64) -> (particles: Vec<Particle>)
        ensures
            particles@ == interaction(
                self@.particles,
                self.mass,
                other@.particles,
                other.mass,
                g,
                dt,
            ),
            particles@.len() == self@.particles.len(),
            forall|i: int|
                0 <= i < particles@.len() ==> (#[trigger] particles@[i]).pos
                    == self@.particles[i].pos && norm_squared(particles@[i].vel) <= ONE * ONE,
    {
        let factor = fixed_mul(fixed_mul(g, self.mass), other.mass);
        let mut forces: Vec<Vec2> = Vec::new();
        let mut i: usize = 0;
        while i < self.particles.len()
            invariant
                i <= self.particles.len(),
                forces@.len() == i,
                forall|k: int|
                    0 <= k < i ==> #[trigger] forces@[k] == net_force(
                        self.particles@[k].pos,
                        other.particles@,
                        factor,
                    ),
            decreases self.particles.len() - i,
        {
            forces.push(net_force_on(self.particles[i].pos, &other.particles, factor));
            i = i + 1;
        }
        let mut new_particles: Vec<Particle> = Vec::new();
        let mut i: usize = 0;
        while i < self.particles.len()
            invariant
                i <= self.particles.len(),
                forces@.len() == self.particles.len(),
                new_particles@.len() == i,
                forall|k: int|
                    0 <= k < self.particles.len() ==> #[trigger] forces@[k] == net_force(
                        self.particles@[k].pos,
                        other.particles@,
                        factor,
                    ),
                forall|k: int|
                    0 <= k < i ==> #[trigger] new_particles@[k] == pushed(
                        self.particles@[k],
                        forces@[k],
                        dt,
                    ),
            decreases self.particles.len() - i,
        {
            let mut new_particle = self.particles[i];
            new_particle.vel = new_particle.vel.add(scale(dt, forces[i])).cap_length();
            new_particles.push(new_particle);
            i = i + 1;
        }
        proof {
            lemma_interaction_caps_speed(
                self@.particles,
                self.mass,
                other@.particles,
                other.mass,
                g,
                dt,
            );
            assert(new_particles@ =~= interaction(
                self@.particles,
                self.mass,
                other@.particles,
                other.mass,
                g,
                dt,
            ));
        }
        new_particles
    }

    /// Moves every particle of the group for the time `dt` and bounces it
    /// off the walls.
    pub fn update(&mut self, dt: i64)
        ensures
            final(self)@ == old(self)@.with_particles(
                old(self)@.particles.map_values(|p: Particle| integrated(p, dt)),
            ),
            forall|i: int|
                0 <= i < final(self)@.particles.len() ==> in_box(
                    (#[trigger] final(self)@.particles[i]).pos,
                ),
    {
        let ghost before = self@;
        let mut i: usize = 0;
        while i < self.particles.len()
            invariant
                i <= self.particles.len(),
                self@ == before.with_particles(self@.particles),
                self@.particles.len() == before.particles.len(),
                forall|k: int|
                    0 <= k < i ==> #[trigger] self@.particles[k] == integrated(
                        before.particles[k],
                        dt,
                    ),
                forall|k: int|
                    i <= k < before.particles.len() ==> #[trigger] self@.particles[k]
                        == before.particles[k],
            decreases self.particles.len() - i,
        {
            let mut particle = self.particles[i];
            particle.update(dt);
            self.particles.set(i, particle);
            assert(self@ =~= before.with_particles(self@.particles));
            i = i + 1;
        }
        assert(self@.particles =~= before.particles.map_values(|p: Particle| integrated(p, dt)));
        assert(self@ =~= before.with_particles(
            before.particles.map_values(|p: Particle| integrated(p, dt)),
        ));
    }

    /// The requests to draw every particle of the group, in the order of the
    /// particles, as a disk of the group's colour and of the given radius on
    /// a screen `width` wide and `height` high.
    pub fn draw(&self, radius: i64, width: i64, height: i64) -> (calls: Vec<DrawCall>)
        ensures
            calls@ == self@.particles.map_values(
                |p: Particle| draw_call(p, self.color, radius, width, height),
            ),
    {
        let mut calls: Vec<DrawCall> = Vec::new();
        let mut i: usize = 0;
        while i < self.particles.len()
            invariant
                i <= self.particles.len(),
                calls@.len() == i,
                forall|k: int|
                    0 <= k < i ==> #[trigger] calls@[k] == draw_call(
                        self.particles@[k],
                        self.color,
                        radius,
                        width,
                        height,
                    ),
            decreases self.particles.len() - i,
        {
            calls.push(self.particles[i].draw(self.color, radius, width, height));
            i = i + 1;
        }
        assert(calls@ =~= self@.particles.map_values(
            |p: Particle| draw_call(p, self.color, radius, width, height),
        ));
        calls
    }
}

/// The force that a particle at `source` exerts on a particle at `at`.
pub fn force_between(at: Vec2, source: Vec2, factor: i64) -> (force: Vec2)
    ensures
        force == pair_force(at, source, factor),
{
    let toward = source.sub(at);
    let distance_squared = toward.length_squared();
    if distance_squared == 0 {
        return Vec2::zero();
    }
    let direction = toward.normalize();
    proof {
        lemma_unit_components(toward);
    }
    assert(-0x8000_0000_0000_0000 * ONE <= direction.x * factor <= 0x8000_0000_0000_0000 * ONE
        && -0x8000_0000_0000_0000 * ONE <= direction.y * factor <= 0x8000_0000_0000_0000 * ONE)
        by (nonlinear_arith)
        requires
            -ONE <= direction.x <= ONE,
            -ONE <= direction.y <= ONE,
            -0x8000_0000_0000_0000 <= factor <= 0x7fff_ffff_ffff_ffff,
    ;
    let along_x: i128 = direction.x as i128 * factor as i128;
    let along_y: i128 = direction.y as i128 * factor as i128;
    assert(-0x8000_0000_0000_0000 * ONE * ONE <= along_x * ONE <= 0x8000_0000_0000_0000 * ONE
        * ONE && -0x8000_0000_0000_0000 * ONE * ONE <= along_y * ONE <= 0x8000_0000_0000_0000
        * ONE * ONE) by (nonlinear_arith)
        requires
            -0x8000_0000_0000_0000 * ONE <= along_x <= 0x8000_0000_0000_0000 * ONE,
            -0x8000_0000_0000_0000 * ONE <= along_y <= 0x8000_0000_0000_0000 * ONE,
    ;
    Vec2 {
        x: ratio(along_x * ONE as i128, distance_squared),
        y: ratio(along_y * ONE as i128, distance_squared),
    }
}

/// The sum of the forces that the particles `sources` exert on a particle at
/// `at`.
pub fn net_force_on(at: Vec2, sources: &Vec<Particle>, factor: i64) -> (force: Vec2)
    ensures
        force == net_force(at, sources@, factor),
{
    let mut cumulated_force = Vec2::zero();
    let mut j: usize = 0;
    while j < sources.len()
        invariant
            j <= sources.len(),
            cumulated_force == net_force(at, sources@.subrange(0, j as int), factor),
        decreases sources.len() - j,
    {
        proof {
            assert(sources@.subrange(0, j + 1).drop_last() =~= sources@.subrange(0, j as int));
        }
        cumulated_force = cumulated_force.add(force_between(at, sources[j].pos, factor));
        j = j + 1;
    }
    assert(sources@.subrange(0, sources.len() as int) =~= sources@);
    cumulated_force
}

} // verus!
