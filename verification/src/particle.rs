//! A single point mass: where it is, how fast it moves, and how it moves
//! inside the box from minus one to one on both axes.

use crate::fixed::{sat_neg, saturate, ONE};
use crate::random::random_between;
use crate::render::{screen_position, to_screen, Color, DrawCall};
use crate::vec2::{norm_squared, scale, scaled, vector_sum, zero_vector, Vec2};
use vstd::prelude::*;

verus! {

/// The kinematic state of one particle.
#[derive(Clone, Copy, Debug, PartialEq, Eq, Structural)]
pub struct Particle {
    pub pos: Vec2,
    pub vel: Vec2,
}

/// `p` lies in the box: both coordinates are between minus one and one.
pub open spec fn in_box(p: Vec2) -> bool {
    -ONE <= p.x <= ONE && -ONE <= p.y <= ONE
}

/// `c` lies beyond one of the two walls of its axis.
pub open spec fn beyond_wall(c: i64) -> bool {
    c < -ONE || c > ONE
}

/// Where a particle would be after the time `dt` if there were no walls.
pub open spec fn free_flight(p: Particle, dt: i64) -> Vec2 {
    vector_sum(p.pos, scaled(dt, p.vel))
}

/// The coordinate `c` brought back to the wall that it has passed.
pub open spec fn walled(c: i64) -> i64 {
    if c < -ONE {
        (-ONE) as i64
    } else if c > ONE {
        ONE
    } else {
        c
    }
}

/// The speed `s` along an axis after a flight that ended at `c`: turned
/// round if `c` is beyond a wall.
pub open spec fn rebound(c: i64, s: i64) -> i64 {
    if beyond_wall(c) {
        saturate(-s) as i64
    } else {
        s
    }
}

/// The particle `p` after the time `dt`: moved along its velocity, then on
/// each axis by itself put back on the wall and turned round where it has
/// passed one.
pub open spec fn integrated(p: Particle, dt: i64) -> Particle {
    let flown = free_flight(p, dt);
    Particle {
        pos: Vec2 { x: walled(flown.x), y: walled(flown.y) },
        vel: Vec2 { x: rebound(flown.x, p.vel.x), y: rebound(flown.y, p.vel.y) },
    }
}

/// The request to draw `p` as a disk on a screen `width` wide and `height`
/// high.
pub open spec fn draw_call(p: Particle, color: Color, radius: i64, width: i64, height: i64)
    -> DrawCall {
    DrawCall {
        x: screen_position(p.pos.x, width),
        y: screen_position(p.pos.y, height),
        radius,
        color,
    }
}

/// A particle that has moved lies in the box, whatever it was and however
/// long it moved. On each axis by itself: where the free flight ends beyond
/// a wall, the particle sits on that wall and its speed along the axis has
/// the opposite sign and the same size; elsewhere place and speed are those
/// of the free flight. The one speed whose opposite no scalar holds, the
/// least scalar, turns into the greatest.
pub proof fn lemma_integrated_stays_in_box(p: Particle, dt: i64)
    ensures
        in_box(integrated(p, dt).pos),
        beyond_wall(free_flight(p, dt).x) && p.vel.x > i64::MIN ==> integrated(p, dt).vel.x
            == -p.vel.x,
        beyond_wall(free_flight(p, dt).y) && p.vel.y > i64::MIN ==> integrated(p, dt).vel.y
            == -p.vel.y,
        !beyond_wall(free_flight(p, dt).x) ==> integrated(p, dt).vel.x == p.vel.x && integrated(
            p,
            dt,
        ).pos.x == free_flight(p, dt).x,
        !beyond_wall(free_flight(p, dt).y) ==> integrated(p, dt).vel.y == p.vel.y && integrated(
            p,
            dt,
        ).pos.y == free_flight(p, dt).y,
{
}

/// Moving changes no speed: a particle that was no faster than one is no
/// faster than one afterwards, bounced or not.
pub proof fn lemma_integrated_keeps_speed(p: Particle, dt: i64)
    requires
        norm_squared(p.vel) <= ONE * ONE,
    ensures
        norm_squared(integrated(p, dt).vel) == norm_squared(p.vel),
{
    assert(-ONE <= p.vel.x <= ONE && -ONE <= p.vel.y <= ONE) by (nonlinear_arith)
        requires
            p.vel.x * p.vel.x + p.vel.y * p.vel.y <= ONE * ONE,
    ;
    let v = integrated(p, dt).vel;
    assert(v.x * v.x == p.vel.x * p.vel.x) by (nonlinear_arith)
        requires
            v.x == p.vel.x || v.x == -p.vel.x,
    ;
    assert(v.y * v.y == p.vel.y * p.vel.y) by (nonlinear_arith)
        requires
            v.y == p.vel.y || v.y == -p.vel.y,
    ;
}

impl Particle {
    /// A particle at rest at `pos`.
    pub fn new(pos: Vec2) -> (p: Particle)
        ensures
            p == (Particle { pos, vel: zero_vector() }),
    {
        Particle { pos, vel: Vec2::zero() }
    }

    /// A particle at rest at a random place in the box.
    pub fn random() -> (p: Particle)
        ensures
            in_box(p.pos),
            p.vel == zero_vector(),
    {
        let x = random_between(-ONE, ONE);
        let y = random_between(-ONE, ONE);
        Particle::new(Vec2::new(x, y))
    }

    /// Moves the particle for the time `dt` and bounces it off the walls.
    ///
    /// Afterwards the particle lies in the box. On an axis where the flight
    /// ended beyond a wall the particle sits on that wall and its speed
    /// along the axis has changed sign; on the other axis position and speed
    /// are those of the free flight.
    pub fn update(&mut self, dt: i64)
        ensures
            *final(self) == integrated(*old(self), dt),
            in_box(final(self).pos),
            beyond_wall(free_flight(*old(self), dt).x) ==> final(self).vel.x == saturate(
                -old(self).vel.x,
            ),
            beyond_wall(free_flight(*old(self), dt).y) ==> final(self).vel.y == saturate(
                -old(self).vel.y,
            ),
            !beyond_wall(free_flight(*old(self), dt).x) ==> final(self).vel.x == old(self).vel.x
                && final(self).pos.x == free_flight(*old(self), dt).x,
            !beyond_wall(free_flight(*old(self), dt).y) ==> final(self).vel.y == old(self).vel.y
                && final(self).pos.y == free_flight(*old(self), dt).y,
    {
        self.pos = self.pos.add(scale(dt, self.vel));
        if self.pos.x < -ONE {
            self.pos.x = -ONE;
            self.vel.x = sat_neg(self.vel.x);
        }
        if self.pos.x > ONE {
            self.pos.x = ONE;
            self.vel.x = sat_neg(self.vel.x);
        }
        if self.pos.y < -ONE {
            self.pos.y = -ONE;
            self.vel.y = sat_neg(self.vel.y);
        }
        if self.pos.y > ONE {
            self.pos.y = ONE;
            self.vel.y = sat_neg(self.vel.y);
        }
    }

    /// The request to draw the particle as a disk of the given colour and
    /// radius on a screen `width` wide and `height` high.
    pub fn draw(&self, color: Color, radius: i64, width: i64, height: i64) -> (call: DrawCall)
        ensures
            call == draw_call(*self, color, radius, width, height),
    {
        DrawCall {
            x: to_screen(self.pos.x, width),
            y: to_screen(self.pos.y, height),
            radius,
            color,
        }
    }
}

} // verus!
