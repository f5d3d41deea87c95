//! The simulation objects: players and bullets, with their kinematics.
//!
//! The open trait-object design of a plugin world is closed here into a
//! small sum type; command handlers recover the concrete variant by
//! pattern matching instead of downcasting.

use vstd::prelude::*;
use crate::num::{div_trunc, i128_div_trunc, kin_step, pos_step, sat_i64};
use crate::vector::Vector2f;
use crate::{ARENA_H, ARENA_W, PLAYER_HEALTH};
use crate::ext;

verus! {

/// A position inside the arena.
pub open spec fn in_arena(p: Vector2f) -> bool {
    0 <= p.x <= ARENA_W && 0 <= p.y <= ARENA_H
}

/// A connected client's avatar.
#[derive(Clone, Copy, Debug, PartialEq, Eq, Structural)]
pub struct Player {
    pub id: u128,
    pub health: i64,
    pub position: Vector2f,
    pub velocity: Vector2f,
}

/// A projectile spawned by a `fire` command; it flies unbounded and is
/// never despawned by this core.
#[derive(Clone, Copy, Debug, PartialEq, Eq, Structural)]
pub struct Bullet {
    pub id: u128,
    pub owner: Option<u128>,
    pub position: Vector2f,
    pub velocity: Vector2f,
}

/// Every simulation object, as a closed tagged union.
#[derive(Clone, Copy, Debug, PartialEq, Eq, Structural)]
pub enum Entity {
    Player(Player),
    Bullet(Bullet),
}

/// The inverted-and-damped velocity after an inelastic bounce:
/// multiplied by exactly -0.8, every division truncating toward zero.
pub open spec fn damp(v: int) -> int {
    div_trunc(v * -8, 10)
}

/// One axis of a player step: advance, then clamp to `[0, max]` and
/// damp the velocity if the unclamped position left that range.
pub open spec fn spec_axis_update(p: int, v: int, d: int, max: int) -> (int, int) {
    let p1 = kin_step(p, v, d);
    if p1 < 0 {
        (0, damp(v))
    } else if p1 > max {
        (max, damp(v))
    } else {
        (p1, v)
    }
}

/// A player after advancing `d` milliseconds.
pub open spec fn spec_player_update(p: Player, d: int) -> Player {
    let x = spec_axis_update(p.position.x as int, p.velocity.x as int, d, ARENA_W as int);
    let y = spec_axis_update(p.position.y as int, p.velocity.y as int, d, ARENA_H as int);
    Player {
        position: Vector2f { x: x.0 as i64, y: y.0 as i64 },
        velocity: Vector2f { x: x.1 as i64, y: y.1 as i64 },
        ..p
    }
}

/// A bullet after advancing `d` milliseconds: unconditional motion.
pub open spec fn spec_bullet_update(b: Bullet, d: int) -> Bullet {
    Bullet {
        position: Vector2f {
            x: kin_step(b.position.x as int, b.velocity.x as int, d) as i64,
            y: kin_step(b.position.y as int, b.velocity.y as int, d) as i64,
        },
        ..b
    }
}

/// Any entity after advancing `d` milliseconds.
pub open spec fn spec_entity_update(e: Entity, d: int) -> Entity {
    match e {
        Entity::Player(p) => Entity::Player(spec_player_update(p, d)),
        Entity::Bullet(b) => Entity::Bullet(spec_bullet_update(b, d)),
    }
}

impl Player {
    /// In bounds; every player the authority holds satisfies this.
    pub open spec fn wf(self) -> bool {
        in_arena(self.position)
    }

    /// A fresh player: full health, at rest, placed uniformly at random
    /// inside the arena.
    pub fn new(id: u128) -> (p: Player)
        ensures
            p.id == id,
            p.health == PLAYER_HEALTH,
            0 <= p.position.x < ARENA_W,
            0 <= p.position.y < ARENA_H,
            p.velocity == (Vector2f { x: 0, y: 0 }),
            p.wf(),
    {
        Player {
            id,
            health: PLAYER_HEALTH,
            position: Vector2f::new(ext::random_below(ARENA_W), ext::random_below(ARENA_H)),
            velocity: Vector2f::new(0, 0),
        }
    }

    /// Advance the player's kinematics in place.
    pub fn update(&mut self, delta_ms: i64)
        requires
            delta_ms >= 0,
        ensures
            *final(self) == spec_player_update(*old(self), delta_ms as int),
            final(self).wf(),
    {
        let (px, vx) = axis_update(self.position.x, self.velocity.x, delta_ms, ARENA_W);
        let (py, vy) = axis_update(self.position.y, self.velocity.y, delta_ms, ARENA_H);
        self.position = Vector2f::new(px, py);
        self.velocity = Vector2f::new(vx, vy);
    }
}

impl Bullet {
    /// A bullet with a fresh random identifier.
    pub fn new(owner: Option<u128>, position: Vector2f, velocity: Vector2f) -> (b: Bullet)
        ensures
            b.owner == owner,
            b.position == position,
            b.velocity == velocity,
    {
        Bullet { id: ext::fresh_uuid(), owner, position, velocity }
    }

    /// Advance the bullet's kinematics in place; no bounds handling.
    pub fn update(&mut self, delta_ms: i64)
        requires
            delta_ms >= 0,
        ensures
            *final(self) == spec_bullet_update(*old(self), delta_ms as int),
    {
        self.position = Vector2f::new(
            pos_step(self.position.x, self.velocity.x, delta_ms),
            pos_step(self.position.y, self.velocity.y, delta_ms),
        );
    }
}

impl Entity {
    /// A player in bounds; bullets are unconstrained.
    pub open spec fn wf(self) -> bool {
        match self {
            Entity::Player(p) => p.wf(),
            Entity::Bullet(_) => true,
        }
    }

    /// Advance this entity's kinematics in place.
    pub fn update(&mut self, delta_ms: i64)
        requires
            delta_ms >= 0,
        ensures
            *final(self) == spec_entity_update(*old(self), delta_ms as int),
            old(self).wf() ==> final(self).wf(),
    {
        match self {
            Entity::Player(p) => p.update(delta_ms),
            Entity::Bullet(b) => b.update(delta_ms),
        }
    }
}

/// A zero-duration tick never changes an in-bounds entity: position and
/// velocity are exactly as before.
pub proof fn lemma_update_zero_delta(e: Entity)
    requires
        e.wf(),
    ensures
        spec_entity_update(e, 0) == e,
{
    match e {
        Entity::Player(p) => {
            assert(kin_step(p.position.x as int, p.velocity.x as int, 0) == p.position.x);
            assert(kin_step(p.position.y as int, p.velocity.y as int, 0) == p.position.y);
        },
        Entity::Bullet(b) => {
            assert(kin_step(b.position.x as int, b.velocity.x as int, 0) == b.position.x);
            assert(kin_step(b.position.y as int, b.velocity.y as int, 0) == b.position.y);
        },
    }
}

/// Boundary bounce law: when the unclamped next position would leave
/// `[0, max]`, the position is clamped to that boundary and the
/// velocity component is multiplied by exactly -0.8.
pub proof fn lemma_boundary_bounce(p: int, v: int, d: int, max: int)
    requires
        d >= 0,
        kin_step(p, v, d) < 0 || kin_step(p, v, d) > max,
    ensures
        spec_axis_update(p, v, d, max).0 == if kin_step(p, v, d) < 0 {
            0int
        } else {
            max
        },
        spec_axis_update(p, v, d, max).1 == div_trunc(-8 * v, 10),
{
    assert(v * -8 == -8 * v);
}

fn axis_update(p: i64, v: i64, d: i64, max: i64) -> (r: (i64, i64))
    requires
        d >= 0,
        max >= 0,
    ensures
        (r.0 as int, r.1 as int) == spec_axis_update(p as int, v as int, d as int, max as int),
        0 <= r.0 <= max,
{
    let p1 = pos_step(p, v, d);
    if p1 < 0 {
        (0, damp_exec(v))
    } else if p1 > max {
        (max, damp_exec(v))
    } else {
        (p1, v)
    }
}

fn damp_exec(v: i64) -> (r: i64)
    ensures
        r == damp(v as int),
{
    proof {
        crate::num::lemma_i64_mul_fits(v as int, -8);
    }
    let prod: i128 = (v as i128) * -8;
    let q: i128 = i128_div_trunc(prod, 10);
    proof {
        if v >= 0 {
            assert(i64::MIN <= div_trunc(prod as int, 10) <= 0) by (nonlinear_arith)
                requires
                    prod == (v as int) * -8,
                    0 <= v <= i64::MAX,
                    div_trunc(prod as int, 10) == -((-(prod as int)) / 10),
            ;
        } else {
            assert(0 <= div_trunc(prod as int, 10) <= i64::MAX) by (nonlinear_arith)
                requires
                    prod == (v as int) * -8,
                    i64::MIN <= v < 0,
                    div_trunc(prod as int, 10) == (prod as int) / 10,
            ;
        }
    }
    q as i64
}

} // verus!
