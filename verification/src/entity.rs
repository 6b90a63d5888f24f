//! A moving axis-aligned rectangle: position, velocity, and an optional
//! gravity flag.  Positions are fixed-point sub-units (see [`crate::geom`]),
//! velocities are fixed-point sub-units per second, and time steps are whole
//! milliseconds, so the integration step is exact integer arithmetic.

use crate::geom::{
    spec_to_units, to_units, Rect, POS_LIMIT, POS_SCALE, STEP_LIMIT, VEL_LIMIT, VEL_SCALE,
};
use vstd::prelude::*;

verus! {

/// Pixels travelled per world unit of velocity per second: the conversion
/// factor from normalized physics units to screen pixels.
pub const MULT: i64 = 180;

/// Gravity acceleration, 9.81 world units per second squared, expressed in
/// velocity sub-units gained per millisecond: `9.81 * VEL_SCALE / 1000`.
pub const GRAVITY_PER_MS: i64 = 9_810;

/// Vertical velocity set by a jump: -3.0 world units per second (up is
/// negative).
pub const JUMP_FORCE: i64 = -3 * VEL_SCALE;

/// Cap on downward vertical velocity: 3.5 world units per second.  Upward
/// velocity is not clamped.
pub const MAX_VEL: i64 = 3_500_000;

/// Largest time step, in milliseconds, on which a single integration step is
/// defined; together with `POS_LIMIT` and `VEL_LIMIT` it keeps the `i64`
/// position update from overflowing.
pub const DT_LIMIT: u64 = 10_000;

/// The rectangle whose centre is the position `(x, y)` floored to whole
/// world units.
pub open spec fn rect_for(x: i64, y: i64, w: u32, h: u32) -> Rect {
    Rect { cx: spec_to_units(x as int) as i64, cy: spec_to_units(y as int) as i64, w, h }
}

/// A moving axis-aligned rectangle.  The bounding rectangle `rect` is
/// recomputed from the floored position after every update; its width and
/// height never change after construction.
#[derive(Clone, Copy, PartialEq, Eq, Structural, Debug)]
pub struct Entity {
    pub rect: Rect,
    pub x: i64,
    pub y: i64,
    pub x_vel: i64,
    pub y_vel: i64,
    pub gravity: bool,
}

impl Entity {
    /// The bounding rectangle matches the current position.
    pub open spec fn rect_in_sync(self) -> bool {
        self.rect == rect_for(self.x, self.y, self.rect.w, self.rect.h)
    }

    /// Both position coordinates lie within `POS_LIMIT`.
    pub open spec fn pos_in_range(self) -> bool {
        &&& -POS_LIMIT <= self.x <= POS_LIMIT
        &&& -POS_LIMIT <= self.y <= POS_LIMIT
    }

    /// Both velocity components lie within `VEL_LIMIT`.
    pub open spec fn vel_in_range(self) -> bool {
        &&& -VEL_LIMIT <= self.x_vel <= VEL_LIMIT
        &&& -VEL_LIMIT <= self.y_vel <= VEL_LIMIT
    }

    /// Constructs an entity with the given continuous position as the centre
    /// of its bounding rectangle.
    pub fn new(
        x: i64,
        y: i64,
        width: u32,
        height: u32,
        x_vel: i64,
        y_vel: i64,
        gravity: bool,
    ) -> (e: Entity)
        requires
            -POS_LIMIT <= x <= POS_LIMIT,
            -POS_LIMIT <= y <= POS_LIMIT,
        ensures
            e == (Entity {
                rect: rect_for(x, y, width, height),
                x,
                y,
                x_vel,
                y_vel,
                gravity,
            }),
    {
        let cx = to_units(x);
        let cy = to_units(y);
        Entity { rect: Rect { cx, cy, w: width, h: height }, x, y, x_vel, y_vel, gravity }
    }

    /// Recomputes the bounding rectangle from the floored position.
    fn update_rect(&mut self)
        requires
            -POS_LIMIT - STEP_LIMIT <= old(self).x <= POS_LIMIT + STEP_LIMIT,
            -POS_LIMIT - STEP_LIMIT <= old(self).y <= POS_LIMIT + STEP_LIMIT,
        ensures
            *final(self) == (Entity {
                rect: rect_for(old(self).x, old(self).y, old(self).rect.w, old(self).rect.h),
                ..*old(self)
            }),
    {
        let cx = to_units(self.x);
        let cy = to_units(self.y);
        self.rect = Rect { cx, cy, w: self.rect.w, h: self.rect.h };
    }

    /// One integration step over `dt` milliseconds: gravity (when enabled)
    /// raises the vertical velocity, the result is clamped to at most
    /// `MAX_VEL`, the position advances by `velocity * dt * MULT`, and the
    /// bounding rectangle is recomputed from the floored new position.
    pub fn update_position(&mut self, dt: u64)
        requires
            dt <= DT_LIMIT,
            old(self).pos_in_range(),
            old(self).vel_in_range(),
        ensures
            *final(self) == entity_stepped(*old(self), dt as int),
    {
        let dt_i = dt as i64;
        if self.gravity {
            self.y_vel = self.y_vel + GRAVITY_PER_MS * dt_i;
        }
        if self.y_vel > MAX_VEL {
            self.y_vel = MAX_VEL;
        }
        proof {
            lemma_step_bound(self.y_vel as int, dt as int);
            lemma_step_bound(self.x_vel as int, dt as int);
        }
        self.y = self.y + self.y_vel * dt_i * MULT;
        self.x = self.x + self.x_vel * dt_i * MULT;
        self.update_rect();
    }

    /// Sets the vertical velocity to the fixed jump impulse, overwriting any
    /// prior vertical velocity.
    pub fn jump(&mut self)
        ensures
            *final(self) == (Entity { y_vel: JUMP_FORCE, ..*old(self) }),
    {
        self.y_vel = JUMP_FORCE;
    }

    /// Zeroes both velocity components.
    pub fn stop(&mut self)
        ensures
            *final(self) == entity_stopped(*old(self)),
    {
        self.x_vel = 0;
        self.y_vel = 0;
    }
}

/// Bounds the position change of one step: a velocity within `VEL_LIMIT`
/// plus at most one gravity increment, times a time step within `DT_LIMIT`,
/// times `MULT`, stays within `STEP_LIMIT`.
proof fn lemma_step_bound(v: int, dt: int)
    requires
        0 <= dt <= DT_LIMIT,
        -(VEL_LIMIT + GRAVITY_PER_MS * DT_LIMIT) <= v <= VEL_LIMIT + GRAVITY_PER_MS * DT_LIMIT,
    ensures
        -STEP_LIMIT <= v * dt * MULT <= STEP_LIMIT,
        -STEP_LIMIT <= v * dt <= STEP_LIMIT,
{
    assert(-STEP_LIMIT <= v * dt * 180 <= STEP_LIMIT && -STEP_LIMIT <= v * dt <= STEP_LIMIT)
        by (nonlinear_arith)
        requires
            0 <= dt <= 10_000,
            -100_098_100_000 <= v <= 100_098_100_000,
    ;
}

/// The vertical velocity after one step of `dt` milliseconds: gravity (when
/// enabled) adds `GRAVITY_PER_MS * dt`, then the result is clamped to at most
/// `MAX_VEL`.
pub open spec fn stepped_y_vel(e: Entity, dt: int) -> int {
    let v = if e.gravity {
        e.y_vel + GRAVITY_PER_MS * dt
    } else {
        e.y_vel as int
    };
    if v > MAX_VEL {
        MAX_VEL as int
    } else {
        v
    }
}

/// The entity after one integration step of `dt` milliseconds.
pub open spec fn entity_stepped(e: Entity, dt: int) -> Entity {
    let vy = stepped_y_vel(e, dt);
    let x = e.x + e.x_vel * dt * MULT;
    let y = e.y + vy * dt * MULT;
    Entity {
        rect: rect_for(x as i64, y as i64, e.rect.w, e.rect.h),
        x: x as i64,
        y: y as i64,
        x_vel: e.x_vel,
        y_vel: vy as i64,
        gravity: e.gravity,
    }
}

/// The entity with both velocity components zeroed.
pub open spec fn entity_stopped(e: Entity) -> Entity {
    Entity { x_vel: 0, y_vel: 0, ..e }
}

/// Gravity clamp: no integration step over a nonnegative time step can
/// leave the vertical velocity above `MAX_VEL`, whatever it was before and
/// however much gravity added; hence over any number of repeated steps the
/// velocity never exceeds `MAX_VEL`.
pub proof fn lemma_gravity_clamp(e: Entity, dt: int)
    requires
        0 <= dt,
    ensures
        stepped_y_vel(e, dt) <= MAX_VEL,
        entity_stepped(e, dt).y_vel <= MAX_VEL,
{
}

/// Stopping is idempotent: stopping an already stopped entity changes
/// nothing.
pub proof fn lemma_stop_idempotent(e: Entity)
    ensures
        entity_stopped(entity_stopped(e)) == entity_stopped(e),
{
}

} // verus!
