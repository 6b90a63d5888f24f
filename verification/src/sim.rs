//! The game-state machine: the optional player entity (absence means "game
//! over, awaiting restart") and the live sequence of column entities, with
//! the per-frame `advance` step that integrates physics, recycles off-screen
//! columns, spawns new batches and detects the end of a round.

use crate::columns::{
    column_pair_x, create_columns, is_fresh_batch, is_fresh_pair, COL_DRIFT_VEL, COL_SPACING,
    COL_WIDTH, MAX_COL_HEIGHT, PAIR_COUNT, SCREEN_HEIGHT, SCREEN_WIDTH,
};
use crate::entity::{
    entity_stepped, entity_stopped, stepped_y_vel, Entity, JUMP_FORCE, MAX_VEL, MULT,
};
use crate::geom::{
    lemma_units_exact, lemma_units_range, rects_overlap, Rect, POS_LIMIT, POS_SCALE, STEP_LIMIT,
};
use std::collections::VecDeque;
use vstd::prelude::*;

verus! {

/// Horizontal spawn point of the player, in world units.
pub const PLAYER_SPAWN_X: i64 = 200;

/// Vertical spawn point of the player, in world units.
pub const PLAYER_SPAWN_Y: i64 = 10;

/// Side length of the player's square bounding rectangle, in world units.
pub const PLAYER_SIZE: u32 = 50;

/// Largest time step, in milliseconds, that one frame may advance by.  It
/// keeps a batch of columns from crossing more than a fraction of the
/// spacing between pairs in one frame, which in turn keeps the column
/// sequence from ever running dry.
pub const ADVANCE_DT_MAX: u64 = 900;

/// Largest leftward distance a column can drift in one frame, in position
/// sub-units: `|COL_DRIFT_VEL| * ADVANCE_DT_MAX * MULT`.
pub const MAX_DRIFT_STEP: i64 = 275_400_000_000;

/// Upper bound on the horizontal distance between consecutive moving pairs,
/// in position sub-units: one spacing plus at most one frame of drift
/// between an old batch and the batch spawned after it.
pub const MAX_PAIR_GAP: i64 = COL_SPACING as i64 * POS_SCALE + MAX_DRIFT_STEP;

/// Exclusive upper bound on the vertical position of a live player, in
/// position sub-units: one sub-unit above the lowest position whose floored
/// rectangle still counts as on screen.
pub const PLAYER_Y_MAX: i64 = 746_000_000_000;

/// The number of leading columns tested for a collision each frame.
pub const LOOKAHEAD: usize = 5;

/// The player entity as (re)created at the start of a round: at the spawn
/// point, at rest, with gravity enabled.
pub open spec fn initial_player() -> Entity {
    Entity {
        rect: Rect { cx: PLAYER_SPAWN_X, cy: PLAYER_SPAWN_Y, w: PLAYER_SIZE, h: PLAYER_SIZE },
        x: (PLAYER_SPAWN_X * POS_SCALE) as i64,
        y: (PLAYER_SPAWN_Y * POS_SCALE) as i64,
        x_vel: 0,
        y_vel: 0,
        gravity: true,
    }
}

/// A live player: gravity on, no horizontal motion, at the fixed horizontal
/// spawn position, vertical velocity between one jump impulse and the
/// gravity cap, still above the cut-off below the screen, and a square
/// bounding rectangle in sync with the position.
pub open spec fn player_wf(p: Entity) -> bool {
    &&& p.gravity
    &&& p.x_vel == 0
    &&& p.x == PLAYER_SPAWN_X * POS_SCALE
    &&& JUMP_FORCE <= p.y_vel <= MAX_VEL
    &&& p.y < PLAYER_Y_MAX
    &&& p.rect.w == PLAYER_SIZE
    &&& p.rect.h == PLAYER_SIZE
    &&& p.rect_in_sync()
}

/// The rightmost horizontal position of any column: the spawn position of
/// the last pair of a fresh batch.
pub open spec fn max_column_x() -> int {
    column_pair_x(PAIR_COUNT - 1)
}

/// The boundary that triggers a new batch: when the rightmost column drifts
/// left of `SCREEN_WIDTH + COL_WIDTH / 2`, a fresh batch is appended.
pub open spec fn spawn_boundary_x() -> int {
    (SCREEN_WIDTH + (COL_WIDTH as int) / 2) * POS_SCALE
}

/// A column is retained while it has not fully left past the left screen
/// edge: its horizontal centre is still right of minus its own width.
pub open spec fn column_kept(e: Entity) -> bool {
    e.x > -((e.rect.w as int) * POS_SCALE)
}

/// A single well-formed column: no gravity, no vertical motion, either
/// drifting left or frozen, the fixed width, an on-screen height and
/// vertical position, not yet recycled, never right of the spawn position
/// of a fresh batch, and a bounding rectangle in sync with the position.
pub open spec fn col_wf(c: Entity) -> bool {
    &&& !c.gravity
    &&& c.y_vel == 0
    &&& (c.x_vel == COL_DRIFT_VEL || c.x_vel == 0)
    &&& c.rect.w == COL_WIDTH
    &&& 1 <= c.rect.h <= MAX_COL_HEIGHT
    &&& column_kept(c)
    &&& c.x <= max_column_x()
    &&& 0 <= c.y <= (SCREEN_HEIGHT as int) * POS_SCALE
    &&& c.rect_in_sync()
}

/// Ordering of a column sequence: every entry is a well-formed column;
/// positions never decrease left to right; once a moving column appears,
/// all later columns move too (frozen columns form a prefix); and a moving
/// column stands at least one pair spacing right of any frozen one.  These
/// clauses survive dropping entries from the end, which the per-frame
/// rebuild proof leans on.
pub open spec fn cols_ordered(s: Seq<Entity>) -> bool {
    &&& forall|i: int| 0 <= i < s.len() ==> col_wf(#[trigger] s[i])
    &&& forall|i: int, j: int| 0 <= i <= j < s.len() ==> (#[trigger] s[i].x) <= (#[trigger] s[j].x)
    &&& forall|i: int, j: int|
        0 <= i <= j < s.len() && (#[trigger] s[i].x_vel) == COL_DRIFT_VEL ==> (
        #[trigger] s[j].x_vel) == COL_DRIFT_VEL
    &&& forall|i: int, j: int|
        0 <= i < j < s.len() && s[i].x_vel == 0 && s[j].x_vel == COL_DRIFT_VEL ==> (
        #[trigger] s[j].x) >= (#[trigger] s[i].x) + COL_SPACING * POS_SCALE
}

/// A well-formed column sequence: ordered as above, with entries in
/// (lower, upper) pairs that share one horizontal position and one
/// velocity, and any two columns two places apart at most `MAX_PAIR_GAP`
/// apart horizontally unless the left one is frozen.
pub open spec fn cols_wf(s: Seq<Entity>) -> bool {
    &&& cols_ordered(s)
    &&& s.len() % 2 == 0
    &&& forall|p: int|
        0 <= 2 * p + 1 < s.len() ==> #[trigger] s[2 * p].x == s[2 * p + 1].x && s[2 * p].x_vel
            == s[2 * p + 1].x_vel
    &&& forall|i: int|
        0 <= i && i + 2 < s.len() ==> (#[trigger] s[i].x_vel) == 0 || s[i + 2].x <= s[i].x
            + MAX_PAIR_GAP
}

/// The whole simulation state.  `player` is `None` exactly while the game
/// is over and awaiting a restart.
pub struct SimulationState {
    pub player: Option<Entity>,
    pub columns: VecDeque<Entity>,
}

impl SimulationState {
    /// The state invariant: the column sequence is well formed, never
    /// shorter than three pairs, its rightmost pair has not drifted past
    /// the spawn boundary, and while a player is present it is well formed
    /// and every column is still moving.
    pub open spec fn wf(self) -> bool {
        &&& cols_wf(self.columns@)
        &&& self.columns@.len() >= 6
        &&& self.columns@.last().x >= spawn_boundary_x()
        &&& (self.player matches Some(p) ==> player_wf(p))
        &&& (self.player is Some ==> forall|i: int|
            0 <= i < self.columns@.len() ==> (#[trigger] self.columns@[i].x_vel) == COL_DRIFT_VEL)
    }

    /// Starts a round: one player at the spawn point and one fresh batch of
    /// columns.
    pub fn new() -> (s: SimulationState)
        ensures
            s.wf(),
            s.player == Some(initial_player()),
            is_fresh_batch(s.columns@),
    {
        let player = Entity::new(
            PLAYER_SPAWN_X * POS_SCALE,
            PLAYER_SPAWN_Y * POS_SCALE,
            PLAYER_SIZE,
            PLAYER_SIZE,
            0,
            0,
            true,
        );
        let columns = create_columns();
        proof {
            lemma_units_exact(PLAYER_SPAWN_X as int);
            lemma_units_exact(PLAYER_SPAWN_Y as int);
            lemma_fresh_batch_wf(columns@);
        }
        SimulationState { player: Some(player), columns }
    }

    /// Resets the world: a new player entity at the spawn point and an
    /// entirely fresh column sequence.
    pub fn restart(&mut self)
        ensures
            final(self).wf(),
            final(self).player == Some(initial_player()),
            is_fresh_batch(final(self).columns@),
    {
        let player = Entity::new(
            PLAYER_SPAWN_X * POS_SCALE,
            PLAYER_SPAWN_Y * POS_SCALE,
            PLAYER_SIZE,
            PLAYER_SIZE,
            0,
            0,
            true,
        );
        self.player = Some(player);
        self.columns = create_columns();
        proof {
            lemma_units_exact(PLAYER_SPAWN_X as int);
            lemma_units_exact(PLAYER_SPAWN_Y as int);
            lemma_fresh_batch_wf(self.columns@);
        }
    }
}

/// A fresh batch is a well-formed column sequence: three or more pairs, all
/// moving, with its rightmost pair exactly at the spawn position of the
/// last pair and right of the spawn boundary.
pub proof fn lemma_fresh_batch_wf(s: Seq<Entity>)
    requires
        is_fresh_batch(s),
    ensures
        cols_wf(s),
        s.len() == 2 * PAIR_COUNT,
        s.last().x == max_column_x(),
        max_column_x() >= spawn_boundary_x(),
        forall|i: int| 0 <= i < s.len() ==> (#[trigger] s[i].x_vel) == COL_DRIFT_VEL,
        forall|i: int| 0 <= i < s.len() ==> (#[trigger] s[i].x) == column_pair_x(i / 2),
        forall|i: int| 0 <= i < s.len() ==> (#[trigger] s[i].x) >= column_pair_x(0),
{
    assert forall|i: int| 0 <= i < s.len() implies col_wf(#[trigger] s[i]) && s[i].x_vel
        == COL_DRIFT_VEL && s[i].x == column_pair_x(i / 2) && s[i].x >= column_pair_x(0) by {
        let k = i / 2;
        vstd::arithmetic::div_mod::lemma_fundamental_div_mod(i, 2);
        assert(0 <= k < PAIR_COUNT);
        assert(is_fresh_pair(s[2 * k], s[2 * k + 1], k));
        assert(i == 2 * k || i == 2 * k + 1);
        lemma_units_exact(column_pair_x(k) / POS_SCALE as int);
        lemma_units_exact((s[i].y as int) / POS_SCALE as int);
    }
    assert forall|p: int| 0 <= 2 * p + 1 < s.len() implies #[trigger] s[2 * p].x == s[2 * p
        + 1].x && s[2 * p].x_vel == s[2 * p + 1].x_vel by {
        assert(is_fresh_pair(s[2 * p], s[2 * p + 1], p));
    }
    assert forall|i: int, j: int|
        0 <= i <= j < s.len() implies (#[trigger] s[i].x) <= (#[trigger] s[j].x) by {
        vstd::arithmetic::div_mod::lemma_div_is_ordered(i, j, 2);
        assert(s[i].x == column_pair_x(i / 2));
        assert(s[j].x == column_pair_x(j / 2));
    }
    assert forall|i: int|
        0 <= i && i + 2 < s.len() implies (#[trigger] s[i].x_vel) == 0 || s[i + 2].x <= s[i].x
        + MAX_PAIR_GAP by {
        vstd::arithmetic::div_mod::lemma_fundamental_div_mod(i, 2);
        vstd::arithmetic::div_mod::lemma_fundamental_div_mod_converse(i + 2, 2, i / 2 + 1, i % 2);
        assert((i + 2) / 2 == i / 2 + 1);
        assert(s[i].x == column_pair_x(i / 2));
        assert(s[i + 2].x == column_pair_x(i / 2 + 1));
    }
    assert(s.last().x == column_pair_x((2 * PAIR_COUNT - 1) as int / 2));
}

/// A column entity after one frame: one physics step, then, once the game
/// is over, frozen in place.
pub open spec fn column_stepped(e: Entity, dt: int, playing: bool) -> Entity {
    if playing {
        entity_stepped(e, dt)
    } else {
        entity_stopped(entity_stepped(e, dt))
    }
}

/// Every column stepped by one frame, in order.
pub open spec fn stepped_cols(s: Seq<Entity>, dt: int, playing: bool) -> Seq<Entity> {
    Seq::new(s.len(), |i: int| column_stepped(s[i], dt, playing))
}

/// The column sequence as rebuilt each frame: every entity stepped (and
/// frozen once the game is over), retained only while `column_kept` holds
/// of its new position.
pub open spec fn rebuilt_columns(s: Seq<Entity>, dt: int, playing: bool) -> Seq<Entity>
    decreases s.len(),
{
    if s.len() == 0 {
        Seq::empty()
    } else {
        let rest = rebuilt_columns(s.drop_last(), dt, playing);
        let e = column_stepped(s.last(), dt, playing);
        if column_kept(e) {
            rest.push(e)
        } else {
            rest
        }
    }
}

/// Whether the (already stepped) player overlaps one of the first
/// `LOOKAHEAD` columns of the (already rebuilt) sequence.
pub open spec fn player_hits(p: Entity, cols: Seq<Entity>) -> bool {
    exists|i: int|
        0 <= i < LOOKAHEAD && i < cols.len() && rects_overlap(p.rect, (#[trigger] cols[i]).rect)
}

/// Whether the player's rectangle has dropped fully below the screen.
pub open spec fn player_fallen(p: Entity) -> bool {
    p.rect.top() > SCREEN_HEIGHT
}

/// Whether the rebuilt sequence calls for a fresh batch: its rightmost
/// column has drifted left of the boundary derived from its own width.
pub open spec fn needs_spawn(cols: Seq<Entity>) -> bool {
    cols.last().x < (SCREEN_WIDTH + (cols.last().rect.w as int) / 2) * POS_SCALE
}

/// One frame of a single well-formed column: it keeps its vertical
/// position, size and rectangle sync; it moves left by at most
/// `MAX_DRIFT_STEP` when drifting and not at all when frozen; and it ends
/// frozen once the game is over.
pub proof fn lemma_col_step(c: Entity, dt: int, playing: bool)
    requires
        col_wf(c),
        0 <= dt <= ADVANCE_DT_MAX,
    ensures
        column_stepped(c, dt, playing).x == c.x + c.x_vel * dt * MULT,
        c.x - MAX_DRIFT_STEP <= column_stepped(c, dt, playing).x <= c.x,
        (c.x_vel == 0 ==> column_stepped(c, dt, playing).x == c.x),
        column_stepped(c, dt, playing).y == c.y,
        column_stepped(c, dt, playing).y_vel == 0,
        column_stepped(c, dt, playing).x_vel == (if playing {
            c.x_vel
        } else {
            0i64
        }),
        !column_stepped(c, dt, playing).gravity,
        column_stepped(c, dt, playing).rect.w == c.rect.w,
        column_stepped(c, dt, playing).rect.h == c.rect.h,
        column_stepped(c, dt, playing).rect_in_sync(),
{
    assert(stepped_y_vel(c, dt) == 0);
    if c.x_vel == 0 {
        assert(c.x_vel * dt * MULT == 0);
    } else {
        assert(-MAX_DRIFT_STEP <= c.x_vel * dt * MULT <= 0) by (nonlinear_arith)
            requires
                c.x_vel == -1_700_000,
                0 <= dt <= 900,
        ;
    }
    assert(0i64 * dt * MULT == 0);
}

/// Within one frame columns keep their left-to-right order: a frozen
/// column stands still, and any moving column to its right started at
/// least one pair spacing away, more than a frame of drift.
pub proof fn lemma_step_order(s: Seq<Entity>, dt: int, playing: bool, i: int, j: int)
    requires
        cols_ordered(s),
        0 <= dt <= ADVANCE_DT_MAX,
        0 <= i <= j < s.len(),
    ensures
        stepped_cols(s, dt, playing)[i].x <= stepped_cols(s, dt, playing)[j].x,
{
    lemma_col_step(s[i], dt, playing);
    lemma_col_step(s[j], dt, playing);
    if s[i].x_vel == s[j].x_vel {
    } else if s[i].x_vel == 0 && s[j].x_vel == COL_DRIFT_VEL {
        assert(s[j].x >= s[i].x + COL_SPACING * POS_SCALE);
    } else {
        assert(s[i].x_vel == COL_DRIFT_VEL && s[j].x_vel == 0);
        assert(s[j].x_vel == COL_DRIFT_VEL);
        assert(false);
    }
}

/// Rebuilding keeps a suffix: columns keep their order within a frame and
/// all share one retention threshold, so the retained columns are exactly
/// the stepped columns from some cut onwards.
pub proof fn lemma_rebuilt_suffix(s: Seq<Entity>, dt: int, playing: bool) -> (m: int)
    requires
        cols_ordered(s),
        0 <= dt <= ADVANCE_DT_MAX,
    ensures
        0 <= m <= s.len(),
        rebuilt_columns(s, dt, playing) == stepped_cols(s, dt, playing).skip(m),
        forall|i: int| 0 <= i < m ==> !column_kept(#[trigger] stepped_cols(s, dt, playing)[i]),
        forall|i: int|
            m <= i < s.len() ==> column_kept(#[trigger] stepped_cols(s, dt, playing)[i]),
    decreases s.len(),
{
    let t = stepped_cols(s, dt, playing);
    if s.len() == 0 {
        assert(rebuilt_columns(s, dt, playing) =~= t.skip(0));
        0
    } else {
        let n = s.len() as int;
        let s0 = s.drop_last();
        assert(cols_ordered(s0)) by {
            assert(forall|i: int| 0 <= i < s0.len() ==> s0[i] == s[i]);
        }
        let m0 = lemma_rebuilt_suffix(s0, dt, playing);
        let t0 = stepped_cols(s0, dt, playing);
        assert(t0 =~= t.drop_last());
        let e = column_stepped(s.last(), dt, playing);
        assert(t[n - 1] == e);
        if column_kept(e) {
            assert(rebuilt_columns(s, dt, playing) =~= t.skip(m0)) by {
                assert(rebuilt_columns(s0, dt, playing) == t0.skip(m0));
            }
            assert forall|i: int| m0 <= i < n implies column_kept(#[trigger] t[i]) by {
                if i < n - 1 {
                    assert(column_kept(t0[i]));
                }
            }
            assert forall|i: int| 0 <= i < m0 implies !column_kept(#[trigger] t[i]) by {
                assert(!column_kept(t0[i]));
            }
            m0
        } else {
            if m0 < s0.len() {
                assert(column_kept(t0[m0]));
                lemma_step_order(s, dt, playing, m0, n - 1);
                lemma_col_step(s[m0], dt, playing);
                lemma_col_step(s[n - 1], dt, playing);
                assert(t[m0] == t0[m0]);
                assert(column_kept(e));
                assert(false);
            }
            assert(rebuilt_columns(s, dt, playing) =~= t.skip(n)) by {
                assert(rebuilt_columns(s0, dt, playing) == t0.skip(m0));
                assert(t0.skip(m0) =~= Seq::<Entity>::empty());
            }
            assert forall|i: int| 0 <= i < n implies !column_kept(#[trigger] t[i]) by {
                if i < n - 1 {
                    assert(!column_kept(t0[i]));
                }
            }
            n
        }
    }
}

/// The difference of two even numbers is even.
proof fn lemma_even_diff(n: int, m: int)
    requires
        n % 2 == 0,
        m % 2 == 0,
    ensures
        (n - m) % 2 == 0,
{
    vstd::arithmetic::div_mod::lemma_fundamental_div_mod(n, 2);
    vstd::arithmetic::div_mod::lemma_fundamental_div_mod(m, 2);
    vstd::arithmetic::div_mod::lemma_fundamental_div_mod_converse(n - m, 2, n / 2 - m / 2, 0);
}

/// One frame of rebuilding a well-formed column sequence: at least the
/// three rightmost pairs survive, the survivors form a well-formed
/// sequence again, its rightmost column is the stepped old rightmost, and
/// every velocity follows the phase of the game.
#[verifier::rlimit(100)]
pub proof fn lemma_rebuilt_wf(s: Seq<Entity>, dt: int, playing: bool) -> (m: int)
    requires
        cols_wf(s),
        s.len() >= 6,
        s.last().x >= spawn_boundary_x(),
        0 <= dt <= ADVANCE_DT_MAX,
        playing ==> forall|i: int| 0 <= i < s.len() ==> (#[trigger] s[i].x_vel) == COL_DRIFT_VEL,
    ensures
        ({
            let r = rebuilt_columns(s, dt, playing);
            let t = stepped_cols(s, dt, playing);
            &&& 0 <= m <= s.len() - 6
            &&& m % 2 == 0
            &&& r == t.skip(m)
            &&& r.len() == s.len() - m
            &&& cols_wf(r)
            &&& r.last() == column_stepped(s.last(), dt, playing)
            &&& s.last().x - MAX_DRIFT_STEP <= r.last().x <= s.last().x
            &&& r.last().rect.w == COL_WIDTH
            &&& (playing ==> forall|i: int|
                0 <= i < r.len() ==> (#[trigger] r[i].x_vel) == COL_DRIFT_VEL)
            &&& (!playing ==> forall|i: int| 0 <= i < r.len() ==> (#[trigger] r[i].x_vel) == 0)
        }),
{
    let t = stepped_cols(s, dt, playing);
    let n = s.len() as int;
    let m = lemma_rebuilt_suffix(s, dt, playing);
    let r = rebuilt_columns(s, dt, playing);
    assert forall|i: int|
        0 <= i < n implies {
        let u = #[trigger] t[i];
        &&& u.x == s[i].x + s[i].x_vel * dt * MULT
        &&& s[i].x - MAX_DRIFT_STEP <= u.x <= s[i].x
        &&& (s[i].x_vel == 0 ==> u.x == s[i].x)
        &&& u.y == s[i].y
        &&& u.y_vel == 0
        &&& u.x_vel == (if playing {
            s[i].x_vel
        } else {
            0i64
        })
        &&& !u.gravity
        &&& u.rect.w == COL_WIDTH
        &&& u.rect.h == s[i].rect.h
        &&& u.rect_in_sync()
    } by {
        lemma_col_step(s[i], dt, playing);
    }
    // At least the last three pairs survive.
    if s[0].x_vel == COL_DRIFT_VEL {
        assert(s[n - 2].x == s[n - 1].x) by {
            vstd::arithmetic::div_mod::lemma_fundamental_div_mod_converse(n - 2, 2, n / 2 - 1, 0);
            vstd::arithmetic::div_mod::lemma_fundamental_div_mod(n, 2);
            let p = (n - 2) / 2;
            assert(2 * p == n - 2);
            assert(s[2 * p].x == s[2 * p + 1].x);
        }
        assert(s[n - 4].x_vel == COL_DRIFT_VEL && s[n - 6].x_vel == COL_DRIFT_VEL);
        assert(s[n - 2].x <= s[n - 4].x + MAX_PAIR_GAP);
        assert(s[n - 4].x <= s[n - 6].x + MAX_PAIR_GAP);
        assert(s[n - 6].x >= spawn_boundary_x() - 2 * MAX_PAIR_GAP);
        assert(column_kept(t[n - 6]));
        if m > n - 6 {
            assert(!column_kept(t[n - 6]));
            assert(false);
        }
    } else {
        assert forall|i: int| 0 <= i < n implies column_kept(#[trigger] t[i]) by {
            if s[i].x_vel == 0 {
                assert(column_kept(s[i]));
            } else {
                assert(s[i].x >= s[0].x + COL_SPACING * POS_SCALE);
                assert(column_kept(s[0]));
            }
        }
        if m > 0 {
            assert(!column_kept(t[0]));
            assert(false);
        }
    }
    // The cut falls on a pair boundary.
    if m % 2 != 0 {
        vstd::arithmetic::div_mod::lemma_fundamental_div_mod(m, 2);
        vstd::arithmetic::div_mod::lemma_fundamental_div_mod_converse(m - 1, 2, (m - 1) / 2, 0);
        let p = (m - 1) / 2;
        assert(2 * p == m - 1);
        assert(s[2 * p].x == s[2 * p + 1].x && s[2 * p].x_vel == s[2 * p + 1].x_vel);
        assert(t[m - 1].x == t[m].x && t[m - 1].rect.w == t[m].rect.w);
        assert(!column_kept(t[m - 1]) && column_kept(t[m]));
        assert(false);
    }
    assert(r.len() == n - m);
    assert forall|i: int| 0 <= i < r.len() implies r[i] == t[m + i] by {}
    // The survivors are again well formed.
    assert forall|i: int| 0 <= i < r.len() implies col_wf(#[trigger] r[i]) by {
        assert(r[i] == t[m + i]);
        assert(col_wf(s[m + i]));
        assert(column_kept(t[m + i]));
    }
    assert forall|i: int, j: int|
        0 <= i <= j < r.len() implies (#[trigger] r[i].x) <= (#[trigger] r[j].x) by {
        lemma_step_order(s, dt, playing, m + i, m + j);
    }
    assert forall|i: int, j: int|
        0 <= i <= j < r.len() && (#[trigger] r[i].x_vel) == COL_DRIFT_VEL implies (
    #[trigger] r[j].x_vel) == COL_DRIFT_VEL by {
        if playing {
            assert(s[m + i].x_vel == COL_DRIFT_VEL);
            assert(s[m + j].x_vel == COL_DRIFT_VEL);
        }
    }
    assert forall|i: int, j: int|
        0 <= i < j < r.len() && r[i].x_vel == 0 && r[j].x_vel == COL_DRIFT_VEL implies (
    #[trigger] r[j].x) >= (#[trigger] r[i].x) + COL_SPACING * POS_SCALE by {
        if playing {
            assert(s[m + i].x_vel == COL_DRIFT_VEL);
            assert(false);
        }
    }
    assert((n - m) % 2 == 0) by {
        lemma_even_diff(n, m);
    }
    assert forall|p: int|
        0 <= 2 * p + 1 < r.len() implies #[trigger] r[2 * p].x == r[2 * p + 1].x && r[2
        * p].x_vel == r[2 * p + 1].x_vel by {
        vstd::arithmetic::div_mod::lemma_fundamental_div_mod(m, 2);
        vstd::arithmetic::div_mod::lemma_fundamental_div_mod_converse(m + 2 * p, 2, m / 2 + p, 0);
        let q = (m + 2 * p) / 2;
        assert(2 * q == m + 2 * p);
        assert(s[2 * q].x == s[2 * q + 1].x && s[2 * q].x_vel == s[2 * q + 1].x_vel);
        assert(r[2 * p] == t[2 * q] && r[2 * p + 1] == t[2 * q + 1]);
    }
    assert forall|i: int|
        0 <= i && i + 2 < r.len() implies (#[trigger] r[i].x_vel) == 0 || r[i + 2].x <= r[i].x
        + MAX_PAIR_GAP by {
        if playing {
            assert(s[m + i].x_vel == COL_DRIFT_VEL);
            assert(s[m + i].x_vel == 0 || s[m + i + 2].x <= s[m + i].x + MAX_PAIR_GAP);
            assert(r[i] == t[m + i] && r[i + 2] == t[m + i + 2]);
        }
    }
    // The rightmost column survives.
    assert(r.last() == t[n - 1]);
    m
}

/// Appending a fresh batch to a rebuilt sequence whose rightmost column
/// has just crossed the spawn boundary restores the invariant: the batch
/// starts one pair spacing past the boundary, so every ordering and gap
/// condition carries across the seam.
pub proof fn lemma_append_batch_wf(r: Seq<Entity>, b: Seq<Entity>)
    requires
        cols_wf(r),
        r.len() >= 6,
        spawn_boundary_x() - MAX_DRIFT_STEP <= r.last().x < spawn_boundary_x(),
        (forall|i: int| 0 <= i < r.len() ==> (#[trigger] r[i].x_vel) == COL_DRIFT_VEL) || (forall|
            i: int,
        | 0 <= i < r.len() ==> (#[trigger] r[i].x_vel) == 0),
        is_fresh_batch(b),
    ensures
        cols_wf(r + b),
        (r + b).len() == r.len() + 2 * PAIR_COUNT,
        (r + b).last().x == max_column_x(),
        max_column_x() >= spawn_boundary_x(),
        (forall|i: int| 0 <= i < r.len() ==> (#[trigger] r[i].x_vel) == COL_DRIFT_VEL)
            ==> (forall|i: int|
            0 <= i < (r + b).len() ==> (#[trigger] (r + b)[i].x_vel) == COL_DRIFT_VEL),
{
    lemma_fresh_batch_wf(b);
    let c = r + b;
    let rn = r.len() as int;
    assert(c.last() == b.last());
    assert forall|i: int| 0 <= i < c.len() implies col_wf(#[trigger] c[i]) by {
        if i < rn {
            assert(c[i] == r[i]);
        } else {
            assert(c[i] == b[i - rn]);
        }
    }
    assert forall|i: int| 0 <= i < r.len() implies (#[trigger] r[i].x) <= r.last().x by {}
    assert forall|i: int, j: int|
        0 <= i <= j < c.len() implies (#[trigger] c[i].x) <= (#[trigger] c[j].x) by {
        if j < rn {
        } else if i >= rn {
            assert(c[i] == b[i - rn] && c[j] == b[j - rn]);
        } else {
            assert(c[i] == r[i] && c[j] == b[j - rn]);
            assert(r[i].x <= r.last().x);
            assert(b[j - rn].x >= column_pair_x(0));
        }
    }
    assert forall|i: int, j: int|
        0 <= i <= j < c.len() && (#[trigger] c[i].x_vel) == COL_DRIFT_VEL implies (
    #[trigger] c[j].x_vel) == COL_DRIFT_VEL by {
        if j >= rn {
            assert(c[j] == b[j - rn]);
        } else {
            assert(c[i] == r[i] && c[j] == r[j]);
        }
    }
    assert forall|i: int, j: int|
        0 <= i < j < c.len() && c[i].x_vel == 0 && c[j].x_vel == COL_DRIFT_VEL implies (
    #[trigger] c[j].x) >= (#[trigger] c[i].x) + COL_SPACING * POS_SCALE by {
        if j < rn {
            assert(c[i] == r[i] && c[j] == r[j]);
        } else if i >= rn {
            assert(c[i] == b[i - rn]);
        } else {
            assert(c[i] == r[i] && c[j] == b[j - rn]);
            assert(r[i].x <= r.last().x);
            assert(b[j - rn].x >= column_pair_x(0));
        }
    }
    assert(c.len() % 2 == 0) by {
        lemma_even_diff(c.len() as int, r.len() as int);
    }
    assert forall|p: int|
        0 <= 2 * p + 1 < c.len() implies #[trigger] c[2 * p].x == c[2 * p + 1].x && c[2
        * p].x_vel == c[2 * p + 1].x_vel by {
        if 2 * p + 1 < rn {
            assert(c[2 * p] == r[2 * p] && c[2 * p + 1] == r[2 * p + 1]);
        } else {
            vstd::arithmetic::div_mod::lemma_fundamental_div_mod(rn, 2);
            vstd::arithmetic::div_mod::lemma_fundamental_div_mod_converse(
                2 * p - rn,
                2,
                p - rn / 2,
                0,
            );
            let q = (2 * p - rn) / 2;
            assert(2 * q == 2 * p - rn);
            assert(2 * p >= rn);
            assert(c[2 * p] == b[2 * q] && c[2 * p + 1] == b[2 * q + 1]);
            assert(b[2 * q].x == b[2 * q + 1].x && b[2 * q].x_vel == b[2 * q + 1].x_vel);
        }
    }
    assert forall|i: int|
        0 <= i && i + 2 < c.len() implies (#[trigger] c[i].x_vel) == 0 || c[i + 2].x <= c[i].x
        + MAX_PAIR_GAP by {
        if i + 2 < rn {
            assert(c[i] == r[i] && c[i + 2] == r[i + 2]);
        } else if i >= rn {
            assert(c[i] == b[i - rn] && c[i + 2] == b[i - rn + 2]);
        } else {
            // Across the seam: the old rightmost pair against the first
            // fresh pair.
            assert(c[i] == r[i] && c[i + 2] == b[i + 2 - rn]);
            if r[i].x_vel != 0 {
                assert(i == rn - 2 || i == rn - 1);
                assert(r[rn - 2].x == r[rn - 1].x) by {
                    vstd::arithmetic::div_mod::lemma_fundamental_div_mod(rn, 2);
                    vstd::arithmetic::div_mod::lemma_fundamental_div_mod_converse(
                        rn - 2,
                        2,
                        rn / 2 - 1,
                        0,
                    );
                    let p = (rn - 2) / 2;
                    assert(2 * p == rn - 2);
                    assert(r[2 * p].x == r[2 * p + 1].x);
                }
                assert(b[0].x == column_pair_x(0) && b[1].x == column_pair_x(0)) by {
                    assert(b[0].x == column_pair_x(0int / 2));
                    assert(b[1].x == column_pair_x(1int / 2));
                    assert(0int / 2 == 0 && 1int / 2 == 0);
                }
                assert(c[i + 2].x == column_pair_x(0));
                assert(r[i].x == r.last().x);
            }
        }
    }
    assert forall|i: int|
        0 <= i < c.len() && (forall|k: int|
            0 <= k < r.len() ==> (#[trigger] r[k].x_vel) == COL_DRIFT_VEL) implies (
    #[trigger] c[i].x_vel) == COL_DRIFT_VEL by {
        if i < rn {
            assert(c[i] == r[i]);
        } else {
            assert(c[i] == b[i - rn]);
        }
    }
}

/// One frame of a live player: the horizontal position is unchanged, the
/// vertical position moves by at most one step bound, the vertical
/// velocity stays between one jump impulse and the gravity cap, the shape
/// survives, and a player that has not fallen below the screen is still
/// under the vertical cut-off.
pub proof fn lemma_player_step(p: Entity, dt: int)
    requires
        player_wf(p),
        p.y >= -POS_LIMIT,
        0 <= dt <= ADVANCE_DT_MAX,
    ensures
        ({
            let q = entity_stepped(p, dt);
            &&& q.x == p.x
            &&& p.y - STEP_LIMIT <= q.y <= p.y + STEP_LIMIT
            &&& JUMP_FORCE <= q.y_vel <= MAX_VEL
            &&& q.gravity
            &&& q.x_vel == 0
            &&& q.rect.w == PLAYER_SIZE
            &&& q.rect.h == PLAYER_SIZE
            &&& q.rect_in_sync()
            &&& q.rect.in_range()
            &&& (!player_fallen(q) ==> q.y < PLAYER_Y_MAX)
        }),
{
    let vy = stepped_y_vel(p, dt);
    assert(JUMP_FORCE <= vy <= MAX_VEL);
    assert(-STEP_LIMIT <= vy * dt * MULT <= STEP_LIMIT) by (nonlinear_arith)
        requires
            -3_000_000 <= vy <= 3_500_000,
            0 <= dt <= 900,
    ;
    assert(p.x_vel * dt * MULT == 0);
    let y1 = p.y + vy * dt * MULT;
    let q = entity_stepped(p, dt);
    assert(q.y == y1 && q.x == p.x);
    lemma_units_range(p.x as int, 4_300_000_000);
    lemma_units_range(y1, 4_300_000_000);
    if y1 >= PLAYER_Y_MAX {
        lemma_units_exact(746);
        vstd::arithmetic::div_mod::lemma_div_is_ordered(
            746 * (POS_SCALE as int),
            y1,
            POS_SCALE as int,
        );
        assert(q.rect.cy >= 746);
        assert(player_fallen(q));
    }
}

impl SimulationState {
    /// Advances the simulation by `dt` milliseconds, in this order: the
    /// player's physics is integrated; the column sequence is rebuilt (each
    /// column stepped, frozen once the game is over, and dropped when fully
    /// past the left edge); a collision of the player against the first
    /// `LOOKAHEAD` rebuilt columns or a fall below the screen ends the
    /// round; and a fresh batch is appended once the rightmost column
    /// crosses the spawn boundary, so the sequence never runs dry.
    #[verifier::rlimit(100)]
    pub fn advance(&mut self, dt: u64)
        requires
            old(self).wf(),
            dt <= ADVANCE_DT_MAX,
            old(self).player matches Some(p) ==> p.y >= -POS_LIMIT,
        ensures
            final(self).wf(),
            final(self).columns@.len() >= 6,
            ({
                let playing = old(self).player is Some;
                let cols1 = rebuilt_columns(old(self).columns@, dt as int, playing);
                &&& (if needs_spawn(cols1) {
                    &&& final(self).columns@.len() == cols1.len() + 2 * PAIR_COUNT
                    &&& final(self).columns@.subrange(0, cols1.len() as int) == cols1
                    &&& is_fresh_batch(final(self).columns@.skip(cols1.len() as int))
                } else {
                    final(self).columns@ == cols1
                })
                &&& (match old(self).player {
                    Some(p) => {
                        let p1 = entity_stepped(p, dt as int);
                        final(self).player == (if player_hits(p1, cols1) || player_fallen(p1) {
                            None::<Entity>
                        } else {
                            Some(p1)
                        })
                    },
                    None => final(self).player is None,
                })
            }),
    {
        let ghost s_old = self.columns@;
        let ghost old_player = self.player;
        let playing = self.player.is_some();

        // Step 1: integrate the player's physics.
        match &mut self.player {
            Some(p) => {
                proof {
                    lemma_player_step(*p, dt as int);
                }
                p.update_position(dt);
            },
            None => {},
        }
        let ghost p1 = entity_stepped(old_player->0, dt as int);

        // Step 2: rebuild the column sequence.
        let n = self.columns.len();
        let mut updated: VecDeque<Entity> = VecDeque::new();
        let mut idx: usize = 0;
        while idx < n
            invariant
                idx <= n,
                n == self.columns@.len(),
                self.columns@ == s_old,
                cols_wf(s_old),
                dt <= ADVANCE_DT_MAX,
                updated@ == rebuilt_columns(s_old.subrange(0, idx as int), dt as int, playing),
            decreases n - idx,
        {
            let mut column = self.columns[idx];
            proof {
                assert(col_wf(s_old[idx as int]));
                lemma_col_step(s_old[idx as int], dt as int, playing);
            }
            column.update_position(dt);
            if !playing {
                column.stop();
            }
            assert(column == column_stepped(s_old[idx as int], dt as int, playing));
            if column.x > -((column.rect.w as i64) * POS_SCALE) {
                updated.push_back(column);
            }
            proof {
                let sub1 = s_old.subrange(0, idx + 1);
                assert(sub1.drop_last() =~= s_old.subrange(0, idx as int));
                assert(sub1.last() == s_old[idx as int]);
            }
            idx = idx + 1;
        }
        proof {
            assert(s_old.subrange(0, n as int) =~= s_old);
        }
        let ghost cols1 = rebuilt_columns(s_old, dt as int, playing);
        proof {
            let m = lemma_rebuilt_wf(s_old, dt as int, playing);
        }
        assert(updated@ == cols1 && updated@.len() >= 6 && cols_wf(cols1));

        // Step 3: collision against the first LOOKAHEAD rebuilt columns.
        if self.player.is_some() {
            let p = self.player.unwrap();
            proof {
                lemma_player_step(old_player->0, dt as int);
                assert forall|j: int|
                    0 <= j < updated@.len() implies (#[trigger] updated@[j]).rect.in_range() by {
                    assert(col_wf(updated@[j]));
                    lemma_units_range(updated@[j].x as int, 4_300_000_000);
                    lemma_units_range(updated@[j].y as int, 4_300_000_000);
                }
            }
            let mut hit = false;
            let mut i: usize = 0;
            while i < LOOKAHEAD
                invariant
                    i <= LOOKAHEAD,
                    updated@.len() >= 6,
                    p == p1,
                    p.rect.in_range(),
                    forall|j: int| 0 <= j < updated@.len() ==> (#[trigger] updated@[j]).rect.in_range(),
                    hit == (exists|j: int|
                        0 <= j < i && rects_overlap(p1.rect, (#[trigger] updated@[j]).rect)),
                decreases LOOKAHEAD - i,
            {
                let c = updated[i];
                if p.rect.has_intersection(&c.rect) {
                    hit = true;
                    proof {
                        assert(rects_overlap(p1.rect, updated@[i as int].rect));
                    }
                }
                i = i + 1;
            }
            assert(hit == player_hits(p1, cols1));
            if hit {
                self.player = None;
            }
        }

        // Step 4: a player whose rectangle has dropped below the screen
        // ends the round.
        if self.player.is_some() {
            let p = self.player.unwrap();
            proof {
                lemma_player_step(old_player->0, dt as int);
            }
            if p.rect.top_edge() > SCREEN_HEIGHT as i64 {
                self.player = None;
            }
        }

        // Step 5: append a fresh batch once the rightmost column crosses
        // the spawn boundary.
        let last = updated[updated.len() - 1];
        let boundary: u32 = SCREEN_WIDTH + last.rect.w / 2;
        if last.x < (boundary as i64) * POS_SCALE {
            let mut fresh = create_columns();
            proof {
                lemma_append_batch_wf(updated@, fresh@);
            }
            updated.append(&mut fresh);
            proof {
                assert(self.columns@ == s_old);
                assert(updated@.subrange(0, cols1.len() as int) =~= cols1);
                assert(updated@.skip(cols1.len() as int) =~= updated@.subrange(
                    cols1.len() as int,
                    updated@.len() as int,
                ));
            }
        }

        // Step 6: install the rebuilt sequence.
        self.columns = updated;
    }
}

} // verus!
