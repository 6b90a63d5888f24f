//! Procedural generation of paired obstacle columns.
//!
//! Each call to [`create_columns`] produces `PAIR_COUNT` pairs of entities,
//! pushed in (lower, upper) order.  The upper column's height is drawn
//! uniformly at random from `[MIN_COL_HEIGHT, MAX_COL_HEIGHT)`; the lower
//! column's height is the complement, so that a gap of `GAP_SIZE` world
//! units sits between them.  Pairs stand `COL_SPACING` units apart, starting
//! just off the right edge of the screen, and drift left at a fixed speed.

use crate::entity::Entity;
use crate::geom::{lemma_units_exact, POS_SCALE};
use rand::Rng;
use std::collections::VecDeque;
use vstd::prelude::*;

verus! {

/// Screen width in world units (pixels).
pub const SCREEN_WIDTH: u32 = 1280;

/// Screen height in world units (pixels).
pub const SCREEN_HEIGHT: u32 = 720;

/// Vertical gap between the two columns of a pair, in world units.
pub const GAP_SIZE: u32 = 200;

/// Horizontal distance between consecutive pairs, in world units.
pub const COL_SPACING: u32 = 300;

/// Width of every column, in world units.
pub const COL_WIDTH: u32 = 100;

/// Smallest height the upper column may take, in world units.
pub const MIN_COL_HEIGHT: u32 = 100;

/// One past the largest height the upper column may take: what remains of
/// the screen after the gap and the smallest lower column.
pub const MAX_COL_HEIGHT: u32 = SCREEN_HEIGHT - MIN_COL_HEIGHT - GAP_SIZE;

/// Leftward drift velocity of every column: -1.7 world units per second.
pub const COL_DRIFT_VEL: i64 = -1_700_000;

/// Number of column pairs in one generated batch.
pub const PAIR_COUNT: usize = 6;

/// Relies on rand 0.8's `Rng::gen_range` over the half-open `u32` range
/// `lo..hi`, with the generator from `rand::thread_rng`: the sample is
/// uniformly distributed in `[lo, hi)`, and the call panics only on an empty
/// range, which the precondition rules out.
#[verifier::external_body]
fn sample_range(lo: u32, hi: u32) -> (r: u32)
    requires
        lo < hi,
    ensures
        lo <= r < hi,
{
    rand::thread_rng().gen_range(lo..hi)
}

/// The shared horizontal position of pair `k` of a fresh batch: just past
/// the right screen edge, plus `k` spacings, in position sub-units.
pub open spec fn column_pair_x(k: int) -> int {
    (SCREEN_WIDTH + COL_SPACING + (COL_WIDTH as int) / 2 + COL_SPACING * k) * POS_SCALE
}

/// The `k`-th freshly generated pair: `lower` and `upper` share the
/// horizontal position `column_pair_x(k)`, drift left at `COL_DRIFT_VEL`
/// without gravity, and their heights sum to `SCREEN_HEIGHT - GAP_SIZE`.
/// The upper column hangs from the top of the screen and the lower column
/// stands on its bottom.
pub open spec fn is_fresh_pair(lower: Entity, upper: Entity, k: int) -> bool {
    let hu = upper.rect.h as int;
    let hl = lower.rect.h as int;
    &&& MIN_COL_HEIGHT <= hu < MAX_COL_HEIGHT
    &&& hl == SCREEN_HEIGHT - GAP_SIZE - hu
    &&& upper.rect.w == COL_WIDTH
    &&& lower.rect.w == COL_WIDTH
    &&& upper.x == column_pair_x(k)
    &&& lower.x == column_pair_x(k)
    &&& upper.y == (hu / 2) * POS_SCALE
    &&& lower.y == (SCREEN_HEIGHT - hl / 2) * POS_SCALE
    &&& upper.x_vel == COL_DRIFT_VEL
    &&& lower.x_vel == COL_DRIFT_VEL
    &&& upper.y_vel == 0
    &&& lower.y_vel == 0
    &&& !upper.gravity
    &&& !lower.gravity
    &&& upper.rect_in_sync()
    &&& lower.rect_in_sync()
}

/// A complete freshly generated batch: `PAIR_COUNT` pairs in (lower, upper)
/// order.
pub open spec fn is_fresh_batch(s: Seq<Entity>) -> bool {
    &&& s.len() == 2 * PAIR_COUNT
    &&& forall|k: int|
        0 <= k < PAIR_COUNT ==> #[trigger] is_fresh_pair(s[2 * k], s[2 * k + 1], k)
}

/// Generates one batch of paired obstacle columns, in (lower, upper) order
/// per pair, with the upper height drawn uniformly at random from
/// `[MIN_COL_HEIGHT, MAX_COL_HEIGHT)`.
pub fn create_columns() -> (cols: VecDeque<Entity>)
    ensures
        is_fresh_batch(cols@),
{
    let mut deque: VecDeque<Entity> = VecDeque::new();
    let spawn_pos_x: i64 = (SCREEN_WIDTH + COL_SPACING + COL_WIDTH / 2) as i64;
    let mut i: usize = 0;
    while i < PAIR_COUNT
        invariant
            i <= PAIR_COUNT,
            spawn_pos_x == SCREEN_WIDTH + COL_SPACING + (COL_WIDTH as int) / 2,
            deque@.len() == 2 * i,
            forall|k: int|
                0 <= k < i ==> #[trigger] is_fresh_pair(deque@[2 * k], deque@[2 * k + 1], k),
        decreases PAIR_COUNT - i,
    {
        let col_height_upper = sample_range(MIN_COL_HEIGHT, MAX_COL_HEIGHT);
        let col_height_lower = SCREEN_HEIGHT - col_height_upper - GAP_SIZE;

        let y_upper = col_height_upper / 2;
        let y_lower = SCREEN_HEIGHT - col_height_lower / 2;
        let x: i64 = (spawn_pos_x + (i as i64) * (COL_SPACING as i64)) * POS_SCALE;

        let upper = Entity::new(
            x,
            (y_upper as i64) * POS_SCALE,
            COL_WIDTH,
            col_height_upper,
            COL_DRIFT_VEL,
            0,
            false,
        );
        let lower = Entity::new(
            x,
            (y_lower as i64) * POS_SCALE,
            COL_WIDTH,
            col_height_lower,
            COL_DRIFT_VEL,
            0,
            false,
        );

        deque.push_back(lower);
        deque.push_back(upper);

        proof {
            lemma_units_exact(x as int / POS_SCALE as int);
            assert(is_fresh_pair(lower, upper, i as int));
        }
        i = i + 1;
    }
    deque
}

/// Column pairing: a fresh batch has even length, the two columns of each
/// pair share one horizontal position, and their heights sum exactly to
/// `SCREEN_HEIGHT - GAP_SIZE`.
pub proof fn lemma_column_pairing(s: Seq<Entity>, k: int)
    requires
        is_fresh_batch(s),
        0 <= k < PAIR_COUNT,
    ensures
        s.len() % 2 == 0,
        s[2 * k].x == s[2 * k + 1].x,
        s[2 * k].rect.h + s[2 * k + 1].rect.h == SCREEN_HEIGHT - GAP_SIZE,
{
    assert(is_fresh_pair(s[2 * k], s[2 * k + 1], k));
}

/// Gap invariant: in every generated pair, the vertical distance between the
/// bottom edge of the upper column and the top edge of the lower column is
/// exactly `GAP_SIZE` whenever the drawn upper height is even; an odd height
/// loses one unit to the two floored halvings and widens the gap to
/// `GAP_SIZE + 1`.
pub proof fn lemma_gap_invariant(s: Seq<Entity>, k: int)
    requires
        is_fresh_batch(s),
        0 <= k < PAIR_COUNT,
    ensures
        GAP_SIZE <= s[2 * k].rect.top() - s[2 * k + 1].rect.bottom() <= GAP_SIZE + 1,
        s[2 * k + 1].rect.h % 2 == 0 ==> s[2 * k].rect.top() - s[2 * k + 1].rect.bottom()
            == GAP_SIZE,
{
    assert(is_fresh_pair(s[2 * k], s[2 * k + 1], k));
    let lower = s[2 * k];
    let upper = s[2 * k + 1];
    let hu = upper.rect.h as int;
    let hl = lower.rect.h as int;
    lemma_units_exact(hu / 2);
    lemma_units_exact(SCREEN_HEIGHT - hl / 2);
    assert(upper.rect.cy == hu / 2);
    assert(lower.rect.cy == SCREEN_HEIGHT - hl / 2);
    vstd::arithmetic::div_mod::lemma_fundamental_div_mod(hu, 2);
    vstd::arithmetic::div_mod::lemma_fundamental_div_mod(hl, 2);
}

} // verus!
