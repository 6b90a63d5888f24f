use flappy::columns::create_columns;
use flappy::geom::POS_SCALE;

#[test]
fn batch_is_six_pairs_in_lower_upper_order() {
    for _ in 0..5 {
        let cols = create_columns();
        assert_eq!(cols.len(), 12);
        assert_eq!(cols.len() % 2, 0);
        for k in 0..6usize {
            let lower = cols[2 * k];
            let upper = cols[2 * k + 1];
            // Pairs share one horizontal position, spaced 300 units apart
            // starting just off the right screen edge.
            let expected_x = (1280 + 300 + 50 + 300 * k as i64) * POS_SCALE;
            assert_eq!(lower.x, expected_x);
            assert_eq!(upper.x, expected_x);
            // The upper height is drawn from [100, 420); the lower height
            // is the complement of the gap.
            assert!(upper.rect.h >= 100);
            assert!(upper.rect.h < 420);
            assert_eq!(lower.rect.h, 720 - 200 - upper.rect.h);
            assert_eq!(upper.rect.h + lower.rect.h, 720 - 200);
            // Both drift left without gravity or vertical motion.
            assert_eq!(lower.x_vel, -1_700_000);
            assert_eq!(upper.x_vel, -1_700_000);
            assert_eq!(lower.y_vel, 0);
            assert_eq!(upper.y_vel, 0);
            assert_eq!(lower.rect.w, 100);
            assert_eq!(upper.rect.w, 100);
        }
    }
}

#[test]
fn gap_between_pair_edges() {
    for _ in 0..10 {
        let cols = create_columns();
        for k in 0..6usize {
            let lower = cols[2 * k];
            let upper = cols[2 * k + 1];
            let upper_bottom = upper.rect.cy - (upper.rect.h / 2) as i64 + upper.rect.h as i64;
            let lower_top = lower.rect.cy - (lower.rect.h / 2) as i64;
            let gap = lower_top - upper_bottom;
            if upper.rect.h % 2 == 0 {
                assert_eq!(gap, 200);
            } else {
                // An odd height loses one unit to the two floored
                // halvings.
                assert_eq!(gap, 201);
            }
        }
    }
}

#[test]
fn columns_hang_from_top_and_stand_on_bottom() {
    let cols = create_columns();
    for k in 0..6usize {
        let lower = cols[2 * k];
        let upper = cols[2 * k + 1];
        // The upper column's top edge is the top of the screen.
        assert_eq!(upper.rect.cy, (upper.rect.h / 2) as i64);
        // The lower column's centre sits half its height above the bottom.
        assert_eq!(lower.rect.cy, 720 - (lower.rect.h / 2) as i64);
    }
}
