use flyin::timing::{pause_after, phase, Phase, FRAME_BUDGET, FRAME_STEP, LINE_DELAY, UNIT};

const DELAY: u64 = 50_000;

#[test]
fn constants_are_millionths() {
    assert_eq!(UNIT, 1_000_000);
    assert_eq!(FRAME_STEP * 100, UNIT);
    assert_eq!(LINE_DELAY * 2, UNIT);
}

#[test]
fn first_glyph_starts_at_the_right_edge() {
    assert_eq!(phase(0, 0, 0, DELAY), Phase::Moving(80));
}

#[test]
fn eased_offset_exact_values() {
    // t = 0.5: 0.125 * 80
    assert_eq!(phase(50, 0, 0, DELAY), Phase::Moving(10));
    // t = 0.45: 0.166375 * 80 = 13.31
    assert_eq!(phase(50, 1, 0, DELAY), Phase::Moving(13));
    // t = 0.01: 0.970299 * 80 = 77.62
    assert_eq!(phase(1, 0, 0, DELAY), Phase::Moving(77));
    // t = 0.9: 0.001 * 80
    assert_eq!(phase(90, 0, 0, DELAY), Phase::Moving(0));
    // t = 0.75: 0.015625 * 80 = 1.25
    assert_eq!(phase(75, 0, 0, DELAY), Phase::Moving(1));
}

#[test]
fn glyph_settles_after_time_one() {
    assert_eq!(phase(100, 0, 0, DELAY), Phase::Moving(0));
    assert_eq!(phase(101, 0, 0, DELAY), Phase::Settled);
    assert_eq!(phase(300, 1, 0, DELAY), Phase::Settled);
}

#[test]
fn later_columns_wait() {
    assert_eq!(phase(4, 1, 0, DELAY), Phase::Waiting);
    assert_eq!(phase(5, 1, 0, DELAY), Phase::Moving(80));
    assert_eq!(phase(0, 1, 0, DELAY), Phase::Waiting);
}

#[test]
fn later_lines_wait_half_a_unit() {
    assert_eq!(phase(49, 0, 1, DELAY), Phase::Waiting);
    assert_eq!(phase(50, 0, 1, DELAY), Phase::Moving(80));
    assert_eq!(phase(100, 0, 1, DELAY), Phase::Moving(10));
    assert_eq!(phase(150, 0, 1, DELAY), Phase::Moving(0));
    assert_eq!(phase(151, 0, 1, DELAY), Phase::Settled);
}

#[test]
fn zero_delay_starts_all_columns_together() {
    assert_eq!(phase(50, 0, 0, 0), Phase::Moving(10));
    assert_eq!(phase(50, 79, 0, 0), Phase::Moving(10));
}

#[test]
fn huge_values_do_not_overflow() {
    assert_eq!(phase(usize::MAX, 0, 0, DELAY), Phase::Settled);
    assert_eq!(phase(usize::MAX, usize::MAX, 0, u64::MAX), Phase::Waiting);
    assert_eq!(phase(usize::MAX, 1, usize::MAX, 1), Phase::Waiting);
    assert_eq!(phase(0, usize::MAX, usize::MAX, u64::MAX), Phase::Waiting);
}

#[test]
fn offset_never_grows_from_frame_to_frame() {
    for j in [0usize, 1, 7, 40] {
        let mut last: Option<usize> = None;
        let mut settled = false;
        for i in 0..400usize {
            match phase(i, j, 0, DELAY) {
                Phase::Waiting => {
                    assert!(last.is_none());
                }
                Phase::Moving(n) => {
                    assert!(!settled);
                    if let Some(before) = last {
                        assert!(n <= before);
                    }
                    assert!(n <= 80);
                    last = Some(n);
                }
                Phase::Settled => {
                    assert_eq!(last, Some(0));
                    settled = true;
                }
            }
        }
        assert!(settled);
    }
}

#[test]
fn pause_is_what_is_left_of_the_budget() {
    assert_eq!(FRAME_BUDGET, 10_000_000);
    assert_eq!(pause_after(0), 10_000_000);
    assert_eq!(pause_after(2_500_000), 7_500_000);
    assert_eq!(pause_after(9_999_999), 1);
    assert_eq!(pause_after(10_000_000), 0);
    assert_eq!(pause_after(25_000_000), 0);
    assert_eq!(pause_after(u128::MAX), 0);
}
