use jump_cube::block::{create_block, get_number_string, goal_label, plan_stage, BlockCell, StageLayout};

fn grid(rows: usize, value: u32) -> Vec<Vec<u32>> {
    (0..47).map(|_| vec![value; rows]).collect()
}

fn counts(rows: usize, value: i32) -> Vec<Vec<i32>> {
    (0..47).map(|_| vec![value; rows]).collect()
}

#[test]
fn number_string_of_zero_is_empty() {
    assert_eq!(get_number_string(0), "");
}

#[test]
fn number_string_of_positive_numbers() {
    assert_eq!(get_number_string(5), "5");
    assert_eq!(get_number_string(10), "10");
    assert_eq!(get_number_string(120), "120");
    assert_eq!(get_number_string(i32::MAX), "2147483647");
}

#[test]
fn number_string_of_negative_numbers() {
    assert_eq!(get_number_string(-1), "-1");
    assert_eq!(get_number_string(-2), "-2");
    assert_eq!(get_number_string(-905), "-905");
    assert_eq!(get_number_string(i32::MIN), "-2147483648");
}

#[test]
fn number_string_reads_back() {
    for v in [-4000, -17, -9, 1, 9, 11, 100, 65535] {
        let s = get_number_string(v);
        assert_eq!(s.parse::<i32>().unwrap(), v);
    }
}

#[test]
fn goal_label_on_last_stage_and_before() {
    assert_eq!(goal_label(3), "GOAL!");
    assert_eq!(goal_label(1), "NEXT!");
    assert_eq!(goal_label(2), "NEXT!");
    assert_eq!(goal_label(4), "NEXT!");
}

#[test]
fn plan_stage_keeps_no_cell_when_no_roll_divides() {
    let layout = plan_stage(1, false, &grid(18, 1), &counts(18, 1), 10);
    assert_eq!(layout.height, 20);
    assert!(layout.inner.is_empty());
    assert_eq!(layout.goal_column, 10);
    assert_eq!(layout.goal_row, 20);
    assert_eq!(layout.goal_label, "NEXT!");
    assert!(!layout.show_goal_number);
}

#[test]
fn plan_stage_keeps_cells_whose_roll_divides() {
    // stage 1: a roll keeps its cell when it is a multiple of 4
    let mut rolls = grid(18, 1);
    rolls[0][0] = 0; // column 2, row 2
    rolls[0][5] = 8; // column 2, row 7
    rolls[3][17] = 4000; // column 5, row 19
    rolls[4][1] = 6; // not a multiple of 4
    let mut cs = counts(18, 1);
    cs[0][5] = -1;
    let layout = plan_stage(1, true, &rolls, &cs, 2);
    assert_eq!(
        layout.inner,
        vec![
            BlockCell { column: 2, row: 2, count: 1 },
            BlockCell { column: 2, row: 7, count: -1 },
            BlockCell { column: 5, row: 19, count: 1 },
        ]
    );
    assert!(layout.show_goal_number);
}

#[test]
fn plan_stage_without_clear_shows_no_numbers() {
    let rolls = grid(18, 0);
    let layout = plan_stage(1, false, &rolls, &counts(18, 1), 30);
    assert_eq!(layout.inner.len(), 47 * 18);
    assert!(layout.inner.iter().all(|c| c.count == 0));
}

#[test]
fn plan_stage_divisor_grows_with_stage() {
    // stage 2: a roll keeps its cell when it is a multiple of 6
    let mut rolls = grid(38, 4);
    rolls[46][37] = 12;
    let layout = plan_stage(2, false, &rolls, &counts(38, 0), 48);
    assert_eq!(layout.inner, vec![BlockCell { column: 48, row: 39, count: 0 }]);
    assert_eq!(layout.height, 40);
}

fn frame_of(layout: &StageLayout) -> Vec<(u32, u32)> {
    layout.frame.iter().map(|c| (c.column, c.row)).collect()
}

#[test]
fn frame_of_first_stage() {
    let layout = plan_stage(1, false, &grid(18, 1), &counts(18, 0), 2);
    let frame = frame_of(&layout);
    // floor 1..=49, ceiling 1..=49 at row 25, walls rows 0..=25 on both sides
    assert_eq!(frame.len(), 49 + 49 + 2 * 26);
    assert_eq!(frame[0], (1, 0));
    assert_eq!(frame[48], (49, 0));
    assert_eq!(frame[49], (1, 25));
    assert_eq!(frame[97], (49, 25));
    assert_eq!(frame[98], (0, 0));
    assert_eq!(frame[99], (50, 0));
    assert_eq!(frame[149], (50, 25));
    assert!(layout.frame.iter().all(|c| c.count == 0));
}

#[test]
fn frame_after_clear_leaves_hole_in_floor() {
    let layout = plan_stage(3, true, &grid(58, 1), &counts(58, 0), 2);
    let frame = frame_of(&layout);
    assert_eq!(frame.len(), 48 + 49 + 2 * 66);
    assert_eq!(frame[0], (2, 0));
    assert_eq!(frame[48], (1, 65));
    assert_eq!(layout.goal_label, "GOAL!");
}

#[test]
fn plan_stage_zero_has_no_inner_rows() {
    let layout = plan_stage(0, false, &grid(0, 0), &counts(0, 0), 3);
    assert!(layout.inner.is_empty());
    assert_eq!(layout.height, 0);
}

#[test]
fn create_block_fits_the_stage() {
    for stage in 1..=3u32 {
        for &clear in &[false, true] {
            let layout = create_block(stage, clear);
            let height = 20 * stage;
            assert_eq!(layout.height, height);
            assert_eq!(layout.goal_row, height);
            assert!((2..49).contains(&layout.goal_column));
            let range = if stage == 3 { 2 } else { 1 };
            for w in layout.inner.windows(2) {
                assert!((w[0].column, w[0].row) < (w[1].column, w[1].row));
            }
            for c in &layout.inner {
                assert!((2..49).contains(&c.column));
                assert!(c.row >= 2 && c.row < height);
                if clear {
                    assert!(c.count >= -range && c.count <= range);
                } else {
                    assert_eq!(c.count, 0);
                }
                assert!(!(c.column == layout.goal_column && c.row == layout.goal_row));
                assert!(layout.frame.iter().all(|f| (f.column, f.row) != (c.column, c.row)));
            }
            assert!(layout.frame.iter().all(|f| (f.column, f.row) != (layout.goal_column, layout.goal_row)));
        }
    }
}

#[test]
fn create_block_goal_column_varies() {
    let first = create_block(1, false).goal_column;
    let varies = (0..60).any(|_| create_block(1, false).goal_column != first);
    assert!(varies);
}

#[test]
fn create_block_numbers_vary_after_clear() {
    let mut seen = std::collections::BTreeSet::new();
    for _ in 0..10 {
        for c in create_block(3, true).inner {
            seen.insert(c.count);
        }
    }
    assert!(seen.len() >= 3);
    assert!(seen.iter().all(|v| (-2..=2).contains(v)));
}
