//! The blocks of a stage: where they stand, the number each one carries,
//! and the goal block.
use vstd::prelude::*;
use rand::Rng;
use rand::distributions::{Distribution, Uniform};
use crate::define::{MAXSTAGE, FIRST_INNER_COLUMN, END_INNER_COLUMN, RIGHT_WALL_COLUMN, ROWS_PER_STAGE, CEILING_GAP};
use crate::text::{decimal, push_decimal, digits_value, is_digit, lemma_decimal_reads_back};

verus! {

/// The text shown on a block carrying `v`: nothing for zero, otherwise its
/// decimal text, with a leading '-' when it is negative.
pub open spec fn number_text(v: int) -> Seq<char> {
    if v == 0 {
        Seq::empty()
    } else if v < 0 {
        seq!['-'] + decimal((-v) as nat)
    } else {
        decimal(v as nat)
    }
}

/// The text shown on a block carrying `v` (empty for zero).
pub fn get_number_string(v: i32) -> (r: String)
    ensures
        r@ == number_text(v as int),
{
    let mut s = String::new();
    if v == 0 {
        return s;
    }
    if v < 0 {
        proof {
            reveal_strlit("-");
        }
        s.append("-");
        let magnitude: u64 = (0i64 - (v as i64)) as u64;
        push_decimal(&mut s, magnitude);
    } else {
        push_decimal(&mut s, v as u64);
    }
    s
}

/// The text on a block reads back as its number: it is empty exactly for
/// zero; otherwise it starts with '-' exactly when the number is negative,
/// and the digits after the sign are the decimal digits of its magnitude,
/// without a leading zero.
pub proof fn lemma_number_text_reads_back(v: int)
    ensures
        (number_text(v).len() == 0) <==> (v == 0),
        v < 0 ==> number_text(v)[0] == '-' && digits_value(number_text(v).drop_first()) == -v,
        v > 0 ==> number_text(v)[0] != '-' && digits_value(number_text(v)) == v,
        v != 0 ==> forall|i: int| (if v < 0 { 1int } else { 0int }) <= i < number_text(v).len() ==> is_digit(
            #[trigger] number_text(v)[i],
        ),
        v != 0 ==> number_text(v)[if v < 0 { 1int } else { 0int }] != '0',
{
    if v < 0 {
        lemma_decimal_reads_back((-v) as nat);
        let t = number_text(v);
        assert(t.drop_first() =~= decimal((-v) as nat));
        assert(forall|i: int| 1 <= i < t.len() ==> t[i] == decimal((-v) as nat)[i - 1]);
    } else if v > 0 {
        lemma_decimal_reads_back(v as nat);
        assert(is_digit(decimal(v as nat)[0]));
    }
}

/// One block of the arena, at a column and a row of the grid (each cell is
/// one block wide), carrying a number.
#[derive(Clone, Copy, Debug, PartialEq, Eq, Structural)]
pub struct BlockCell {
    pub column: u32,
    pub row: u32,
    pub count: i32,
}

/// The blocks and the goal of one stage.
pub struct StageLayout {
    /// Row of the goal block; the arena's inner rows lie below it.
    pub height: u32,
    /// Loose blocks inside the arena, column by column, bottom to top.
    pub inner: Vec<BlockCell>,
    /// Floor, ceiling and walls, in the order they are put up.
    pub frame: Vec<BlockCell>,
    /// Column of the goal block.
    pub goal_column: u32,
    /// Row of the goal block.
    pub goal_row: u32,
    /// Text written over the goal block.
    pub goal_label: String,
    /// Whether the goal block shows its number.
    pub show_goal_number: bool,
}

/// A stage layout as plain values.
pub struct StageLayoutView {
    pub height: int,
    pub inner: Seq<BlockCell>,
    pub frame: Seq<BlockCell>,
    pub goal_column: int,
    pub goal_row: int,
    pub goal_label: Seq<char>,
    pub show_goal_number: bool,
}

impl View for StageLayout {
    type V = StageLayoutView;

    open spec fn view(&self) -> StageLayoutView {
        StageLayoutView {
            height: self.height as int,
            inner: self.inner@,
            frame: self.frame@,
            goal_column: self.goal_column as int,
            goal_row: self.goal_row as int,
            goal_label: self.goal_label@,
            show_goal_number: self.show_goal_number,
        }
    }
}

/// Height of the arena of stage `stage`, in rows: the row of the goal.
pub open spec fn arena_height(stage: u32) -> int {
    ROWS_PER_STAGE * stage
}

/// Number of rows, from row 2 upwards, in which loose blocks may stand.
pub open spec fn inner_rows(stage: u32) -> int {
    if arena_height(stage) > 2 {
        arena_height(stage) - 2
    } else {
        0
    }
}

/// Number of columns in which loose blocks may stand.
pub open spec fn inner_columns() -> int {
    END_INNER_COLUMN - FIRST_INNER_COLUMN
}

/// Largest magnitude of a number on a loose block of stage `stage`.
pub open spec fn count_range(stage: u32) -> int {
    if stage == 3 {
        2
    } else {
        1
    }
}

/// A roll keeps a cell of stage `stage` when it is a multiple of this.
pub open spec fn keep_divisor(stage: u32) -> int {
    2 + 2 * stage
}

/// Whether a roll puts a block in its cell.
pub open spec fn kept(stage: u32, roll: u32) -> bool {
    roll as int % keep_divisor(stage) == 0
}

/// The number a kept block carries: its drawn count once the game has been
/// cleared, zero before.
pub open spec fn block_count(is_clear: bool, count: i32) -> i32 {
    if is_clear {
        count
    } else {
        0
    }
}

/// The loose blocks of one column, from the first `n` rolls of that column.
pub open spec fn column_cells(
    stage: u32,
    is_clear: bool,
    column: int,
    rolls: Seq<u32>,
    counts: Seq<i32>,
    n: nat,
) -> Seq<BlockCell>
    decreases n,
{
    if n == 0 {
        Seq::empty()
    } else {
        let prev = column_cells(stage, is_clear, column, rolls, counts, (n - 1) as nat);
        let i = n - 1;
        if kept(stage, rolls[i]) {
            prev.push(BlockCell { column: column as u32, row: (2 + i) as u32, count: block_count(is_clear, counts[i]) })
        } else {
            prev
        }
    }
}

/// The loose blocks of the first `m` inner columns.
pub open spec fn inner_cells(
    stage: u32,
    is_clear: bool,
    rolls: Seq<Seq<u32>>,
    counts: Seq<Seq<i32>>,
    m: nat,
) -> Seq<BlockCell>
    decreases m,
{
    if m == 0 {
        Seq::empty()
    } else {
        inner_cells(stage, is_clear, rolls, counts, (m - 1) as nat) + column_cells(
            stage,
            is_clear,
            FIRST_INNER_COLUMN + m - 1,
            rolls[m - 1],
            counts[m - 1],
            inner_rows(stage) as nat,
        )
    }
}

/// First column of the floor: once the game has been cleared the floor
/// leaves a hole at column 1.
pub open spec fn floor_start(is_clear: bool) -> int {
    if is_clear {
        2
    } else {
        1
    }
}

/// The floor: row 0 from `floor_start` up to column 49.
pub open spec fn floor_cells(is_clear: bool) -> Seq<BlockCell> {
    Seq::new(
        (RIGHT_WALL_COLUMN - floor_start(is_clear)) as nat,
        |i: int| BlockCell { column: (floor_start(is_clear) + i) as u32, row: 0, count: 0 },
    )
}

/// The ceiling: columns 1 to 49 of the row `CEILING_GAP` above the goal row.
pub open spec fn ceiling_cells(stage: u32) -> Seq<BlockCell> {
    Seq::new(
        (RIGHT_WALL_COLUMN - 1) as nat,
        |i: int| BlockCell { column: (1 + i) as u32, row: (arena_height(stage) + CEILING_GAP) as u32, count: 0 },
    )
}

/// The walls of the first `k` rows: the left block, then the right block, row by row.
pub open spec fn wall_cells(k: nat) -> Seq<BlockCell>
    decreases k,
{
    if k == 0 {
        Seq::empty()
    } else {
        wall_cells((k - 1) as nat) + seq![
            BlockCell { column: 0, row: (k - 1) as u32, count: 0 },
            BlockCell { column: RIGHT_WALL_COLUMN, row: (k - 1) as u32, count: 0 },
        ]
    }
}

/// Rows covered by the walls: from the floor up to the ceiling.
pub open spec fn wall_rows(stage: u32) -> int {
    arena_height(stage) + CEILING_GAP + 1
}

/// Floor, ceiling and walls of a stage, in the order they are put up.
pub open spec fn frame_cells(stage: u32, is_clear: bool) -> Seq<BlockCell> {
    floor_cells(is_clear) + ceiling_cells(stage) + wall_cells(wall_rows(stage) as nat)
}

/// The text over the goal block: the last stage ends the run.
pub open spec fn goal_label_text(stage: u32) -> Seq<char> {
    if stage == MAXSTAGE {
        "GOAL!"@
    } else {
        "NEXT!"@
    }
}

/// Stages whose arena fits the grid's row numbers.
pub open spec fn stage_fits(stage: u32) -> bool {
    ROWS_PER_STAGE * stage + CEILING_GAP + 1 <= u32::MAX
}

/// The layout of stage `stage` for the given rolls (one per inner cell,
/// column by column), drawn counts (read only where a roll keeps its cell)
/// and goal column.
pub open spec fn stage_layout(
    stage: u32,
    is_clear: bool,
    rolls: Seq<Seq<u32>>,
    counts: Seq<Seq<i32>>,
    goal_column: u32,
) -> StageLayoutView {
    StageLayoutView {
        height: arena_height(stage),
        inner: inner_cells(stage, is_clear, rolls, counts, inner_columns() as nat),
        frame: frame_cells(stage, is_clear),
        goal_column: goal_column as int,
        goal_row: arena_height(stage),
        goal_label: goal_label_text(stage),
        show_goal_number: is_clear,
    }
}

/// The number of inner rows of stage `stage`.
fn rows_of(stage: u32) -> (r: u32)
    requires
        stage_fits(stage),
    ensures
        r == inner_rows(stage),
{
    let height = ROWS_PER_STAGE * stage;
    if height > 2 {
        height - 2
    } else {
        0
    }
}

/// The loose blocks of one column from its rolls and counts.
fn plan_column(stage: u32, is_clear: bool, column: u32, rolls: &Vec<u32>, counts: &Vec<i32>, out: &mut Vec<BlockCell>)
    requires
        stage_fits(stage),
        rolls@.len() == inner_rows(stage),
        counts@.len() == inner_rows(stage),
    ensures
        final(out)@ == old(out)@ + column_cells(stage, is_clear, column as int, rolls@, counts@, inner_rows(stage) as nat),
{
    let rows = rows_of(stage);
    let divisor: u32 = 2 + 2 * stage;
    let ghost start = out@;
    let mut i: u32 = 0;
    while i < rows
        invariant
            stage_fits(stage),
            rows == inner_rows(stage),
            divisor == keep_divisor(stage),
            i <= rows,
            rolls@.len() == rows,
            counts@.len() == rows,
            out@ == start + column_cells(stage, is_clear, column as int, rolls@, counts@, i as nat),
        decreases rows - i,
    {
        let roll = rolls[i as usize];
        if roll % divisor == 0 {
            let count = if is_clear { counts[i as usize] } else { 0 };
            out.push(BlockCell { column, row: i + 2, count });
        }
        i = i + 1;
    }
}

/// The loose blocks of all inner columns from their rolls and counts.
fn plan_inner(stage: u32, is_clear: bool, rolls: &Vec<Vec<u32>>, counts: &Vec<Vec<i32>>) -> (out: Vec<BlockCell>)
    requires
        stage_fits(stage),
        rolls@.len() == inner_columns(),
        counts@.len() == inner_columns(),
        forall|c: int| 0 <= c < inner_columns() ==> (#[trigger] rolls@[c])@.len() == inner_rows(stage),
        forall|c: int| 0 <= c < inner_columns() ==> (#[trigger] counts@[c])@.len() == inner_rows(stage),
    ensures
        out@ == inner_cells(stage, is_clear, rolls.deep_view(), counts.deep_view(), inner_columns() as nat),
{
    let mut out: Vec<BlockCell> = Vec::new();
    let ncols: u32 = END_INNER_COLUMN - FIRST_INNER_COLUMN;
    let mut c: u32 = 0;
    while c < ncols
        invariant
            stage_fits(stage),
            ncols == inner_columns(),
            c <= ncols,
            rolls@.len() == inner_columns(),
            counts@.len() == inner_columns(),
            forall|k: int| 0 <= k < inner_columns() ==> (#[trigger] rolls@[k])@.len() == inner_rows(stage),
            forall|k: int| 0 <= k < inner_columns() ==> (#[trigger] counts@[k])@.len() == inner_rows(stage),
            out@ == inner_cells(stage, is_clear, rolls.deep_view(), counts.deep_view(), c as nat),
        decreases ncols - c,
    {
        assert(rolls.deep_view()[c as int] == rolls@[c as int]@);
        assert(counts.deep_view()[c as int] == counts@[c as int]@);
        plan_column(stage, is_clear, FIRST_INNER_COLUMN + c, &rolls[c as usize], &counts[c as usize], &mut out);
        c = c + 1;
    }
    out
}

/// Floor, ceiling and walls of a stage.
fn plan_frame(stage: u32, is_clear: bool) -> (out: Vec<BlockCell>)
    requires
        stage_fits(stage),
    ensures
        out@ == frame_cells(stage, is_clear),
{
    let height = ROWS_PER_STAGE * stage;
    let mut out: Vec<BlockCell> = Vec::new();
    let start: u32 = if is_clear { 2 } else { 1 };
    let mut i: u32 = start;
    while i < RIGHT_WALL_COLUMN
        invariant
            start == floor_start(is_clear),
            start <= i <= RIGHT_WALL_COLUMN,
            out@ =~= floor_cells(is_clear).take(i - start),
        decreases RIGHT_WALL_COLUMN - i,
    {
        out.push(BlockCell { column: i, row: 0, count: 0 });
        i = i + 1;
    }
    assert(floor_cells(is_clear).take(RIGHT_WALL_COLUMN - start) =~= floor_cells(is_clear));
    let ghost floor = out@;
    let ceiling_row = height + CEILING_GAP;
    let mut i: u32 = 1;
    while i < RIGHT_WALL_COLUMN
        invariant
            stage_fits(stage),
            height == arena_height(stage),
            ceiling_row == height + CEILING_GAP,
            1 <= i <= RIGHT_WALL_COLUMN,
            floor == floor_cells(is_clear),
            out@ =~= floor + ceiling_cells(stage).take(i - 1),
        decreases RIGHT_WALL_COLUMN - i,
    {
        out.push(BlockCell { column: i, row: ceiling_row, count: 0 });
        i = i + 1;
    }
    assert(ceiling_cells(stage).take(RIGHT_WALL_COLUMN - 1) =~= ceiling_cells(stage));
    let ghost floor_and_ceiling = out@;
    let rows = height + CEILING_GAP + 1;
    let mut k: u32 = 0;
    while k < rows
        invariant
            stage_fits(stage),
            rows == wall_rows(stage),
            k <= rows,
            floor_and_ceiling == floor_cells(is_clear) + ceiling_cells(stage),
            out@ =~= floor_and_ceiling + wall_cells(k as nat),
        decreases rows - k,
    {
        out.push(BlockCell { column: 0, row: k, count: 0 });
        out.push(BlockCell { column: RIGHT_WALL_COLUMN, row: k, count: 0 });
        k = k + 1;
    }
    out
}

/// The text over the goal block of stage `stage`.
pub fn goal_label(stage: u32) -> (r: String)
    ensures
        r@ == goal_label_text(stage),
{
    if stage == MAXSTAGE {
        String::from_str("GOAL!")
    } else {
        String::from_str("NEXT!")
    }
}

/// Lays out stage `stage` from the given rolls, one per inner cell (column
/// by column, bottom to top), the counts drawn for the cells (read only
/// where a roll keeps its cell and the game has been cleared), and the goal
/// column.
pub fn plan_stage(
    stage: u32,
    is_clear: bool,
    rolls: &Vec<Vec<u32>>,
    counts: &Vec<Vec<i32>>,
    goal_column: u32,
) -> (layout: StageLayout)
    requires
        stage_fits(stage),
        rolls@.len() == inner_columns(),
        counts@.len() == inner_columns(),
        forall|c: int| 0 <= c < inner_columns() ==> (#[trigger] rolls@[c])@.len() == inner_rows(stage),
        forall|c: int| 0 <= c < inner_columns() ==> (#[trigger] counts@[c])@.len() == inner_rows(stage),
    ensures
        layout@ == stage_layout(stage, is_clear, rolls.deep_view(), counts.deep_view(), goal_column),
{
    let height = ROWS_PER_STAGE * stage;
    let inner = plan_inner(stage, is_clear, rolls, counts);
    let frame = plan_frame(stage, is_clear);
    StageLayout {
        height,
        inner,
        frame,
        goal_column,
        goal_row: height,
        goal_label: goal_label(stage),
        show_goal_number: is_clear,
    }
}

/// Whether cell `a` comes before cell `b`: by column, then by row.
pub open spec fn cell_before(a: BlockCell, b: BlockCell) -> bool {
    a.column < b.column || (a.column == b.column && a.row < b.row)
}

/// Whether two blocks stand in the same cell.
pub open spec fn same_cell(a: BlockCell, b: BlockCell) -> bool {
    a.column == b.column && a.row == b.row
}

/// Whether a loose block of stage `stage` lies inside the arena and carries
/// an allowed number.
pub open spec fn inner_cell_ok(stage: u32, is_clear: bool, c: BlockCell) -> bool {
    &&& FIRST_INNER_COLUMN <= c.column < END_INNER_COLUMN
    &&& 2 <= c.row < arena_height(stage)
    &&& is_clear ==> -count_range(stage) <= c.count <= count_range(stage)
    &&& !is_clear ==> c.count == 0
}

/// Whether drawn counts all lie within the range of stage `stage`.
pub open spec fn counts_in_range(stage: u32, counts: Seq<Seq<i32>>) -> bool {
    forall|c: int, r: int|
        0 <= c < counts.len() && 0 <= r < counts[c].len() ==> -count_range(stage) <= #[trigger] counts[c][r]
            <= count_range(stage)
}

/// What every layout of stage `stage` satisfies, whatever the rolls: loose
/// blocks lie inside the arena, column by column and bottom to top with no
/// two in one cell, and carry allowed numbers; the frame is the stage's
/// frame; the goal lies in an inner column on the goal row.
pub open spec fn layout_fits(stage: u32, is_clear: bool, l: StageLayoutView) -> bool {
    &&& l.height == arena_height(stage)
    &&& forall|i: int| 0 <= i < l.inner.len() ==> inner_cell_ok(stage, is_clear, #[trigger] l.inner[i])
    &&& forall|i: int, j: int| 0 <= i < j < l.inner.len() ==> cell_before(#[trigger] l.inner[i], #[trigger] l.inner[j])
    &&& l.frame == frame_cells(stage, is_clear)
    &&& FIRST_INNER_COLUMN <= l.goal_column < END_INNER_COLUMN
    &&& l.goal_row == arena_height(stage)
    &&& l.goal_label == goal_label_text(stage)
    &&& l.show_goal_number == is_clear
}

proof fn lemma_column_cells(
    stage: u32,
    is_clear: bool,
    column: int,
    rolls: Seq<u32>,
    counts: Seq<i32>,
    n: nat,
)
    requires
        stage_fits(stage),
        0 <= column <= u32::MAX,
        n <= inner_rows(stage),
        n <= rolls.len(),
        n <= counts.len(),
        forall|r: int| 0 <= r < counts.len() ==> -count_range(stage) <= #[trigger] counts[r] <= count_range(stage),
    ensures
        forall|i: int| 0 <= i < column_cells(stage, is_clear, column, rolls, counts, n).len() ==> {
            let c = #[trigger] column_cells(stage, is_clear, column, rolls, counts, n)[i];
            &&& c.column == column
            &&& 2 <= c.row < 2 + n
            &&& is_clear ==> -count_range(stage) <= c.count <= count_range(stage)
            &&& !is_clear ==> c.count == 0
        },
        forall|i: int, j: int| 0 <= i < j < column_cells(stage, is_clear, column, rolls, counts, n).len() ==>
            (#[trigger] column_cells(stage, is_clear, column, rolls, counts, n)[i]).row
                < (#[trigger] column_cells(stage, is_clear, column, rolls, counts, n)[j]).row,
    decreases n,
{
    if n > 0 {
        let k = (n - 1) as nat;
        lemma_column_cells(stage, is_clear, column, rolls, counts, k);
        let prev = column_cells(stage, is_clear, column, rolls, counts, k);
        let all = column_cells(stage, is_clear, column, rolls, counts, n);
        if kept(stage, rolls[k as int]) {
            let c = BlockCell { column: column as u32, row: (2 + k) as u32, count: block_count(is_clear, counts[k as int]) };
            assert(all == prev.push(c));
            assert(c.row == 2 + k);
            assert(-count_range(stage) <= counts[k as int] <= count_range(stage));
            assert forall|i: int| 0 <= i < all.len() implies {
                let d = #[trigger] all[i];
                &&& d.column == column
                &&& 2 <= d.row < 2 + n
                &&& is_clear ==> -count_range(stage) <= d.count <= count_range(stage)
                &&& !is_clear ==> d.count == 0
            } by {
                if i < prev.len() {
                    assert(all[i] == prev[i]);
                }
            }
            assert forall|i: int, j: int| 0 <= i < j < all.len() implies (#[trigger] all[i]).row < (#[trigger] all[j]).row by {
                assert(all[i] == prev[i]);
                if j < prev.len() {
                    assert(all[j] == prev[j]);
                }
            }
        } else {
            assert(all == prev);
        }
    }
}

proof fn lemma_inner_cells(
    stage: u32,
    is_clear: bool,
    rolls: Seq<Seq<u32>>,
    counts: Seq<Seq<i32>>,
    m: nat,
)
    requires
        stage_fits(stage),
        m <= inner_columns(),
        rolls.len() == inner_columns(),
        counts.len() == inner_columns(),
        forall|c: int| 0 <= c < inner_columns() ==> (#[trigger] rolls[c]).len() == inner_rows(stage),
        forall|c: int| 0 <= c < inner_columns() ==> (#[trigger] counts[c]).len() == inner_rows(stage),
        counts_in_range(stage, counts),
    ensures
        forall|i: int| 0 <= i < inner_cells(stage, is_clear, rolls, counts, m).len() ==> {
            let c = #[trigger] inner_cells(stage, is_clear, rolls, counts, m)[i];
            &&& inner_cell_ok(stage, is_clear, c)
            &&& c.column < FIRST_INNER_COLUMN + m
        },
        forall|i: int, j: int| 0 <= i < j < inner_cells(stage, is_clear, rolls, counts, m).len() ==>
            cell_before(
                #[trigger] inner_cells(stage, is_clear, rolls, counts, m)[i],
                #[trigger] inner_cells(stage, is_clear, rolls, counts, m)[j],
            ),
    decreases m,
{
    if m > 0 {
        let k = (m - 1) as nat;
        lemma_inner_cells(stage, is_clear, rolls, counts, k);
        let col = FIRST_INNER_COLUMN + k;
        assert forall|r: int| 0 <= r < counts[k as int].len() implies -count_range(stage) <= #[trigger] counts[k as int][r]
            <= count_range(stage) by {
            assert(-count_range(stage) <= counts[k as int][r] <= count_range(stage));
        }
        lemma_column_cells(stage, is_clear, col, rolls[k as int], counts[k as int], inner_rows(stage) as nat);
        let a = inner_cells(stage, is_clear, rolls, counts, k);
        let b = column_cells(stage, is_clear, col, rolls[k as int], counts[k as int], inner_rows(stage) as nat);
        let all = inner_cells(stage, is_clear, rolls, counts, m);
        assert(all == a + b);
        assert forall|i: int| 0 <= i < all.len() implies {
            let c = #[trigger] all[i];
            &&& inner_cell_ok(stage, is_clear, c)
            &&& c.column < FIRST_INNER_COLUMN + m
        } by {
            if i >= a.len() {
                assert(all[i] == b[i - a.len()]);
            }
        }
        assert forall|i: int, j: int| 0 <= i < j < all.len() implies cell_before(#[trigger] all[i], #[trigger] all[j]) by {
            if j < a.len() {
                assert(all[i] == a[i] && all[j] == a[j]);
            } else if i < a.len() {
                assert(all[i] == a[i] && all[j] == b[j - a.len()]);
            } else {
                assert(all[i] == b[i - a.len()] && all[j] == b[j - a.len()]);
            }
        }
    }
}

/// Whether some block of `cells` stands at column `column`, row `row`.
pub open spec fn holds_block_at(cells: Seq<BlockCell>, column: int, row: int) -> bool {
    exists|i: int| 0 <= i < cells.len() && (#[trigger] cells[i]).column == column && cells[i].row == row
}

/// Rolls and counts with one entry per inner cell of stage `stage`.
pub open spec fn draws_shaped(stage: u32, rolls: Seq<Seq<u32>>, counts: Seq<Seq<i32>>) -> bool {
    &&& rolls.len() == inner_columns()
    &&& counts.len() == inner_columns()
    &&& forall|c: int| 0 <= c < inner_columns() ==> (#[trigger] rolls[c]).len() == inner_rows(stage)
    &&& forall|c: int| 0 <= c < inner_columns() ==> (#[trigger] counts[c]).len() == inner_rows(stage)
}

/// Whether layout `l` of stage `stage` is the plan of the given draws.
pub open spec fn planned_from(
    stage: u32,
    is_clear: bool,
    l: StageLayoutView,
    rolls: Seq<Seq<u32>>,
    counts: Seq<Seq<i32>>,
) -> bool {
    &&& draws_shaped(stage, rolls, counts)
    &&& counts_in_range(stage, counts)
    &&& 0 <= l.goal_column <= u32::MAX
    &&& l == stage_layout(stage, is_clear, rolls, counts, l.goal_column as u32)
}

proof fn lemma_column_shape(stage: u32, is_clear: bool, column: int, rolls: Seq<u32>, counts: Seq<i32>, n: nat)
    requires
        stage_fits(stage),
        0 <= column <= u32::MAX,
        n <= inner_rows(stage),
    ensures
        forall|i: int| 0 <= i < column_cells(stage, is_clear, column, rolls, counts, n).len() ==> {
            let c = #[trigger] column_cells(stage, is_clear, column, rolls, counts, n)[i];
            &&& c.column == column
            &&& 2 <= c.row < 2 + n
        },
    decreases n,
{
    if n > 0 {
        let k = (n - 1) as nat;
        lemma_column_shape(stage, is_clear, column, rolls, counts, k);
        let prev = column_cells(stage, is_clear, column, rolls, counts, k);
        let all = column_cells(stage, is_clear, column, rolls, counts, n);
        assert forall|i: int| 0 <= i < all.len() implies {
            let c = #[trigger] all[i];
            &&& c.column == column
            &&& 2 <= c.row < 2 + n
        } by {
            if i < prev.len() {
                assert(all[i] == prev[i]);
            }
        }
    }
}

proof fn lemma_column_member(
    stage: u32,
    is_clear: bool,
    column: int,
    rolls: Seq<u32>,
    counts: Seq<i32>,
    n: nat,
    r: int,
)
    requires
        stage_fits(stage),
        0 <= column <= u32::MAX,
        n <= inner_rows(stage),
        n <= rolls.len(),
        n <= counts.len(),
        0 <= r < n,
    ensures
        holds_block_at(column_cells(stage, is_clear, column, rolls, counts, n), column, 2 + r) <==> rolls[r] as int
            % (2 + 2 * stage as int) == 0,
        forall|i: int|
            0 <= i < column_cells(stage, is_clear, column, rolls, counts, n).len() && (#[trigger] column_cells(
                stage,
                is_clear,
                column,
                rolls,
                counts,
                n,
            )[i]).row == 2 + r ==> column_cells(stage, is_clear, column, rolls, counts, n)[i].count == (if is_clear {
                counts[r]
            } else {
                0
            }),
    decreases n,
{
    let k = (n - 1) as nat;
    let prev = column_cells(stage, is_clear, column, rolls, counts, k);
    let all = column_cells(stage, is_clear, column, rolls, counts, n);
    lemma_column_shape(stage, is_clear, column, rolls, counts, k);
    if r < k {
        lemma_column_member(stage, is_clear, column, rolls, counts, k, r);
    }
    if kept(stage, rolls[k as int]) {
        let nc = BlockCell { column: column as u32, row: (2 + k) as u32, count: block_count(is_clear, counts[k as int]) };
        assert(all == prev.push(nc));
        assert(nc.row == 2 + k);
        if r == k {
            assert(all[prev.len() as int] == nc);
            assert(holds_block_at(all, column, 2 + r));
        } else {
            if holds_block_at(all, column, 2 + r) {
                let i = choose|i: int| 0 <= i < all.len() && (#[trigger] all[i]).column == column && all[i].row == 2 + r;
                assert(i < prev.len());
                assert(all[i] == prev[i]);
            }
            if holds_block_at(prev, column, 2 + r) {
                let i = choose|i: int| 0 <= i < prev.len() && (#[trigger] prev[i]).column == column && prev[i].row == 2 + r;
                assert(all[i] == prev[i]);
            }
        }
        assert forall|i: int| 0 <= i < all.len() && (#[trigger] all[i]).row == 2 + r implies all[i].count == (if is_clear {
            counts[r]
        } else {
            0
        }) by {
            if i < prev.len() {
                assert(all[i] == prev[i]);
            }
        }
    } else {
        assert(all == prev);
        if r == k {
            if holds_block_at(all, column, 2 + r) {
                let i = choose|i: int| 0 <= i < all.len() && (#[trigger] all[i]).column == column && all[i].row == 2 + r;
                assert(all[i] == prev[i]);
            }
        }
    }
}

proof fn lemma_inner_member(
    stage: u32,
    is_clear: bool,
    rolls: Seq<Seq<u32>>,
    counts: Seq<Seq<i32>>,
    m: nat,
    c: int,
    r: int,
)
    requires
        stage_fits(stage),
        draws_shaped(stage, rolls, counts),
        m <= inner_columns(),
        0 <= c < m,
        0 <= r < inner_rows(stage),
    ensures
        holds_block_at(inner_cells(stage, is_clear, rolls, counts, m), FIRST_INNER_COLUMN + c, 2 + r) <==> rolls[c][r] as int
            % (2 + 2 * stage as int) == 0,
        forall|i: int|
            0 <= i < inner_cells(stage, is_clear, rolls, counts, m).len() && (#[trigger] inner_cells(
                stage,
                is_clear,
                rolls,
                counts,
                m,
            )[i]).column == FIRST_INNER_COLUMN + c && inner_cells(stage, is_clear, rolls, counts, m)[i].row == 2 + r
                ==> inner_cells(stage, is_clear, rolls, counts, m)[i].count == (if is_clear {
                counts[c][r]
            } else {
                0
            }),
    decreases m,
{
    let k = (m - 1) as nat;
    let col = FIRST_INNER_COLUMN + k;
    let a = inner_cells(stage, is_clear, rolls, counts, k);
    let b = column_cells(stage, is_clear, col, rolls[k as int], counts[k as int], inner_rows(stage) as nat);
    let all = inner_cells(stage, is_clear, rolls, counts, m);
    assert(all == a + b);
    lemma_column_shape(stage, is_clear, col, rolls[k as int], counts[k as int], inner_rows(stage) as nat);
    if c < k {
        lemma_inner_member(stage, is_clear, rolls, counts, k, c, r);
        if holds_block_at(all, FIRST_INNER_COLUMN + c, 2 + r) {
            let i = choose|i: int|
                0 <= i < all.len() && (#[trigger] all[i]).column == FIRST_INNER_COLUMN + c && all[i].row == 2 + r;
            if i >= a.len() {
                assert(all[i] == b[i - a.len()]);
            }
            assert(all[i] == a[i]);
        }
        if holds_block_at(a, FIRST_INNER_COLUMN + c, 2 + r) {
            let i = choose|i: int|
                0 <= i < a.len() && (#[trigger] a[i]).column == FIRST_INNER_COLUMN + c && a[i].row == 2 + r;
            assert(all[i] == a[i]);
        }
        assert forall|i: int|
            0 <= i < all.len() && (#[trigger] all[i]).column == FIRST_INNER_COLUMN + c && all[i].row == 2 + r implies all[i].count
                == (if is_clear { counts[c][r] } else { 0 }) by {
            if i >= a.len() {
                assert(all[i] == b[i - a.len()]);
            } else {
                assert(all[i] == a[i]);
            }
        }
    } else {
        lemma_inner_columns_below(stage, is_clear, rolls, counts, k);
        lemma_column_member(
            stage,
            is_clear,
            col,
            rolls[k as int],
            counts[k as int],
            inner_rows(stage) as nat,
            r,
        );
        if holds_block_at(all, col, 2 + r) {
            let i = choose|i: int| 0 <= i < all.len() && (#[trigger] all[i]).column == col && all[i].row == 2 + r;
            if i < a.len() {
                assert(all[i] == a[i]);
            }
            assert(all[i] == b[i - a.len()]);
        }
        if holds_block_at(b, col, 2 + r) {
            let j = choose|j: int| 0 <= j < b.len() && (#[trigger] b[j]).column == col && b[j].row == 2 + r;
            assert(all[a.len() + j] == b[j]);
        }
        assert forall|i: int|
            0 <= i < all.len() && (#[trigger] all[i]).column == col && all[i].row == 2 + r implies all[i].count == (if is_clear {
                counts[c][r]
            } else {
                0
            }) by {
            if i < a.len() {
                assert(all[i] == a[i]);
            } else {
                assert(all[i] == b[i - a.len()]);
            }
        }
    }
}

proof fn lemma_inner_columns_below(
    stage: u32,
    is_clear: bool,
    rolls: Seq<Seq<u32>>,
    counts: Seq<Seq<i32>>,
    m: nat,
)
    requires
        stage_fits(stage),
        draws_shaped(stage, rolls, counts),
        m <= inner_columns(),
    ensures
        forall|i: int| 0 <= i < inner_cells(stage, is_clear, rolls, counts, m).len() ==>
            (#[trigger] inner_cells(stage, is_clear, rolls, counts, m)[i]).column < FIRST_INNER_COLUMN + m,
    decreases m,
{
    if m > 0 {
        let k = (m - 1) as nat;
        let col = FIRST_INNER_COLUMN + k;
        lemma_inner_columns_below(stage, is_clear, rolls, counts, k);
        lemma_column_shape(stage, is_clear, col, rolls[k as int], counts[k as int], inner_rows(stage) as nat);
        let a = inner_cells(stage, is_clear, rolls, counts, k);
        let b = column_cells(stage, is_clear, col, rolls[k as int], counts[k as int], inner_rows(stage) as nat);
        let all = inner_cells(stage, is_clear, rolls, counts, m);
        assert(all == a + b);
        assert forall|i: int| 0 <= i < all.len() implies (#[trigger] all[i]).column < FIRST_INNER_COLUMN + m by {
            if i < a.len() {
                assert(all[i] == a[i]);
            } else {
                assert(all[i] == b[i - a.len()]);
            }
        }
    }
}

/// A stage's loose blocks stand exactly where the rolls keep them: the
/// inner cell at column `2 + c`, row `2 + r` holds a block exactly when its
/// roll is a multiple of `2 + 2 * stage`, and such a block carries the
/// number drawn for it once the game has been cleared, zero before.
pub proof fn lemma_block_exactly_where_roll_keeps(
    stage: u32,
    is_clear: bool,
    rolls: Seq<Seq<u32>>,
    counts: Seq<Seq<i32>>,
    goal_column: u32,
    c: int,
    r: int,
)
    requires
        stage_fits(stage),
        draws_shaped(stage, rolls, counts),
        0 <= c < inner_columns(),
        0 <= r < inner_rows(stage),
    ensures
        holds_block_at(stage_layout(stage, is_clear, rolls, counts, goal_column).inner, FIRST_INNER_COLUMN + c, 2 + r)
            <==> rolls[c][r] as int % (2 + 2 * stage as int) == 0,
        forall|i: int|
            0 <= i < stage_layout(stage, is_clear, rolls, counts, goal_column).inner.len() && (#[trigger] stage_layout(
                stage,
                is_clear,
                rolls,
                counts,
                goal_column,
            ).inner[i]).column == FIRST_INNER_COLUMN + c && stage_layout(stage, is_clear, rolls, counts, goal_column).inner[i].row
                == 2 + r ==> stage_layout(stage, is_clear, rolls, counts, goal_column).inner[i].count == (if is_clear {
                counts[c][r]
            } else {
                0
            }),
{
    lemma_inner_member(stage, is_clear, rolls, counts, inner_columns() as nat, c, r);
}

/// Every layout planned from counts within the stage's range, and a goal
/// column inside the arena, fits the stage.
pub proof fn lemma_planned_layout_fits(
    stage: u32,
    is_clear: bool,
    rolls: Seq<Seq<u32>>,
    counts: Seq<Seq<i32>>,
    goal_column: u32,
)
    requires
        stage_fits(stage),
        rolls.len() == inner_columns(),
        counts.len() == inner_columns(),
        forall|c: int| 0 <= c < inner_columns() ==> (#[trigger] rolls[c]).len() == inner_rows(stage),
        forall|c: int| 0 <= c < inner_columns() ==> (#[trigger] counts[c]).len() == inner_rows(stage),
        counts_in_range(stage, counts),
        FIRST_INNER_COLUMN <= goal_column < END_INNER_COLUMN,
    ensures
        layout_fits(stage, is_clear, stage_layout(stage, is_clear, rolls, counts, goal_column)),
{
    lemma_inner_cells(stage, is_clear, rolls, counts, inner_columns() as nat);
}

proof fn lemma_wall_cells(k: nat)
    requires
        k <= u32::MAX + 1,
    ensures
        forall|i: int| 0 <= i < wall_cells(k).len() ==> {
            let c = #[trigger] wall_cells(k)[i];
            &&& (c.column == 0 || c.column == RIGHT_WALL_COLUMN)
            &&& c.row < k
        },
    decreases k,
{
    if k > 0 {
        lemma_wall_cells((k - 1) as nat);
        let prev = wall_cells((k - 1) as nat);
        let all = wall_cells(k);
        assert forall|i: int| 0 <= i < all.len() implies {
            let c = #[trigger] all[i];
            &&& (c.column == 0 || c.column == RIGHT_WALL_COLUMN)
            &&& c.row < k
        } by {
            if i < prev.len() {
                assert(all[i] == prev[i]);
            }
        }
    }
}

/// Every frame block lies on the floor row, on the ceiling row, or in one
/// of the two wall columns.
pub proof fn lemma_frame_bounds(stage: u32, is_clear: bool)
    requires
        stage_fits(stage),
    ensures
        forall|i: int| 0 <= i < frame_cells(stage, is_clear).len() ==> {
            let c = #[trigger] frame_cells(stage, is_clear)[i];
            ||| c.row == 0
            ||| c.row == arena_height(stage) + CEILING_GAP
            ||| c.column == 0
            ||| c.column == RIGHT_WALL_COLUMN
        },
{
    lemma_wall_cells(wall_rows(stage) as nat);
    let f = floor_cells(is_clear);
    let ce = ceiling_cells(stage);
    let w = wall_cells(wall_rows(stage) as nat);
    let all = frame_cells(stage, is_clear);
    assert forall|i: int| 0 <= i < all.len() implies {
        let c = #[trigger] all[i];
        ||| c.row == 0
        ||| c.row == arena_height(stage) + CEILING_GAP
        ||| c.column == 0
        ||| c.column == RIGHT_WALL_COLUMN
    } by {
        if i < f.len() {
            assert(all[i] == f[i]);
        } else if i < f.len() + ce.len() {
            assert(all[i] == ce[i - f.len()]);
        } else {
            assert(all[i] == w[i - f.len() - ce.len()]);
        }
    }
}

/// In every layout of a stage from the first on, the goal's cell is free:
/// no loose block and no frame block stands there; and no loose block
/// shares a cell with the frame.
pub proof fn lemma_goal_cell_free(stage: u32, is_clear: bool, l: StageLayoutView)
    requires
        stage >= 1,
        stage_fits(stage),
        layout_fits(stage, is_clear, l),
    ensures
        forall|i: int| 0 <= i < l.inner.len() ==>
            !((#[trigger] l.inner[i]).column == l.goal_column && l.inner[i].row == l.goal_row),
        forall|i: int| 0 <= i < l.frame.len() ==>
            !((#[trigger] l.frame[i]).column == l.goal_column && l.frame[i].row == l.goal_row),
        forall|i: int, j: int| 0 <= i < l.inner.len() && 0 <= j < l.frame.len() ==>
            !same_cell(#[trigger] l.inner[i], #[trigger] l.frame[j]),
{
    lemma_frame_bounds(stage, is_clear);
    assert forall|i: int| 0 <= i < l.inner.len() implies
        !((#[trigger] l.inner[i]).column == l.goal_column && l.inner[i].row == l.goal_row) by {
        assert(inner_cell_ok(stage, is_clear, l.inner[i]));
    }
    assert forall|i: int, j: int| 0 <= i < l.inner.len() && 0 <= j < l.frame.len() implies
        !same_cell(#[trigger] l.inner[i], #[trigger] l.frame[j]) by {
        assert(inner_cell_ok(stage, is_clear, l.inner[i]));
    }
}

/// The random generator of the current thread (`rand::rngs::ThreadRng`),
/// carried through opaquely.
#[verifier::external_type_specification]
#[verifier::external_body]
pub struct ExThreadRng(rand::rngs::ThreadRng);

/// A handle on the current thread's random generator: calls
/// `rand::thread_rng`. Nothing is claimed of the handle. (`thread_rng`
/// panics when the operating system cannot seed the generator; that
/// depends on the machine and is not ruled out here.)
#[verifier::external_body]
fn thread_rng() -> rand::rngs::ThreadRng {
    rand::thread_rng()
}

/// A fresh `u32` from the generator: calls `rand::Rng::gen::<u32>`.
/// Nothing is claimed of the value: any `u32` may come back, and two calls
/// may differ.
#[verifier::external_body]
fn random_u32(rng: &mut rand::rngs::ThreadRng) -> u32 {
    rng.gen::<u32>()
}

/// A value drawn uniformly from `low..high`: builds
/// `rand::distributions::Uniform::new(low, high)` and samples it once with
/// the generator. The contract claims only what rand documents and its
/// source shows: the value lies in the half-open range `[low, high)`.
/// `Uniform::new` panics when `low >= high`, which `requires` rules out.
#[verifier::external_body]
fn random_in(rng: &mut rand::rngs::ThreadRng, low: i32, high: i32) -> (r: i32)
    requires
        low < high,
    ensures
        low <= r < high,
{
    Uniform::new(low, high).sample(rng)
}

/// The half-open range `low..high` from which a kept block's number is
/// drawn on stage `stage`: `-r..r + 1`, that is `-r..=r`.
fn count_draw_bounds(stage: u32) -> (bounds: (i32, i32))
    ensures
        bounds.0 == -count_range(stage),
        bounds.1 == count_range(stage) + 1,
{
    if stage == 3 {
        (-2, 3)
    } else {
        (-1, 2)
    }
}

/// Lays out stage `stage` at random: every inner cell holds a loose block
/// when its roll is a multiple of `2 + 2 * stage`; once the game has been
/// cleared a kept block carries a number drawn from `-r..=r` (`r` is 2 on
/// stage 3, 1 otherwise); the goal stands in a random inner column on the
/// goal row.
pub fn create_block(stage: u32, is_clear: bool) -> (layout: StageLayout)
    requires
        stage_fits(stage),
    ensures
        layout_fits(stage, is_clear, layout@),
        exists|rolls: Seq<Seq<u32>>, counts: Seq<Seq<i32>>| #[trigger] planned_from(stage, is_clear, layout@, rolls, counts),
{
    let rows = rows_of(stage);
    let (low, high) = count_draw_bounds(stage);
    let divisor: u32 = 2 + 2 * stage;
    let ncols: u32 = END_INNER_COLUMN - FIRST_INNER_COLUMN;
    let mut rng = thread_rng();
    let mut rolls: Vec<Vec<u32>> = Vec::new();
    let mut counts: Vec<Vec<i32>> = Vec::new();
    let mut c: u32 = 0;
    while c < ncols
        invariant
            ncols == inner_columns(),
            rows == inner_rows(stage),
            low == -count_range(stage),
            high == count_range(stage) + 1,
            c <= ncols,
            rolls@.len() == c,
            counts@.len() == c,
            forall|k: int| 0 <= k < c ==> (#[trigger] rolls@[k])@.len() == inner_rows(stage),
            forall|k: int| 0 <= k < c ==> (#[trigger] counts@[k])@.len() == inner_rows(stage),
            stage_fits(stage),
            divisor == keep_divisor(stage),
            forall|k: int, q: int| 0 <= k < c && 0 <= q < inner_rows(stage) ==> -count_range(stage)
                <= #[trigger] counts@[k]@[q] <= count_range(stage),
        decreases ncols - c,
    {
        let mut column_rolls: Vec<u32> = Vec::new();
        let mut column_counts: Vec<i32> = Vec::new();
        let mut r: u32 = 0;
        while r < rows
            invariant
                stage_fits(stage),
                divisor == keep_divisor(stage),
                rows == inner_rows(stage),
                low == -count_range(stage),
            high == count_range(stage) + 1,
                r <= rows,
                column_rolls@.len() == r,
                column_counts@.len() == r,
                forall|k: int| 0 <= k < r ==> -count_range(stage) <= #[trigger] column_counts@[k] <= count_range(stage),
            decreases rows - r,
        {
            let roll = random_u32(&mut rng);
            let count = if roll % divisor == 0 && is_clear {
                random_in(&mut rng, low, high)
            } else {
                0
            };
            column_rolls.push(roll);
            column_counts.push(count);
            r = r + 1;
        }
        rolls.push(column_rolls);
        counts.push(column_counts);
        c = c + 1;
    }
    let goal_column = random_in(&mut rng, FIRST_INNER_COLUMN as i32, END_INNER_COLUMN as i32) as u32;
    let layout = plan_stage(stage, is_clear, &rolls, &counts, goal_column);
    proof {
        assert forall|k: int| 0 <= k < inner_columns() implies (#[trigger] rolls.deep_view()[k]).len() == inner_rows(stage) by {
            assert(rolls.deep_view()[k] == rolls@[k]@);
        }
        assert forall|k: int| 0 <= k < inner_columns() implies (#[trigger] counts.deep_view()[k]).len() == inner_rows(stage) by {
            assert(counts.deep_view()[k] == counts@[k]@);
        }
        assert forall|k: int, q: int|
            0 <= k < counts.deep_view().len() && 0 <= q < counts.deep_view()[k].len() implies -count_range(stage)
                <= #[trigger] counts.deep_view()[k][q] <= count_range(stage) by {
            assert(counts.deep_view()[k] == counts@[k]@);
            assert(-count_range(stage) <= counts@[k]@[q] <= count_range(stage));
        }
        lemma_planned_layout_fits(stage, is_clear, rolls.deep_view(), counts.deep_view(), goal_column);
        assert(planned_from(stage, is_clear, layout@, rolls.deep_view(), counts.deep_view()));
    }
    layout
}

} // verus!
