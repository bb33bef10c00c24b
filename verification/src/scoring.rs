//! Scoring: the points a tile earns on the wall, the floor-line penalty and
//! the resolution of a round on one board.

use vstd::prelude::*;
use crate::arrays::{arr5, arr6, wall_of, lemma_wall_ext, group_built_arrays};
use crate::game_state::{PlayerState, Row, tile, wall_col};

verus! {

broadcast use group_built_arrays;

/// Filled cells directly to the left of `(row, col)`, up to the first gap.
pub open spec fn run_left(wall: [[bool; 5]; 5], row: int, col: int) -> int
    decreases col,
{
    if 0 < col <= 4 && wall[row][col - 1] {
        1 + run_left(wall, row, col - 1)
    } else {
        0
    }
}

/// Filled cells directly to the right of `(row, col)`, up to the first gap.
pub open spec fn run_right(wall: [[bool; 5]; 5], row: int, col: int) -> int
    decreases 4 - col,
{
    if 0 <= col < 4 && wall[row][col + 1] {
        1 + run_right(wall, row, col + 1)
    } else {
        0
    }
}

/// Filled cells directly above `(row, col)`, up to the first gap.
pub open spec fn run_up(wall: [[bool; 5]; 5], row: int, col: int) -> int
    decreases row,
{
    if 0 < row <= 4 && wall[row - 1][col] {
        1 + run_up(wall, row - 1, col)
    } else {
        0
    }
}

/// Filled cells directly below `(row, col)`, up to the first gap.
pub open spec fn run_down(wall: [[bool; 5]; 5], row: int, col: int) -> int
    decreases 4 - row,
{
    if 0 <= row < 4 && wall[row + 1][col] {
        1 + run_down(wall, row + 1, col)
    } else {
        0
    }
}

/// Length of the horizontal run through `(row, col)`, the cell itself counted.
pub open spec fn horizontal_run(wall: [[bool; 5]; 5], row: int, col: int) -> int {
    run_left(wall, row, col) + run_right(wall, row, col) + 1
}

/// Length of the vertical run through `(row, col)`, the cell itself counted.
pub open spec fn vertical_run(wall: [[bool; 5]; 5], row: int, col: int) -> int {
    run_up(wall, row, col) + run_down(wall, row, col) + 1
}

/// Points for a tile placed at `(row, col)`: the longer run when the other is
/// the tile alone, else both runs together.
pub open spec fn tile_score(wall: [[bool; 5]; 5], row: int, col: int) -> int {
    let h = horizontal_run(wall, row, col);
    let v = vertical_run(wall, row, col);
    if h == 1 {
        v
    } else if v == 1 {
        h
    } else {
        h + v
    }
}

/// The runs in each direction stop at the wall's edge.
pub proof fn lemma_run_bounds(wall: [[bool; 5]; 5], row: int, col: int)
    requires
        0 <= row < 5,
        0 <= col < 5,
    ensures
        0 <= run_left(wall, row, col) <= col,
        0 <= run_right(wall, row, col) <= 4 - col,
        0 <= run_up(wall, row, col) <= row,
        0 <= run_down(wall, row, col) <= 4 - row,
        1 <= tile_score(wall, row, col) <= 10,
{
    lemma_run_left_bound(wall, row, col);
    lemma_run_right_bound(wall, row, col);
    lemma_run_up_bound(wall, row, col);
    lemma_run_down_bound(wall, row, col);
}

proof fn lemma_run_left_bound(wall: [[bool; 5]; 5], row: int, col: int)
    requires
        0 <= col < 5,
    ensures
        0 <= run_left(wall, row, col) <= col,
    decreases col,
{
    if 0 < col && wall[row][col - 1] {
        lemma_run_left_bound(wall, row, col - 1);
    }
}

proof fn lemma_run_right_bound(wall: [[bool; 5]; 5], row: int, col: int)
    requires
        0 <= col < 5,
    ensures
        0 <= run_right(wall, row, col) <= 4 - col,
    decreases 4 - col,
{
    if col < 4 && wall[row][col + 1] {
        lemma_run_right_bound(wall, row, col + 1);
    }
}

proof fn lemma_run_up_bound(wall: [[bool; 5]; 5], row: int, col: int)
    requires
        0 <= row < 5,
    ensures
        0 <= run_up(wall, row, col) <= row,
    decreases row,
{
    if 0 < row && wall[row - 1][col] {
        lemma_run_up_bound(wall, row - 1, col);
    }
}

proof fn lemma_run_down_bound(wall: [[bool; 5]; 5], row: int, col: int)
    requires
        0 <= row < 5,
    ensures
        0 <= run_down(wall, row, col) <= 4 - row,
    decreases 4 - row,
{
    if row < 4 && wall[row + 1][col] {
        lemma_run_down_bound(wall, row + 1, col);
    }
}

/// Scores the tile at `(row_id, col_id)` by the runs of filled cells that
/// pass through it.
pub fn score_tile_placement(wall_state: &[[bool; 5]; 5], row_id: u8, col_id: u8) -> (score: i32)
    requires
        row_id < 5,
        col_id < 5,
    ensures
        score == tile_score(*wall_state, row_id as int, col_id as int),
        1 <= score <= 10,
{
    let row: usize = row_id as usize;
    let col: usize = col_id as usize;
    let ghost wall = *wall_state;

    let mut pos: usize = col;
    while pos > 0 && wall_state[row][pos - 1]
        invariant
            row < 5,
            pos <= col < 5,
            wall == *wall_state,
            run_left(wall, row as int, col as int) == (col - pos) + run_left(
                wall,
                row as int,
                pos as int,
            ),
        decreases pos,
    {
        pos -= 1;
    }
    let num_left: usize = col - pos;

    let mut pos: usize = col;
    while pos < 4 && wall_state[row][pos + 1]
        invariant
            row < 5,
            col <= pos < 5,
            wall == *wall_state,
            run_right(wall, row as int, col as int) == (pos - col) + run_right(
                wall,
                row as int,
                pos as int,
            ),
        decreases 4 - pos,
    {
        pos += 1;
    }
    let num_right: usize = pos - col;

    let mut pos: usize = row;
    while pos > 0 && wall_state[pos - 1][col]
        invariant
            col < 5,
            pos <= row < 5,
            wall == *wall_state,
            run_up(wall, row as int, col as int) == (row - pos) + run_up(
                wall,
                pos as int,
                col as int,
            ),
        decreases pos,
    {
        pos -= 1;
    }
    let num_above: usize = row - pos;

    let mut pos: usize = row;
    while pos < 4 && wall_state[pos + 1][col]
        invariant
            col < 5,
            row <= pos < 5,
            wall == *wall_state,
            run_down(wall, row as int, col as int) == (pos - row) + run_down(
                wall,
                pos as int,
                col as int,
            ),
        decreases 4 - pos,
    {
        pos += 1;
    }
    let num_below: usize = pos - row;

    let horizontal_score: usize = num_left + num_right + 1;
    let vertical_score: usize = num_above + num_below + 1;
    if horizontal_score == 1 {
        vertical_score as i32
    } else if vertical_score == 1 {
        horizontal_score as i32
    } else {
        (horizontal_score + vertical_score) as i32
    }
}

/// The penalty for `tiles` tiles on the floor line: one point each for the
/// first two, two each for the next two, three for every further tile.
pub open spec fn floor_penalty(tiles: int) -> int {
    if tiles <= 2 {
        tiles
    } else if tiles <= 4 {
        2 * tiles - 2
    } else {
        3 * tiles - 6
    }
}

/// The larger of a score and zero.
pub open spec fn clamp_score(score: int) -> int {
    if score < 0 {
        0
    } else {
        score
    }
}

impl PlayerState {
    /// The floor line after the round: only the marker stays.
    pub open spec fn swept_floor(self) -> [u8; 6] {
        arr6(
            |c: int|
                if c == 5 {
                    self.floor_tiles[5]
                } else {
                    0u8
                },
        )
    }

    /// The wall once the full lines `0..=upto` have each given it a tile.
    pub open spec fn wall_through(self, upto: int) -> [[bool; 5]; 5] {
        wall_of(
            |r: int, c: int|
                self.wall_state[r][c] || (r <= upto && self.line_full(r) && c == wall_col(
                    r,
                    self.rows[r].color as int,
                )),
        )
    }

    /// Points earned by line `row` when the round ends: the score of its tile
    /// on the wall as the lines above have left it.
    pub open spec fn line_gain(self, row: int) -> int {
        if self.line_full(row) {
            tile_score(self.wall_through(row), row, wall_col(row, self.rows[row].color as int))
        } else {
            0
        }
    }

    /// Points earned by the lines `0..n`.
    pub open spec fn gain_below(self, n: int) -> int
        decreases n,
    {
        if n <= 0 {
            0
        } else {
            self.gain_below(n - 1) + self.line_gain(n - 1)
        }
    }

    /// Tiles of `color` that line `row` gives to the lid: all but the one for the wall.
    pub open spec fn line_discard(self, row: int, color: int) -> int {
        if self.line_full(row) && self.rows[row].color == color {
            row
        } else {
            0
        }
    }

    /// Tiles of `color` that the lines `0..n` give to the lid.
    pub open spec fn discard_below(self, n: int, color: int) -> int
        decreases n,
    {
        if n <= 0 {
            0
        } else {
            self.discard_below(n - 1, color) + self.line_discard(n - 1, color)
        }
    }

    /// The pattern lines after the round: full lines are emptied.
    pub open spec fn cleared_rows(self) -> [Row; 5] {
        arr5(
            |r: int|
                if self.line_full(r) {
                    Row { color: self.rows[r].color, count: 0 }
                } else {
                    self.rows[r]
                },
        )
    }

    /// The board once its full lines have been moved to the wall and scored.
    pub open spec fn tiled(self) -> PlayerState {
        PlayerState {
            wall_state: self.wall_through(4),
            rows: self.cleared_rows(),
            score: (self.score + self.gain_below(5)) as i32,
            floor_tiles: self.floor_tiles,
        }
    }

    /// The board once the floor line has been charged and swept.
    pub open spec fn swept(self) -> PlayerState {
        PlayerState {
            wall_state: self.wall_state,
            rows: self.rows,
            score: clamp_score(self.score - floor_penalty(self.floor_count())) as i32,
            floor_tiles: self.swept_floor(),
        }
    }

    /// The board after the round: full lines tiled and scored, then the floor
    /// line charged and swept.
    pub open spec fn after_round(self) -> PlayerState {
        self.tiled().swept()
    }

    /// Tiles of `color` that this board gives to the lid when the round ends.
    pub open spec fn discards_of(self, color: int) -> int {
        self.discard_below(5, color) + self.floor_tiles[color]
    }
}

/// Two boards with the same contents are the same board.
pub proof fn lemma_board_ext(a: PlayerState, b: PlayerState)
    requires
        forall|r: int, c: int| 0 <= r < 5 && 0 <= c < 5 ==> a.wall_state[r][c] == b.wall_state[r][c],
        forall|r: int| 0 <= r < 5 ==> a.rows[r] == b.rows[r],
        forall|c: int| 0 <= c < 6 ==> a.floor_tiles[c] == b.floor_tiles[c],
        a.score == b.score,
    ensures
        a == b,
{
    lemma_wall_ext(a.wall_state, b.wall_state);
    assert(a.rows =~= b.rows);
    assert(a.floor_tiles =~= b.floor_tiles);
}

/// Charges the floor line against the score, which does not fall below
/// zero, and moves its coloured tiles to the lid; the marker stays.
pub fn score_and_move_floor_tiles(board: &mut PlayerState, lid: &mut [u8; 5])
    requires
        forall|c: int| 0 <= c < 5 ==> old(lid)[c] + old(board).floor_tiles[c] <= u8::MAX,
        old(board).score - floor_penalty(old(board).floor_count()) >= i32::MIN,
    ensures
        *final(board) == old(board).swept(),
        forall|c: int| 0 <= c < 5 ==> final(lid)[c] == old(lid)[c] + old(board).floor_tiles[c],
{
    let ghost before = *board;
    let ghost lid_before = *lid;
    let mut num_so_far: u32 = 0;
    let mut penalty: i32 = 0;
    let mut color: usize = 0;
    while color < 6
        invariant
            color <= 6,
            board.wall_state == before.wall_state,
            board.rows == before.rows,
            board.score == before.score,
            forall|c: int| color <= c < 6 ==> board.floor_tiles[c] == before.floor_tiles[c],
            forall|c: int| 0 <= c < color && c < 5 ==> board.floor_tiles[c] == 0,
            color == 6 ==> board.floor_tiles[5] == before.floor_tiles[5],
            forall|c: int| color <= c < 5 ==> lid[c] == lid_before[c],
            forall|c: int| 0 <= c < color && c < 5 ==> lid[c] == lid_before[c] + before.floor_tiles[c],
            forall|c: int| 0 <= c < 5 ==> lid_before[c] + before.floor_tiles[c] <= u8::MAX,
            num_so_far <= 255 * color,
            num_so_far == if color == 0 {
                0
            } else if color == 1 {
                before.floor_tiles[0] as int
            } else if color == 2 {
                before.floor_tiles[0] + before.floor_tiles[1]
            } else if color == 3 {
                before.floor_tiles[0] + before.floor_tiles[1] + before.floor_tiles[2]
            } else if color == 4 {
                before.floor_tiles[0] + before.floor_tiles[1] + before.floor_tiles[2]
                    + before.floor_tiles[3]
            } else if color == 5 {
                before.floor_tiles[0] + before.floor_tiles[1] + before.floor_tiles[2]
                    + before.floor_tiles[3] + before.floor_tiles[4]
            } else {
                before.floor_count()
            },
            penalty == floor_penalty(num_so_far as int),
        decreases 6 - color,
    {
        let value: u8 = board.floor_tiles[color];
        let ghost start = num_so_far;
        let mut counted: u8 = 0;
        while counted < value
            invariant
                counted <= value,
                color < 6,
                start <= 255 * color,
                num_so_far == start + counted,
                penalty == floor_penalty(num_so_far as int),
            decreases value - counted,
        {
            if num_so_far <= 1 {
                penalty += 1;
            } else if num_so_far <= 3 {
                penalty += 2;
            } else {
                penalty += 3;
            }
            num_so_far += 1;
            counted += 1;
        }
        if color != 5 && value > 0 {
            assert(lid_before[color as int] + before.floor_tiles[color as int] <= u8::MAX);
            lid[color] += value;
            board.floor_tiles[color] = 0;
        }
        color += 1;
    }
    let charged: i32 = board.score - penalty;
    board.score = if charged < 0 {
        0
    } else {
        charged
    };
    proof {
        lemma_board_ext(*board, before.swept());
    }
}

/// The most tiles that the full lines `0..n` can give to the lid.
pub open spec fn discard_cap(n: int) -> int {
    if n <= 1 {
        0
    } else if n == 2 {
        1
    } else if n == 3 {
        3
    } else if n == 4 {
        6
    } else {
        10
    }
}

/// Moves the tile of each full line to the wall and scores it there, top line
/// first; the other tiles of the line go to the lid.
pub fn tile_full_lines(board: &mut PlayerState, lid: &mut [u8; 5])
    requires
        old(board).lines_ok(),
        forall|c: int| 0 <= c < 5 ==> old(lid)[c] + 10 <= u8::MAX,
        old(board).score + 50 <= i32::MAX,
    ensures
        *final(board) == old(board).tiled(),
        forall|c: int|
            0 <= c < 5 ==> final(lid)[c] == old(lid)[c] + old(board).discard_below(5, c),
{
    let ghost before = *board;
    let ghost lid_before = *lid;
    let mut row_id: usize = 0;
    while row_id < 5
        invariant
            row_id <= 5,
            before.lines_ok(),
            forall|r: int, c: int|
                0 <= r < 5 && 0 <= c < 5 ==> board.wall_state[r][c] == (before.wall_state[r][c] || (
                r < row_id && before.line_full(r) && c == wall_col(r, before.rows[r].color as int))),
            forall|r: int| row_id <= r < 5 ==> board.rows[r] == before.rows[r],
            forall|r: int| 0 <= r < row_id ==> board.rows[r] == before.cleared_rows()[r],
            board.floor_tiles == before.floor_tiles,
            board.score == before.score + before.gain_below(row_id as int),
            0 <= before.gain_below(row_id as int) <= 10 * row_id,
            before.score + 50 <= i32::MAX,
            forall|c: int|
                0 <= c < 5 ==> lid[c] == lid_before[c] + before.discard_below(row_id as int, c),
            forall|c: int|
                0 <= c < 5 ==> 0 <= #[trigger] before.discard_below(row_id as int, c)
                    <= discard_cap(row_id as int),
            forall|c: int| 0 <= c < 5 ==> lid_before[c] + 10 <= u8::MAX,
        decreases 5 - row_id,
    {
        let row: Row = board.rows[row_id];
        assert(row == before.rows[row_id as int]);
        assert forall|c: int| 0 <= c < 5 implies 0 <= #[trigger] before.discard_below(
            row_id as int + 1,
            c,
        ) <= discard_cap(row_id as int + 1) by {
            assert(0 <= before.discard_below(row_id as int, c) <= discard_cap(row_id as int));
        }
        if row.count as usize == row_id + 1 {
            let col_id: u8 = ((row_id as u8) + row.color) % 5;
            lid[row.color as usize] += row.count - 1;
            board.wall_state[row_id][col_id as usize] = true;
            board.rows[row_id].count = 0;
            proof {
                lemma_wall_ext(board.wall_state, before.wall_through(row_id as int));
                lemma_run_bounds(board.wall_state, row_id as int, col_id as int);
            }
            let gained: i32 = score_tile_placement(&board.wall_state, row_id as u8, col_id);
            board.score += gained;
        }
        row_id += 1;
    }
    proof {
        lemma_board_ext(*board, before.tiled());
    }
}

/// Two colours share a wall cell in a row only when they are the same colour.
pub proof fn lemma_wall_col_injective(row: int, a: int, b: int)
    requires
        0 <= row < 5,
        0 <= a < 5,
        0 <= b < 5,
    ensures
        0 <= wall_col(row, a) < 5,
        wall_col(row, a) == wall_col(row, b) <==> a == b,
{
}

impl PlayerState {
    /// Full pattern lines.
    pub open spec fn full_lines(self) -> int {
        tile(self.line_full(0)) + tile(self.line_full(1)) + tile(self.line_full(2)) + tile(
            self.line_full(3),
        ) + tile(self.line_full(4))
    }
}

/// Tiling the full lines keeps every tile: what leaves a line is on the wall
/// or counted as discarded. The wall grows by one cell for each full line,
/// and each such cell earns at most ten points.
pub proof fn lemma_tiled(b: PlayerState)
    requires
        b.lines_ok(),
    ensures
        b.tiled().lines_ok(),
        forall|c: int|
            0 <= c < 5 ==> #[trigger] b.tiled().tiles_of(c) + b.discard_below(5, c) == b.tiles_of(c),
        forall|c: int| 0 <= c < 5 ==> 0 <= #[trigger] b.discard_below(5, c),
        b.tiled().tiles_of(5) == b.tiles_of(5),
        b.tiled().wall_count() == b.wall_count() + b.full_lines(),
        b.full_lines() <= b.gain_below(5) <= 10 * b.full_lines(),
        forall|r: int, c: int|
            0 <= r < 5 && 0 <= c < 5 && b.wall_state[r][c] ==> #[trigger] b.tiled().wall_state[r][c],
{
    reveal_with_fuel(PlayerState::gain_below, 6);
    reveal_with_fuel(PlayerState::discard_below, 6);
    let t = b.tiled();
    assert forall|r: int, c: int| 0 <= r < 5 && 0 <= c < 5 implies (#[trigger] t.wall_has(r, c)
        == (b.wall_has(r, c) || (b.line_full(r) && b.rows[r].color == c))) by {
        lemma_wall_col_injective(r, c, b.rows[r].color as int);
    }
    assert forall|r: int| 0 <= r < 5 implies 1 <= tile_score(
        b.wall_through(r),
        r,
        wall_col(r, (#[trigger] b.rows[r]).color as int),
    ) <= 10 by {
        lemma_wall_col_injective(r, b.rows[r].color as int, b.rows[r].color as int);
        lemma_run_bounds(b.wall_through(r), r, wall_col(r, b.rows[r].color as int));
    }
    assert forall|c: int| 0 <= c < 5 implies #[trigger] t.tiles_of(c) + b.discard_below(5, c)
        == b.tiles_of(c) by {
        lemma_tiled_row(b, 0, c);
        lemma_tiled_row(b, 1, c);
        lemma_tiled_row(b, 2, c);
        lemma_tiled_row(b, 3, c);
        lemma_tiled_row(b, 4, c);
    }
    assert(t.wall_count() == b.wall_count() + b.full_lines()) by {
        lemma_tiled_wall_row(b, 0);
        lemma_tiled_wall_row(b, 1);
        lemma_tiled_wall_row(b, 2);
        lemma_tiled_wall_row(b, 3);
        lemma_tiled_wall_row(b, 4);
    }
}

/// In one row, the tiles of a colour on the line and the wall before tiling
/// are those on the line and the wall after it, and those discarded.
proof fn lemma_tiled_row(b: PlayerState, r: int, c: int)
    requires
        b.lines_ok(),
        0 <= r < 5,
        0 <= c < 5,
    ensures
        b.tiled().rows[r].tiles_of(c) + tile(b.tiled().wall_has(r, c)) + b.line_discard(r, c)
            == b.rows[r].tiles_of(c) + tile(b.wall_has(r, c)),
        0 <= b.line_discard(r, c),
{
    lemma_wall_col_injective(r, c, b.rows[r].color as int);
}

/// In one row, the wall gains a cell exactly when the line was full.
proof fn lemma_tiled_wall_row(b: PlayerState, r: int)
    requires
        b.lines_ok(),
        0 <= r < 5,
    ensures
        tile(b.tiled().wall_has(r, 0)) + tile(b.tiled().wall_has(r, 1)) + tile(
            b.tiled().wall_has(r, 2),
        ) + tile(b.tiled().wall_has(r, 3)) + tile(b.tiled().wall_has(r, 4)) == tile(
            b.wall_has(r, 0),
        ) + tile(b.wall_has(r, 1)) + tile(b.wall_has(r, 2)) + tile(b.wall_has(r, 3)) + tile(
            b.wall_has(r, 4),
        ) + tile(b.line_full(r)),
{
    lemma_wall_col_injective(r, 0, b.rows[r].color as int);
    lemma_wall_col_injective(r, 1, b.rows[r].color as int);
    lemma_wall_col_injective(r, 2, b.rows[r].color as int);
    lemma_wall_col_injective(r, 3, b.rows[r].color as int);
    lemma_wall_col_injective(r, 4, b.rows[r].color as int);
}

/// Sweeping the floor line moves its coloured tiles off the board, keeps the
/// marker, and leaves wall and lines alone.
pub proof fn lemma_swept(b: PlayerState)
    ensures
        b.lines_ok() ==> b.swept().lines_ok(),
        forall|c: int|
            0 <= c < 5 ==> #[trigger] b.swept().tiles_of(c) + b.floor_tiles[c] == b.tiles_of(c),
        b.swept().tiles_of(5) == b.tiles_of(5),
        b.swept().wall_count() == b.wall_count(),
        0 <= b.swept().score,
        b.score >= 0 && b.score - floor_penalty(b.floor_count()) >= i32::MIN ==> b.swept().score
            <= b.score,
{
    lemma_swept_lines(b);
    lemma_swept_tiles(b);
    lemma_swept_score(b);
}

proof fn lemma_swept_lines(b: PlayerState)
    ensures
        b.lines_ok() ==> b.swept().lines_ok(),
        b.swept().wall_count() == b.wall_count(),
{
}

proof fn lemma_swept_tiles(b: PlayerState)
    ensures
        forall|c: int|
            0 <= c < 5 ==> #[trigger] b.swept().tiles_of(c) + b.floor_tiles[c] == b.tiles_of(c),
        b.swept().tiles_of(5) == b.tiles_of(5),
{
}

proof fn lemma_swept_score(b: PlayerState)
    ensures
        0 <= b.swept().score,
        b.score >= 0 && b.score - floor_penalty(b.floor_count()) >= i32::MIN ==> b.swept().score
            <= b.score,
{
}

} // verus!
