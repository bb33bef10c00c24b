//! How a search values a position.

use vstd::prelude::*;
use crate::game_state::{PlayerState, State, tile};

verus! {

/// Values a position for each of the three players, in units of
/// [`crate::game_state::FULL_SHARE`].
pub trait ValueFunction {
    /// The value of `state`: the shares of the win when the game is
    /// finished, else the estimate of [`Self::get_in_progress_value`].
    fn get_value(&mut self, state: &State) -> (value: [i32; 3])
        default_ensures
            state.is_finished ==> value == state.player_scores,
    {
        // Use the final score if the game is finished.
        if state.is_finished {
            return state.player_scores;
        }
        self.get_in_progress_value(state)
    }

    /// An estimate of each player's share of the win in a game still running.
    fn get_in_progress_value(&mut self, state: &State) -> [i32; 3];
}

/// Where the count marks of pattern line `row` begin: line `row`, which
/// holds up to `row + 1` tiles, has `row` places, so the four lines below
/// the first have ten places together.
pub open spec fn line_offset(row: int) -> int {
    if row <= 1 {
        0
    } else if row == 2 {
        1
    } else if row == 3 {
        3
    } else if row == 4 {
        6
    } else {
        10
    }
}

impl PlayerState {
    /// Whether one of the pattern lines `1..n` marks feature `k` by its
    /// count: a line with `count` tiles marks place `count - 1` of its own.
    pub open spec fn count_mark_below(self, k: int, n: int) -> bool
        decreases n,
    {
        n > 1 && (self.count_mark_below(k, n - 1) || (self.rows[n - 1].count > 0 && line_offset(
            n - 1,
        ) + self.rows[n - 1].count - 1 == k))
    }

    /// Whether one of the pattern lines `1..n` marks feature `k` by its
    /// colour: each line has four places, one for each of the first four
    /// colours, behind the ten places of the counts.
    pub open spec fn color_mark_below(self, k: int, n: int) -> bool
        decreases n,
    {
        n > 1 && (self.color_mark_below(k, n - 1) || (self.rows[n - 1].count > 0 && self.rows[n
            - 1].color < 4 && 10 + 4 * (n - 2) + self.rows[n - 1].color == k))
    }

    /// Filled cells in wall column `col`.
    pub open spec fn column_count(self, col: int) -> int {
        tile(self.wall_state[0][col]) + tile(self.wall_state[1][col]) + tile(
            self.wall_state[2][col],
        ) + tile(self.wall_state[3][col]) + tile(self.wall_state[4][col])
    }

    /// The most filled cells in one wall column.
    pub open spec fn max_column_count(self) -> int {
        greatest(
            self.column_count(0),
            greatest(
                self.column_count(1),
                greatest(
                    self.column_count(2),
                    greatest(self.column_count(3), self.column_count(4)),
                ),
            ),
        )
    }

    /// The most wall tiles of one colour.
    pub open spec fn max_color_count(self) -> int {
        greatest(
            self.wall_tiles_of(0),
            greatest(
                self.wall_tiles_of(1),
                greatest(
                    self.wall_tiles_of(2),
                    greatest(self.wall_tiles_of(3), self.wall_tiles_of(4)),
                ),
            ),
        )
    }

    /// Counts the filled cells in wall column `col`.
    pub fn filled_in_column(&self, col: usize) -> (n: i32)
        requires
            col < 5,
        ensures
            n == self.column_count(col as int),
            0 <= n <= 5,
    {
        let w = &self.wall_state;
        let mut n: i32 = 0;
        if w[0][col] {
            n += 1;
        }
        if w[1][col] {
            n += 1;
        }
        if w[2][col] {
            n += 1;
        }
        if w[3][col] {
            n += 1;
        }
        if w[4][col] {
            n += 1;
        }
        n
    }

    /// Counts the wall tiles of `color`.
    pub fn placed_of_color(&self, color: usize) -> (n: i32)
        requires
            color < 5,
        ensures
            n == self.wall_tiles_of(color as int),
            0 <= n <= 5,
    {
        let w = &self.wall_state;
        let mut n: i32 = 0;
        if w[0][color % 5] {
            n += 1;
        }
        if w[1][(1 + color) % 5] {
            n += 1;
        }
        if w[2][(2 + color) % 5] {
            n += 1;
        }
        if w[3][(3 + color) % 5] {
            n += 1;
        }
        if w[4][(4 + color) % 5] {
            n += 1;
        }
        n
    }
}

/// The greater of two numbers.
pub open spec fn greatest(a: int, b: int) -> int {
    if a >= b {
        a
    } else {
        b
    }
}

impl State {
    /// The lowest score on any board.
    pub open spec fn least_score(self) -> int {
        let a = self.board_states[0].score;
        let b = self.board_states[1].score;
        let c = self.board_states[2].score;
        if a <= b && a <= c {
            a as int
        } else if b <= c {
            b as int
        } else {
            c as int
        }
    }

    /// Feature `k` of the board of player `p`.
    ///
    /// Features `0..26` are marks, one or zero, for the counts and colours
    /// of the pattern lines below the first. Features `26..51` are the wall
    /// cells, row by row. Feature 51 is the lead over the lowest score plus
    /// the most tiles in one wall column, feature 52 the most wall tiles of
    /// one colour, and feature 53 is zero.
    pub open spec fn feature(self, p: int, k: int) -> int {
        let board = self.board_states[p];
        if k < 26 {
            tile(board.count_mark_below(k, 5) || board.color_mark_below(k, 5))
        } else if k < 51 {
            tile(board.wall_state[(k - 26) / 5][(k - 26) % 5])
        } else if k == 51 {
            board.score - self.least_score() + board.max_column_count()
        } else if k == 52 {
            board.max_color_count()
        } else {
            0
        }
    }
}

/// The features of one board, but for the lead over the lowest score.
fn encode_board(board: &PlayerState) -> (features: [i32; 54])
    requires
        board.lines_ok(),
    ensures
        forall|k: int|
            0 <= k < 54 ==> #[trigger] features[k] == if k < 26 {
                tile(board.count_mark_below(k, 5) || board.color_mark_below(k, 5))
            } else if k < 51 {
                tile(board.wall_state[(k - 26) / 5][(k - 26) % 5])
            } else if k == 51 {
                board.max_column_count()
            } else if k == 52 {
                board.max_color_count()
            } else {
                0
            },
{
    let mut features: [i32; 54] = [0; 54];
    let mut offset: usize = 0;
    let mut row_num: usize = 1;
    while row_num < 5
        invariant
            1 <= row_num <= 5,
            board.lines_ok(),
            offset == line_offset(row_num as int),
            forall|k: int|
                0 <= k < 54 ==> #[trigger] features[k] == tile(
                    board.count_mark_below(k, row_num as int),
                ),
        decreases 5 - row_num,
    {
        let row = board.rows[row_num];
        if row.count > 0 {
            features[offset + row.count as usize - 1] = 1;
        }
        offset += row_num;
        row_num += 1;
    }
    let mut row_num: usize = 1;
    while row_num < 5
        invariant
            1 <= row_num <= 5,
            board.lines_ok(),
            offset == 10 + 4 * (row_num - 1),
            forall|k: int|
                0 <= k < 54 ==> #[trigger] features[k] == tile(
                    board.count_mark_below(k, 5) || board.color_mark_below(k, row_num as int),
                ),
        decreases 5 - row_num,
    {
        let row = board.rows[row_num];
        if row.count > 0 && row.color < 4 {
            features[offset + row.color as usize] = 1;
        }
        offset += 4;
        row_num += 1;
    }
    proof {
        assert forall|k: int| 26 <= k < 54 implies !board.count_mark_below(k, 5)
            && !board.color_mark_below(k, 5) by {
            reveal_with_fuel(PlayerState::count_mark_below, 6);
            reveal_with_fuel(PlayerState::color_mark_below, 6);
        }
    }
    let mut row_idx: usize = 0;
    while row_idx < 5
        invariant
            row_idx <= 5,
            offset == 26 + 5 * row_idx,
            forall|k: int|
                0 <= k < 54 ==> #[trigger] features[k] == if k < 26 {
                    tile(board.count_mark_below(k, 5) || board.color_mark_below(k, 5))
                } else if k < 26 + 5 * row_idx {
                    tile(board.wall_state[(k - 26) / 5][(k - 26) % 5])
                } else {
                    0
                },
        decreases 5 - row_idx,
    {
        let mut col_idx: usize = 0;
        while col_idx < 5
            invariant
                row_idx < 5,
                col_idx <= 5,
                offset == 26 + 5 * row_idx + col_idx,
                forall|k: int|
                    0 <= k < 54 ==> #[trigger] features[k] == if k < 26 {
                        tile(board.count_mark_below(k, 5) || board.color_mark_below(k, 5))
                    } else if k < 26 + 5 * row_idx + col_idx {
                        tile(board.wall_state[(k - 26) / 5][(k - 26) % 5])
                    } else {
                        0
                    },
            decreases 5 - col_idx,
        {
            if board.wall_state[row_idx][col_idx] {
                features[offset] = 1;
            }
            offset += 1;
            col_idx += 1;
        }
        row_idx += 1;
    }
    // The most tiles in one column, and of one colour.
    let mut most_in_column: i32 = 0;
    let mut most_of_color: i32 = 0;
    let mut i: usize = 0;
    while i < 5
        invariant
            i <= 5,
            most_in_column == if i == 0 {
                0
            } else if i == 1 {
                board.column_count(0)
            } else if i == 2 {
                greatest(board.column_count(0), board.column_count(1))
            } else if i == 3 {
                greatest(
                    board.column_count(0),
                    greatest(board.column_count(1), board.column_count(2)),
                )
            } else if i == 4 {
                greatest(
                    board.column_count(0),
                    greatest(
                        board.column_count(1),
                        greatest(board.column_count(2), board.column_count(3)),
                    ),
                )
            } else {
                board.max_column_count()
            },
            most_of_color == if i == 0 {
                0
            } else if i == 1 {
                board.wall_tiles_of(0)
            } else if i == 2 {
                greatest(board.wall_tiles_of(0), board.wall_tiles_of(1))
            } else if i == 3 {
                greatest(
                    board.wall_tiles_of(0),
                    greatest(board.wall_tiles_of(1), board.wall_tiles_of(2)),
                )
            } else if i == 4 {
                greatest(
                    board.wall_tiles_of(0),
                    greatest(
                        board.wall_tiles_of(1),
                        greatest(board.wall_tiles_of(2), board.wall_tiles_of(3)),
                    ),
                )
            } else {
                board.max_color_count()
            },
        decreases 5 - i,
    {
        let in_column: i32 = board.filled_in_column(i);
        if in_column > most_in_column {
            most_in_column = in_column;
        }
        let of_color: i32 = board.placed_of_color(i);
        if of_color > most_of_color {
            most_of_color = of_color;
        }
        i += 1;
    }
    features[offset] = most_in_column;
    offset += 1;
    features[offset] = most_of_color;
    offset += 1;
    features
}

/// Describes the position by fifty-four numbers for each player, as a
/// learned value function takes them.
pub fn encode_features(state: &State) -> (state_arr: [[i32; 54]; 3])
    requires
        state.well_formed(),
    ensures
        forall|p: int, k: int|
            0 <= p < 3 && 0 <= k < 54 ==> (#[trigger] state_arr[p][k]) == state.feature(p, k),
{
    let mut state_arr: [[i32; 54]; 3] = [[0; 54]; 3];
    let a: i32 = state.board_states[0].score;
    let b: i32 = state.board_states[1].score;
    let c: i32 = state.board_states[2].score;
    let min_score: i32 = if a <= b && a <= c {
        a
    } else if b <= c {
        b
    } else {
        c
    };
    let mut player_num: usize = 0;
    while player_num < 3
        invariant
            player_num <= 3,
            state.well_formed(),
            min_score == state.least_score(),
            forall|p: int, k: int|
                0 <= p < player_num && 0 <= k < 54 ==> (#[trigger] state_arr[p][k])
                    == state.feature(p, k),
        decreases 3 - player_num,
    {
        let board: &PlayerState = &state.board_states[player_num];
        proof {
            assert(state.board_states[0].score_ok(if state.is_finished { 95int } else { 0int }));
            assert(state.board_states[2].score_ok(if state.is_finished { 95int } else { 0int }));
            crate::round::lemma_wall_count_bound(*board);
        }
        let mut features: [i32; 54] = encode_board(board);
        let lead: i32 = board.score - min_score;
        features[51] = lead + features[51];
        state_arr[player_num] = features;
        player_num += 1;
    }
    state_arr
}

} // verus!
