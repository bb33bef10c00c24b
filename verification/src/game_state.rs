//! The board, the shared pool and the tile reserves of a three-player
//! tile-drafting game, together with the invariants every position obeys.
//!
//! Colours are numbered `0..5`; the number `5` stands for the first-player
//! marker. A wall cell `(row, col)` belongs to the colour `c` with
//! `col == (row + c) % 5`.

use vstd::prelude::*;
use crate::arrays::{arr5, arr6, wall_of, lemma_wall_ext, group_built_arrays};

verus! {

broadcast use group_built_arrays;

/// Number of factory displays; the display with this index is the centre.
pub const NUM_FACTORY_DISPLAYS: u8 = 7;

/// Tiles of each colour in the game.
pub const NUM_TILES: u8 = 20;

/// Tiles dealt onto one factory display.
pub const TILES_PER_DISPLAY: u8 = 4;

/// Colour index of the first-player marker.
pub const MARKER: u8 = 5;

/// The destination index that stands for the floor line.
pub const FLOOR_LINE: u8 = 5;

/// One whole win, the unit in which score shares and position values are held.
pub const FULL_SHARE: i32 = 6_000_000;

/// Blue, yellow, red, green, cyan and the first-player marker.
pub const COLOR_NAMES: [char; 6] = ['B', 'Y', 'R', 'G', 'C', 'F'];

/// A pattern line: `count` tiles of colour `color`.
#[derive(Copy, Clone, PartialEq, Eq, Debug, Structural)]
pub struct Row {
    pub color: u8,
    pub count: u8,
}

/// One player's board.
#[derive(Copy, Clone, PartialEq, Eq, Debug)]
pub struct PlayerState {
    pub wall_state: [[bool; 5]; 5],
    pub rows: [Row; 5],
    pub score: i32,
    pub floor_tiles: [u8; 6],
}

/// Seven factory displays and the centre, each a count per colour.
#[derive(Copy, Clone, PartialEq, Eq, Debug)]
pub struct CentralState {
    pub central_state_arr: [[u8; 6]; 8],
}

/// A whole position.
///
/// `player_scores` holds each player's share of the win in units of
/// [`FULL_SHARE`]; it is zero until the game is finished.
#[derive(Copy, Clone, PartialEq, Eq, Debug)]
pub struct State {
    pub board_states: [PlayerState; 3],
    pub central_state: CentralState,
    pub player_to_play: u8,
    pub bag: [u8; 5],
    pub lid: [u8; 5],
    pub is_finished: bool,
    pub player_scores: [i32; 3],
}

/// Take every tile of `color` from display `display_number` and put them on
/// pattern line `row_id`, or on the floor line when `row_id` is [`FLOOR_LINE`].
#[derive(Copy, Clone, PartialEq, Eq, Hash, Debug, Structural)]
pub struct Action {
    pub display_number: u8,
    pub color: u8,
    pub row_id: u8,
}

/// One for a tile that is there, zero for one that is not.
pub open spec fn tile(present: bool) -> int {
    if present {
        1
    } else {
        0
    }
}

/// The wall column that holds `color` in `row`.
pub open spec fn wall_col(row: int, color: int) -> int {
    (row + color) % 5
}

/// How many tiles of `color` the game holds.
pub open spec fn supply(color: int) -> int {
    if color < 5 {
        20
    } else {
        1
    }
}

impl Row {
    /// Tiles of `color` on this line.
    pub open spec fn tiles_of(self, color: int) -> int {
        if self.color == color {
            self.count as int
        } else {
            0
        }
    }
}

impl PlayerState {
    /// Whether `color` already sits on the wall in `row`.
    pub open spec fn wall_has(self, row: int, color: int) -> bool {
        self.wall_state[row][wall_col(row, color)]
    }

    /// Tiles of `color` on the wall.
    pub open spec fn wall_tiles_of(self, color: int) -> int {
        tile(self.wall_has(0, color)) + tile(self.wall_has(1, color)) + tile(
            self.wall_has(2, color),
        ) + tile(self.wall_has(3, color)) + tile(self.wall_has(4, color))
    }

    /// Tiles of `color` on the pattern lines.
    pub open spec fn line_tiles_of(self, color: int) -> int {
        self.rows[0].tiles_of(color) + self.rows[1].tiles_of(color) + self.rows[2].tiles_of(color)
            + self.rows[3].tiles_of(color) + self.rows[4].tiles_of(color)
    }

    /// Tiles of `color` anywhere on this board; the marker lies on the floor line only.
    pub open spec fn tiles_of(self, color: int) -> int {
        self.floor_tiles[color] + if color < 5 {
            self.line_tiles_of(color) + self.wall_tiles_of(color)
        } else {
            0
        }
    }

    /// Filled wall cells.
    pub open spec fn wall_count(self) -> int {
        self.wall_tiles_of(0) + self.wall_tiles_of(1) + self.wall_tiles_of(2) + self.wall_tiles_of(
            3,
        ) + self.wall_tiles_of(4)
    }

    /// Tiles on the floor line, the marker among them.
    pub open spec fn floor_count(self) -> int {
        self.floor_tiles[0] + self.floor_tiles[1] + self.floor_tiles[2] + self.floor_tiles[3]
            + self.floor_tiles[4] + self.floor_tiles[5]
    }

    /// No pattern line holds a tile and no coloured tile lies on the floor line.
    pub open spec fn is_bare(self) -> bool {
        &&& forall|r: int| 0 <= r < 5 ==> (#[trigger] self.rows[r]).count == 0
        &&& forall|c: int| 0 <= c < 5 ==> #[trigger] self.floor_tiles[c] == 0
    }

    /// Whether pattern line `row` is filled to its capacity `row + 1`.
    pub open spec fn line_full(self, row: int) -> bool {
        self.rows[row].count == row + 1
    }

    /// Whether pattern line `row` may receive tiles of `color`.
    pub open spec fn accepts(self, row: int, color: int) -> bool {
        let line = self.rows[row];
        if line.count > 0 {
            line.color == color && line.count < row + 1
        } else {
            !self.wall_has(row, color)
        }
    }

    /// Every line holds a real colour, stays within its capacity, and holds
    /// no colour that its wall row already has.
    pub open spec fn lines_ok(self) -> bool {
        forall|r: int|
            0 <= r < 5 ==> {
                let line = #[trigger] self.rows[r];
                &&& line.color < 5
                &&& line.count <= r + 1
                &&& line.count > 0 ==> !self.wall_has(r, line.color as int)
            }
    }

    /// The score is never negative and never more than the wall can have earned.
    pub open spec fn score_ok(self, bonus: int) -> bool {
        0 <= self.score <= 10 * self.wall_count() + bonus
    }

    /// Whether wall row `row` is complete.
    pub open spec fn wall_row_full(self, row: int) -> bool {
        let w = self.wall_state[row];
        w[0] && w[1] && w[2] && w[3] && w[4]
    }

    /// Whether wall column `col` is complete.
    pub open spec fn wall_col_full(self, col: int) -> bool {
        let w = self.wall_state;
        w[0][col] && w[1][col] && w[2][col] && w[3][col] && w[4][col]
    }

    /// Whether all five tiles of `color` are on the wall.
    pub open spec fn wall_color_full(self, color: int) -> bool {
        self.wall_has(0, color) && self.wall_has(1, color) && self.wall_has(2, color)
            && self.wall_has(3, color) && self.wall_has(4, color)
    }

    /// Whether some wall row is complete.
    pub open spec fn has_full_row(self) -> bool {
        self.wall_row_full(0) || self.wall_row_full(1) || self.wall_row_full(2)
            || self.wall_row_full(3) || self.wall_row_full(4)
    }
}

impl CentralState {
    /// Tiles of `color` over all displays and the centre.
    pub open spec fn tiles_of(self, color: int) -> int {
        let a = self.central_state_arr;
        a[0][color] + a[1][color] + a[2][color] + a[3][color] + a[4][color] + a[5][color]
            + a[6][color] + a[7][color]
    }

    /// Tiles on display `display`, the marker among them.
    pub open spec fn display_count(self, display: int) -> int {
        let d = self.central_state_arr[display];
        d[0] + d[1] + d[2] + d[3] + d[4] + d[5]
    }

    /// Coloured tiles over all displays and the centre.
    pub open spec fn colored_count(self) -> int {
        self.tiles_of(0) + self.tiles_of(1) + self.tiles_of(2) + self.tiles_of(3) + self.tiles_of(4)
    }

    /// Nothing lies on any display or in the centre, not even the marker.
    pub open spec fn is_empty(self) -> bool {
        forall|d: int, c: int|
            0 <= d < 8 && 0 <= c < 6 ==> (#[trigger] self.central_state_arr[d][c]) == 0
    }
}

impl State {
    /// Tiles of `color` in the bag and the lid.
    pub open spec fn reserve_of(self, color: int) -> int {
        if color < 5 {
            self.bag[color] + self.lid[color]
        } else {
            0
        }
    }

    /// Tiles of `color` in the whole position.
    pub open spec fn tiles_of(self, color: int) -> int {
        self.reserve_of(color) + self.central_state.tiles_of(color)
            + self.board_states[0].tiles_of(color) + self.board_states[1].tiles_of(color)
            + self.board_states[2].tiles_of(color)
    }

    /// No tile was gained or lost: of every colour the position holds the
    /// full supply, twenty of each real colour and the one marker.
    pub open spec fn conserved(self) -> bool {
        forall|c: int| 0 <= c < 6 ==> #[trigger] self.tiles_of(c) == supply(c)
    }

    /// Tiles in the bag.
    pub open spec fn bag_count(self) -> int {
        self.bag[0] + self.bag[1] + self.bag[2] + self.bag[3] + self.bag[4]
    }

    /// Tiles in the lid.
    pub open spec fn lid_count(self) -> int {
        self.lid[0] + self.lid[1] + self.lid[2] + self.lid[3] + self.lid[4]
    }

    /// A round is about to open: every board is bare.
    pub open spec fn round_start(self) -> bool {
        forall|p: int| 0 <= p < 3 ==> (#[trigger] self.board_states[p]).is_bare()
    }

    /// The board of the player to move.
    pub open spec fn mover(self) -> PlayerState {
        self.board_states[self.player_to_play as int]
    }

    /// The invariant of every position that play can reach.
    pub open spec fn well_formed(self) -> bool {
        &&& self.player_to_play < 3
        &&& self.conserved()
        &&& forall|p: int| 0 <= p < 3 ==> (#[trigger] self.board_states[p]).lines_ok()
        &&& forall|p: int|
            0 <= p < 3 ==> (#[trigger] self.board_states[p]).score_ok(
                if self.is_finished {
                    95
                } else {
                    0
                },
            )
        &&& forall|d: int| 0 <= d < 7 ==> (#[trigger] self.central_state.central_state_arr[d])[5] == 0
        &&& self.round_start() ==> self.mover().floor_tiles[5] == 1
        &&& self.is_finished ==> self.central_state.is_empty()
        &&& !self.is_finished ==> forall|p: int| 0 <= p < 3 ==> #[trigger] self.player_scores[p] == 0
    }
}

/// A board with an empty wall, empty lines, no floor tiles and no points.
pub open spec fn blank_board() -> PlayerState {
    PlayerState {
        wall_state: wall_of(|r: int, c: int| false),
        rows: arr5(|r: int| (Row { color: 0, count: 0 })),
        score: 0,
        floor_tiles: arr6(|c: int| 0u8),
    }
}

/// A fresh player board.
pub fn inital_player_state() -> (board: PlayerState)
    ensures
        board == blank_board(),
{
    let board = PlayerState {
        wall_state: [[false; 5]; 5],
        rows: [Row { color: 0, count: 0 }; 5],
        score: 0,
        floor_tiles: [0; 6],
    };
    proof {
        lemma_wall_ext(board.wall_state, blank_board().wall_state);
    }
    assert(board.rows =~= blank_board().rows);
    assert(board.floor_tiles =~= blank_board().floor_tiles);
    board
}

} // verus!
