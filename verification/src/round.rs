//! The end of a round: every board is resolved in turn, and, when the game
//! is over, the bonuses are added and the win is shared out.

use vstd::prelude::*;
use crate::arrays::{arr3, arr5, group_built_arrays};
use crate::game_state::{PlayerState, State, FULL_SHARE, tile, supply};
use crate::actions::get_valid_actions;
use crate::scoring::{
    floor_penalty, lemma_board_ext, lemma_swept, lemma_tiled, score_and_move_floor_tiles,
    tile_full_lines,
};

verus! {

broadcast use group_built_arrays;

impl State {
    /// The player who holds the first-player marker on the floor line; the
    /// player to move when nobody does.
    pub open spec fn marker_holder(self) -> u8 {
        if self.board_states[2].floor_tiles[5] > 0 {
            2
        } else if self.board_states[1].floor_tiles[5] > 0 {
            1
        } else if self.board_states[0].floor_tiles[5] > 0 {
            0
        } else {
            self.player_to_play
        }
    }

    /// Tiles of `color` that the boards `0..n` give to the lid when the round ends.
    pub open spec fn discards_before(self, n: int, color: int) -> int {
        if n <= 0 {
            0
        } else if n == 1 {
            self.board_states[0].discards_of(color)
        } else if n == 2 {
            self.board_states[0].discards_of(color) + self.board_states[1].discards_of(
                color,
            )
        } else {
            self.board_states[0].discards_of(color) + self.board_states[1].discards_of(
                color,
            ) + self.board_states[2].discards_of(color)
        }
    }

    /// The position after the round has been resolved: the marker's holder
    /// moves next, every board is tiled, scored and swept, and what the
    /// boards discard lies in the lid.
    pub open spec fn after_round(self) -> State {
        State {
            board_states: arr3(|p: int| self.board_states[p].after_round()),
            central_state: self.central_state,
            player_to_play: self.marker_holder(),
            bag: self.bag,
            lid: arr5(|c: int| (self.lid[c] + self.discards_before(3, c)) as u8),
            is_finished: self.is_finished,
            player_scores: self.player_scores,
        }
    }
}

/// Two positions with the same contents are the same position.
pub proof fn lemma_state_ext(a: State, b: State)
    requires
        forall|p: int| 0 <= p < 3 ==> a.board_states[p] == b.board_states[p],
        a.central_state == b.central_state,
        a.player_to_play == b.player_to_play,
        forall|c: int| 0 <= c < 5 ==> a.bag[c] == b.bag[c],
        forall|c: int| 0 <= c < 5 ==> a.lid[c] == b.lid[c],
        a.is_finished == b.is_finished,
        forall|p: int| 0 <= p < 3 ==> a.player_scores[p] == b.player_scores[p],
    ensures
        a == b,
{
    assert(a.board_states =~= b.board_states);
    assert(a.bag =~= b.bag);
    assert(a.lid =~= b.lid);
    assert(a.player_scores =~= b.player_scores);
}

/// What one board gives to the lid at the end of a round was on that board.
pub proof fn lemma_board_discards(b: PlayerState, c: int)
    requires
        b.lines_ok(),
        0 <= c < 5,
    ensures
        0 <= b.discard_below(5, c),
        0 <= b.discards_of(c) <= b.tiles_of(c),
        b.after_round().tiles_of(c) + b.discards_of(c) == b.tiles_of(c),
        b.after_round().tiles_of(5) == b.tiles_of(5),
        b.after_round().floor_tiles[5] == b.floor_tiles[5],
{
    lemma_tiled(b);
    lemma_swept(b.tiled());
    assert(b.tiled().swept().tiles_of(c) + b.tiled().floor_tiles[c] == b.tiled().tiles_of(c));
}

/// The lid has room for all that the boards discard.
pub proof fn lemma_discards_fit(s: State, c: int)
    requires
        s.conserved(),
        forall|p: int| 0 <= p < 3 ==> (#[trigger] s.board_states[p]).lines_ok(),
        0 <= c < 5,
    ensures
        0 <= s.discards_before(1, c) <= s.discards_before(2, c) <= s.discards_before(3, c),
        s.lid[c] + s.discards_before(3, c) <= 20,
        s.bag[c] + s.lid[c] + s.discards_before(3, c) <= 20,
{
    lemma_board_discards(s.board_states[0], c);
    lemma_board_discards(s.board_states[1], c);
    lemma_board_discards(s.board_states[2], c);
    assert(s.tiles_of(c) == supply(c));
}

/// A board resolved at the end of a round keeps its lines in order and its
/// score within what its wall can have earned.
pub proof fn lemma_board_after_round(b: PlayerState, bonus: int)
    requires
        b.lines_ok(),
        b.score_ok(bonus),
        0 <= bonus <= 95,
    ensures
        b.after_round().lines_ok(),
        b.after_round().score_ok(bonus),
        b.after_round().wall_count() <= 25,
        b.wall_count() <= b.after_round().wall_count(),
        b.score + b.gain_below(5) <= 10 * b.tiled().wall_count() + bonus,
        0 <= b.gain_below(5) <= 50,
{
    lemma_tiled(b);
    lemma_swept(b.tiled());
    lemma_wall_count_bound(b);
    lemma_wall_count_bound(b.tiled());
}

/// A wall has twenty-five cells.
pub proof fn lemma_wall_count_bound(b: PlayerState)
    ensures
        0 <= b.wall_count() <= 25,
        0 <= b.full_lines() <= 5,
{
}

/// Resolving a round that has emptied the pool leaves a position that obeys
/// every invariant; in particular no tile is gained or lost.
pub proof fn lemma_after_round_well_formed(s: State)
    requires
        s.well_formed(),
        s.central_state.is_empty(),
    ensures
        s.after_round().well_formed(),
{
    let t = s.after_round();
    let bonus: int = if s.is_finished {
        95
    } else {
        0
    };
    assert forall|p: int| 0 <= p < 3 implies (#[trigger] t.board_states[p]).lines_ok()
        && t.board_states[p].score_ok(bonus) by {
        lemma_board_after_round(s.board_states[p], bonus);
    }
    assert forall|c: int| 0 <= c < 6 implies #[trigger] t.tiles_of(c) == supply(c) by {
        assert(s.tiles_of(c) == supply(c));
        if c < 5 {
            lemma_discards_fit(s, c);
            lemma_board_discards(s.board_states[0], c);
            lemma_board_discards(s.board_states[1], c);
            lemma_board_discards(s.board_states[2], c);
        } else {
            lemma_board_discards(s.board_states[0], 0);
            lemma_board_discards(s.board_states[1], 0);
            lemma_board_discards(s.board_states[2], 0);
        }
    }
    assert(t.mover().floor_tiles[5] == 1) by {
        assert(s.tiles_of(5) == supply(5));
        lemma_pool_empty_counts(s, 5);
        lemma_board_discards(s.board_states[0], 0);
        lemma_board_discards(s.board_states[1], 0);
        lemma_board_discards(s.board_states[2], 0);
    }
}

/// An empty pool holds no tile of any colour.
pub proof fn lemma_pool_empty_counts(s: State, c: int)
    requires
        s.central_state.is_empty(),
        0 <= c < 6,
    ensures
        s.central_state.tiles_of(c) == 0,
{
}

/// Resolves the round on every board: the holder of the marker will move
/// first, full lines go to the wall and are scored, the floor lines are
/// charged and swept, and all discarded tiles go to the lid.
pub fn score_and_reset(state: &mut State)
    requires
        old(state).well_formed(),
    ensures
        *final(state) == old(state).after_round(),
        old(state).central_state.is_empty() ==> final(state).well_formed(),
{
    let ghost before = *state;
    let mut player_id: u8 = 0;
    while player_id < 3
        invariant
            player_id <= 3,
            state.board_states == before.board_states,
            state.central_state == before.central_state,
            state.bag == before.bag,
            state.lid == before.lid,
            state.is_finished == before.is_finished,
            state.player_scores == before.player_scores,
            state.player_to_play == if player_id >= 3 && before.board_states[2].floor_tiles[5] > 0 {
                2u8
            } else if player_id >= 2 && before.board_states[1].floor_tiles[5] > 0 {
                1u8
            } else if player_id >= 1 && before.board_states[0].floor_tiles[5] > 0 {
                0u8
            } else {
                before.player_to_play
            },
        decreases 3 - player_id,
    {
        if state.board_states[player_id as usize].floor_tiles[5] > 0 {
            state.player_to_play = player_id;
        }
        player_id += 1;
    }

    let mut p: usize = 0;
    while p < 3
        invariant
            p <= 3,
            before.well_formed(),
            forall|q: int| 0 <= q < p ==> state.board_states[q] == before.board_states[q].after_round(),
            forall|q: int| p <= q < 3 ==> state.board_states[q] == before.board_states[q],
            state.central_state == before.central_state,
            state.bag == before.bag,
            forall|c: int|
                0 <= c < 5 ==> state.lid[c] == before.lid[c] + before.discards_before(p as int, c),
            state.is_finished == before.is_finished,
            state.player_scores == before.player_scores,
            state.player_to_play == before.marker_holder(),
        decreases 3 - p,
    {
        let mut board: PlayerState = state.board_states[p];
        let mut lid: [u8; 5] = state.lid;
        let ghost bonus: int = if before.is_finished {
            95
        } else {
            0
        };
        proof {
            assert(board == before.board_states[p as int]);
            lemma_board_after_round(board, bonus);
            lemma_wall_count_bound(board);
            assert forall|c: int| 0 <= c < 5 implies #[trigger] lid[c] + 10 <= u8::MAX && lid[c]
                + board.discards_of(c) <= u8::MAX && 0 <= board.discard_below(5, c) by {
                lemma_discards_fit(before, c);
                lemma_board_discards(board, c);
            }
        }
        tile_full_lines(&mut board, &mut lid);
        proof {
            lemma_wall_count_bound(board);
            assert forall|c: int| 0 <= c < 5 implies #[trigger] lid[c] + board.floor_tiles[c]
                <= u8::MAX by {}
        }
        score_and_move_floor_tiles(&mut board, &mut lid);
        state.board_states[p] = board;
        state.lid = lid;
        p += 1;
    }
    proof {
        assert forall|c: int| 0 <= c < 5 implies state.lid[c] == before.after_round().lid[c] by {
            lemma_discards_fit(before, c);
        }
        lemma_state_ext(*state, before.after_round());
        if before.central_state.is_empty() {
            lemma_after_round_well_formed(before);
        }
    }
}

impl PlayerState {
    /// The end-of-game bonus earned by the rows, columns and colours `0..n`:
    /// two points for a complete row, seven for a complete column, ten for
    /// a complete colour.
    pub open spec fn bonus_below(self, n: int) -> int
        decreases n,
    {
        if n <= 0 {
            0
        } else {
            self.bonus_below(n - 1) + 2 * tile(self.wall_row_full(n - 1)) + 7 * tile(
                self.wall_col_full(n - 1),
            ) + 10 * tile(self.wall_color_full(n - 1))
        }
    }

    /// The end-of-game bonus of the whole wall.
    pub open spec fn bonus(self) -> int {
        self.bonus_below(5)
    }

    /// The board with the end-of-game bonus added to its score.
    pub open spec fn with_bonus(self) -> PlayerState {
        PlayerState {
            wall_state: self.wall_state,
            rows: self.rows,
            score: (self.score + self.bonus()) as i32,
            floor_tiles: self.floor_tiles,
        }
    }

    /// Whether wall row `row` is complete.
    pub fn is_row_full(&self, row: usize) -> (full: bool)
        requires
            row < 5,
        ensures
            full == self.wall_row_full(row as int),
    {
        let w = &self.wall_state;
        w[row][0] && w[row][1] && w[row][2] && w[row][3] && w[row][4]
    }

    /// Whether wall column `col` is complete.
    pub fn is_col_full(&self, col: usize) -> (full: bool)
        requires
            col < 5,
        ensures
            full == self.wall_col_full(col as int),
    {
        let w = &self.wall_state;
        w[0][col] && w[1][col] && w[2][col] && w[3][col] && w[4][col]
    }

    /// Whether all five tiles of `color` are on the wall.
    pub fn is_color_full(&self, color: usize) -> (full: bool)
        requires
            color < 5,
        ensures
            full == self.wall_color_full(color as int),
    {
        let w = &self.wall_state;
        w[0][color % 5] && w[1][(1 + color) % 5] && w[2][(2 + color) % 5] && w[3][(3 + color) % 5]
            && w[4][(4 + color) % 5]
    }

    /// The end-of-game bonus of this board.
    pub fn wall_bonus(&self) -> (points: i32)
        ensures
            points == self.bonus(),
            0 <= points <= 95,
    {
        let mut points: i32 = 0;
        let mut i: usize = 0;
        while i < 5
            invariant
                i <= 5,
                0 <= points <= 19 * i,
                points == self.bonus_below(i as int),
            decreases 5 - i,
        {
            if self.is_row_full(i) {
                points += 2;
            }
            if self.is_col_full(i) {
                points += 7;
            }
            if self.is_color_full(i) {
                points += 10;
            }
            i += 1;
        }
        points
    }
}

impl State {
    /// The score of player `p` with the end-of-game bonus.
    pub open spec fn final_score(self, p: int) -> int {
        self.board_states[p].score + self.board_states[p].bonus()
    }

    /// The highest final score.
    pub open spec fn top_score(self) -> int {
        let a = self.final_score(0);
        let b = self.final_score(1);
        let c = self.final_score(2);
        if a >= b && a >= c {
            a
        } else if b >= c {
            b
        } else {
            c
        }
    }

    /// How many players reach the highest final score.
    pub open spec fn winners(self) -> int {
        tile(self.final_score(0) == self.top_score()) + tile(
            self.final_score(1) == self.top_score(),
        ) + tile(self.final_score(2) == self.top_score())
    }

    /// The share of the win of player `p`: the winners divide it evenly.
    pub open spec fn share_of(self, p: int) -> int {
        if self.final_score(p) == self.top_score() {
            FULL_SHARE as int / self.winners()
        } else {
            0
        }
    }

    /// The position with every board's bonus added and the win shared out.
    pub open spec fn with_bonuses(self) -> State {
        State {
            board_states: arr3(|p: int| self.board_states[p].with_bonus()),
            central_state: self.central_state,
            player_to_play: self.player_to_play,
            bag: self.bag,
            lid: self.lid,
            is_finished: self.is_finished,
            player_scores: arr3(|p: int| self.share_of(p) as i32),
        }
    }
}

/// Score vertical and horizontal rows and sets of colours, and share the win
/// among the players with the highest score.
pub fn score_bonuses(state: &mut State)
    requires
        forall|p: int| 0 <= p < 3 ==> (#[trigger] old(state).board_states[p]).score + 95 <= i32::MAX,
    ensures
        *final(state) == old(state).with_bonuses(),
{
    let ghost before = *state;
    let mut p: usize = 0;
    while p < 3
        invariant
            p <= 3,
            forall|q: int| 0 <= q < p ==> state.board_states[q] == before.board_states[q].with_bonus(),
            forall|q: int| 0 <= q < p ==> 0 <= (#[trigger] before.board_states[q]).bonus() <= 95,
            forall|q: int| p <= q < 3 ==> state.board_states[q] == before.board_states[q],
            forall|q: int| 0 <= q < 3 ==> (#[trigger] before.board_states[q]).score + 95 <= i32::MAX,
            state.central_state == before.central_state,
            state.player_to_play == before.player_to_play,
            state.bag == before.bag,
            state.lid == before.lid,
            state.is_finished == before.is_finished,
            state.player_scores == before.player_scores,
        decreases 3 - p,
    {
        let points: i32 = state.board_states[p].wall_bonus();
        assert(state.board_states[p as int] == before.board_states[p as int]);
        state.board_states[p].score += points;
        proof {
            lemma_board_ext(state.board_states[p as int], before.board_states[p as int].with_bonus());
        }
        p += 1;
    }
    let a: i32 = state.board_states[0].score;
    let b: i32 = state.board_states[1].score;
    let c: i32 = state.board_states[2].score;
    let max_score: i32 = if a >= b && a >= c {
        a
    } else if b >= c {
        b
    } else {
        c
    };
    let mut sum_scores: i32 = 0;
    if a == max_score {
        sum_scores += 1;
    }
    if b == max_score {
        sum_scores += 1;
    }
    if c == max_score {
        sum_scores += 1;
    }
    let share: i32 = FULL_SHARE / sum_scores;
    state.player_scores[0] = if a == max_score {
        share
    } else {
        0
    };
    state.player_scores[1] = if b == max_score {
        share
    } else {
        0
    };
    state.player_scores[2] = if c == max_score {
        share
    } else {
        0
    };
    proof {
        lemma_state_ext(*state, before.with_bonuses());
    }
}

/// Determine whether the game is finished: there are no tiles to take, and
/// either a player has a complete wall row or there are no tiles in the bag
/// or lid to refill with.
pub fn is_finished(state: &State) -> (finished: bool)
    requires
        state.player_to_play < 3,
    ensures
        finished == state.game_over(),
{
    if get_valid_actions(state).len() != 0 {
        return false;
    }
    let mut p: usize = 0;
    while p < 3
        invariant
            p <= 3,
            forall|q: int| 0 <= q < p ==> !(#[trigger] state.board_states[q]).has_full_row(),
            state.valid_actions().len() == 0,
        decreases 3 - p,
    {
        let board: &PlayerState = &state.board_states[p];
        let mut row: usize = 0;
        while row < 5
            invariant
                p < 3,
                row <= 5,
                *board == state.board_states[p as int],
                forall|r: int| 0 <= r < row ==> !#[trigger] board.wall_row_full(r),
                state.valid_actions().len() == 0,
            decreases 5 - row,
        {
            if board.is_row_full(row) {
                return true;
            }
            row += 1;
        }
        p += 1;
    }
    let bag: &[u8; 5] = &state.bag;
    let lid: &[u8; 5] = &state.lid;
    let reserve: u32 = bag[0] as u32 + bag[1] as u32 + bag[2] as u32 + bag[3] as u32 + bag[4] as u32
        + lid[0] as u32 + lid[1] as u32 + lid[2] as u32 + lid[3] as u32 + lid[4] as u32;
    reserve == 0
}

} // verus!
