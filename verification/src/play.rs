//! Playing a move: the tiles are drafted from the pool onto the mover's
//! board, and when that empties the pool the round is resolved.

use vstd::prelude::*;
use crate::actions::{check_counts, has_empty_centre, is_first_move};
use crate::arrays::{arr3, arr5, arr6, pool_of, lemma_pool_ext, group_built_arrays};
use crate::game_state::{
    Action, CentralState, PlayerState, Row, State, MARKER, NUM_FACTORY_DISPLAYS, supply,
};
use crate::round::{
    is_finished, lemma_after_round_well_formed, lemma_state_ext, lemma_wall_count_bound,
    score_and_reset, score_bonuses,
};
use crate::scoring::lemma_board_ext;

verus! {

broadcast use group_built_arrays;

impl State {
    /// How many tiles `action` takes from the pool.
    pub open spec fn taken(self, action: Action) -> int {
        self.central_state.central_state_arr[action.display_number as int][action.color as int] as int
    }

    /// Whether `action` brings the first-player marker to the mover: it draws
    /// from the centre, and the marker lies there or is about to be put there.
    pub open spec fn takes_marker(self, action: Action) -> bool {
        action.display_number == 7 && (self.round_start()
            || self.central_state.central_state_arr[7][5] > 0)
    }

    /// How many tiles of `color` lie on display `display` after `action`.
    ///
    /// The chosen colour leaves its display. When the display is a factory,
    /// its other tiles move to the centre. The marker goes to the centre on
    /// the first move of a round and leaves it with the first draw from the
    /// centre.
    pub open spec fn drafted_pool_cell(self, action: Action, display: int, color: int) -> int {
        let pool = self.central_state.central_state_arr;
        let src = action.display_number as int;
        if color == action.color {
            if display == src {
                0
            } else {
                pool[display][color] as int
            }
        } else if color == 5 && display == 7 {
            if self.takes_marker(action) {
                0
            } else if self.round_start() {
                1
            } else if src < 7 {
                pool[7][5] + pool[src][5]
            } else {
                pool[7][5] as int
            }
        } else if src < 7 {
            if display == src {
                0
            } else if display == 7 {
                pool[7][color] + pool[src][color]
            } else {
                pool[display][color] as int
            }
        } else {
            pool[display][color] as int
        }
    }

    /// How many of the taken tiles end on the floor line: all of them when
    /// the floor line is the destination, else those that the pattern line
    /// has no room for.
    pub open spec fn overflow(self, action: Action) -> int {
        if action.row_id < 5 {
            let room = action.row_id + 1 - self.mover().rows[action.row_id as int].count;
            if self.taken(action) > room {
                self.taken(action) - room
            } else {
                0
            }
        } else {
            self.taken(action)
        }
    }

    /// The tiles of pattern line `row` of the mover after `action`.
    pub open spec fn drafted_line(self, action: Action, row: int) -> Row {
        if row == action.row_id {
            Row {
                color: action.color,
                count: (self.mover().rows[row].count + self.taken(action) - self.overflow(
                    action,
                )) as u8,
            }
        } else {
            self.mover().rows[row]
        }
    }

    /// The tiles of `color` on the mover's floor line after `action`.
    pub open spec fn drafted_floor(self, action: Action, color: int) -> int {
        if color == action.color {
            self.mover().floor_tiles[color] + self.overflow(action)
        } else if color == 5 {
            if self.takes_marker(action) {
                1
            } else if self.round_start() {
                0
            } else {
                self.mover().floor_tiles[5] as int
            }
        } else {
            self.mover().floor_tiles[color] as int
        }
    }

    /// The mover's board after `action`.
    pub open spec fn drafted_board(self, action: Action) -> PlayerState {
        PlayerState {
            wall_state: self.mover().wall_state,
            rows: arr5(|r: int| self.drafted_line(action, r)),
            score: self.mover().score,
            floor_tiles: arr6(|c: int| self.drafted_floor(action, c) as u8),
        }
    }

    /// The position after `action` has been drafted, before any round end:
    /// the pool and the mover's board have changed, the next player is to
    /// move, and the score shares are zero.
    pub open spec fn after_draft(self, action: Action) -> State {
        State {
            board_states: arr3(
                |p: int|
                    if p == self.player_to_play {
                        self.drafted_board(action)
                    } else {
                        self.board_states[p]
                    },
            ),
            central_state: CentralState {
                central_state_arr: pool_of(
                    |d: int, c: int| self.drafted_pool_cell(action, d, c) as u8,
                ),
            },
            player_to_play: ((self.player_to_play + 1) % 3) as u8,
            bag: self.bag,
            lid: self.lid,
            is_finished: self.is_finished,
            player_scores: arr3(|p: int| 0i32),
        }
    }

    /// This position with the finished flag set to `finished`.
    pub open spec fn with_finished(self, finished: bool) -> State {
        State {
            board_states: self.board_states,
            central_state: self.central_state,
            player_to_play: self.player_to_play,
            bag: self.bag,
            lid: self.lid,
            is_finished: finished,
            player_scores: self.player_scores,
        }
    }

    /// The position after the round that has just emptied the pool: the
    /// round is resolved, and if that ends the game the bonuses are added and
    /// the win is shared out.
    pub open spec fn settled(self) -> State {
        let resolved = self.after_round();
        if resolved.game_over() {
            resolved.with_finished(true).with_bonuses()
        } else {
            resolved.with_finished(false)
        }
    }

    /// The position after `action`: the draft, and the end of the round when
    /// the draft has emptied the pool.
    pub open spec fn after_step(self, action: Action) -> State {
        let drafted = self.after_draft(action);
        if drafted.central_state.is_empty() {
            drafted.settled()
        } else {
            drafted
        }
    }
}

/// In a position that has lost no tile, no place holds more tiles of a
/// colour than the game has.
pub proof fn lemma_cell_bounds(s: State, c: int)
    requires
        s.conserved(),
        0 <= c < 6,
    ensures
        forall|d: int| 0 <= d < 8 ==> (#[trigger] s.central_state.central_state_arr[d])[c] <= supply(c),
        forall|d: int, e: int|
            0 <= d < e < 8 ==> (#[trigger] s.central_state.central_state_arr[d])[c] + (
            #[trigger] s.central_state.central_state_arr[e])[c] <= supply(c),
        forall|p: int, d: int|
            0 <= p < 3 && 0 <= d < 8 ==> (#[trigger] s.board_states[p]).floor_tiles[c] + (
            #[trigger] s.central_state.central_state_arr[d])[c] <= supply(c),
        s.central_state.tiles_of(c) <= supply(c),
{
    let a = s.central_state.central_state_arr;
    let pool = s.central_state.tiles_of(c);
    let floors = s.board_states[0].floor_tiles[c] + s.board_states[1].floor_tiles[c]
        + s.board_states[2].floor_tiles[c];
    assert(pool + floors <= supply(c)) by {
        assert(s.tiles_of(c) == supply(c));
        lemma_board_tiles_nonnegative(s.board_states[0], c);
        lemma_board_tiles_nonnegative(s.board_states[1], c);
        lemma_board_tiles_nonnegative(s.board_states[2], c);
    }
    assert forall|d: int| 0 <= d < 8 implies (#[trigger] a[d])[c] <= pool by {
        lemma_one_of_eight(a, d, c);
    }
    assert forall|d: int, e: int| 0 <= d < e < 8 implies (#[trigger] a[d])[c] + (#[trigger] a[e])[c]
        <= pool by {
        lemma_two_of_eight(a, d, e, c);
    }
    assert forall|p: int| 0 <= p < 3 implies (#[trigger] s.board_states[p]).floor_tiles[c]
        <= floors by {}
}

/// The tiles of one colour on one display are among those on all displays.
proof fn lemma_one_of_eight(a: [[u8; 6]; 8], d: int, c: int)
    requires
        0 <= d < 8,
        0 <= c < 6,
    ensures
        a[d][c] <= a[0][c] + a[1][c] + a[2][c] + a[3][c] + a[4][c] + a[5][c] + a[6][c] + a[7][c],
{
}

/// The tiles of one colour on two displays are among those on all displays.
proof fn lemma_two_of_eight(a: [[u8; 6]; 8], d: int, e: int, c: int)
    requires
        0 <= d < e < 8,
        0 <= c < 6,
    ensures
        a[d][c] + a[e][c] <= a[0][c] + a[1][c] + a[2][c] + a[3][c] + a[4][c] + a[5][c] + a[6][c]
            + a[7][c],
{
}

/// A board holds at least the tiles on its floor line.
pub proof fn lemma_board_tiles_nonnegative(b: PlayerState, c: int)
    requires
        0 <= c < 6,
    ensures
        b.floor_tiles[c] <= b.tiles_of(c),
{
}

/// The draft leaves every pattern line of the mover within its capacity and
/// holding one colour that its wall row still lacks; what the line cannot
/// hold lies on the floor line.
pub proof fn lemma_draft_capacity(s: State, action: Action)
    requires
        s.well_formed(),
        s.legal(action),
    ensures
        s.drafted_board(action).lines_ok(),
        0 <= s.overflow(action) <= s.taken(action),
        1 <= s.taken(action) <= 20,
        action.row_id < 5 ==> s.drafted_board(action).rows[action.row_id as int].count
            + s.overflow(action) == s.mover().rows[action.row_id as int].count + s.taken(action),
        s.drafted_board(action).floor_tiles[action.color as int] == s.mover().floor_tiles[action.color as int]
            + s.overflow(action),
        s.drafted_board(action).wall_state == s.mover().wall_state,
        s.drafted_board(action).score == s.mover().score,
        !s.drafted_board(action).is_bare(),
{
    let b = s.mover();
    let t = s.drafted_board(action);
    lemma_cell_bounds(s, action.color as int);
    assert(b.floor_tiles[action.color as int] + s.taken(action) <= 20);
    assert forall|r: int| 0 <= r < 5 implies {
        let line = #[trigger] t.rows[r];
        &&& line.color < 5
        &&& line.count <= r + 1
        &&& line.count > 0 ==> !t.wall_has(r, line.color as int)
    } by {}
    if action.row_id < 5 {
        assert(t.rows[action.row_id as int].count > 0);
    } else {
        assert(t.floor_tiles[action.color as int] > 0);
    }
}

/// The draft keeps the tiles of the drafted colour: what leaves the pool
/// lies on the mover's board.
proof fn lemma_draft_keeps_color(s: State, action: Action)
    requires
        s.well_formed(),
        s.legal(action),
    ensures
        s.after_draft(action).central_state.tiles_of(action.color as int) + s.taken(action)
            == s.central_state.tiles_of(action.color as int),
        s.drafted_board(action).tiles_of(action.color as int) == s.mover().tiles_of(
            action.color as int,
        ) + s.taken(action),
{
    let c = action.color as int;
    lemma_cell_bounds(s, c);
    lemma_draft_capacity(s, action);
    let t = s.drafted_board(action);
    let b = s.mover();
    assert(t.line_tiles_of(c) + s.overflow(action) == b.line_tiles_of(c) + s.taken(action));
}

/// The draft keeps the tiles of every colour that is not drafted: they only
/// move from a factory display to the centre.
proof fn lemma_draft_keeps_others(s: State, action: Action, c: int)
    requires
        s.well_formed(),
        s.legal(action),
        0 <= c < 5,
        c != action.color,
    ensures
        s.after_draft(action).central_state.tiles_of(c) == s.central_state.tiles_of(c),
        s.drafted_board(action).tiles_of(c) == s.mover().tiles_of(c),
{
    lemma_cell_bounds(s, c);
    lemma_draft_capacity(s, action);
    let t = s.drafted_board(action);
    let b = s.mover();
    assert(t.line_tiles_of(c) == b.line_tiles_of(c));
}

/// The draft keeps the marker: it lies in the centre or on one floor line.
proof fn lemma_draft_keeps_marker(s: State, action: Action)
    requires
        s.well_formed(),
        s.legal(action),
    ensures
        s.after_draft(action).central_state.tiles_of(5) + s.drafted_board(action).tiles_of(5)
            == s.central_state.tiles_of(5) + s.mover().tiles_of(5),
        forall|d: int|
            0 <= d < 7 ==> (#[trigger] s.after_draft(action).central_state.central_state_arr[d])[5]
                == 0,
{
    lemma_cell_bounds(s, 5);
    lemma_board_tiles_nonnegative(s.board_states[0], 5);
    lemma_board_tiles_nonnegative(s.board_states[1], 5);
    lemma_board_tiles_nonnegative(s.board_states[2], 5);
}

/// The draft leaves a position that obeys every invariant; in particular no
/// tile is gained or lost.
pub proof fn lemma_after_draft_well_formed(s: State, action: Action)
    requires
        s.well_formed(),
        s.legal(action),
    ensures
        s.after_draft(action).well_formed(),
        !s.after_draft(action).is_finished,
        !s.after_draft(action).round_start(),
{
    let t = s.after_draft(action);
    let p = s.player_to_play as int;
    lemma_draft_capacity(s, action);
    assert(!s.central_state.is_empty());
    assert(t.board_states[p] == s.drafted_board(action));
    assert(!t.round_start());
    assert forall|q: int| 0 <= q < 3 implies (#[trigger] t.board_states[q]).lines_ok()
        && t.board_states[q].score_ok(0) by {
        assert(s.board_states[q].lines_ok());
        assert(s.board_states[q].score_ok(0));
        if q == p {
            assert(t.board_states[q].wall_count() == s.board_states[q].wall_count());
        }
    }
    assert forall|c: int| 0 <= c < 6 implies #[trigger] t.tiles_of(c) == supply(c) by {
        assert(s.tiles_of(c) == supply(c));
        if c == action.color {
            lemma_draft_keeps_color(s, action);
        } else if c < 5 {
            lemma_draft_keeps_others(s, action, c);
        } else {
            lemma_draft_keeps_marker(s, action);
        }
    }
    lemma_draft_keeps_marker(s, action);
}

/// Adding the bonuses changes the scores and nothing else on the boards.
pub proof fn lemma_with_bonus_tiles(b: PlayerState, c: int)
    requires
        0 <= c < 6,
    ensures
        b.with_bonus().tiles_of(c) == b.tiles_of(c),
        b.with_bonus().wall_count() == b.wall_count(),
        b.lines_ok() ==> b.with_bonus().lines_ok(),
{
}

/// The end-of-game bonus of a wall is at most ninety-five points.
pub proof fn lemma_bonus_bounds(b: PlayerState)
    ensures
        0 <= b.bonus() <= 95,
{
    reveal_with_fuel(PlayerState::bonus_below, 6);
}

/// Settling a round that has emptied the pool leaves a position that obeys
/// every invariant; in particular no tile is gained or lost.
pub proof fn lemma_settled_well_formed(s: State)
    requires
        s.well_formed(),
        s.central_state.is_empty(),
        !s.is_finished,
    ensures
        s.settled().well_formed(),
{
    lemma_after_round_well_formed(s);
    let r = s.after_round();
    if r.game_over() {
        let f = r.with_finished(true);
        let t = f.with_bonuses();
        assert forall|p: int| 0 <= p < 3 implies (#[trigger] t.board_states[p]).lines_ok()
            && t.board_states[p].score_ok(95) by {
            lemma_with_bonus_tiles(r.board_states[p], 0);
            lemma_bonus_bounds(r.board_states[p]);
            lemma_wall_count_bound(r.board_states[p]);
        }
        assert forall|c: int| 0 <= c < 6 implies #[trigger] t.tiles_of(c) == supply(c) by {
            assert(r.tiles_of(c) == supply(c));
            lemma_with_bonus_tiles(r.board_states[0], c);
            lemma_with_bonus_tiles(r.board_states[1], c);
            lemma_with_bonus_tiles(r.board_states[2], c);
        }
        if t.round_start() {
            assert forall|p: int| 0 <= p < 3 implies (#[trigger] r.board_states[p]).is_bare() by {
                assert(t.board_states[p].rows == r.board_states[p].rows);
                assert(t.board_states[p].floor_tiles == r.board_states[p].floor_tiles);
            }
        }
    } else {
        let t = r.with_finished(false);
        assert forall|c: int| 0 <= c < 6 implies #[trigger] t.tiles_of(c) == supply(c) by {}
    }
}

/// Playing a legal move leaves a position that obeys every invariant; in
/// particular no tile is gained or lost, and no pattern line holds more
/// than its capacity.
pub proof fn lemma_after_step_well_formed(s: State, action: Action)
    requires
        s.well_formed(),
        s.legal(action),
    ensures
        s.after_step(action).well_formed(),
{
    lemma_after_draft_well_formed(s, action);
    if s.after_draft(action).central_state.is_empty() {
        lemma_settled_well_formed(s.after_draft(action));
    }
}

/// Moves the tiles of every colour but `color` from factory display
/// `display_number` to the centre.
fn clear_display(pool: &mut [[u8; 6]; 8], display_number: usize, color: usize)
    requires
        display_number < 7,
        color < 5,
        forall|c: int|
            0 <= c < 6 ==> (#[trigger] old(pool)[7][c]) + old(pool)[display_number as int][c]
                <= u8::MAX,
    ensures
        forall|d: int, c: int|
            0 <= d < 8 && 0 <= c < 6 ==> (#[trigger] final(pool)[d][c]) == if c != color && d
                == display_number {
                0
            } else if c != color && d == 7 {
                old(pool)[7][c] + old(pool)[display_number as int][c]
            } else {
                old(pool)[d][c] as int
            },
{
    let ghost before = *pool;
    let mut other: usize = 0;
    while other < 6
        invariant
            other <= 6,
            display_number < 7,
            color < 5,
            forall|c: int|
                0 <= c < 6 ==> (#[trigger] before[7][c]) + before[display_number as int][c]
                    <= u8::MAX,
            forall|d: int, c: int|
                0 <= d < 8 && 0 <= c < 6 ==> (#[trigger] pool[d][c]) == if c < other && c != color
                    && d == display_number {
                    0
                } else if c < other && c != color && d == 7 {
                    before[7][c] + before[display_number as int][c]
                } else {
                    before[d][c] as int
                },
        decreases 6 - other,
    {
        if other != color {
            let moved: u8 = pool[display_number][other];
            pool[7][other] += moved;
            pool[display_number][other] = 0;
        }
        other += 1;
    }
}

/// Puts `num_tiles` tiles of `color` on pattern line `row_id`, or on the
/// floor line; what the pattern line cannot hold goes to the floor line.
fn place_tiles(board: &mut PlayerState, row_id: u8, color: u8, num_tiles: u8)
    requires
        row_id <= 5,
        color < 5,
        row_id < 5 ==> old(board).rows[row_id as int].count <= row_id + 1,
        old(board).floor_tiles[color as int] + num_tiles <= u8::MAX,
    ensures
        final(board).wall_state == old(board).wall_state,
        final(board).score == old(board).score,
        forall|r: int|
            0 <= r < 5 ==> (#[trigger] final(board).rows[r]) == if r == row_id {
                Row {
                    color,
                    count: if old(board).rows[r].count + num_tiles > r + 1 {
                        (r + 1) as u8
                    } else {
                        (old(board).rows[r].count + num_tiles) as u8
                    },
                }
            } else {
                old(board).rows[r]
            },
        forall|c: int|
            0 <= c < 6 ==> (#[trigger] final(board).floor_tiles[c]) == if c != color {
                old(board).floor_tiles[c] as int
            } else if row_id == 5 {
                old(board).floor_tiles[c] + num_tiles
            } else if old(board).rows[row_id as int].count + num_tiles > row_id + 1 {
                old(board).floor_tiles[c] + old(board).rows[row_id as int].count + num_tiles - (
                row_id + 1)
            } else {
                old(board).floor_tiles[c] as int
            },
{
    if row_id < 5 {
        let held: u8 = board.rows[row_id as usize].count;
        let row_max: u8 = row_id + 1;
        let room: u8 = row_max - held;
        // Move overflow tiles to the floor.
        if num_tiles > room {
            board.rows[row_id as usize].count = row_max;
            board.floor_tiles[color as usize] += num_tiles - room;
        } else {
            board.rows[row_id as usize].count = held + num_tiles;
        }
        board.rows[row_id as usize].color = color;
    } else {
        board.floor_tiles[color as usize] += num_tiles;
    }
}

/// A pool and a board that hold, place by place, what the draft leaves are
/// the pool and the mover's board of the drafted position.
proof fn lemma_draft_matches(s: State, action: Action, pool: [[u8; 6]; 8], board: PlayerState)
    requires
        s.well_formed(),
        s.legal(action),
        forall|d: int, c: int|
            0 <= d < 8 && 0 <= c < 6 ==> (#[trigger] pool[d][c]) == s.drafted_pool_cell(action, d, c),
        board.wall_state == s.mover().wall_state,
        board.score == s.mover().score,
        forall|r: int| 0 <= r < 5 ==> (#[trigger] board.rows[r]) == s.drafted_line(action, r),
        forall|c: int| 0 <= c < 6 ==> (#[trigger] board.floor_tiles[c]) == s.drafted_floor(action, c),
    ensures
        pool == s.after_draft(action).central_state.central_state_arr,
        board == s.drafted_board(action),
{
    lemma_pool_ext(pool, s.after_draft(action).central_state.central_state_arr);
    lemma_board_ext(board, s.drafted_board(action));
}

/// Moves the first-player marker: on the first move of a round it goes from
/// the mover's floor line to the centre, and a player who draws from a
/// display that holds it receives it.
fn move_marker(
    pool: &mut [[u8; 6]; 8],
    floor_tiles: &mut [u8; 6],
    first: bool,
    display_number: usize,
)
    requires
        display_number < 8,
    ensures
        forall|d: int, c: int|
            0 <= d < 8 && 0 <= c < 6 ==> (#[trigger] final(pool)[d][c]) == if c != 5 {
                old(pool)[d][c]
            } else if d == display_number {
                0
            } else if d == 7 && first {
                1
            } else {
                old(pool)[d][c]
            },
        forall|c: int|
            0 <= c < 6 ==> (#[trigger] final(floor_tiles)[c]) == if c != 5 {
                old(floor_tiles)[c]
            } else if (display_number == 7 && first) || old(pool)[display_number as int][5] > 0 {
                1
            } else if first {
                0
            } else {
                old(floor_tiles)[c]
            },
{
    if first {
        // Move the first player token to the centre.
        floor_tiles[MARKER as usize] = 0;
        pool[NUM_FACTORY_DISPLAYS as usize][MARKER as usize] = 1;
    }
    if pool[display_number][MARKER as usize] > 0 {
        // The token is in the centre: give it to the player who draws there.
        floor_tiles[MARKER as usize] = 1;
        pool[display_number][MARKER as usize] = 0;
    }
}

/// Drafts the tiles of `action`: a factory's other tiles go to the centre,
/// the marker moves on the first move of a round and with the first draw
/// from the centre, the chosen tiles go to the pattern line or the floor
/// line, and what the line cannot hold goes to the floor line.
pub fn take_tiles(state: &mut State, action: Action)
    requires
        old(state).well_formed(),
        old(state).legal(action),
    ensures
        *final(state) == old(state).after_draft(action),
{
    let ghost before = *state;
    let display_number: usize = action.display_number as usize;
    let color: usize = action.color as usize;
    let player: usize = state.player_to_play as usize;
    let mut pool: [[u8; 6]; 8] = state.central_state.central_state_arr;
    let mut board: PlayerState = state.board_states[player];
    let num_tiles: u8 = pool[display_number][color];
    let first: bool = is_first_move(state);
    proof {
        lemma_draft_capacity(before, action);
        lemma_cell_bounds(before, color as int);
        lemma_cell_bounds(before, 5);
        assert(board.lines_ok());
        assert(board.floor_tiles[color as int] + num_tiles <= 20);
    }
    if display_number < NUM_FACTORY_DISPLAYS as usize {
        proof {
            assert forall|c: int| 0 <= c < 6 implies (#[trigger] pool[7][c])
                + pool[display_number as int][c] <= u8::MAX by {
                lemma_cell_bounds(before, c);
            }
        }
        clear_display(&mut pool, display_number, color);
    }
    let mut floor_tiles: [u8; 6] = board.floor_tiles;
    move_marker(&mut pool, &mut floor_tiles, first, display_number);
    board.floor_tiles = floor_tiles;
    // Give the player the requested tiles.
    place_tiles(&mut board, action.row_id, action.color, num_tiles);
    pool[display_number][color] = 0;
    proof {
        assert forall|d: int, c: int| 0 <= d < 8 && 0 <= c < 6 implies (#[trigger] pool[d][c])
            == before.drafted_pool_cell(action, d, c) by {
            lemma_cell_bounds(before, c);
        }
        assert forall|c: int| 0 <= c < 6 implies (#[trigger] board.floor_tiles[c])
            == before.drafted_floor(action, c) by {
            lemma_cell_bounds(before, c);
        }
        lemma_draft_matches(before, action, pool, board);
    }
    state.central_state.central_state_arr = pool;
    state.board_states[player] = board;
    state.player_to_play = (state.player_to_play + 1) % 3;
    state.player_scores = [0, 0, 0];
    proof {
        lemma_state_ext(*state, before.after_draft(action));
    }
}

/// Plays an action and returns the new position, together with whether the
/// move has emptied the pool and so ended the round.
///
/// When the round ends it is resolved on every board; when that ends the
/// game, the bonuses are added and the win is shared out. The factory
/// displays are not refilled. With `do_check_counts` the tiles are counted
/// before and after the move; the result does not depend on it.
pub fn step(state: State, action: Action, do_check_counts: bool) -> (result: (State, bool))
    requires
        state.well_formed(),
        state.legal(action),
    ensures
        result.0 == state.after_step(action),
        result.1 == state.after_draft(action).central_state.is_empty(),
        result.0.well_formed(),
{
    let mut state = state;
    let ghost before = state;
    if do_check_counts {
        let counted: bool = check_counts(&state);
        assert(counted);
    }
    take_tiles(&mut state, action);
    proof {
        lemma_after_draft_well_formed(before, action);
        lemma_after_step_well_formed(before, action);
    }
    let empty_centre: bool = has_empty_centre(&state);
    if empty_centre {
        score_and_reset(&mut state);
        let finished: bool = is_finished(&state);
        state.is_finished = finished;
        if finished {
            proof {
                assert forall|p: int| 0 <= p < 3 implies (#[trigger] state.board_states[p]).score + 95
                    <= i32::MAX by {
                    lemma_wall_count_bound(state.board_states[p]);
                }
            }
            score_bonuses(&mut state);
        }
    }
    if do_check_counts {
        let counted: bool = check_counts(&state);
        assert(counted);
    }
    (state, empty_centre)
}

} // verus!
