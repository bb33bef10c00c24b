//! Which moves a position allows, and the tests that the rules make of a
//! position: whether the pool is empty, whether a round is about to open,
//! whether every tile is accounted for.

use vstd::prelude::*;
use crate::game_state::{
    Action, CentralState, PlayerState, State, FLOOR_LINE, NUM_TILES, tile, wall_col, supply,
};

verus! {

/// The `index`-th action in the order in which moves are listed: by display,
/// then by colour, then by destination, the floor line last.
pub open spec fn action_at(index: int) -> Action {
    Action {
        display_number: (index / 30) as u8,
        color: ((index / 6) % 5) as u8,
        row_id: (index % 6) as u8,
    }
}

impl Action {
    /// The place of this action in the order of [`action_at`].
    pub open spec fn index(self) -> int {
        30 * self.display_number + 6 * self.color + self.row_id
    }
}

impl State {
    /// Whether the player to move may play `action`: the display holds a tile
    /// of the colour, and the destination is the floor line or a pattern line
    /// that accepts the colour.
    pub open spec fn legal(self, action: Action) -> bool {
        &&& action.display_number < 8
        &&& action.color < 5
        &&& action.row_id <= 5
        &&& self.central_state.central_state_arr[action.display_number as int][action.color as int]
            > 0
        &&& action.row_id < 5 ==> self.mover().accepts(action.row_id as int, action.color as int)
    }

    /// The legal actions among the first `n` of the listing, in its order.
    pub open spec fn actions_below(self, n: int) -> Seq<Action>
        decreases n,
    {
        if n <= 0 {
            Seq::empty()
        } else if self.legal(action_at(n - 1)) {
            self.actions_below(n - 1).push(action_at(n - 1))
        } else {
            self.actions_below(n - 1)
        }
    }

    /// All legal actions, in the order of the listing.
    pub open spec fn valid_actions(self) -> Seq<Action> {
        self.actions_below(240)
    }

    /// Whether the game is over: no move is left, and some wall row is
    /// complete or bag and lid are both empty.
    pub open spec fn game_over(self) -> bool {
        &&& self.valid_actions().len() == 0
        &&& self.board_states[0].has_full_row() || self.board_states[1].has_full_row()
            || self.board_states[2].has_full_row() || self.bag_count() + self.lid_count() == 0
    }
}

/// An action is the one listed at its own index.
pub proof fn lemma_action_index(action: Action)
    requires
        action.display_number < 8,
        action.color < 5,
        action.row_id <= 5,
    ensures
        0 <= action.index() < 240,
        action_at(action.index()) == action,
{
}

/// The listing up to `n` holds exactly the legal actions with an index below `n`.
pub proof fn lemma_actions_below(s: State, n: int, action: Action)
    requires
        0 <= n <= 240,
    ensures
        s.actions_below(n).contains(action) <==> s.legal(action) && action.index() < n,
    decreases n,
{
    if n > 0 {
        lemma_actions_below(s, n - 1, action);
        let last = action_at(n - 1);
        let rest = s.actions_below(n - 1);
        if s.legal(last) {
            lemma_action_index(last);
            assert forall|i: int| 0 <= i < rest.len() implies rest.push(last)[i] == rest[i] by {}
            if action == last {
                assert(rest.push(last)[rest.len() as int] == action);
            }
        }
        if s.legal(action) {
            lemma_action_index(action);
        }
    }
}

impl PlayerState {
    /// Whether pattern line `row_id` may receive tiles of `color`.
    pub fn can_take(&self, row_id: usize, color: usize) -> (yes: bool)
        requires
            row_id < 5,
            color < 5,
        ensures
            yes == self.accepts(row_id as int, color as int),
    {
        let line = self.rows[row_id];
        if line.count > 0 {
            line.color as usize == color && (line.count as usize) < row_id + 1
        } else {
            !self.wall_state[row_id][(row_id + color) % 5]
        }
    }
}

/// Gets the actions that can be played in the given state, in the order of
/// the listing: by display, then by colour, then by destination.
pub fn get_valid_actions(state: &State) -> (valid_actions: Vec<Action>)
    requires
        state.player_to_play < 3,
    ensures
        valid_actions@ == state.valid_actions(),
{
    let mut valid_actions: Vec<Action> = Vec::new();
    let board: &PlayerState = &state.board_states[state.player_to_play as usize];
    let mut display_number: usize = 0;
    while display_number < 8
        invariant
            display_number <= 8,
            state.player_to_play < 3,
            *board == state.mover(),
            valid_actions@ == state.actions_below(30 * display_number),
        decreases 8 - display_number,
    {
        let mut color: usize = 0;
        while color < 5
            invariant
                display_number < 8,
                color <= 5,
                state.player_to_play < 3,
                *board == state.mover(),
                valid_actions@ == state.actions_below(30 * display_number + 6 * color),
            decreases 5 - color,
        {
            let ghost base: int = 30 * display_number + 6 * color;
            if state.central_state.central_state_arr[display_number][color] == 0 {
                proof {
                    lemma_nothing_to_take(*state, display_number as int, color as int);
                }
            } else {
                let mut row_id: usize = 0;
                while row_id < 6
                    invariant
                        display_number < 8,
                        color < 5,
                        row_id <= 6,
                        state.player_to_play < 3,
                        *board == state.mover(),
                        base == 30 * display_number + 6 * color,
                        state.central_state.central_state_arr[display_number as int][color as int]
                            > 0,
                        valid_actions@ == state.actions_below(base + row_id),
                    decreases 6 - row_id,
                {
                    let allowed: bool = row_id == 5 || board.can_take(row_id, color);
                    let action = Action {
                        display_number: display_number as u8,
                        color: color as u8,
                        row_id: row_id as u8,
                    };
                    proof {
                        lemma_action_index(action);
                    }
                    if allowed {
                        valid_actions.push(action);
                    }
                    row_id += 1;
                }
            }
            color += 1;
        }
        display_number += 1;
    }
    valid_actions
}

/// Where a display holds no tile of a colour, the listing gains nothing
/// over the six destinations of that display and colour.
proof fn lemma_nothing_to_take(s: State, display: int, color: int)
    requires
        0 <= display < 8,
        0 <= color < 5,
        s.central_state.central_state_arr[display][color] == 0,
    ensures
        s.actions_below(30 * display + 6 * color + 6) == s.actions_below(30 * display + 6 * color),
{
    let base = 30 * display + 6 * color;
    assert forall|j: int| 0 <= j < 6 implies !s.legal(#[trigger] action_at(base + j)) by {
        let a = Action { display_number: display as u8, color: color as u8, row_id: j as u8 };
        lemma_action_index(a);
    }
    assert(!s.legal(action_at(base + 0)));
    assert(!s.legal(action_at(base + 1)));
    assert(!s.legal(action_at(base + 2)));
    assert(!s.legal(action_at(base + 3)));
    assert(!s.legal(action_at(base + 4)));
    assert(!s.legal(action_at(base + 5)));
    reveal_with_fuel(State::actions_below, 7);
}

/// Check that the action is valid.
pub fn is_valid_action(state: &State, action: Action) -> (valid: bool)
    requires
        state.player_to_play < 3,
    ensures
        valid == state.legal(action),
        valid == state.valid_actions().contains(action),
{
    proof {
        lemma_actions_below(*state, 240, action);
        if state.legal(action) {
            lemma_action_index(action);
        }
    }
    if action.display_number >= 8 || action.color >= 5 || action.row_id > 5 {
        return false;
    }
    if state.central_state.central_state_arr[action.display_number as usize][action.color as usize]
        == 0 {
        return false;
    }
    if action.row_id == FLOOR_LINE {
        return true;
    }
    state.board_states[state.player_to_play as usize].can_take(
        action.row_id as usize,
        action.color as usize,
    )
}

/// Whether nothing lies on any display or in the centre.
pub fn has_empty_centre(state: &State) -> (empty: bool)
    ensures
        empty == state.central_state.is_empty(),
{
    let mut i: usize = 0;
    while i < 8
        invariant
            i <= 8,
            forall|d: int, c: int|
                0 <= d < i && 0 <= c < 6 ==> (#[trigger] state.central_state.central_state_arr[d][c])
                    == 0,
        decreases 8 - i,
    {
        let mut j: usize = 0;
        while j < 6
            invariant
                i < 8,
                j <= 6,
                forall|d: int, c: int|
                    0 <= d < i && 0 <= c < 6 ==> (
                    #[trigger] state.central_state.central_state_arr[d][c]) == 0,
                forall|c: int|
                    0 <= c < j ==> (#[trigger] state.central_state.central_state_arr[i as int][c])
                        == 0,
            decreases 6 - j,
        {
            if state.central_state.central_state_arr[i][j] > 0 {
                return false;
            }
            j += 1;
        }
        i += 1;
    }
    true
}

/// Whether a round is about to open: no pattern line holds a tile and no
/// coloured tile lies on any floor line.
pub fn is_first_move(state: &State) -> (first: bool)
    ensures
        first == state.round_start(),
{
    let mut p: usize = 0;
    while p < 3
        invariant
            p <= 3,
            forall|q: int| 0 <= q < p ==> (#[trigger] state.board_states[q]).is_bare(),
        decreases 3 - p,
    {
        let board: &PlayerState = &state.board_states[p];
        let mut r: usize = 0;
        while r < 5
            invariant
                p < 3,
                r <= 5,
                *board == state.board_states[p as int],
                forall|k: int| 0 <= k < r ==> (#[trigger] board.rows[k]).count == 0,
            decreases 5 - r,
        {
            if board.rows[r].count > 0 {
                return false;
            }
            r += 1;
        }
        let mut i: usize = 0;
        while i < 5
            invariant
                p < 3,
                i <= 5,
                *board == state.board_states[p as int],
                forall|k: int| 0 <= k < 5 ==> (#[trigger] board.rows[k]).count == 0,
                forall|c: int| 0 <= c < i ==> #[trigger] board.floor_tiles[c] == 0,
            decreases 5 - i,
        {
            if board.floor_tiles[i] > 0 {
                return false;
            }
            i += 1;
        }
        p += 1;
    }
    true
}

impl PlayerState {
    /// Counts the tiles of `color` on this board.
    pub fn count_tiles(&self, color: usize) -> (n: u32)
        requires
            color < 6,
        ensures
            n == self.tiles_of(color as int),
            n <= 1535,
    {
        let mut n: u32 = self.floor_tiles[color] as u32;
        if color < 5 {
            let mut row_id: usize = 0;
            while row_id < 5
                invariant
                    color < 5,
                    row_id <= 5,
                    n <= 255 + 256 * row_id,
                    n == self.floor_tiles[color as int] + self.tiles_below(row_id as int, color as int),
                decreases 5 - row_id,
            {
                let line = self.rows[row_id];
                if line.color as usize == color {
                    n += line.count as u32;
                }
                if self.wall_state[row_id][(row_id + color) % 5] {
                    n += 1;
                }
                row_id += 1;
            }
            proof {
                reveal_with_fuel(PlayerState::tiles_below, 6);
            }
        }
        n
    }

    /// Tiles of `color` on the pattern lines and wall rows `0..n`.
    pub open spec fn tiles_below(self, n: int, color: int) -> int
        decreases n,
    {
        if n <= 0 {
            0
        } else {
            self.tiles_below(n - 1, color) + self.rows[n - 1].tiles_of(color) + tile(
                self.wall_has(n - 1, color),
            )
        }
    }
}

impl CentralState {
    /// Counts the tiles of `color` over all displays and the centre.
    pub fn count_tiles(&self, color: usize) -> (n: u32)
        requires
            color < 6,
        ensures
            n == self.tiles_of(color as int),
            n <= 2040,
    {
        let a = &self.central_state_arr;
        a[0][color] as u32 + a[1][color] as u32 + a[2][color] as u32 + a[3][color] as u32
            + a[4][color] as u32 + a[5][color] as u32 + a[6][color] as u32 + a[7][color] as u32
    }
}

impl State {
    /// Counts the tiles of `color` in the whole position.
    pub fn count_tiles(&self, color: usize) -> (n: u32)
        requires
            color < 6,
        ensures
            n == self.tiles_of(color as int),
    {
        let reserve: u32 = if color < 5 {
            self.bag[color] as u32 + self.lid[color] as u32
        } else {
            0
        };
        let in_pool: u32 = self.central_state.count_tiles(color);
        let first: u32 = self.board_states[0].count_tiles(color);
        let second: u32 = self.board_states[1].count_tiles(color);
        let third: u32 = self.board_states[2].count_tiles(color);
        reserve + in_pool + first + second + third
    }
}

/// Checks that no tiles have been gained or lost.
pub fn check_counts(state: &State) -> (ok: bool)
    ensures
        ok == state.conserved(),
{
    let mut color: usize = 0;
    while color < 6
        invariant
            color <= 6,
            forall|c: int| 0 <= c < color ==> #[trigger] state.tiles_of(c) == supply(c),
        decreases 6 - color,
    {
        let expected: u32 = if color < 5 {
            NUM_TILES as u32
        } else {
            1
        };
        if state.count_tiles(color) != expected {
            return false;
        }
        color += 1;
    }
    true
}

impl PlayerState {
    /// Counts the filled wall cells.
    pub fn count_wall(&self) -> (n: u32)
        ensures
            n == self.wall_count(),
            n <= 25,
    {
        let mut n: u32 = 0;
        let mut color: usize = 0;
        while color < 5
            invariant
                color <= 5,
                n <= 5 * color,
                n == self.wall_below(color as int),
            decreases 5 - color,
        {
            let w = &self.wall_state;
            if w[0][color % 5] {
                n += 1;
            }
            if w[1][(1 + color) % 5] {
                n += 1;
            }
            if w[2][(2 + color) % 5] {
                n += 1;
            }
            if w[3][(3 + color) % 5] {
                n += 1;
            }
            if w[4][(4 + color) % 5] {
                n += 1;
            }
            color += 1;
        }
        proof {
            reveal_with_fuel(PlayerState::wall_below, 6);
        }
        n
    }

    /// Wall tiles of the colours `0..n`.
    pub open spec fn wall_below(self, n: int) -> int
        decreases n,
    {
        if n <= 0 {
            0
        } else {
            self.wall_below(n - 1) + self.wall_tiles_of(n - 1)
        }
    }

    /// Whether every pattern line holds a real colour, stays within its
    /// capacity, and holds no colour that its wall row already has.
    pub fn check_lines(&self) -> (ok: bool)
        ensures
            ok == self.lines_ok(),
    {
        let mut r: usize = 0;
        while r < 5
            invariant
                r <= 5,
                forall|k: int|
                    0 <= k < r ==> {
                        let line = #[trigger] self.rows[k];
                        &&& line.color < 5
                        &&& line.count <= k + 1
                        &&& line.count > 0 ==> !self.wall_has(k, line.color as int)
                    },
            decreases 5 - r,
        {
            let line = self.rows[r];
            if line.color >= 5 || line.count as usize > r + 1 {
                assert(!self.lines_ok());
                return false;
            }
            if line.count > 0 && self.wall_state[r][(r + line.color as usize) % 5] {
                assert(!self.lines_ok());
                return false;
            }
            r += 1;
        }
        true
    }
}

impl State {
    /// Whether the position obeys every invariant of a position that play
    /// can reach.
    pub fn is_well_formed(&self) -> (ok: bool)
        ensures
            ok == self.well_formed(),
    {
        if self.player_to_play >= 3 {
            return false;
        }
        if !check_counts(self) {
            return false;
        }
        let bonus: i32 = if self.is_finished {
            95
        } else {
            0
        };
        let mut p: usize = 0;
        while p < 3
            invariant
                p <= 3,
                bonus == if self.is_finished {
                    95int
                } else {
                    0int
                },
                forall|q: int| 0 <= q < p ==> (#[trigger] self.board_states[q]).lines_ok(),
                forall|q: int| 0 <= q < p ==> (#[trigger] self.board_states[q]).score_ok(bonus as int),
            decreases 3 - p,
        {
            let board: &PlayerState = &self.board_states[p];
            if !board.check_lines() {
                return false;
            }
            let cap: i32 = 10 * (board.count_wall() as i32) + bonus;
            if board.score < 0 || board.score > cap {
                return false;
            }
            p += 1;
        }
        let mut d: usize = 0;
        while d < 7
            invariant
                d <= 7,
                forall|e: int| 0 <= e < d ==> (#[trigger] self.central_state.central_state_arr[e])[5] == 0,
            decreases 7 - d,
        {
            if self.central_state.central_state_arr[d][5] != 0 {
                return false;
            }
            d += 1;
        }
        if is_first_move(self) && self.board_states[self.player_to_play as usize].floor_tiles[5]
            != 1 {
            return false;
        }
        if self.is_finished {
            if !has_empty_centre(self) {
                return false;
            }
        } else {
            if self.player_scores[0] != 0 || self.player_scores[1] != 0 || self.player_scores[2]
                != 0 {
                return false;
            }
        }
        true
    }
}

} // verus!
