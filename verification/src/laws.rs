//! What holds of every position that play can reach, and of every move.

use vstd::prelude::*;
use crate::actions::{lemma_action_index, lemma_actions_below};
use crate::arrays::group_built_arrays;
use crate::game_state::{Action, State, supply};
use crate::play::{
    lemma_after_draft_well_formed, lemma_after_step_well_formed, lemma_cell_bounds,
    lemma_draft_capacity,
};
use crate::round::{lemma_board_discards, lemma_wall_count_bound};
use crate::scoring::{lemma_swept, lemma_tiled};

verus! {

broadcast use group_built_arrays;

/// Conservation: after a legal move the position holds, of every colour,
/// the whole supply: twenty tiles of each real colour and the one marker,
/// counted over bag, lid, walls, pattern lines, floor lines and pool.
pub proof fn lemma_step_conserves(s: State, action: Action, color: int)
    requires
        s.well_formed(),
        s.legal(action),
        0 <= color < 6,
    ensures
        s.after_step(action).tiles_of(color) == supply(color),
        s.after_step(action).tiles_of(color) == s.tiles_of(color),
{
    lemma_after_step_well_formed(s, action);
}

/// Legality: the listing of valid actions holds an action exactly when the
/// action is legal, which is what a move asks of its action.
pub proof fn lemma_valid_actions_are_the_legal_ones(s: State, action: Action)
    ensures
        s.valid_actions().contains(action) <==> s.legal(action),
{
    lemma_actions_below(s, 240, action);
    if s.legal(action) {
        lemma_action_index(action);
    }
}

/// Capacity: after a legal move no pattern line of any board holds more
/// tiles than its position plus one.
pub proof fn lemma_step_capacity(s: State, action: Action, player: int, row: int)
    requires
        s.well_formed(),
        s.legal(action),
        0 <= player < 3,
        0 <= row < 5,
    ensures
        s.after_step(action).board_states[player].rows[row].count <= row + 1,
{
    lemma_after_step_well_formed(s, action);
}

/// Capacity: of the tiles taken, the pattern line keeps what it has room
/// for, and the excess lies on the mover's floor line.
pub proof fn lemma_excess_on_floor(s: State, action: Action)
    requires
        s.well_formed(),
        s.legal(action),
        action.row_id < 5,
    ensures
        ({
            let before = s.mover();
            let after = s.after_draft(action).board_states[s.player_to_play as int];
            let row = action.row_id as int;
            let color = action.color as int;
            let room = row + 1 - before.rows[row].count;
            &&& after.rows[row].color == action.color
            &&& s.taken(action) <= room ==> after.rows[row].count == before.rows[row].count
                + s.taken(action) && after.floor_tiles[color] == before.floor_tiles[color]
            &&& s.taken(action) > room ==> after.rows[row].count == row + 1
                && after.floor_tiles[color] == before.floor_tiles[color] + s.taken(action) - room
        }),
{
    lemma_draft_capacity(s, action);
}

/// Marker flow: on the first move of a round, taken from a factory display,
/// the marker leaves the mover's floor line and lies in the centre.
pub proof fn lemma_marker_goes_to_centre(s: State, action: Action)
    requires
        s.well_formed(),
        s.legal(action),
        s.round_start(),
        action.display_number < 7,
    ensures
        s.mover().floor_tiles[5] == 1,
        s.after_step(action).central_state.central_state_arr[7][5] == 1,
        s.after_step(action).board_states[s.player_to_play as int].floor_tiles[5] == 0,
{
    let d = s.after_draft(action);
    assert(d.central_state.central_state_arr[7][5] == 1);
}

/// Marker flow: the player who draws from the centre while the marker lies
/// there receives it on the floor line, and the centre holds it no more.
pub proof fn lemma_marker_goes_to_drafter(s: State, action: Action)
    requires
        s.well_formed(),
        s.legal(action),
        action.display_number == 7,
        s.central_state.central_state_arr[7][5] > 0,
    ensures
        s.after_step(action).central_state.central_state_arr[7][5] == 0,
        s.after_step(action).board_states[s.player_to_play as int].floor_tiles[5] == 1,
{
    let d = s.after_draft(action);
    let p = s.player_to_play as int;
    lemma_after_draft_well_formed(s, action);
    if d.central_state.is_empty() {
        lemma_board_discards(d.board_states[p], 0);
    }
}

/// A player who does not move keeps or lacks the marker as before, unless
/// the round ends.
pub proof fn lemma_marker_stays_with_others(s: State, action: Action, player: int)
    requires
        s.well_formed(),
        s.legal(action),
        0 <= player < 3,
        player != s.player_to_play,
    ensures
        s.after_draft(action).board_states[player] == s.board_states[player],
{
}

/// Progress: every move takes at least one coloured tile out of the pool
/// and puts none in, so a round ends after finitely many moves.
pub proof fn lemma_step_empties_pool(s: State, action: Action)
    requires
        s.well_formed(),
        s.legal(action),
    ensures
        s.taken(action) >= 1,
        s.after_step(action).central_state.colored_count() == s.central_state.colored_count()
            - s.taken(action),
        0 <= s.after_step(action).central_state.colored_count(),
{
    let d = s.after_draft(action);
    assert forall|c: int| 0 <= c < 5 implies #[trigger] d.central_state.tiles_of(c)
        == s.central_state.tiles_of(c) - if c == action.color {
        s.taken(action)
    } else {
        0
    } by {
        lemma_cell_bounds(s, c);
    }
    assert(d.central_state.colored_count() == s.central_state.colored_count() - s.taken(action));
    if d.central_state.is_empty() {
        let r = d.after_round();
        assert(r.central_state == d.central_state);
        if r.game_over() {
            assert(r.with_finished(true).with_bonuses().central_state == d.central_state);
        }
    }
}

/// Progress: a wall cell, once filled, stays filled, and a wall has no more
/// than twenty-five cells.
pub proof fn lemma_walls_only_grow(s: State, action: Action, player: int, row: int, col: int)
    requires
        s.well_formed(),
        s.legal(action),
        0 <= player < 3,
        0 <= row < 5,
        0 <= col < 5,
        s.board_states[player].wall_state[row][col],
    ensures
        s.after_step(action).board_states[player].wall_state[row][col],
        s.after_step(action).board_states[player].wall_count() <= 25,
{
    let d = s.after_draft(action);
    lemma_after_draft_well_formed(s, action);
    lemma_draft_capacity(s, action);
    assert(d.board_states[player].wall_state == s.board_states[player].wall_state);
    lemma_wall_count_bound(s.after_step(action).board_states[player]);
    if d.central_state.is_empty() {
        let b = d.board_states[player];
        lemma_tiled(b);
        lemma_swept(b.tiled());
    }
}

} // verus!
