//! Dealing tiles from the bag onto the factory displays.
//!
//! Each tile is drawn with a chance in proportion to how many tiles of its
//! colour are left in the bag. When the bag runs out, the lid is poured into
//! it and the deal goes on.

use rand::Rng;
use vstd::prelude::*;
use crate::arrays::{arr3, arr5, arr6, pool_of, lemma_pool_ext, group_built_arrays};
use crate::game_state::{
    CentralState, PlayerState, State, NUM_FACTORY_DISPLAYS, NUM_TILES, TILES_PER_DISPLAY,
    blank_board, inital_player_state, supply,
};
use crate::play::lemma_cell_bounds;
use crate::round::lemma_state_ext;
use crate::scoring::lemma_board_ext;

verus! {

broadcast use group_built_arrays;

/// The colour that ticket number `ticket` draws from a bag holding
/// `weights[c]` tiles of colour `c`, the tickets being handed out colour by
/// colour: the first colour whose tickets reach beyond `ticket`.
pub open spec fn weighted_pick(weights: [u8; 5], ticket: int) -> int {
    if ticket < weights[0] {
        0
    } else if ticket < weights[0] + weights[1] {
        1
    } else if ticket < weights[0] + weights[1] + weights[2] {
        2
    } else if ticket < weights[0] + weights[1] + weights[2] + weights[3] {
        3
    } else {
        4
    }
}

/// The sum of five weights.
pub open spec fn total_weight(weights: [u8; 5]) -> int {
    weights[0] + weights[1] + weights[2] + weights[3] + weights[4]
}

/// Calls `rand::Rng::gen_range(0, bound)`, which draws a number from
/// `0..bound`. The outside function panics when the range is empty, so a
/// zero `bound` is left out. About which number comes back nothing is said.
#[verifier::external_body]
pub(crate) fn draw_below<R: Rng>(rng: &mut R, bound: usize) -> (ticket: usize)
    requires
        bound > 0,
    ensures
        ticket < bound,
{
    rng.gen_range(0, bound)
}

/// The colour drawn by `ticket`.
pub fn pick_weighted(weights: &[u8; 5], ticket: u8) -> (index: usize)
    requires
        ticket < total_weight(*weights),
    ensures
        index == weighted_pick(*weights, ticket as int),
        index < 5,
        weights[index as int] > 0,
{
    let mut weight_sum: u32 = 0;
    let mut i: usize = 0;
    while i < 4
        invariant
            i <= 4,
            weight_sum <= 255 * i,
            weight_sum == if i == 0 {
                0
            } else if i == 1 {
                weights[0] as int
            } else if i == 2 {
                weights[0] + weights[1]
            } else if i == 3 {
                weights[0] + weights[1] + weights[2]
            } else {
                weights[0] + weights[1] + weights[2] + weights[3]
            },
            ticket >= weight_sum,
        decreases 4 - i,
    {
        weight_sum += weights[i] as u32;
        if weight_sum > ticket as u32 {
            return i;
        }
        i += 1;
    }
    4
}

/// Choose a colour randomly, each with a chance in proportion to its weight.
pub fn random_choice<R: Rng>(int_weights: &[u8; 5], rng: &mut R) -> (index: usize)
    requires
        0 < total_weight(*int_weights) <= u8::MAX,
    ensures
        index < 5,
        int_weights[index as int] > 0,
{
    let sum: u8 = int_weights[0] + int_weights[1] + int_weights[2] + int_weights[3]
        + int_weights[4];
    let ticket: usize = draw_below(rng, sum as usize);
    pick_weighted(int_weights, ticket as u8)
}

impl State {
    /// Tiles in bag and lid together.
    pub open spec fn reserve_count(self) -> int {
        self.bag_count() + self.lid_count()
    }

    /// Whether the lid is empty.
    pub open spec fn lid_empty(self) -> bool {
        forall|c: int| 0 <= c < 5 ==> #[trigger] self.lid[c] == 0
    }

    /// Whether `after` is this position but for the pool, the bag and the lid.
    pub open spec fn same_but_tiles(self, after: State) -> bool {
        &&& after.board_states == self.board_states
        &&& after.player_to_play == self.player_to_play
        &&& after.is_finished == self.is_finished
        &&& after.player_scores == self.player_scores
    }

    /// Whether `after` holds, of every colour, as many tiles in bag, lid and
    /// pool together as this position.
    pub open spec fn same_supply(self, after: State) -> bool {
        forall|c: int|
            0 <= c < 5 ==> #[trigger] after.reserve_of(c) + after.central_state.tiles_of(c)
                == self.reserve_of(c) + self.central_state.tiles_of(c)
    }
}

/// How many tiles display `display` receives when `stock` tiles can be dealt:
/// four, as long as the stock lasts.
pub open spec fn dealt_to(display: int, stock: int) -> int {
    if stock >= 4 * display + 4 {
        4
    } else if stock >= 4 * display {
        stock - 4 * display
    } else {
        0
    }
}

/// Pours the lid into the bag.
fn recycle_lid(state: &mut State)
    requires
        old(state).bag_count() == 0,
    ensures
        old(state).same_but_tiles(*final(state)),
        final(state).central_state == old(state).central_state,
        final(state).bag == old(state).lid,
        final(state).lid_empty(),
        forall|c: int| 0 <= c < 5 ==> #[trigger] final(state).reserve_of(c) == old(state).reserve_of(c),
{
    let ghost before = *state;
    let mut i: usize = 0;
    while i < 5
        invariant
            i <= 5,
            before.bag_count() == 0,
            before.same_but_tiles(*state),
            state.central_state == before.central_state,
            forall|c: int| 0 <= c < i ==> #[trigger] state.bag[c] == before.lid[c],
            forall|c: int| 0 <= c < i ==> #[trigger] state.lid[c] == 0,
            forall|c: int| i <= c < 5 ==> #[trigger] state.bag[c] == before.bag[c],
            forall|c: int| i <= c < 5 ==> #[trigger] state.lid[c] == before.lid[c],
        decreases 5 - i,
    {
        state.bag[i] = state.lid[i];
        state.lid[i] = 0;
        i += 1;
    }
}

/// Whether `after` is `before` with one tile of `color` moved from the bag
/// to display `factory_id`.
pub open spec fn is_deal(before: State, after: State, factory_id: int, color: int) -> bool {
    &&& before.same_but_tiles(after)
    &&& after.lid == before.lid
    &&& forall|c: int|
        0 <= c < 5 ==> #[trigger] after.bag[c] == if c == color {
            before.bag[c] - 1
        } else {
            before.bag[c] as int
        }
    &&& forall|d: int, c: int|
        0 <= d < 8 && 0 <= c < 6 ==> (#[trigger] after.central_state.central_state_arr[d][c]) == if d
            == factory_id && c == color {
            before.central_state.central_state_arr[d][c] + 1
        } else {
            before.central_state.central_state_arr[d][c] as int
        }
}

/// Dealing a tile from the bag to a factory display keeps every invariant of
/// a running game; in particular no tile is gained or lost.
pub proof fn lemma_deal_well_formed(before: State, after: State, factory_id: int, color: int)
    requires
        before.well_formed(),
        !before.is_finished,
        0 <= factory_id < 7,
        0 <= color < 5,
        is_deal(before, after, factory_id, color),
    ensures
        after.well_formed(),
        after.reserve_count() == before.reserve_count() - 1,
        after.bag_count() == before.bag_count() - 1,
        before.same_supply(after),
        after.central_state.display_count(factory_id) == before.central_state.display_count(
            factory_id,
        ) + 1,
        forall|d: int|
            0 <= d < 8 && d != factory_id ==> #[trigger] after.central_state.display_count(d)
                == before.central_state.display_count(d),
{
    assert forall|c: int| 0 <= c < 6 implies #[trigger] after.tiles_of(c) == supply(c) by {
        assert(before.tiles_of(c) == supply(c));
    }
    assert(after.round_start() == before.round_start());
    assert forall|d: int| 0 <= d < 7 implies (#[trigger] after.central_state.central_state_arr[d])[5]
        == 0 by {}
}

/// Moves one tile of `color` from the bag to display `factory_id`.
pub fn deal_tile(state: &mut State, factory_id: usize, color: usize)
    requires
        old(state).well_formed(),
        !old(state).is_finished,
        factory_id < 7,
        color < 5,
        old(state).bag[color as int] > 0,
    ensures
        is_deal(*old(state), *final(state), factory_id as int, color as int),
        final(state).well_formed(),
{
    let ghost before = *state;
    proof {
        lemma_cell_bounds(before, color as int);
        assert(before.tiles_of(color as int) == 20);
    }
    let mut bag: [u8; 5] = state.bag;
    let mut pool: [[u8; 6]; 8] = state.central_state.central_state_arr;
    bag[color] -= 1;
    pool[factory_id][color] += 1;
    state.bag = bag;
    state.central_state.central_state_arr = pool;
    proof {
        lemma_deal_well_formed(before, *state, factory_id as int, color as int);
    }
}

/// Pouring the lid into the empty bag keeps every invariant of a running game.
proof fn lemma_recycle_well_formed(before: State, after: State)
    requires
        before.well_formed(),
        !before.is_finished,
        before.bag_count() == 0,
        before.same_but_tiles(after),
        after.central_state == before.central_state,
        after.bag == before.lid,
        after.lid_empty(),
    ensures
        after.well_formed(),
        after.reserve_count() == before.reserve_count(),
        after.bag_count() == before.lid_count(),
        before.same_supply(after),
{
    assert forall|c: int| 0 <= c < 6 implies #[trigger] after.tiles_of(c) == supply(c) by {
        assert(before.tiles_of(c) == supply(c));
    }
}

/// Counts the tiles in the bag.
fn bag_total(state: &State) -> (n: u8)
    requires
        state.conserved(),
    ensures
        n == state.bag_count(),
        n <= 100,
{
    proof {
        lemma_bag_bounds(*state);
    }
    state.bag[0] + state.bag[1] + state.bag[2] + state.bag[3] + state.bag[4]
}

/// The bag holds at most twenty tiles of each colour.
proof fn lemma_bag_bounds(s: State)
    requires
        s.conserved(),
    ensures
        forall|c: int| 0 <= c < 5 ==> #[trigger] s.bag[c] <= 20,
        0 <= s.bag_count() <= 100,
        0 <= s.lid_count() <= 100,
{
    assert forall|c: int| 0 <= c < 5 implies #[trigger] s.bag[c] <= 20 && s.lid[c] <= 20 by {
        lemma_cell_bounds(s, c);
        assert(s.tiles_of(c) == 20);
        crate::play::lemma_board_tiles_nonnegative(s.board_states[0], c);
        crate::play::lemma_board_tiles_nonnegative(s.board_states[1], c);
        crate::play::lemma_board_tiles_nonnegative(s.board_states[2], c);
    }
    assert(s.bag[0] <= 20 && s.bag[1] <= 20 && s.bag[2] <= 20 && s.bag[3] <= 20 && s.bag[4] <= 20);
}

/// The smaller of two numbers.
pub open spec fn least(a: int, b: int) -> int {
    if a <= b {
        a
    } else {
        b
    }
}

/// Fills one place of display `factory_id`: pours the lid into the bag when
/// the bag is empty, then draws a tile if there is one.
fn fill_slot<R: Rng>(state: &mut State, rng: &mut R, factory_id: usize)
    requires
        old(state).well_formed(),
        !old(state).is_finished,
        factory_id < 7,
    ensures
        final(state).well_formed(),
        old(state).same_but_tiles(*final(state)),
        old(state).same_supply(*final(state)),
        final(state).reserve_count() == old(state).reserve_count() - least(
            1,
            old(state).reserve_count(),
        ),
        final(state).central_state.display_count(factory_id as int) == old(state).central_state.display_count(factory_id as int) + least(1, old(state).reserve_count()),
        forall|d: int|
            0 <= d < 8 && d != factory_id ==> #[trigger] final(state).central_state.display_count(d)
                == old(state).central_state.display_count(d),
        old(state).bag_count() > 0 ==> final(state).lid == old(state).lid && final(state).bag_count() == old(state).bag_count() - 1,
        old(state).bag_count() == 0 ==> final(state).lid_empty(),
        old(state).lid_empty() ==> final(state).lid_empty(),
{
    let ghost before = *state;
    proof {
        lemma_bag_bounds(before);
    }
    let mut n: u8 = bag_total(state);
    if n == 0 {
        recycle_lid(state);
        proof {
            lemma_recycle_well_formed(before, *state);
        }
        n = bag_total(state);
    }
    let ghost poured = *state;
    if n != 0 {
        let color: usize = random_choice(&state.bag, rng);
        deal_tile(state, factory_id, color);
        proof {
            lemma_deal_well_formed(poured, *state, factory_id as int, color as int);
            assert forall|c: int| 0 <= c < 5 implies #[trigger] state.reserve_of(c)
                + state.central_state.tiles_of(c) == before.reserve_of(c)
                + before.central_state.tiles_of(c) by {}
        }
    }
}

/// Deals four tiles onto each factory display, as long as bag and lid hold
/// tiles. The pool must be empty and the game still running.
///
/// The boards, the player to move and the scores stay as they are, and no
/// tile is gained or lost. The lid is poured into the bag when the bag runs
/// out before the last place is filled.
pub fn fill_factory_displays<R: Rng>(state: &mut State, rng: &mut R)
    requires
        old(state).well_formed(),
        old(state).central_state.is_empty(),
        !old(state).is_finished,
    ensures
        final(state).well_formed(),
        old(state).same_but_tiles(*final(state)),
        old(state).same_supply(*final(state)),
        forall|d: int|
            0 <= d < 7 ==> #[trigger] final(state).central_state.display_count(d) == dealt_to(
                d,
                old(state).reserve_count(),
            ),
        final(state).central_state.display_count(7) == 0,
        final(state).reserve_count() == old(state).reserve_count() - least(
            28,
            old(state).reserve_count(),
        ),
        old(state).bag_count() >= 28 ==> final(state).lid == old(state).lid,
        old(state).bag_count() < 28 ==> final(state).lid_empty(),
{
    let ghost before = *state;
    let ghost stock = before.reserve_count();
    let ghost bag0 = before.bag_count();
    proof {
        lemma_bag_bounds(before);
        assert forall|d: int| 0 <= d < 8 implies #[trigger] before.central_state.display_count(d)
            == 0 by {}
    }
    let mut factory_id: usize = 0;
    while factory_id < NUM_FACTORY_DISPLAYS as usize
        invariant
            factory_id <= 7,
            0 <= bag0,
            0 <= stock,
            stock == before.reserve_count(),
            bag0 == before.bag_count(),
            state.well_formed(),
            !state.is_finished,
            before.same_but_tiles(*state),
            before.same_supply(*state),
            state.reserve_count() == stock - least(4 * factory_id, stock),
            forall|d: int|
                0 <= d < factory_id ==> #[trigger] state.central_state.display_count(d) == dealt_to(
                    d,
                    stock,
                ),
            forall|d: int|
                factory_id <= d < 8 ==> #[trigger] state.central_state.display_count(d) == 0,
            4 * factory_id <= bag0 ==> state.lid == before.lid && state.bag_count() == bag0 - 4
                * factory_id,
            4 * factory_id > bag0 ==> state.lid_empty(),
        decreases 7 - factory_id,
    {
        let mut slot: usize = 0;
        while slot < TILES_PER_DISPLAY as usize
            invariant
                factory_id < 7,
                slot <= 4,
                0 <= bag0,
                0 <= stock,
                stock == before.reserve_count(),
                bag0 == before.bag_count(),
                state.well_formed(),
                !state.is_finished,
                before.same_but_tiles(*state),
                before.same_supply(*state),
                state.reserve_count() == stock - least(4 * factory_id + slot, stock),
                forall|d: int|
                    0 <= d < factory_id ==> #[trigger] state.central_state.display_count(d)
                        == dealt_to(d, stock),
                state.central_state.display_count(factory_id as int) == least(
                    slot as int,
                    dealt_to(factory_id as int, stock),
                ),
                forall|d: int|
                    factory_id < d < 8 ==> #[trigger] state.central_state.display_count(d) == 0,
                4 * factory_id + slot <= bag0 ==> state.lid == before.lid && state.bag_count()
                    == bag0 - (4 * factory_id + slot),
                4 * factory_id + slot > bag0 ==> state.lid_empty(),
            decreases 4 - slot,
        {
            let ghost earlier = *state;
            proof {
                lemma_bag_bounds(earlier);
            }
            fill_slot(state, rng, factory_id);
            proof {
                assert forall|c: int| 0 <= c < 5 implies #[trigger] state.reserve_of(c)
                    + state.central_state.tiles_of(c) == before.reserve_of(c)
                    + before.central_state.tiles_of(c) by {}
                assert forall|d: int| 0 <= d < factory_id implies #[trigger] state.central_state.display_count(
                d) == dealt_to(d, stock) by {}
                assert forall|d: int| factory_id < d < 8 implies #[trigger] state.central_state.display_count(
                d) == 0 by {}
            }
            slot += 1;
        }
        factory_id += 1;
    }
}

/// A fresh board that holds the first-player marker on its floor line.
pub open spec fn marker_board() -> PlayerState {
    PlayerState {
        wall_state: blank_board().wall_state,
        rows: blank_board().rows,
        score: 0,
        floor_tiles: arr6(
            |c: int|
                if c == 5 {
                    1u8
                } else {
                    0u8
                },
        ),
    }
}

impl State {
    /// The position before the first deal: all hundred tiles in the bag,
    /// fresh boards, and the marker with player 0, who moves first.
    pub open spec fn opening() -> State {
        State {
            board_states: arr3(
                |p: int|
                    if p == 0 {
                        marker_board()
                    } else {
                        blank_board()
                    },
            ),
            central_state: CentralState { central_state_arr: pool_of(|d: int, c: int| 0u8) },
            player_to_play: 0,
            bag: arr5(|c: int| 20u8),
            lid: arr5(|c: int| 0u8),
            is_finished: false,
            player_scores: arr3(|p: int| 0i32),
        }
    }
}

/// The position before the first deal obeys every invariant.
pub proof fn lemma_opening_well_formed()
    ensures
        State::opening().well_formed(),
        State::opening().central_state.is_empty(),
        !State::opening().is_finished,
        State::opening().bag_count() == 100,
        State::opening().lid_count() == 0,
{
    let s = State::opening();
    assert forall|p: int| 0 <= p < 3 implies (#[trigger] s.board_states[p]).lines_ok()
        && s.board_states[p].score_ok(0) by {
        lemma_fresh_board(s.board_states[p]);
    }
    assert forall|c: int| 0 <= c < 6 implies #[trigger] s.tiles_of(c) == supply(c) by {
        lemma_fresh_board(s.board_states[0]);
        lemma_fresh_board(s.board_states[1]);
        lemma_fresh_board(s.board_states[2]);
    }
}

/// A fresh board holds no tile but, perhaps, the marker.
proof fn lemma_fresh_board(b: PlayerState)
    requires
        b == blank_board() || b == marker_board(),
    ensures
        b.lines_ok(),
        b.score_ok(0),
        b.wall_count() == 0,
        forall|c: int| 0 <= c < 5 ==> #[trigger] b.tiles_of(c) == 0,
        b.tiles_of(5) == b.floor_tiles[5],
{
    assert forall|r: int, c: int| 0 <= r < 5 && 0 <= c < 5 implies !b.wall_state[r][c] by {}
    assert forall|r: int| 0 <= r < 5 implies (#[trigger] b.rows[r]).count == 0 && b.rows[r].color
        == 0 by {}
}

/// Deals the first round of a new game from a full bag: player 0 holds the
/// marker and moves first, and every factory display receives four tiles.
pub fn get_random_initial_state<R: Rng>(rng: &mut R) -> (state: State)
    ensures
        state.well_formed(),
        State::opening().same_but_tiles(state),
        State::opening().same_supply(state),
        forall|d: int| 0 <= d < 7 ==> #[trigger] state.central_state.display_count(d) == 4,
        state.central_state.display_count(7) == 0,
        state.reserve_count() == 72,
        state.lid_empty(),
{
    let mut board_states: [PlayerState; 3] = [
        inital_player_state(),
        inital_player_state(),
        inital_player_state(),
    ];
    // Give 0th player the start token.
    board_states[0].floor_tiles[5] = 1;
    let mut state = State {
        board_states,
        central_state: CentralState { central_state_arr: [[0; 6]; 8] },
        player_to_play: 0,
        bag: [NUM_TILES; 5],
        lid: [0; 5],
        is_finished: false,
        player_scores: [0; 3],
    };
    proof {
        lemma_board_ext(state.board_states[0], marker_board());
        lemma_pool_ext(
            state.central_state.central_state_arr,
            State::opening().central_state.central_state_arr,
        );
        lemma_state_ext(state, State::opening());
        lemma_opening_well_formed();
    }
    fill_factory_displays(&mut state, rng);
    proof {
        assert forall|c: int| 0 <= c < 5 implies #[trigger] state.lid[c] == 0 by {}
    }
    state
}

} // verus!
