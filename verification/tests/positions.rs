use amarillo::actions::{
    check_counts, get_valid_actions, has_empty_centre, is_first_move, is_valid_action,
};
use amarillo::game_state::{
    inital_player_state, Action, CentralState, PlayerState, Row, State, FULL_SHARE,
};
use amarillo::play::{step, take_tiles};
use amarillo::round::{is_finished, score_and_reset, score_bonuses};

fn total_tiles(state: &State, color: usize) -> u32 {
    let mut total: u32 = 0;
    for display in state.central_state.central_state_arr.iter() {
        total += display[color] as u32;
    }
    for board in state.board_states.iter() {
        total += board.floor_tiles[color] as u32;
        if color < 5 {
            for (row_id, row) in board.rows.iter().enumerate() {
                if row.color as usize == color {
                    total += row.count as u32;
                }
                if board.wall_state[row_id][(row_id + color) % 5] {
                    total += 1;
                }
            }
        }
    }
    if color < 5 {
        total += state.bag[color] as u32 + state.lid[color] as u32;
    }
    total
}

fn assert_conserved(state: &State) {
    for color in 0..5 {
        assert_eq!(total_tiles(state, color), 20);
    }
    assert_eq!(total_tiles(state, 5), 1);
    assert!(check_counts(state));
    assert!(state.is_well_formed());
}

/// Display 0 holds two blue tiles, a yellow and a red one; player 0 holds
/// the marker and is to move.
fn small_round() -> State {
    let mut boards = [inital_player_state(), inital_player_state(), inital_player_state()];
    boards[0].floor_tiles[5] = 1;
    let mut pool = [[0u8; 6]; 8];
    pool[0] = [2, 1, 1, 0, 0, 0];
    State {
        board_states: boards,
        central_state: CentralState { central_state_arr: pool },
        player_to_play: 0,
        bag: [18, 19, 19, 20, 20],
        lid: [0; 5],
        is_finished: false,
        player_scores: [0; 3],
    }
}

/// Player 0 lacks only the yellow tile in the first wall row; display 0
/// holds a yellow and a red tile.
fn last_round() -> State {
    let mut boards = [inital_player_state(), inital_player_state(), inital_player_state()];
    boards[0].floor_tiles[5] = 1;
    boards[0].wall_state[0] = [true, false, true, true, true];
    boards[0].score = 10;
    let mut pool = [[0u8; 6]; 8];
    pool[0] = [0, 1, 1, 0, 0, 0];
    State {
        board_states: boards,
        central_state: CentralState { central_state_arr: pool },
        player_to_play: 0,
        bag: [19, 19, 18, 19, 19],
        lid: [0; 5],
        is_finished: false,
        player_scores: [0; 3],
    }
}

fn action(display_number: u8, color: u8, row_id: u8) -> Action {
    Action { display_number, color, row_id }
}

#[test]
fn small_round_is_well_formed() {
    let state = small_round();
    assert_conserved(&state);
    assert!(is_first_move(&state));
    assert!(!has_empty_centre(&state));
    assert!(!is_finished(&state));
}

#[test]
fn lost_tile_is_noticed() {
    let mut state = small_round();
    state.bag[3] = 19;
    assert!(!check_counts(&state));
    assert!(!state.is_well_formed());
    let mut doubled = small_round();
    doubled.central_state.central_state_arr[7][5] = 1;
    assert!(!check_counts(&doubled));
}

#[test]
fn ill_formed_positions_are_noticed() {
    let mut too_full = small_round();
    too_full.board_states[1].rows[0] = Row { color: 3, count: 2 };
    too_full.bag[3] = 18;
    assert!(check_counts(&too_full));
    assert!(!too_full.is_well_formed());

    let mut twice_on_wall = small_round();
    twice_on_wall.board_states[1].wall_state[2][0] = true;
    twice_on_wall.board_states[1].rows[2] = Row { color: 3, count: 1 };
    twice_on_wall.board_states[1].score = 1;
    twice_on_wall.bag[3] = 18;
    assert!(check_counts(&twice_on_wall));
    assert!(!twice_on_wall.is_well_formed());

    let mut wrong_mover = small_round();
    wrong_mover.player_to_play = 1;
    assert!(!wrong_mover.is_well_formed());

    let mut negative = small_round();
    negative.board_states[2].score = -1;
    assert!(!negative.is_well_formed());

    let mut shares_early = small_round();
    shares_early.player_scores = [FULL_SHARE, 0, 0];
    assert!(!shares_early.is_well_formed());
}

#[test]
fn valid_actions_are_listed_in_order() {
    let state = small_round();
    let actions = get_valid_actions(&state);
    assert_eq!(actions.len(), 18);
    let mut expected = Vec::new();
    for color in 0..3u8 {
        for row_id in 0..6u8 {
            expected.push(action(0, color, row_id));
        }
    }
    assert_eq!(actions, expected);
}

#[test]
fn lines_accept_only_their_colour_and_what_the_wall_lacks() {
    let mut state = small_round();
    state.board_states[0].rows[1] = Row { color: 1, count: 1 };
    state.bag[1] = 18;
    state.board_states[0].wall_state[2][2] = true;
    state.board_states[0].score = 1;
    state.bag[0] = 17;
    state.board_states[0].rows[3] = Row { color: 2, count: 4 };
    state.bag[2] = 15;
    assert!(state.is_well_formed());
    let actions = get_valid_actions(&state);
    // Blue: not line 1 (yellow lies there), not line 2 (blue is on the
    // wall there), not line 3 (red lies there).
    assert!(actions.contains(&action(0, 0, 0)));
    assert!(!actions.contains(&action(0, 0, 1)));
    assert!(!actions.contains(&action(0, 0, 2)));
    assert!(!actions.contains(&action(0, 0, 3)));
    assert!(actions.contains(&action(0, 0, 4)));
    assert!(actions.contains(&action(0, 0, 5)));
    // Yellow: line 1 has room for one more.
    assert!(actions.contains(&action(0, 1, 1)));
    // Red: line 3 is full.
    assert!(!actions.contains(&action(0, 2, 3)));
    assert!(actions.contains(&action(0, 2, 5)));
    assert_eq!(actions.len(), 3 + 5 + 4);
}

#[test]
fn every_listed_action_is_valid_and_no_other() {
    let state = small_round();
    let listed = get_valid_actions(&state);
    for display_number in 0..10u8 {
        for color in 0..7u8 {
            for row_id in 0..8u8 {
                let candidate = action(display_number, color, row_id);
                assert_eq!(is_valid_action(&state, candidate), listed.contains(&candidate));
            }
        }
    }
    for candidate in listed {
        let (next, _) = step(state, candidate, true);
        assert_conserved(&next);
    }
}

#[test]
fn empty_pool_allows_no_action() {
    let mut state = small_round();
    state.central_state.central_state_arr[0] = [0; 6];
    state.bag = [20; 5];
    assert!(has_empty_centre(&state));
    assert!(get_valid_actions(&state).is_empty());
    assert!(!is_valid_action(&state, action(0, 0, 5)));
}

#[test]
fn first_move_sends_the_marker_to_the_centre() {
    let state = small_round();
    let (next, round_ended) = step(state, action(0, 0, 1), true);
    assert!(!round_ended);
    assert_eq!(next.board_states[0].rows[1], Row { color: 0, count: 2 });
    assert_eq!(next.board_states[0].floor_tiles, [0; 6]);
    assert_eq!(next.central_state.central_state_arr[0], [0; 6]);
    assert_eq!(next.central_state.central_state_arr[7], [0, 1, 1, 0, 0, 1]);
    assert_eq!(next.player_to_play, 1);
    assert_eq!(next.board_states[1], state.board_states[1]);
    assert_eq!(next.board_states[2], state.board_states[2]);
    assert_eq!(next.bag, state.bag);
    assert_eq!(next.lid, state.lid);
    assert!(!next.is_finished);
    assert_eq!(next.player_scores, [0; 3]);
    assert_conserved(&next);
    assert!(!is_first_move(&next));
}

#[test]
fn first_draw_from_the_centre_takes_the_marker() {
    let state = small_round();
    let (second, _) = step(state, action(0, 0, 1), true);
    let (third, round_ended) = step(second, action(7, 1, 0), true);
    assert!(!round_ended);
    assert_eq!(third.board_states[1].rows[0], Row { color: 1, count: 1 });
    assert_eq!(third.board_states[1].floor_tiles, [0, 0, 0, 0, 0, 1]);
    assert_eq!(third.central_state.central_state_arr[7], [0, 0, 1, 0, 0, 0]);
    assert_eq!(third.player_to_play, 2);
    assert_conserved(&third);
}

#[test]
fn excess_tiles_fall_to_the_floor() {
    let mut state = small_round();
    state.central_state.central_state_arr[0] = [3, 1, 0, 0, 0, 0];
    state.bag = [17, 19, 20, 20, 20];
    assert!(state.is_well_formed());
    let (next, _) = step(state, action(0, 0, 0), true);
    assert_eq!(next.board_states[0].rows[0], Row { color: 0, count: 1 });
    assert_eq!(next.board_states[0].floor_tiles, [2, 0, 0, 0, 0, 0]);
    for board in next.board_states.iter() {
        for (row_id, row) in board.rows.iter().enumerate() {
            assert!(row.count as usize <= row_id + 1);
        }
    }
    assert_conserved(&next);

    let (filled, _) = step(state, action(0, 0, 2), true);
    assert_eq!(filled.board_states[0].rows[2], Row { color: 0, count: 3 });
    assert_eq!(filled.board_states[0].floor_tiles, [0; 6]);

    let (floored, _) = step(state, action(0, 0, 5), true);
    assert_eq!(floored.board_states[0].floor_tiles, [3, 0, 0, 0, 0, 0]);
    assert_eq!(floored.board_states[0].rows, state.board_states[0].rows);
}

#[test]
fn a_line_with_tiles_takes_more_of_its_colour() {
    let mut state = small_round();
    state.board_states[0].rows[3] = Row { color: 0, count: 3 };
    state.bag[0] = 15;
    assert!(state.is_well_formed());
    let (next, _) = step(state, action(0, 0, 3), true);
    assert_eq!(next.board_states[0].rows[3], Row { color: 0, count: 4 });
    assert_eq!(next.board_states[0].floor_tiles[0], 1);
    // Lines are not bare, so this is no first move: the marker stays.
    assert_eq!(next.board_states[0].floor_tiles[5], 1);
    assert_eq!(next.central_state.central_state_arr[7], [0, 1, 1, 0, 0, 0]);
    assert_conserved(&next);
}

#[test]
fn take_tiles_drafts_without_resolving() {
    let mut state = small_round();
    state.central_state.central_state_arr[0] = [1, 0, 0, 0, 0, 0];
    state.central_state.central_state_arr[7] = [0, 0, 0, 0, 0, 0];
    state.bag = [19, 20, 20, 20, 20];
    state.board_states[0].rows[2] = Row { color: 1, count: 0 };
    assert!(state.is_well_formed());
    take_tiles(&mut state, action(0, 0, 0));
    assert_eq!(state.board_states[0].rows[0], Row { color: 0, count: 1 });
    assert!(!state.board_states[0].wall_state[0][0]);
    assert_eq!(state.central_state.central_state_arr[7], [0, 0, 0, 0, 0, 1]);
    assert_eq!(state.player_to_play, 1);
}

#[test]
fn marker_alone_in_the_centre_leaves_no_move() {
    let mut state = small_round();
    state.central_state.central_state_arr[0] = [1, 0, 0, 0, 0, 0];
    state.bag = [19, 20, 20, 20, 20];
    let (next, round_ended) = step(state, action(0, 0, 0), true);
    assert!(!round_ended);
    assert!(!has_empty_centre(&next));
    assert!(get_valid_actions(&next).is_empty());
    assert!(!next.is_finished);
    assert_conserved(&next);
}

#[test]
fn round_end_resolves_every_board() {
    let state = small_round();
    let (second, _) = step(state, action(0, 0, 1), true);
    let (third, _) = step(second, action(7, 1, 0), true);
    let (end, round_ended) = step(third, action(7, 2, 5), true);
    assert!(round_ended);
    assert!(has_empty_centre(&end));
    // The holder of the marker moves first in the next round.
    assert_eq!(end.player_to_play, 1);
    // Player 0: two blue tiles filled line 1.
    assert!(end.board_states[0].wall_state[1][1]);
    assert_eq!(end.board_states[0].rows[1], Row { color: 0, count: 0 });
    assert_eq!(end.board_states[0].score, 1);
    // Player 1: one yellow tile filled line 0; the marker costs a point.
    assert!(end.board_states[1].wall_state[0][1]);
    assert_eq!(end.board_states[1].score, 0);
    assert_eq!(end.board_states[1].floor_tiles, [0, 0, 0, 0, 0, 1]);
    // Player 2: the red tile on the floor costs a point the score lacks.
    assert_eq!(end.board_states[2].score, 0);
    assert_eq!(end.board_states[2].floor_tiles, [0; 6]);
    assert_eq!(end.lid, [1, 0, 1, 0, 0]);
    assert_eq!(end.bag, [18, 19, 19, 20, 20]);
    assert!(!end.is_finished);
    assert_eq!(end.player_scores, [0; 3]);
    assert_conserved(&end);
}

#[test]
fn score_and_reset_alone_resolves_the_round() {
    let state = small_round();
    let (second, _) = step(state, action(0, 0, 1), true);
    let (third, _) = step(second, action(7, 1, 0), true);
    let mut drafted = third;
    take_tiles(&mut drafted, action(7, 2, 5));
    assert!(has_empty_centre(&drafted));
    assert_eq!(drafted.player_to_play, 0);
    score_and_reset(&mut drafted);
    let (end, _) = step(third, action(7, 2, 5), true);
    assert_eq!(drafted, end);
}

#[test]
fn complete_row_ends_the_game() {
    let state = last_round();
    assert_conserved(&state);
    let (second, round_ended) = step(state, action(0, 1, 0), true);
    assert!(!round_ended);
    let (end, round_ended) = step(second, action(7, 2, 5), true);
    assert!(round_ended);
    assert!(end.is_finished);
    assert!(is_finished(&end));
    // Row of five: five points, and two for the complete row.
    assert_eq!(end.board_states[0].score, 10 + 5 + 2);
    // Red tile and marker on the floor: two points the score lacks.
    assert_eq!(end.board_states[1].score, 0);
    assert_eq!(end.board_states[2].score, 0);
    assert_eq!(end.player_scores, [FULL_SHARE, 0, 0]);
    assert_eq!(end.player_to_play, 1);
    assert_eq!(end.lid, [0, 0, 1, 0, 0]);
    assert_conserved(&end);
}

#[test]
fn empty_reserve_ends_the_game() {
    let mut state = small_round();
    state.bag = [0; 5];
    state.central_state.central_state_arr[0] = [0; 6];
    state.board_states[1].floor_tiles = [20, 20, 20, 20, 20, 0];
    assert!(check_counts(&state));
    assert!(is_finished(&state));
    state.lid[0] = 1;
    state.board_states[1].floor_tiles[0] = 19;
    assert!(!is_finished(&state));
}

#[test]
fn bonuses_reward_rows_columns_and_colours() {
    let mut state = small_round();
    // Player 0: first row complete.
    state.board_states[0].wall_state[0] = [true; 5];
    state.board_states[0].score = 3;
    // Player 1: first column complete.
    for row in 0..5 {
        state.board_states[1].wall_state[row][0] = true;
    }
    state.board_states[1].score = 3;
    // Player 2: all blue tiles placed.
    for row in 0..5 {
        state.board_states[2].wall_state[row][row] = true;
    }
    state.board_states[2].score = 3;
    score_bonuses(&mut state);
    assert_eq!(state.board_states[0].score, 3 + 2);
    assert_eq!(state.board_states[1].score, 3 + 7);
    assert_eq!(state.board_states[2].score, 3 + 10);
    assert_eq!(state.player_scores, [0, 0, FULL_SHARE]);
}

#[test]
fn full_wall_earns_every_bonus() {
    let mut state = small_round();
    state.board_states[1].wall_state = [[true; 5]; 5];
    state.board_states[1].score = 100;
    score_bonuses(&mut state);
    assert_eq!(state.board_states[1].score, 100 + 10 + 35 + 50);
    assert_eq!(state.player_scores, [0, FULL_SHARE, 0]);
}

#[test]
fn tied_winners_share_the_win() {
    let mut three = small_round();
    score_bonuses(&mut three);
    assert_eq!(three.player_scores, [FULL_SHARE / 3; 3]);
    assert_eq!(three.player_scores, [2_000_000; 3]);

    let mut two = small_round();
    two.board_states[0].score = 7;
    two.board_states[2].score = 7;
    two.board_states[1].score = 6;
    score_bonuses(&mut two);
    assert_eq!(two.player_scores, [3_000_000, 0, 3_000_000]);
}

#[test]
fn checking_counts_does_not_change_the_move() {
    let state = small_round();
    for candidate in get_valid_actions(&state) {
        assert_eq!(step(state, candidate, true), step(state, candidate, false));
    }
}

#[test]
fn boards_of_other_players_are_left_alone() {
    let state = small_round();
    let before: [PlayerState; 3] = state.board_states;
    for candidate in get_valid_actions(&state) {
        let (next, _) = step(state, candidate, true);
        assert_eq!(next.board_states[1], before[1]);
        assert_eq!(next.board_states[2], before[2]);
    }
}
