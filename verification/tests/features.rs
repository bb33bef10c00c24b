use amarillo::game_state::{inital_player_state, CentralState, PlayerState, Row, State};
use amarillo::value_fns::encode_features;

fn position(boards: [PlayerState; 3], bag: [u8; 5]) -> State {
    State {
        board_states: boards,
        central_state: CentralState { central_state_arr: [[0; 6]; 8] },
        player_to_play: 0,
        bag,
        lid: [0; 5],
        is_finished: false,
        player_scores: [0; 3],
    }
}

/// The features as the learned model was trained on them.
fn expected_features(state: &State) -> [[i32; 54]; 3] {
    let mut state_arr = [[0; 54]; 3];
    let min_score = state.board_states.iter().map(|board| board.score).min().unwrap();
    for (player_num, board_state) in state.board_states.iter().enumerate() {
        let mut offset = 0;
        for (row_num, row) in board_state.rows.iter().enumerate() {
            if row_num == 0 {
                continue;
            }
            if row.count > 0 {
                state_arr[player_num][offset + row.count as usize - 1] = 1;
            }
            offset += row_num;
        }
        for (row_num, row) in board_state.rows.iter().enumerate() {
            if row_num == 0 {
                continue;
            }
            if row.count > 0 && row.color < 4 {
                state_arr[player_num][offset + row.color as usize] = 1;
            }
            offset += 4;
        }
        for row_idx in 0..5 {
            for col_idx in 0..5 {
                if board_state.wall_state[row_idx][col_idx] {
                    state_arr[player_num][offset] = 1;
                }
                offset += 1;
            }
        }
        state_arr[player_num][offset] = board_state.score - min_score;
        let mut counts = [0; 5];
        let mut colour_counts = [0; 5];
        for (row_id, row) in board_state.wall_state.iter().enumerate() {
            for (col_id, val) in row.iter().enumerate() {
                if *val {
                    counts[col_id] += 1;
                    colour_counts[(col_id + 5 - row_id) % 5] += 1;
                }
            }
        }
        state_arr[player_num][offset] += *counts.iter().max().unwrap();
        offset += 1;
        state_arr[player_num][offset] += *colour_counts.iter().max().unwrap();
        offset += 1;
        assert_eq!(offset, 53);
    }
    state_arr
}

fn marked_position() -> State {
    let mut boards = [inital_player_state(), inital_player_state(), inital_player_state()];
    boards[0].floor_tiles[5] = 1;
    boards[0].rows[0] = Row { color: 1, count: 1 };
    boards[0].rows[1] = Row { color: 0, count: 1 };
    boards[0].rows[3] = Row { color: 4, count: 4 };
    boards[0].rows[4] = Row { color: 3, count: 5 };
    boards[0].score = 9;
    boards[0].wall_state[0][0] = true;
    boards[0].wall_state[1][0] = true;
    boards[0].wall_state[2][2] = true;
    boards[1].rows[2] = Row { color: 2, count: 2 };
    boards[1].score = 4;
    boards[1].wall_state[4][4] = true;
    boards[2].score = 6;
    boards[2].wall_state[3][1] = true;
    // The bag holds every tile that is not on a board.
    let mut state = position(boards, [0; 5]);
    for color in 0..5 {
        let mut used = 0;
        for board in state.board_states.iter() {
            for (row_id, row) in board.rows.iter().enumerate() {
                if row.color as usize == color {
                    used += row.count;
                }
                if board.wall_state[row_id][(row_id + color) % 5] {
                    used += 1;
                }
            }
        }
        state.bag[color] = 20 - used;
    }
    state
}

#[test]
fn features_mark_lines_walls_and_scores() {
    let state = marked_position();
    assert!(state.is_well_formed());
    let features = encode_features(&state);
    assert_eq!(features, expected_features(&state));
    let own = features[0];
    // Line 1 holds one tile: place 0. Line 3 holds four: place 3 + 3.
    assert_eq!(own[0], 1);
    assert_eq!(own[6], 1);
    // Line 4 is full: its mark falls on the first colour place.
    assert_eq!(own[10], 1);
    assert_eq!(&own[1..6], &[0; 5]);
    assert_eq!(&own[7..10], &[0; 3]);
    // Colours: line 1 is blue; line 3 is cyan, which has no place;
    // line 4 is green.
    assert_eq!(&own[10..14], &[1, 0, 0, 0]);
    assert_eq!(&own[18..22], &[0; 4]);
    assert_eq!(&own[22..26], &[0, 0, 0, 1]);
    // Wall cells, row by row.
    assert_eq!(own[26], 1);
    assert_eq!(own[26 + 5], 1);
    assert_eq!(own[26 + 12], 1);
    assert_eq!(own[26..51].iter().sum::<i32>(), 3);
    // Five points ahead of the lowest score, two tiles in the first column.
    assert_eq!(own[51], 5 + 2);
    // Two blue tiles on the wall.
    assert_eq!(own[52], 2);
    assert_eq!(own[53], 0);
    assert_eq!(features[1][51], 0 + 1);
    assert_eq!(features[2][51], 2 + 1);
    assert_eq!(features[1][1 + 1], 1);
    assert_eq!(features[1][10 + 4 + 2], 1);
}

#[test]
fn fresh_boards_have_no_features() {
    let mut boards = [inital_player_state(), inital_player_state(), inital_player_state()];
    boards[0].floor_tiles[5] = 1;
    let state = position(boards, [20; 5]);
    assert_eq!(encode_features(&state), [[0; 54]; 3]);
}

#[test]
fn helpers_count_the_wall() {
    let state = marked_position();
    let board = &state.board_states[0];
    assert_eq!(board.count_wall(), 3);
    assert_eq!(board.filled_in_column(0), 2);
    assert_eq!(board.filled_in_column(2), 1);
    assert_eq!(board.filled_in_column(4), 0);
    assert_eq!(board.placed_of_color(0), 2);
    assert_eq!(board.placed_of_color(4), 1);
    assert_eq!(board.count_tiles(0), 3);
    assert_eq!(board.count_tiles(3), 5);
    assert_eq!(board.count_tiles(5), 1);
    assert!(board.check_lines());
    assert!(!board.is_row_full(0));
    assert!(!board.is_col_full(0));
    assert!(!board.is_color_full(0));
    assert_eq!(board.wall_bonus(), 0);
    assert!(board.can_take(2, 1));
    assert!(!board.can_take(2, 0));
    assert!(board.can_take(1, 0));
    assert!(!board.can_take(1, 1));
    assert!(!board.can_take(3, 4));
    assert_eq!(state.count_tiles(0), 20);
    assert_eq!(state.central_state.count_tiles(0), 0);
    assert_eq!(state.central_state.count_display(3), 0);

    let mut full = inital_player_state();
    full.wall_state = [[true; 5]; 5];
    assert_eq!(full.count_wall(), 25);
    assert_eq!(full.wall_bonus(), 95);
    assert!(full.is_row_full(4) && full.is_col_full(2) && full.is_color_full(3));
}
