use amarillo::game_state::{inital_player_state, PlayerState, Row};
use amarillo::scoring::{score_and_move_floor_tiles, score_tile_placement, tile_full_lines};

fn wall_with(cells: &[(usize, usize)]) -> [[bool; 5]; 5] {
    let mut wall = [[false; 5]; 5];
    for (row, col) in cells {
        wall[*row][*col] = true;
    }
    wall
}

fn board_with_floor(score: i32, floor_tiles: [u8; 6]) -> PlayerState {
    let mut board = inital_player_state();
    board.score = score;
    board.floor_tiles = floor_tiles;
    board
}

#[test]
fn fresh_board_is_blank() {
    let board = inital_player_state();
    assert_eq!(board.wall_state, [[false; 5]; 5]);
    assert_eq!(board.rows, [Row { color: 0, count: 0 }; 5]);
    assert_eq!(board.score, 0);
    assert_eq!(board.floor_tiles, [0; 6]);
}

#[test]
fn lone_tile_scores_one() {
    let wall = wall_with(&[(2, 2)]);
    assert_eq!(score_tile_placement(&wall, 2, 2), 1);
    let empty = [[false; 5]; 5];
    assert_eq!(score_tile_placement(&empty, 2, 2), 1);
}

#[test]
fn corner_tile_with_two_neighbours_scores_four() {
    let wall = wall_with(&[(0, 0), (0, 1), (1, 0)]);
    assert_eq!(score_tile_placement(&wall, 0, 0), 4);
}

#[test]
fn tile_in_a_row_scores_the_row() {
    let wall = wall_with(&[(0, 0), (0, 1), (0, 2), (0, 3), (0, 4)]);
    assert_eq!(score_tile_placement(&wall, 0, 2), 5);
    assert_eq!(score_tile_placement(&wall, 0, 0), 5);
    assert_eq!(score_tile_placement(&wall, 0, 4), 5);
}

#[test]
fn tile_in_a_column_scores_the_column() {
    let wall = wall_with(&[(1, 3), (2, 3), (3, 3)]);
    assert_eq!(score_tile_placement(&wall, 2, 3), 3);
    assert_eq!(score_tile_placement(&wall, 1, 3), 3);
}

#[test]
fn runs_stop_at_a_gap() {
    let wall = wall_with(&[(0, 0), (0, 2), (0, 4), (2, 2)]);
    assert_eq!(score_tile_placement(&wall, 0, 2), 1);
}

#[test]
fn tile_in_a_cross_scores_both_runs() {
    let wall = wall_with(&[(2, 1), (2, 2), (2, 3), (1, 2), (3, 2)]);
    assert_eq!(score_tile_placement(&wall, 2, 2), 6);
}

#[test]
fn full_wall_scores_ten() {
    let wall = [[true; 5]; 5];
    assert_eq!(score_tile_placement(&wall, 4, 4), 10);
    assert_eq!(score_tile_placement(&wall, 0, 0), 10);
}

#[test]
fn six_floor_tiles_cost_twelve() {
    let mut board = board_with_floor(20, [2, 2, 2, 0, 0, 0]);
    let mut lid = [0u8; 5];
    score_and_move_floor_tiles(&mut board, &mut lid);
    assert_eq!(board.score, 8);
    assert_eq!(lid, [2, 2, 2, 0, 0]);
    assert_eq!(board.floor_tiles, [0; 6]);
}

#[test]
fn floor_penalty_grows_by_the_schedule() {
    let expected = [0, 1, 2, 4, 6, 9, 12, 15, 18];
    for tiles in 0..9u8 {
        let mut board = board_with_floor(100, [tiles, 0, 0, 0, 0, 0]);
        let mut lid = [0u8; 5];
        score_and_move_floor_tiles(&mut board, &mut lid);
        assert_eq!(board.score, 100 - expected[tiles as usize]);
        assert_eq!(lid[0], tiles);
    }
}

#[test]
fn floor_penalty_does_not_go_below_zero() {
    let mut board = board_with_floor(5, [1, 1, 1, 1, 1, 1]);
    let mut lid = [3u8, 0, 0, 0, 7];
    score_and_move_floor_tiles(&mut board, &mut lid);
    assert_eq!(board.score, 0);
    assert_eq!(lid, [4, 1, 1, 1, 8]);
}

#[test]
fn marker_counts_for_the_penalty_and_stays_on_the_floor() {
    let mut board = board_with_floor(10, [0, 0, 0, 0, 0, 1]);
    let mut lid = [0u8; 5];
    score_and_move_floor_tiles(&mut board, &mut lid);
    assert_eq!(board.score, 9);
    assert_eq!(board.floor_tiles, [0, 0, 0, 0, 0, 1]);
    assert_eq!(lid, [0; 5]);
}

#[test]
fn many_floor_tiles_have_no_cap() {
    let mut board = board_with_floor(200, [20, 20, 20, 0, 0, 1]);
    let mut lid = [0u8; 5];
    score_and_move_floor_tiles(&mut board, &mut lid);
    assert_eq!(board.score, 200 - (3 * 61 - 6));
    assert_eq!(lid, [20, 20, 20, 0, 0]);
}

#[test]
fn full_lines_move_to_the_wall() {
    let mut board = inital_player_state();
    board.rows[0] = Row { color: 2, count: 1 };
    board.rows[1] = Row { color: 1, count: 2 };
    board.rows[3] = Row { color: 4, count: 3 };
    let mut lid = [0u8; 5];
    tile_full_lines(&mut board, &mut lid);
    assert!(board.wall_state[0][2]);
    assert!(board.wall_state[1][2]);
    assert!(!board.wall_state[3][2]);
    assert_eq!(board.rows[0], Row { color: 2, count: 0 });
    assert_eq!(board.rows[1], Row { color: 1, count: 0 });
    assert_eq!(board.rows[3], Row { color: 4, count: 3 });
    assert_eq!(lid, [0, 1, 0, 0, 0]);
    assert_eq!(board.score, 1 + 2);
}

#[test]
fn lower_line_scores_with_the_tile_above() {
    let mut board = inital_player_state();
    board.wall_state[1][0] = true;
    board.rows[0] = Row { color: 0, count: 1 };
    board.rows[2] = Row { color: 3, count: 3 };
    let mut lid = [0u8; 5];
    tile_full_lines(&mut board, &mut lid);
    assert!(board.wall_state[0][0]);
    assert!(board.wall_state[2][0]);
    assert_eq!(board.score, 2 + 3);
    assert_eq!(lid, [0, 0, 0, 2, 0]);
}
