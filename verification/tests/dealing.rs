use amarillo::actions::{check_counts, get_valid_actions, has_empty_centre};
use amarillo::game_state::{inital_player_state, CentralState, State};
use amarillo::play::step;
use amarillo::refill::{
    deal_tile, fill_factory_displays, get_random_initial_state, pick_weighted, random_choice,
};
use rand::rngs::StdRng;
use rand::SeedableRng;

fn display_total(state: &State, display: usize) -> u32 {
    state.central_state.central_state_arr[display].iter().map(|count| *count as u32).sum()
}

fn reserve_total(tiles: &[u8; 5]) -> u32 {
    tiles.iter().map(|count| *count as u32).sum()
}

/// A position between rounds: the pool is empty, and the tiles that are
/// neither in `bag` nor in `lid` lie on the floor line of player 0.
fn between_rounds(bag: [u8; 5], lid: [u8; 5]) -> State {
    let mut boards = [inital_player_state(), inital_player_state(), inital_player_state()];
    boards[1].floor_tiles[5] = 1;
    for color in 0..5 {
        boards[0].floor_tiles[color] = 20 - bag[color] - lid[color];
    }
    State {
        board_states: boards,
        central_state: CentralState { central_state_arr: [[0; 6]; 8] },
        player_to_play: 1,
        bag,
        lid,
        is_finished: false,
        player_scores: [0; 3],
    }
}

#[test]
fn ticket_draws_the_colour_it_falls_on() {
    let weights = [2u8, 0, 3, 1, 4];
    let expected = [0, 0, 2, 2, 2, 3, 4, 4, 4, 4];
    for ticket in 0..10u8 {
        assert_eq!(pick_weighted(&weights, ticket), expected[ticket as usize]);
    }
    assert_eq!(pick_weighted(&[0, 0, 0, 0, 1], 0), 4);
    assert_eq!(pick_weighted(&[0, 5, 0, 0, 0], 4), 1);
}

#[test]
fn random_choice_draws_only_colours_in_the_bag() {
    let mut rng = StdRng::seed_from_u64(7);
    for _ in 0..200 {
        assert_eq!(random_choice(&[3, 0, 0, 0, 0], &mut rng), 0);
        assert_eq!(random_choice(&[0, 0, 1, 0, 0], &mut rng), 2);
        let drawn = random_choice(&[0, 4, 0, 9, 0], &mut rng);
        assert!(drawn == 1 || drawn == 3);
    }
}

#[test]
fn random_choice_reaches_every_colour() {
    let mut rng = StdRng::seed_from_u64(11);
    let mut seen = [0u32; 5];
    for _ in 0..2000 {
        seen[random_choice(&[20, 20, 20, 20, 20], &mut rng)] += 1;
    }
    for count in seen.iter() {
        assert!(*count > 200);
    }
}

#[test]
fn dealing_one_tile_moves_it_from_bag_to_display() {
    let mut state = between_rounds([20, 20, 20, 20, 20], [0; 5]);
    deal_tile(&mut state, 3, 2);
    assert_eq!(state.bag, [20, 20, 19, 20, 20]);
    assert_eq!(state.central_state.central_state_arr[3], [0, 0, 1, 0, 0, 0]);
    assert!(check_counts(&state));
}

#[test]
fn initial_state_is_the_documented_deal() {
    let mut rng = StdRng::seed_from_u64(1);
    let state = get_random_initial_state(&mut rng);
    assert!(state.is_well_formed());
    assert_eq!(state.player_to_play, 0);
    assert!(!state.is_finished);
    assert_eq!(state.player_scores, [0; 3]);
    assert_eq!(state.lid, [0; 5]);
    assert_eq!(reserve_total(&state.bag), 72);
    for display in 0..7 {
        assert_eq!(display_total(&state, display), 4);
        assert_eq!(state.central_state.central_state_arr[display][5], 0);
    }
    assert_eq!(display_total(&state, 7), 0);
    let mut marker_board = inital_player_state();
    marker_board.floor_tiles[5] = 1;
    assert_eq!(state.board_states[0], marker_board);
    assert_eq!(state.board_states[1], inital_player_state());
    assert_eq!(state.board_states[2], inital_player_state());
    for color in 0..5 {
        let in_pool: u32 =
            (0..8).map(|d| state.central_state.central_state_arr[d][color] as u32).sum();
        assert_eq!(state.bag[color] as u32 + in_pool, 20);
    }
}

#[test]
fn different_seeds_give_different_deals() {
    let first = get_random_initial_state(&mut StdRng::seed_from_u64(1));
    let mut differs = false;
    for seed in 2..20 {
        let other = get_random_initial_state(&mut StdRng::seed_from_u64(seed));
        if other.central_state != first.central_state {
            differs = true;
        }
    }
    assert!(differs);
}

#[test]
fn refill_pours_the_lid_when_the_bag_runs_out() {
    let mut state = between_rounds([1, 2, 0, 0, 0], [10, 10, 10, 0, 0]);
    assert!(state.is_well_formed());
    let before = state;
    fill_factory_displays(&mut state, &mut StdRng::seed_from_u64(3));
    assert!(state.is_well_formed());
    for display in 0..7 {
        assert_eq!(display_total(&state, display), 4);
    }
    assert_eq!(display_total(&state, 7), 0);
    assert_eq!(state.lid, [0; 5]);
    assert_eq!(reserve_total(&state.bag), 33 - 28);
    assert_eq!(state.board_states, before.board_states);
    assert_eq!(state.player_to_play, before.player_to_play);
}

#[test]
fn refill_keeps_the_lid_when_the_bag_suffices() {
    let mut state = between_rounds([10, 10, 8, 0, 0], [1, 2, 3, 4, 5]);
    fill_factory_displays(&mut state, &mut StdRng::seed_from_u64(5));
    assert_eq!(state.lid, [1, 2, 3, 4, 5]);
    assert_eq!(reserve_total(&state.bag), 0);
    for display in 0..7 {
        assert_eq!(display_total(&state, display), 4);
    }
    assert!(state.is_well_formed());
}

#[test]
fn refill_deals_what_there_is() {
    let mut state = between_rounds([3, 0, 0, 0, 0], [0, 4, 0, 0, 2]);
    fill_factory_displays(&mut state, &mut StdRng::seed_from_u64(9));
    let expected = [4, 4, 1, 0, 0, 0, 0, 0];
    for display in 0..8 {
        assert_eq!(display_total(&state, display), expected[display]);
    }
    assert_eq!(state.bag, [0; 5]);
    assert_eq!(state.lid, [0; 5]);
    assert!(state.is_well_formed());

    let mut nothing = between_rounds([0; 5], [0; 5]);
    let before = nothing;
    fill_factory_displays(&mut nothing, &mut StdRng::seed_from_u64(9));
    assert_eq!(nothing, before);
}

#[test]
fn first_move_of_a_game_keeps_every_tile() {
    for seed in 0..5 {
        let state = get_random_initial_state(&mut StdRng::seed_from_u64(seed));
        for action in get_valid_actions(&state) {
            let (next, round_ended) = step(state, action, true);
            assert!(!round_ended);
            assert!(check_counts(&next));
            assert!(next.is_well_formed());
            // Player 0 has acted: the marker has left the floor line.
            assert_eq!(next.board_states[0].floor_tiles[5], 0);
            assert_eq!(next.central_state.central_state_arr[7][5], 1);
            assert_eq!(next.board_states[1], state.board_states[1]);
            assert_eq!(next.board_states[2], state.board_states[2]);
            assert_eq!(next.player_to_play, 1);
        }
    }
}

#[test]
fn whole_games_keep_every_tile() {
    for seed in 0..4u64 {
        let mut rng = StdRng::seed_from_u64(seed);
        let mut state = get_random_initial_state(&mut rng);
        let mut moves = 0;
        let mut rounds = 0;
        while !state.is_finished && rounds < 40 {
            let actions = get_valid_actions(&state);
            if actions.is_empty() {
                break;
            }
            // Prefer pattern lines, so that walls fill and the game ends.
            let action = actions[(moves * 7 + seed as usize) % actions.len()];
            let wall_before: Vec<[[bool; 5]; 5]> =
                state.board_states.iter().map(|board| board.wall_state).collect();
            let (next, round_ended) = step(state, action, true);
            assert!(check_counts(&next));
            assert!(next.is_well_formed());
            for (player, board) in next.board_states.iter().enumerate() {
                assert!(board.score >= 0);
                for row in 0..5 {
                    assert!(board.rows[row].count as usize <= row + 1);
                    for col in 0..5 {
                        if wall_before[player][row][col] {
                            assert!(board.wall_state[row][col]);
                        }
                    }
                }
            }
            state = next;
            moves += 1;
            if round_ended {
                rounds += 1;
                assert!(has_empty_centre(&state));
                for board in state.board_states.iter() {
                    assert_eq!(&board.floor_tiles[0..5], &[0u8; 5][..]);
                }
                if !state.is_finished {
                    fill_factory_displays(&mut state, &mut rng);
                    assert!(state.is_well_formed());
                }
            }
        }
        assert!(moves > 0);
    }
}
