use amarillo::actions::get_valid_actions;
use amarillo::game_state::{inital_player_state, Action, CentralState, State, FULL_SHARE};
use amarillo::mcts::{
    attach, choose_mcts_action, choose_random_action, create_state_tree, highest_score_action,
    highest_score_edge, mcts_backprop, playout, ActionTree, Progress, Search, StateTree,
};
use amarillo::play::step;
use amarillo::value_fns::ValueFunction;

struct Fixed([i32; 3]);

impl ValueFunction for Fixed {
    fn get_in_progress_value(&mut self, _state: &State) -> [i32; 3] {
        self.0
    }
}

/// Values a position by the scores on the boards.
struct ByScore;

impl ValueFunction for ByScore {
    fn get_in_progress_value(&mut self, state: &State) -> [i32; 3] {
        [
            state.board_states[0].score * 1000,
            state.board_states[1].score * 1000,
            state.board_states[2].score * 1000,
        ]
    }
}

fn two_tile_round() -> State {
    let mut boards = [inital_player_state(), inital_player_state(), inital_player_state()];
    boards[0].floor_tiles[5] = 1;
    let mut pool = [[0u8; 6]; 8];
    pool[0] = [1, 1, 0, 0, 0, 0];
    State {
        board_states: boards,
        central_state: CentralState { central_state_arr: pool },
        player_to_play: 0,
        bag: [19, 19, 20, 20, 20],
        lid: [0; 5],
        is_finished: false,
        player_scores: [0; 3],
    }
}

fn finished_position() -> State {
    let mut state = two_tile_round();
    state.central_state.central_state_arr[0] = [0; 6];
    state.bag = [20; 5];
    state.is_finished = true;
    state.player_scores = [FULL_SHARE / 2, 0, FULL_SHARE / 2];
    state
}

fn edge(num_plays: u32, score_sum: i64) -> ActionTree {
    ActionTree {
        action: Action { display_number: 0, color: 0, row_id: 0 },
        num_plays,
        score_sum,
        post_state: None,
    }
}

fn node_with(edges: Vec<ActionTree>) -> StateTree {
    StateTree { state: two_tile_round(), num_plays: 0, actions: edges, parent: None }
}

/// Checks the visit counts of every node and edge.
fn assert_counts(search: &Search) {
    for index in 0..search.node_count() {
        let node = search.node(index).unwrap();
        assert!(node.state.is_well_formed());
        let listed = get_valid_actions(&node.state);
        assert_eq!(node.actions.len(), listed.len());
        let mut edge_plays: u64 = 0;
        for (i, edge) in node.actions.iter().enumerate() {
            assert_eq!(edge.action, listed[i]);
            edge_plays += edge.num_plays as u64;
            match edge.post_state {
                Some(child_index) => {
                    let child = search.node(child_index).unwrap();
                    assert_eq!(child.parent, Some((index, i)));
                    assert_eq!(child.state, step(node.state, edge.action, true).0);
                    assert!(edge.num_plays >= 1);
                    if child.actions.is_empty() {
                        assert_eq!(child.num_plays, 0);
                    } else {
                        assert_eq!(edge.num_plays, child.num_plays + 1);
                    }
                }
                None => {
                    assert_eq!(edge.num_plays, 0);
                    assert_eq!(edge.score_sum, 0);
                }
            }
        }
        assert_eq!(node.num_plays as u64, edge_plays);
    }
    assert!(search.node(search.node_count()).is_none());
    assert_eq!(search.root().parent, None);
}

#[test]
fn new_node_has_a_fresh_edge_for_each_action() {
    let state = two_tile_round();
    let node = create_state_tree(state);
    assert_eq!(node.state, state);
    assert_eq!(node.num_plays, 0);
    assert_eq!(node.parent, None);
    let listed = get_valid_actions(&state);
    assert_eq!(node.actions.len(), 12);
    for (i, edge) in node.actions.iter().enumerate() {
        assert_eq!(edge.action, listed[i]);
        assert_eq!(edge.num_plays, 0);
        assert_eq!(edge.score_sum, 0);
        assert_eq!(edge.post_state, None);
    }
}

#[test]
fn selection_takes_the_first_of_the_best() {
    let node = node_with(vec![edge(2, 10), edge(4, 28), edge(1, 7), edge(3, 21)]);
    // Means: 5, 7, 7, 7.
    assert_eq!(choose_mcts_action(&node, &vec![0, 0, 0, 0]), Some(1));
    // With a bonus the first edge leads.
    assert_eq!(choose_mcts_action(&node, &vec![3, 0, 0, 0]), Some(0));
    assert_eq!(choose_mcts_action(&node, &vec![2, 0, 0, 0]), Some(0));
    assert_eq!(choose_mcts_action(&node, &vec![1, 0, 0, 0]), Some(1));
    assert_eq!(choose_mcts_action(&node, &vec![0, 0, 0, 1]), Some(3));
    assert_eq!(choose_mcts_action(&node, &vec![0, -1, 0, 0]), Some(2));
}

#[test]
fn selection_compares_means_exactly() {
    // 1/3 against 333_333/1_000_000: the first is greater.
    let node = node_with(vec![edge(1_000_000, 333_333), edge(3, 1)]);
    assert_eq!(choose_mcts_action(&node, &vec![0, 0]), Some(1));
    let large = node_with(vec![
        edge(u32::MAX, i64::MAX),
        edge(u32::MAX, i64::MAX - 1),
        edge(u32::MAX, i64::MIN),
    ]);
    assert_eq!(choose_mcts_action(&large, &vec![i32::MAX, i32::MAX, i32::MAX]), Some(0));
    assert_eq!(choose_mcts_action(&large, &vec![i32::MIN, i32::MAX, i32::MAX]), Some(1));
    let negative = node_with(vec![edge(2, -9), edge(4, -17), edge(0, 0)]);
    assert_eq!(choose_mcts_action(&negative, &vec![0, 0, -5]), Some(1));
    assert_eq!(choose_mcts_action(&negative, &vec![0, 0, 0]), Some(2));
}

#[test]
fn selection_finds_nothing_without_edges() {
    let node = node_with(Vec::new());
    assert_eq!(choose_mcts_action(&node, &Vec::new()), None);
}

#[test]
fn unvisited_edges_have_mean_zero() {
    let node = node_with(vec![edge(0, 0), edge(2, -4), edge(0, 0), edge(5, 1)]);
    assert_eq!(highest_score_edge(&node), 3);
    let below = node_with(vec![edge(3, -1), edge(0, 0), edge(0, 0)]);
    assert_eq!(highest_score_edge(&below), 1);
}

#[test]
fn highest_score_wins_not_most_visits() {
    let mut edges = vec![edge(100, 100), edge(2, 8), edge(50, 199)];
    edges[1].action = Action { display_number: 3, color: 2, row_id: 4 };
    let node = node_with(edges);
    assert_eq!(highest_score_edge(&node), 1);
    assert_eq!(highest_score_action(&node), Action { display_number: 3, color: 2, row_id: 4 });
}

#[test]
fn random_action_is_a_valid_one() {
    let state = two_tile_round();
    let listed = get_valid_actions(&state);
    for _ in 0..100 {
        let action = choose_random_action(&state).unwrap();
        assert!(listed.contains(&action));
    }
    assert_eq!(choose_random_action(&finished_position()), None);
}

#[test]
fn random_action_reaches_every_valid_one() {
    let state = two_tile_round();
    let listed = get_valid_actions(&state);
    let mut seen = vec![false; listed.len()];
    for _ in 0..2000 {
        let action = choose_random_action(&state).unwrap();
        let index = listed.iter().position(|other| *other == action).unwrap();
        seen[index] = true;
    }
    assert!(seen.iter().all(|hit| *hit));
}

#[test]
fn playout_stops_at_the_round_boundary() {
    for _ in 0..50 {
        let end = playout(two_tile_round());
        assert!(end.is_well_formed());
        assert!(get_valid_actions(&end).is_empty());
        // Two tiles: the round ends with the second move, or the marker
        // is left alone in the centre.
        assert!(end.player_to_play == 2 || end.board_states[1].floor_tiles[5] == 1
            || end.board_states[2].floor_tiles[5] == 1 || end.board_states[0].floor_tiles[5] == 1);
    }
    let done = finished_position();
    assert_eq!(playout(done), done);
}

#[test]
fn attach_makes_the_child_of_an_edge() {
    let state = two_tile_round();
    let mut nodes = vec![create_state_tree(state)];
    let child = attach(&mut nodes, 0, 4);
    assert_eq!(child, 1);
    assert_eq!(nodes.len(), 2);
    assert_eq!(nodes[0].actions[4].post_state, Some(1));
    assert_eq!(nodes[0].actions[4].num_plays, 0);
    assert_eq!(nodes[1].parent, Some((0, 4)));
    assert_eq!(nodes[1].state, step(state, nodes[0].actions[4].action, true).0);
    assert_eq!(nodes[1].num_plays, 0);
    assert_eq!(nodes[1].actions.len(), get_valid_actions(&nodes[1].state).len());
}

#[test]
fn backprop_counts_every_node_on_the_way_up() {
    let state = two_tile_round();
    let mut nodes = vec![create_state_tree(state)];
    let first = attach(&mut nodes, 0, 0);
    mcts_backprop(&mut nodes, 0, 0, [10, 20, 30]);
    assert_eq!(nodes[0].num_plays, 1);
    assert_eq!(nodes[0].actions[0].num_plays, 1);
    assert_eq!(nodes[0].actions[0].score_sum, 10);
    assert_eq!(nodes[first].num_plays, 0);

    let second = attach(&mut nodes, first, 2);
    mcts_backprop(&mut nodes, first, 2, [1, -2, 3]);
    assert_eq!(nodes[0].num_plays, 2);
    assert_eq!(nodes[0].actions[0].num_plays, 2);
    assert_eq!(nodes[0].actions[0].score_sum, 11);
    assert_eq!(nodes[first].num_plays, 1);
    assert_eq!(nodes[first].actions[2].num_plays, 1);
    // Player 1 moves at the child.
    assert_eq!(nodes[first].actions[2].score_sum, -2);
    assert_eq!(nodes[second].num_plays, 0);
    for (i, edge) in nodes[0].actions.iter().enumerate() {
        if i != 0 {
            assert_eq!(edge.num_plays, 0);
            assert_eq!(edge.score_sum, 0);
        }
    }
}

#[test]
fn new_search_is_the_root_alone() {
    let state = two_tile_round();
    let search = Search::new(state);
    assert_eq!(search.node_count(), 1);
    assert_eq!(search.cursor(), 0);
    assert_eq!(search.root().state, state);
    assert_eq!(search.current().state, state);
    assert_eq!(search.root().num_plays, 0);
    assert_counts(&search);
    // All means are zero: the first action stands.
    assert_eq!(search.best_action(), Some(get_valid_actions(&state)[0]));
}

#[test]
fn first_step_expands_the_first_edge() {
    let search = Search::new(two_tile_round());
    let (search, progress) = search.advance(&vec![0; 12], &mut Fixed([5, 6, 7]));
    assert_eq!(progress, Progress::Evaluated([5, 6, 7]));
    assert_eq!(search.cursor(), 0);
    assert_eq!(search.node_count(), 2);
    assert_eq!(search.root().num_plays, 1);
    assert_eq!(search.root().actions[0].num_plays, 1);
    assert_eq!(search.root().actions[0].score_sum, 5);
    assert_eq!(search.root().actions[0].post_state, Some(1));
    assert_counts(&search);
}

#[test]
fn bonus_steers_the_selection() {
    let search = Search::new(two_tile_round());
    let mut bonuses = vec![0; 12];
    bonuses[7] = 1;
    let (search, progress) = search.advance(&bonuses, &mut Fixed([-3, 0, 0]));
    assert_eq!(progress, Progress::Evaluated([-3, 0, 0]));
    assert_eq!(search.root().actions[7].num_plays, 1);
    assert_eq!(search.root().actions[7].score_sum, -3);
    assert_eq!(search.root().actions[0].num_plays, 0);
    // The visited edge now has a mean below zero: another edge is best.
    assert_eq!(search.best_action(), Some(search.root().actions[0].action));
    assert_counts(&search);
}

#[test]
fn step_descends_into_a_child_that_is_there() {
    let search = Search::new(two_tile_round());
    let mut vf = Fixed([9, 9, 9]);
    let (search, _) = search.advance(&vec![0; 12], &mut vf);
    // Edge 0 has the best mean now; its child is there.
    let (search, progress) = search.advance(&vec![0; 12], &mut vf);
    assert_eq!(progress, Progress::Descended);
    assert_eq!(search.cursor(), 1);
    assert_eq!(search.node_count(), 2);
    assert_eq!(search.root().num_plays, 1);
    let edges_below = search.current().actions.len();
    assert!(edges_below > 0);
    let (search, progress) = search.advance(&vec![0; edges_below], &mut vf);
    assert_eq!(progress, Progress::Evaluated([9, 9, 9]));
    assert_eq!(search.cursor(), 0);
    assert_eq!(search.node_count(), 3);
    assert_eq!(search.root().num_plays, 2);
    assert_eq!(search.root().actions[0].num_plays, 2);
    assert_eq!(search.node(1).unwrap().num_plays, 1);
    assert_counts(&search);
}

#[test]
fn wrong_number_of_bonuses_is_rejected() {
    let search = Search::new(two_tile_round());
    let (search, progress) = search.advance(&vec![0; 11], &mut Fixed([1, 1, 1]));
    assert_eq!(progress, Progress::Rejected);
    assert_eq!(search.node_count(), 1);
    assert_eq!(search.root().num_plays, 0);
    let (search, progress) = search.advance(&Vec::new(), &mut Fixed([1, 1, 1]));
    assert_eq!(progress, Progress::Rejected);
    assert_eq!(search.cursor(), 0);
}

#[test]
fn search_of_a_finished_game_is_exhausted() {
    let search = Search::new(finished_position());
    assert_eq!(search.best_action(), None);
    let (search, progress) = search.advance(&Vec::new(), &mut Fixed([1, 1, 1]));
    assert_eq!(progress, Progress::Exhausted);
    assert_eq!(search.node_count(), 1);
    assert_eq!(search.root().num_plays, 0);
}

#[test]
fn finished_position_is_valued_by_its_shares() {
    let done = finished_position();
    assert_eq!(Fixed([1, 2, 3]).get_value(&done), [FULL_SHARE / 2, 0, FULL_SHARE / 2]);
    assert_eq!(Fixed([1, 2, 3]).get_value(&two_tile_round()), [1, 2, 3]);
    assert_eq!(Fixed([1, 2, 3]).get_in_progress_value(&done), [1, 2, 3]);
}

#[test]
fn visit_counts_add_up_after_many_steps() {
    let mut search = Search::new(two_tile_round());
    let mut vf = ByScore;
    let mut playouts = 0;
    for round in 0..400 {
        let edges = search.current().actions.len();
        let parent_plays = search.current().num_plays;
        let bonuses: Vec<i32> = search
            .current()
            .actions
            .iter()
            .map(|edge| ((parent_plays as i32 + 1) * 500) / (edge.num_plays as i32 + 1))
            .collect();
        assert_eq!(bonuses.len(), edges);
        let (next, progress) = search.advance(&bonuses, &mut vf);
        search = next;
        match progress {
            Progress::Evaluated(_) => {
                playouts += 1;
                assert_eq!(search.cursor(), 0);
            }
            Progress::Descended => assert!(search.cursor() > 0),
            Progress::Exhausted | Progress::Rejected => panic!("step {} did nothing", round),
        }
        if round % 50 == 0 {
            assert_counts(&search);
        }
    }
    assert_counts(&search);
    assert_eq!(search.root().num_plays, playouts);
    assert!(playouts > 100);
    assert!(search.best_action().is_some());
}
