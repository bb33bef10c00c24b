//! Monte Carlo tree search over positions.
//!
//! The tree is an arena of nodes, the root first. Each node holds a
//! position and one edge for each legal action, in the order of the listing
//! of valid actions. An edge counts its visits and sums the values that the
//! visits brought to the player who moves there, so that its mean score is
//! the sum divided by the visits; the mean of an edge without a visit is
//! zero.

use vstd::prelude::*;
use crate::actions::get_valid_actions;
use crate::game_state::{Action, State};
use crate::laws::lemma_step_empties_pool;
use crate::play::step;
use crate::refill::draw_below;
use crate::value_fns::ValueFunction;

verus! {

/// Game tree starting from a particular action.
#[derive(Clone, Copy, Debug)]
pub struct ActionTree {
    /// The action.
    pub action: Action,
    /// The number of playouts in the tree of this action.
    pub num_plays: u32,
    /// The sum of the values of those playouts for the player who acts.
    pub score_sum: i64,
    /// Until a playout has been run from the action, this is None; then the
    /// index of the node that the action leads to.
    pub post_state: Option<usize>,
}

/// Game tree starting from a particular state.
#[derive(Clone, Debug)]
pub struct StateTree {
    /// The state.
    pub state: State,
    /// The number of playouts that have been run from this state.
    pub num_plays: u32,
    /// Actions available.
    pub actions: Vec<ActionTree>,
    /// The node and the edge that lead here; None at the root.
    pub parent: Option<(usize, usize)>,
}

impl ActionTree {
    /// The visits by which the sum is divided: one for an edge without a visit.
    pub open spec fn weight(self) -> int {
        if self.num_plays == 0 {
            1
        } else {
            self.num_plays as int
        }
    }

    /// The mean score plus `bonus`, times the weight.
    pub open spec fn key(self, bonus: int) -> int {
        self.score_sum + bonus * self.weight()
    }

    /// Whether no playout has passed this edge.
    pub open spec fn is_fresh(self) -> bool {
        self.num_plays == 0 && self.score_sum == 0 && self.post_state is None
    }
}

/// Whether the mean score of `a` plus `bonus_a` is greater than the mean
/// score of `b` plus `bonus_b`.
pub open spec fn outranks(a: ActionTree, bonus_a: int, b: ActionTree, bonus_b: int) -> bool {
    a.key(bonus_a) * b.weight() > b.key(bonus_b) * a.weight()
}

/// Whether edge `best` has the greatest mean score plus bonus, and is the
/// first edge that has it.
pub open spec fn is_first_best(edges: Seq<ActionTree>, bonuses: Seq<i32>, best: int) -> bool {
    &&& 0 <= best < edges.len()
    &&& forall|j: int|
        0 <= j < edges.len() ==> !outranks(
            #[trigger] edges[j],
            bonuses[j] as int,
            edges[best],
            bonuses[best] as int,
        )
    &&& forall|j: int|
        0 <= j < best ==> outranks(
            edges[best],
            bonuses[best] as int,
            #[trigger] edges[j],
            bonuses[j] as int,
        )
}

impl StateTree {
    /// Whether the edges are the legal actions of the position, in the
    /// order of the listing.
    pub open spec fn edges_match(self) -> bool {
        &&& self.actions@.len() == self.state.valid_actions().len()
        &&& forall|i: int|
            0 <= i < self.actions@.len() ==> (#[trigger] self.actions@[i]).action
                == self.state.valid_actions()[i]
    }
}

/// A sum over a weight below two to the 64 and a weight below two to the 32
/// stays below two to the 96.
proof fn lemma_key_bounds(sum: int, bonus: int, weight: int, other: int)
    requires
        -0x8000_0000_0000_0000 <= sum < 0x8000_0000_0000_0000,
        -0x8000_0000 <= bonus < 0x8000_0000,
        1 <= weight < 0x1_0000_0000,
        1 <= other < 0x1_0000_0000,
    ensures
        -0x8000_0000_0000_0000 <= bonus * weight <= 0x8000_0000_0000_0000,
        -0x1_0000_0000_0000_0000 <= sum + bonus * weight <= 0x1_0000_0000_0000_0000,
        -0x1_0000_0000_0000_0000_0000_0000 <= (sum + bonus * weight) * other
            <= 0x1_0000_0000_0000_0000_0000_0000,
{
    assert(-0x8000_0000_0000_0000 <= bonus * weight <= 0x8000_0000_0000_0000)
        by (nonlinear_arith)
        requires
            -0x8000_0000 <= bonus < 0x8000_0000,
            1 <= weight < 0x1_0000_0000,
    ;
    let k = sum + bonus * weight;
    assert(-0x1_0000_0000_0000_0000_0000_0000 <= k * other <= 0x1_0000_0000_0000_0000_0000_0000)
        by (nonlinear_arith)
        requires
            -0x1_0000_0000_0000_0000 <= k <= 0x1_0000_0000_0000_0000,
            1 <= other < 0x1_0000_0000,
    ;
}

/// Whether `a` with `bonus_a` outranks `b` with `bonus_b`.
fn ranks_above(a: &ActionTree, bonus_a: i32, b: &ActionTree, bonus_b: i32) -> (above: bool)
    ensures
        above == outranks(*a, bonus_a as int, *b, bonus_b as int),
{
    let weight_a: i128 = if a.num_plays == 0 {
        1
    } else {
        a.num_plays as i128
    };
    let weight_b: i128 = if b.num_plays == 0 {
        1
    } else {
        b.num_plays as i128
    };
    proof {
        lemma_key_bounds(a.score_sum as int, bonus_a as int, weight_a as int, weight_b as int);
        lemma_key_bounds(b.score_sum as int, bonus_b as int, weight_b as int, weight_a as int);
    }
    let key_a: i128 = a.score_sum as i128 + (bonus_a as i128) * weight_a;
    let key_b: i128 = b.score_sum as i128 + (bonus_b as i128) * weight_b;
    key_a * weight_b > key_b * weight_a
}

/// If `a` ranks above `b`, and `c` does not rank above `b`, then `a` ranks
/// above `c`.
proof fn lemma_rank_transitive(
    a_key: int,
    a_weight: int,
    b_key: int,
    b_weight: int,
    c_key: int,
    c_weight: int,
)
    requires
        a_weight > 0,
        b_weight > 0,
        c_weight > 0,
        a_key * b_weight > b_key * a_weight,
        c_key * b_weight <= b_key * c_weight,
    ensures
        a_key * c_weight > c_key * a_weight,
{
    assert((a_key * b_weight) * c_weight > (b_key * a_weight) * c_weight) by (nonlinear_arith)
        requires
            a_key * b_weight > b_key * a_weight,
            c_weight > 0,
    ;
    assert((c_key * b_weight) * a_weight <= (b_key * c_weight) * a_weight) by (nonlinear_arith)
        requires
            c_key * b_weight <= b_key * c_weight,
            a_weight > 0,
    ;
    assert((b_key * a_weight) * c_weight == (b_key * c_weight) * a_weight) by (nonlinear_arith);
    assert((a_key * b_weight) * c_weight == (a_key * c_weight) * b_weight) by (nonlinear_arith);
    assert((c_key * b_weight) * a_weight == (c_key * a_weight) * b_weight) by (nonlinear_arith);
    assert(a_key * c_weight > c_key * a_weight) by (nonlinear_arith)
        requires
            (a_key * c_weight) * b_weight > (c_key * a_weight) * b_weight,
            b_weight > 0,
    ;
}

/// Chooses the edge with the greatest mean score plus bonus for further
/// exploration, the first of them where several are equal. `bonuses` holds
/// the bonus of each edge.
///
/// Returns None exactly when the node has no edge.
pub fn choose_mcts_action(state_tree: &StateTree, bonuses: &Vec<i32>) -> (chosen: Option<usize>)
    requires
        bonuses.len() == state_tree.actions.len(),
    ensures
        chosen is None <==> state_tree.actions@.len() == 0,
        chosen matches Some(best) ==> is_first_best(state_tree.actions@, bonuses@, best as int),
{
    let edges = &state_tree.actions;
    if edges.len() == 0 {
        return None;
    }
    let mut best: usize = 0;
    let mut j: usize = 1;
    while j < edges.len()
        invariant
            1 <= j <= edges.len(),
            bonuses.len() == edges.len(),
            best < j,
            forall|k: int|
                0 <= k < j ==> !outranks(
                    #[trigger] edges@[k],
                    bonuses@[k] as int,
                    edges@[best as int],
                    bonuses@[best as int] as int,
                ),
            forall|k: int|
                0 <= k < best ==> outranks(
                    edges@[best as int],
                    bonuses@[best as int] as int,
                    #[trigger] edges@[k],
                    bonuses@[k] as int,
                ),
        decreases edges.len() - j,
    {
        if ranks_above(&edges[j], bonuses[j], &edges[best], bonuses[best]) {
            proof {
                let a = edges@[j as int];
                let b = edges@[best as int];
                assert forall|k: int| 0 <= k < j implies outranks(
                    a,
                    bonuses@[j as int] as int,
                    #[trigger] edges@[k],
                    bonuses@[k] as int,
                ) by {
                    let c = edges@[k];
                    lemma_rank_transitive(
                        a.key(bonuses@[j as int] as int),
                        a.weight(),
                        b.key(bonuses@[best as int] as int),
                        b.weight(),
                        c.key(bonuses@[k] as int),
                        c.weight(),
                    );
                }
                assert forall|k: int| 0 <= k < j + 1 implies !outranks(
                    #[trigger] edges@[k],
                    bonuses@[k] as int,
                    a,
                    bonuses@[j as int] as int,
                ) by {
                    if k < j {
                        let c = edges@[k];
                        lemma_rank_antisymmetric(
                            a.key(bonuses@[j as int] as int),
                            a.weight(),
                            c.key(bonuses@[k] as int),
                            c.weight(),
                        );
                    }
                }
            }
            best = j;
        }
        j += 1;
    }
    Some(best)
}

/// Of two ranks, not each is above the other.
proof fn lemma_rank_antisymmetric(a_key: int, a_weight: int, c_key: int, c_weight: int)
    requires
        a_key * c_weight > c_key * a_weight,
    ensures
        !(c_key * a_weight > a_key * c_weight),
{
}

/// The bonuses that are all zero.
pub open spec fn no_bonus(len: nat) -> Seq<i32> {
    Seq::new(len, |i: int| 0i32)
}

/// The index of the edge with the highest mean score, the first of them
/// where several are equal.
pub fn highest_score_edge(state_tree: &StateTree) -> (best: usize)
    requires
        state_tree.actions@.len() > 0,
    ensures
        is_first_best(state_tree.actions@, no_bonus(state_tree.actions@.len()), best as int),
{
    let mut bonuses: Vec<i32> = Vec::new();
    let mut i: usize = 0;
    while i < state_tree.actions.len()
        invariant
            i <= state_tree.actions.len(),
            bonuses@ == no_bonus(i as nat),
        decreases state_tree.actions.len() - i,
    {
        bonuses.push(0);
        i += 1;
    }
    match choose_mcts_action(state_tree, &bonuses) {
        Some(best) => best,
        None => 0,
    }
}

/// The action with the highest mean score, the first of them where several
/// are equal.
pub fn highest_score_action(state_tree: &StateTree) -> (action: Action)
    requires
        state_tree.actions@.len() > 0,
    ensures
        exists|best: int|
            is_first_best(state_tree.actions@, no_bonus(state_tree.actions@.len()), best)
                && action == (#[trigger] state_tree.actions@[best]).action,
{
    let best: usize = highest_score_edge(state_tree);
    state_tree.actions[best].action
}

/// A node for `state` that no playout has visited, with one fresh edge for
/// each legal action.
pub fn create_state_tree(state: State) -> (node: StateTree)
    requires
        state.player_to_play < 3,
    ensures
        node.state == state,
        node.num_plays == 0,
        node.parent is None,
        node.edges_match(),
        forall|i: int| 0 <= i < node.actions@.len() ==> (#[trigger] node.actions@[i]).is_fresh(),
{
    let valid_actions: Vec<Action> = get_valid_actions(&state);
    let mut actions: Vec<ActionTree> = Vec::new();
    let mut i: usize = 0;
    while i < valid_actions.len()
        invariant
            i <= valid_actions.len(),
            actions@.len() == i,
            forall|k: int|
                0 <= k < i ==> (#[trigger] actions@[k]).is_fresh() && actions@[k].action
                    == valid_actions@[k],
        decreases valid_actions.len() - i,
    {
        actions.push(
            ActionTree { action: valid_actions[i], num_plays: 0, score_sum: 0, post_state: None },
        );
        i += 1;
    }
    StateTree { state, num_plays: 0, actions, parent: None }
}

/// The generator of random numbers that `rand` keeps for each thread.
#[verifier::external_type_specification]
#[verifier::external_body]
pub struct ExThreadRng(rand::rngs::ThreadRng);

/// Calls `rand::thread_rng()`, which hands out the generator of the
/// current thread.
#[verifier::external_body]
fn thread_generator() -> rand::rngs::ThreadRng {
    rand::thread_rng()
}

/// Picks one of the legal actions at random; None when there is none.
pub fn choose_random_action(state: &State) -> (choice: Option<Action>)
    requires
        state.player_to_play < 3,
    ensures
        choice is None <==> state.valid_actions().len() == 0,
        choice matches Some(action) ==> state.valid_actions().contains(action) && state.legal(
            action,
        ),
{
    let valid_actions: Vec<Action> = get_valid_actions(state);
    if valid_actions.len() == 0 {
        return None;
    }
    let mut rng = thread_generator();
    let rand_idx: usize = draw_below(&mut rng, valid_actions.len());
    let action: Action = valid_actions[rand_idx];
    proof {
        crate::laws::lemma_valid_actions_are_the_legal_ones(*state, action);
    }
    Some(action)
}

/// The position after the moves `moves` have been played in turn.
pub open spec fn played(start: State, moves: Seq<Action>) -> State
    decreases moves.len(),
{
    if moves.len() == 0 {
        start
    } else {
        played(start, moves.drop_last()).after_step(moves.last())
    }
}

/// Whether `action`, played in `state`, empties the pool and so ends the round.
pub open spec fn ends_round(state: State, action: Action) -> bool {
    state.after_draft(action).central_state.is_empty()
}

/// Whether `moves` is a playout from `start`: every move is legal where it
/// is played, and no move but the last ends a round.
pub open spec fn is_playout(start: State, moves: Seq<Action>) -> bool
    decreases moves.len(),
{
    if moves.len() == 0 {
        true
    } else {
        let init = moves.drop_last();
        &&& is_playout(start, init)
        &&& init.len() > 0 ==> !ends_round(played(start, init.drop_last()), init.last())
        &&& played(start, init).legal(moves.last())
    }
}

/// A playout is short: each of its moves takes at least one coloured tile
/// out of the pool, so it has no more moves than the pool held coloured
/// tiles at its start, and every position on its way obeys the invariants.
pub proof fn lemma_playout_is_short(start: State, moves: Seq<Action>)
    requires
        start.well_formed(),
        is_playout(start, moves),
    ensures
        played(start, moves).well_formed(),
        played(start, moves).central_state.colored_count() + moves.len()
            <= start.central_state.colored_count(),
    decreases moves.len(),
{
    if moves.len() > 0 {
        let init = moves.drop_last();
        lemma_playout_is_short(start, init);
        lemma_step_empties_pool(played(start, init), moves.last());
        crate::play::lemma_after_step_well_formed(played(start, init), moves.last());
    }
}

/// Plays random legal moves from `state` until a round ends or no move is
/// left, and returns the position reached.
pub fn playout(state: State) -> (end: State)
    requires
        state.well_formed(),
    ensures
        end.well_formed(),
        end.valid_actions().len() == 0,
        exists|moves: Seq<Action>| #[trigger] is_playout(state, moves) && end == played(state, moves),
{
    let mut current_state: State = state;
    let mut going: bool = true;
    let ghost mut moves: Seq<Action> = Seq::empty();
    while going
        invariant
            current_state.well_formed(),
            is_playout(state, moves),
            current_state == played(state, moves),
            going ==> (moves.len() > 0 ==> !ends_round(
                played(state, moves.drop_last()),
                moves.last(),
            )),
            !going ==> current_state.valid_actions().len() == 0,
        decreases
                if going {
                    current_state.central_state.colored_count() + 1
                } else {
                    0
                },
    {
        match choose_random_action(&current_state) {
            Some(action) => {
                let ghost before = current_state;
                proof {
                    lemma_step_empties_pool(before, action);
                }
                let result = step(current_state, action, true);
                current_state = result.0;
                proof {
                    let longer = moves.push(action);
                    assert(longer.drop_last() =~= moves);
                    moves = longer;
                }
                if result.1 {
                    proof {
                        lemma_empty_pool_no_actions(current_state);
                    }
                    going = false;
                }
            },
            None => {
                going = false;
            },
        }
    }
    current_state
}

/// With nothing in the pool there is no move.
pub proof fn lemma_empty_pool_no_actions(s: State)
    requires
        s.central_state.is_empty(),
    ensures
        s.valid_actions().len() == 0,
{
    let v = s.valid_actions();
    if v.len() > 0 {
        let a = v[0];
        crate::laws::lemma_valid_actions_are_the_legal_ones(s, a);
    }
}

/// What a node holds, for use in specifications.
pub struct NodeView {
    pub state: State,
    pub num_plays: int,
    pub edges: Seq<ActionTree>,
    pub parent: Option<(int, int)>,
}

impl View for StateTree {
    type V = NodeView;

    open spec fn view(&self) -> NodeView {
        NodeView {
            state: self.state,
            num_plays: self.num_plays as int,
            edges: self.actions@,
            parent: match self.parent {
                Some((node, edge)) => Some((node as int, edge as int)),
                None => None,
            },
        }
    }
}

/// The nodes of an arena, each by its view.
pub open spec fn tree_view(nodes: Seq<StateTree>) -> Seq<NodeView> {
    Seq::new(nodes.len(), |k: int| nodes[k]@)
}

/// The visits of the edges `0..n` together.
pub open spec fn plays_below(edges: Seq<ActionTree>, n: int) -> int
    decreases n,
{
    if n <= 0 {
        0
    } else {
        plays_below(edges, n - 1) + edges[n - 1].num_plays
    }
}

/// An edge without a child has no visit, and the sum of an edge is within
/// what its visits can have brought.
pub open spec fn edge_ok(edge: ActionTree) -> bool {
    &&& -0x8000_0000 * edge.num_plays <= edge.score_sum <= 0x8000_0000 * edge.num_plays
    &&& edge.post_state is None ==> edge.num_plays == 0
}

/// The node holds a position that play can reach, one edge for each legal
/// action, and as many visits as its edges together.
pub open spec fn node_ok(node: NodeView) -> bool {
    &&& node.state.well_formed()
    &&& node.edges.len() == node.state.valid_actions().len()
    &&& forall|i: int|
        0 <= i < node.edges.len() ==> (#[trigger] node.edges[i]).action
            == node.state.valid_actions()[i]
    &&& node.num_plays == plays_below(node.edges, node.edges.len() as int)
    &&& forall|i: int| 0 <= i < node.edges.len() ==> edge_ok(#[trigger] node.edges[i])
}

/// How the visits of an edge go with those of its child. The edge has one
/// visit more than a child with edges, the first visit being the playout
/// that made the child; a child without edges is never visited itself.
///
/// While a playout is being recorded two nodes may stand otherwise: the
/// child just made, whose edge has no visit yet (`fresh`), and the child
/// that has its visit already while its edge has not (`owed`).
pub open spec fn counts_linked(edge_plays: int, child: NodeView, owed: bool, fresh: bool) -> bool {
    if fresh {
        edge_plays == 0 && child.num_plays == 0
    } else if owed {
        child.edges.len() > 0 && child.num_plays >= 1 && edge_plays == child.num_plays
    } else if child.edges.len() > 0 {
        edge_plays == child.num_plays + 1
    } else {
        child.num_plays == 0 && edge_plays >= 1
    }
}

/// Node `c` hangs on the edge that its parent link names: the edge leads to
/// it, its position is the one that the edge's action gives, and the
/// visits go together.
pub open spec fn link_holds(tree: Seq<NodeView>, c: int, pending: int, fresh: int) -> bool {
    match tree[c].parent {
        Some((n, i)) => {
            &&& 0 <= n < c
            &&& 0 <= i < tree[n].edges.len()
            &&& tree[n].edges[i].post_state == Some(c as usize)
            &&& tree[c].state == tree[n].state.after_step(tree[n].edges[i].action)
            &&& counts_linked(tree[n].edges[i].num_plays as int, tree[c], c == pending, c == fresh)
        },
        None => false,
    }
}

/// The child of edge `i` of node `n`, if there is one, is a node of the
/// tree and names that edge as its parent.
pub open spec fn child_holds(tree: Seq<NodeView>, n: int, i: int) -> bool {
    match tree[n].edges[i].post_state {
        Some(c) => c < tree.len() && tree[c as int].parent == Some((n, i)),
        None => true,
    }
}

/// The invariant of the tree while a playout is being recorded: node
/// `pending` has its visit but its parent edge has not, and node `fresh`
/// has just been made; each is zero when there is no such node.
pub open spec fn tree_ok_but(tree: Seq<NodeView>, pending: int, fresh: int) -> bool {
    &&& 1 <= tree.len() <= usize::MAX
    &&& tree[0].parent is None
    &&& forall|n: int| 0 <= n < tree.len() ==> node_ok(#[trigger] tree[n])
    &&& forall|c: int| 1 <= c < tree.len() ==> #[trigger] link_holds(tree, c, pending, fresh)
    &&& forall|n: int, i: int|
        0 <= n < tree.len() && 0 <= i < tree[n].edges.len() ==> #[trigger] child_holds(tree, n, i)
}

/// The invariant of the tree between playouts: every node holds a position
/// that play can reach and one edge for each of its legal actions; a
/// node has as many visits as its edges together; and every edge with a
/// child has one visit more than a child with edges.
pub open spec fn tree_ok(tree: Seq<NodeView>) -> bool {
    tree_ok_but(tree, 0, 0)
}

/// The edge after one more visit that brought `sample`.
pub open spec fn visited_edge(edge: ActionTree, sample: int) -> ActionTree {
    ActionTree {
        action: edge.action,
        num_plays: (edge.num_plays + 1) as u32,
        score_sum: (edge.score_sum + sample) as i64,
        post_state: edge.post_state,
    }
}

/// The node after one more visit, through edge `i`, that brought `sample`.
pub open spec fn visited(node: NodeView, i: int, sample: int) -> NodeView {
    NodeView {
        state: node.state,
        num_plays: node.num_plays + 1,
        edges: node.edges.update(i, visited_edge(node.edges[i], sample)),
        parent: node.parent,
    }
}

/// The tree after a playout through edge `i` of node `n` has been recorded:
/// that node and every node above it, up to the root, has one more visit,
/// and so has the edge by which the playout left each of them; the sum of
/// each such edge has grown by the value for the player who moves there.
pub open spec fn backed_up(tree: Seq<NodeView>, n: int, i: int, scores: [i32; 3]) -> Seq<NodeView>
    decreases n,
{
    let sample = scores[tree[n].state.player_to_play as int] as int;
    let here = tree.update(n, visited(tree[n], i, sample));
    match tree[n].parent {
        Some((p, j)) => if 0 <= p < n {
            backed_up(here, p, j, scores)
        } else {
            here
        },
        None => here,
    }
}

/// One more visit of an edge is one more visit among the edges.
proof fn lemma_plays_below_update(edges: Seq<ActionTree>, i: int, edge: ActionTree, n: int)
    requires
        0 <= i < edges.len(),
        0 <= n <= edges.len(),
    ensures
        plays_below(edges.update(i, edge), n) == plays_below(edges, n) + if i < n {
            edge.num_plays - edges[i].num_plays
        } else {
            0
        },
    decreases n,
{
    if n > 0 {
        lemma_plays_below_update(edges, i, edge, n - 1);
    }
}

/// No edge has more visits than the edges together.
proof fn lemma_plays_below_bound(edges: Seq<ActionTree>, i: int, n: int)
    requires
        0 <= i < n <= edges.len(),
    ensures
        edges[i].num_plays <= plays_below(edges, n),
        0 <= plays_below(edges, n),
    decreases n,
{
    lemma_plays_below_nonnegative(edges, n - 1);
    if i < n - 1 {
        lemma_plays_below_bound(edges, i, n - 1);
    }
}

proof fn lemma_plays_below_nonnegative(edges: Seq<ActionTree>, n: int)
    ensures
        0 <= plays_below(edges, n),
    decreases n,
{
    if n > 0 {
        lemma_plays_below_nonnegative(edges, n - 1);
    }
}

/// No node has more visits than the root.
pub proof fn lemma_plays_bounded(tree: Seq<NodeView>, fresh: int, n: int)
    requires
        tree_ok_but(tree, 0, fresh),
        0 <= n < tree.len(),
    ensures
        0 <= tree[n].num_plays <= tree[0].num_plays,
    decreases n,
{
    lemma_plays_below_nonnegative(tree[n].edges, tree[n].edges.len() as int);
    if n > 0 {
        assert(link_holds(tree, n, 0, fresh));
        let (p, i) = tree[n].parent->Some_0;
        lemma_plays_bounded(tree, fresh, p);
        lemma_plays_below_bound(tree[p].edges, i, tree[p].edges.len() as int);
    }
}

/// Whether a playout may be recorded through edge `i` of node `n`: the edge
/// leads to a child, and the child is either the one just made or has no
/// edges.
pub open spec fn is_leaf_edge(tree: Seq<NodeView>, n: int, i: int, fresh: int) -> bool {
    &&& 0 <= n < tree.len()
    &&& 0 <= i < tree[n].edges.len()
    &&& tree[n].edges[i].post_state matches Some(c) && (c == fresh || (fresh == 0
        && tree[c as int].edges.len() == 0))
}

/// Recording a visit at one node keeps the invariant, and leaves that node
/// owed the visit of its parent edge.
pub proof fn lemma_visit_step(
    tree: Seq<NodeView>,
    n: int,
    i: int,
    sample: int,
    pending: int,
    fresh: int,
)
    requires
        tree_ok_but(tree, pending, fresh),
        0 <= n < tree.len(),
        0 <= i < tree[n].edges.len(),
        tree[n].edges[i].post_state is Some,
        ({
            let c = tree[n].edges[i].post_state->Some_0 as int;
            &&& pending == 0 || pending == c
            &&& fresh == 0 || fresh == c
            &&& pending == 0 || fresh == 0
            &&& (pending == 0 && fresh == 0) ==> tree[c].edges.len() == 0
        }),
        -0x8000_0000 <= sample < 0x8000_0000,
        tree[n].num_plays < u32::MAX,
    ensures
        tree[n].edges[i].num_plays < u32::MAX,
        tree_ok_but(tree.update(n, visited(tree[n], i, sample)), n, 0),
{
    let old_node = tree[n];
    let new_node = visited(old_node, i, sample);
    let after = tree.update(n, new_node);
    assert(child_holds(tree, n, i));
    lemma_plays_below_bound(old_node.edges, i, old_node.edges.len() as int);
    lemma_plays_below_update(
        old_node.edges,
        i,
        visited_edge(old_node.edges[i], sample),
        old_node.edges.len() as int,
    );
    assert(node_ok(new_node)) by {
        assert forall|k: int| 0 <= k < new_node.edges.len() implies edge_ok(
            #[trigger] new_node.edges[k],
        ) && new_node.edges[k].action == new_node.state.valid_actions()[k] by {}
    }
    assert forall|m: int| 0 <= m < after.len() implies node_ok(#[trigger] after[m]) by {}
    assert forall|x: int| 1 <= x < after.len() implies #[trigger] link_holds(after, x, n, 0) by {
        assert(link_holds(tree, x, pending, fresh));
        let (p, j) = tree[x].parent->Some_0;
        if x == n {
        } else if p == n && j == i {
        }
    }
    assert forall|m: int, k: int|
        0 <= m < after.len() && 0 <= k < after[m].edges.len() implies #[trigger] child_holds(
        after,
        m,
        k,
    ) by {
        assert(child_holds(tree, m, k));
    }
}

/// The child that edge `i` of node `n` leads to if the edge has no visit
/// yet, the child then being just made; zero otherwise.
pub open spec fn fresh_child(tree: Seq<NodeView>, n: int, i: int) -> int {
    if tree[n].edges[i].num_plays == 0 && tree[n].edges[i].post_state is Some {
        tree[n].edges[i].post_state->Some_0 as int
    } else {
        0
    }
}

/// Records a playout that left the tree through edge `edge` of node `node`
/// and was valued at `scores`: that node and every node above it gets one
/// more visit, and so does the edge by which the playout left each of them;
/// the sum of each such edge grows by the value for the player who moves
/// there.
pub fn mcts_backprop(nodes: &mut Vec<StateTree>, node: usize, edge: usize, scores: [i32; 3])
    requires
        tree_ok_but(
            tree_view(old(nodes)@),
            0,
            fresh_child(tree_view(old(nodes)@), node as int, edge as int),
        ),
        is_leaf_edge(
            tree_view(old(nodes)@),
            node as int,
            edge as int,
            fresh_child(tree_view(old(nodes)@), node as int, edge as int),
        ),
        old(nodes)@[0].num_plays < u32::MAX,
    ensures
        tree_view(final(nodes)@) == backed_up(
            tree_view(old(nodes)@),
            node as int,
            edge as int,
            scores,
        ),
        tree_ok(tree_view(final(nodes)@)),
{
    let ghost start = tree_view(nodes@);
    let ghost target = backed_up(start, node as int, edge as int, scores);
    let ghost first_fresh = fresh_child(start, node as int, edge as int);
    let ghost mut pending: int = 0;
    let ghost mut fresh: int = first_fresh;
    let mut n: usize = node;
    let mut i: usize = edge;
    let mut done: bool = false;
    proof {
        assert(child_holds(start, n as int, i as int));
    }
    while !done
        invariant
            nodes@.len() == start.len(),
            tree_ok_but(start, 0, first_fresh),
            start[0].num_plays < u32::MAX,
            done ==> tree_view(nodes@) == target && tree_ok(tree_view(nodes@)),
            !done ==> ({
                let tree = tree_view(nodes@);
                &&& tree_ok_but(tree, pending, fresh)
                &&& n < tree.len()
                &&& i < tree[n as int].edges.len()
                &&& tree[n as int].edges[i as int].post_state is Some
                &&& ({
                    let c = tree[n as int].edges[i as int].post_state->Some_0 as int;
                    &&& pending == 0 || pending == c
                    &&& fresh == 0 || fresh == c
                    &&& pending == 0 || fresh == 0
                    &&& (pending == 0 && fresh == 0) ==> tree[c].edges.len() == 0
                })
                &&& forall|m: int| 0 <= m <= n ==> #[trigger] tree[m] == start[m]
                &&& backed_up(tree, n as int, i as int, scores) == target
            }),
        decreases
                if done {
                    0
                } else {
                    n + 1
                },
    {
        let ghost tree = tree_view(nodes@);
        proof {
            lemma_plays_bounded(start, first_fresh, n as int);
            lemma_visit_step(
                tree,
                n as int,
                i as int,
                scores[tree[n as int].state.player_to_play as int] as int,
                pending,
                fresh,
            );
        }
        let player: usize = nodes[n].state.player_to_play as usize;
        let sample: i32 = scores[player];
        nodes[n].num_plays += 1;
        nodes[n].actions[i].num_plays += 1;
        nodes[n].actions[i].score_sum += sample as i64;
        let ghost after = tree.update(n as int, visited(tree[n as int], i as int, sample as int));
        proof {
            assert(nodes@[n as int]@.edges =~= visited(tree[n as int], i as int, sample as int).edges);
            assert(tree_view(nodes@) =~= after);
        }
        match nodes[n].parent {
            Some((p, j)) => {
                proof {
                    assert(link_holds(tree, n as int, pending, fresh));
                    pending = n as int;
                    fresh = 0;
                }
                n = p;
                i = j;
            },
            None => {
                proof {
                    if n != 0 {
                        assert(link_holds(tree, n as int, pending, fresh));
                    }
                }
                done = true;
            },
        }
    }
}

/// A node for `state` that no playout has visited, hanging on edge `i` of
/// node `n`.
pub open spec fn fresh_node(state: State, n: int, i: int) -> NodeView {
    NodeView {
        state,
        num_plays: 0,
        edges: Seq::new(
            state.valid_actions().len(),
            |k: int|
                ActionTree {
                    action: state.valid_actions()[k],
                    num_plays: 0,
                    score_sum: 0,
                    post_state: None,
                },
        ),
        parent: Some((n, i)),
    }
}

/// The tree with a new last node, for the position that the action of edge
/// `i` of node `n` gives, and with that edge leading to it.
pub open spec fn attached(tree: Seq<NodeView>, n: int, i: int) -> Seq<NodeView> {
    let edge = tree[n].edges[i];
    let child_state = tree[n].state.after_step(edge.action);
    tree.update(
        n,
        NodeView {
            state: tree[n].state,
            num_plays: tree[n].num_plays,
            edges: tree[n].edges.update(
                i,
                ActionTree {
                    action: edge.action,
                    num_plays: edge.num_plays,
                    score_sum: edge.score_sum,
                    post_state: Some(tree.len() as usize),
                },
            ),
            parent: tree[n].parent,
        },
    ).push(fresh_node(child_state, n, i))
}

/// A node that no playout has visited obeys the invariant of a node.
proof fn lemma_fresh_node_ok(state: State, n: int, i: int)
    requires
        state.well_formed(),
    ensures
        node_ok(fresh_node(state, n, i)),
{
    let node = fresh_node(state, n, i);
    lemma_plays_below_zero(node.edges, node.edges.len() as int);
}

/// The node whose edge `i` now leads to a child obeys the invariant of a
/// node as before.
proof fn lemma_linked_node_ok(node: NodeView, i: int, child: usize)
    requires
        node_ok(node),
        0 <= i < node.edges.len(),
    ensures
        node_ok(
            NodeView {
                state: node.state,
                num_plays: node.num_plays,
                edges: node.edges.update(
                    i,
                    ActionTree {
                        action: node.edges[i].action,
                        num_plays: node.edges[i].num_plays,
                        score_sum: node.edges[i].score_sum,
                        post_state: Some(child),
                    },
                ),
                parent: node.parent,
            },
        ),
{
    let edge = ActionTree {
        action: node.edges[i].action,
        num_plays: node.edges[i].num_plays,
        score_sum: node.edges[i].score_sum,
        post_state: Some(child),
    };
    let edges = node.edges.update(i, edge);
    lemma_plays_below_update(node.edges, i, edge, node.edges.len() as int);
    assert forall|k: int| 0 <= k < edges.len() implies edge_ok(#[trigger] edges[k])
        && edges[k].action == node.state.valid_actions()[k] by {}
}

/// The action of an edge is legal in the position of its node, and the
/// position that it gives can be reached by play.
proof fn lemma_edge_is_legal(node: NodeView, i: int)
    requires
        node_ok(node),
        0 <= i < node.edges.len(),
    ensures
        node.state.legal(node.edges[i].action),
        node.state.after_step(node.edges[i].action).well_formed(),
{
    let action = node.edges[i].action;
    crate::laws::lemma_valid_actions_are_the_legal_ones(node.state, action);
    crate::play::lemma_after_step_well_formed(node.state, action);
}

/// Attaching a child to an edge without one keeps the invariant, the child
/// being the one just made.
pub proof fn lemma_attached(tree: Seq<NodeView>, n: int, i: int)
    requires
        tree_ok(tree),
        tree.len() < usize::MAX,
        0 <= n < tree.len(),
        0 <= i < tree[n].edges.len(),
        tree[n].edges[i].post_state is None,
    ensures
        tree_ok_but(attached(tree, n, i), 0, tree.len() as int),
        is_leaf_edge(attached(tree, n, i), n, i, tree.len() as int),
        fresh_child(attached(tree, n, i), n, i) == tree.len(),
        attached(tree, n, i)[0].num_plays == tree[0].num_plays,
{
    let after = attached(tree, n, i);
    let c = tree.len() as int;
    let edge = tree[n].edges[i];
    let child_state = tree[n].state.after_step(edge.action);
    lemma_edge_is_legal(tree[n], i);
    lemma_fresh_node_ok(child_state, n, i);
    lemma_linked_node_ok(tree[n], i, c as usize);
    assert forall|m: int| 0 <= m < after.len() implies node_ok(#[trigger] after[m]) by {}
    assert forall|x: int| 1 <= x < after.len() implies #[trigger] link_holds(after, x, 0, c) by {
        if x != c {
            assert(link_holds(tree, x, 0, 0));
        }
    }
    assert forall|m: int, k: int|
        0 <= m < after.len() && 0 <= k < after[m].edges.len() implies #[trigger] child_holds(
        after,
        m,
        k,
    ) by {
        if m != c {
            assert(child_holds(tree, m, k));
        }
    }
}

/// Edges without a visit have no visits together.
proof fn lemma_plays_below_zero(edges: Seq<ActionTree>, n: int)
    requires
        0 <= n <= edges.len(),
        forall|k: int| 0 <= k < edges.len() ==> (#[trigger] edges[k]).num_plays == 0,
    ensures
        plays_below(edges, n) == 0,
    decreases n,
{
    if n > 0 {
        lemma_plays_below_zero(edges, n - 1);
    }
}

/// Makes the child of edge `edge` of node `node`, which has none: the new
/// node holds the position that the edge's action gives and is the last of
/// the arena. Returns its index.
pub fn attach(nodes: &mut Vec<StateTree>, node: usize, edge: usize) -> (child: usize)
    requires
        tree_ok(tree_view(old(nodes)@)),
        old(nodes)@.len() < usize::MAX,
        node < old(nodes)@.len(),
        edge < old(nodes)@[node as int].actions@.len(),
        old(nodes)@[node as int].actions@[edge as int].post_state is None,
    ensures
        child == old(nodes)@.len(),
        tree_view(final(nodes)@) == attached(tree_view(old(nodes)@), node as int, edge as int),
{
    let ghost tree = tree_view(nodes@);
    let child: usize = nodes.len();
    let action: Action = nodes[node].actions[edge].action;
    proof {
        lemma_edge_is_legal(tree[node as int], edge as int);
    }
    let result = step(nodes[node].state, action, true);
    let mut fresh: StateTree = create_state_tree(result.0);
    fresh.parent = Some((node, edge));
    nodes[node].actions[edge].post_state = Some(child);
    nodes.push(fresh);
    proof {
        let after = attached(tree, node as int, edge as int);
        assert(nodes@[child as int]@.edges =~= after[child as int].edges);
    }
    child
}

/// Makes the child of edge `edge` of node `node`, plays a random playout
/// from the child's position, values the position reached with `vf`, and
/// records the playout. Returns the value.
pub fn expand_and_simulate<T: ValueFunction>(
    nodes: &mut Vec<StateTree>,
    node: usize,
    edge: usize,
    vf: &mut T,
) -> (scores: [i32; 3])
    requires
        tree_ok(tree_view(old(nodes)@)),
        old(nodes)@.len() < usize::MAX,
        old(nodes)@[0].num_plays < u32::MAX,
        node < old(nodes)@.len(),
        edge < old(nodes)@[node as int].actions@.len(),
        old(nodes)@[node as int].actions@[edge as int].post_state is None,
    ensures
        tree_view(final(nodes)@) == backed_up(
            attached(tree_view(old(nodes)@), node as int, edge as int),
            node as int,
            edge as int,
            scores,
        ),
        tree_ok(tree_view(final(nodes)@)),
{
    let ghost tree = tree_view(nodes@);
    proof {
        lemma_attached(tree, node as int, edge as int);
    }
    let child: usize = attach(nodes, node, edge);
    // Run the playout.
    let current_state: State = playout(nodes[child].state);
    let scores: [i32; 3] = vf.get_value(&current_state);
    mcts_backprop(nodes, node, edge, scores);
    scores
}

/// What one step of the search has done.
#[derive(Clone, Copy, Debug, PartialEq, Eq)]
pub enum Progress {
    /// The search has moved down to a child that was there already; the
    /// next step needs the bonuses of that child's edges.
    Descended,
    /// A playout has been run, valued at the scores given, and recorded;
    /// the search is back at the root.
    Evaluated([i32; 3]),
    /// Nothing was done, because nothing can be: the root has no edge, or
    /// a counter or the arena is full.
    Exhausted,
    /// Nothing was done, because there is not one bonus for each edge.
    Rejected,
}

/// A search in progress: the tree and the node at which the next step
/// selects an edge.
pub struct Search {
    nodes: Vec<StateTree>,
    cursor: usize,
}

/// Whether the search cannot go on from `tree`: the root has no edge, or
/// its counter or the arena is full.
pub open spec fn exhausted(tree: Seq<NodeView>) -> bool {
    tree[0].edges.len() == 0 || tree[0].num_plays >= u32::MAX || tree.len() >= usize::MAX
}

/// Whether a step from node `at` of `tree`, with `bonuses` for its edges,
/// gives `progress` and leaves the search at node `after_at` of `after`.
///
/// The step selects the first edge with the greatest mean score plus bonus.
/// Where the edge has a child, the search moves there. Where it has none,
/// the child is made and a playout from it recorded. At a node without
/// edges the position itself is valued and recorded. After a playout the
/// search is back at the root.
pub open spec fn is_step(
    tree: Seq<NodeView>,
    at: int,
    bonuses: Seq<i32>,
    after: Seq<NodeView>,
    after_at: int,
    progress: Progress,
) -> bool {
    let here = tree[at];
    if bonuses.len() != here.edges.len() {
        progress == Progress::Rejected && after == tree && after_at == at
    } else if exhausted(tree) {
        progress == Progress::Exhausted && after == tree && after_at == at
    } else if here.edges.len() == 0 {
        &&& progress matches Progress::Evaluated(scores)
        &&& here.parent matches Some((n, i))
        &&& after == backed_up(tree, n, i, scores)
        &&& after_at == 0
    } else {
        exists|best: int|
            #![trigger here.edges[best]]
            is_first_best(here.edges, bonuses, best) && match here.edges[best].post_state {
                Some(child) => progress == Progress::Descended && after == tree && after_at
                    == child,
                None => {
                    &&& progress matches Progress::Evaluated(scores)
                    &&& after == backed_up(attached(tree, at, best), at, best, scores)
                    &&& after_at == 0
                },
            }
    }
}

impl Search {
    /// The nodes of the tree, the root first.
    pub closed spec fn tree(&self) -> Seq<NodeView> {
        tree_view(self.nodes@)
    }

    /// The index of the node at which the next step selects.
    pub closed spec fn position(&self) -> int {
        self.cursor as int
    }

    /// The invariant of a search: the tree obeys [`tree_ok`], and the search
    /// stands at one of its nodes.
    pub open spec fn well_formed(&self) -> bool {
        tree_ok(self.tree()) && 0 <= self.position() < self.tree().len()
    }

    #[verifier::type_invariant]
    spec fn inv(&self) -> bool {
        self.well_formed()
    }

    /// A search that starts at `state`: the tree is the root alone.
    pub fn new(state: State) -> (search: Search)
        requires
            state.well_formed(),
        ensures
            search.well_formed(),
            search.position() == 0,
            search.tree().len() == 1,
            search.tree()[0].state == state,
            search.tree()[0].num_plays == 0,
            search.tree()[0].parent is None,
            forall|i: int|
                0 <= i < search.tree()[0].edges.len() ==> (#[trigger] search.tree()[0].edges[i]).is_fresh(),
    {
        let root: StateTree = create_state_tree(state);
        let mut nodes: Vec<StateTree> = Vec::new();
        nodes.push(root);
        proof {
            let tree = tree_view(nodes@);
            lemma_plays_below_zero(root@.edges, root@.edges.len() as int);
            assert forall|n: int| 0 <= n < tree.len() implies node_ok(#[trigger] tree[n]) by {}
            assert forall|n: int, i: int|
                0 <= n < tree.len() && 0 <= i < tree[n].edges.len() implies #[trigger] child_holds(
                tree,
                n,
                i,
            ) by {}
        }
        Search { nodes, cursor: 0 }
    }

    /// The number of nodes.
    pub fn node_count(&self) -> (count: usize)
        ensures
            count == self.tree().len(),
            count >= 1,
    {
        proof {
            use_type_invariant(self);
        }
        self.nodes.len()
    }

    /// The index of the node at which the next step selects.
    pub fn cursor(&self) -> (at: usize)
        ensures
            at == self.position(),
            at < self.tree().len(),
    {
        proof {
            use_type_invariant(self);
        }
        self.cursor
    }

    /// The node with index `index`; None when there is no such node.
    pub fn node(&self, index: usize) -> (node: Option<&StateTree>)
        ensures
            node is Some <==> index < self.tree().len(),
            node matches Some(found) ==> found@ == self.tree()[index as int],
    {
        if index < self.nodes.len() {
            Some(&self.nodes[index])
        } else {
            None
        }
    }

    /// The root.
    pub fn root(&self) -> (node: &StateTree)
        ensures
            node@ == self.tree()[0],
    {
        proof {
            use_type_invariant(self);
        }
        &self.nodes[0]
    }

    /// The node at which the next step selects.
    pub fn current(&self) -> (node: &StateTree)
        ensures
            node@ == self.tree()[self.position()],
    {
        proof {
            use_type_invariant(self);
        }
        &self.nodes[self.cursor]
    }

    /// The action at the root whose edge has the highest mean score, the
    /// first of them where several are equal; None when the root has no edge.
    pub fn best_action(&self) -> (choice: Option<Action>)
        ensures
            choice is None <==> self.tree()[0].edges.len() == 0,
            choice matches Some(action) ==> exists|best: int|
                is_first_best(self.tree()[0].edges, no_bonus(self.tree()[0].edges.len()), best)
                    && action == (#[trigger] self.tree()[0].edges[best]).action,
    {
        proof {
            use_type_invariant(self);
        }
        if self.nodes[0].actions.len() == 0 {
            None
        } else {
            Some(highest_score_action(&self.nodes[0]))
        }
    }

    /// Takes one step of the search, with `bonuses[i]` the exploration
    /// bonus of edge `i` of the current node, and returns the search after
    /// the step.
    pub fn advance<T: ValueFunction>(self, bonuses: &Vec<i32>, vf: &mut T) -> (result: (
        Search,
        Progress,
    ))
        ensures
            result.0.well_formed(),
            is_step(
                self.tree(),
                self.position(),
                bonuses@,
                result.0.tree(),
                result.0.position(),
                result.1,
            ),
    {
        proof {
            use_type_invariant(&self);
        }
        let ghost tree = tree_view(self.nodes@);
        let at: usize = self.cursor;
        let mut nodes: Vec<StateTree> = self.nodes;
        if bonuses.len() != nodes[at].actions.len() {
            return (Search { nodes, cursor: at }, Progress::Rejected);
        }
        if nodes[0].actions.len() == 0 || nodes[0].num_plays == u32::MAX || nodes.len()
            == usize::MAX {
            return (Search { nodes, cursor: at }, Progress::Exhausted);
        }
        match choose_mcts_action(&nodes[at], bonuses) {
            Some(best) => {
                match nodes[at].actions[best].post_state {
                    Some(child) => {
                        proof {
                            assert(child_holds(tree, at as int, best as int));
                        }
                        (Search { nodes, cursor: child }, Progress::Descended)
                    },
                    None => {
                        let scores: [i32; 3] = expand_and_simulate(&mut nodes, at, best, vf);
                        (Search { nodes, cursor: 0 }, Progress::Evaluated(scores))
                    },
                }
            },
            None => {
                // No move is left here: value the position itself.
                proof {
                    assert(link_holds(tree, at as int, 0, 0));
                }
                let scores: [i32; 3] = vf.get_value(&nodes[at].state);
                match nodes[at].parent {
                    Some((n, i)) => {
                        mcts_backprop(&mut nodes, n, i, scores);
                        (Search { nodes, cursor: 0 }, Progress::Evaluated(scores))
                    },
                    None => (Search { nodes, cursor: at }, Progress::Exhausted),
                }
            },
        }
    }
}

/// Visit counts: between playouts every node of the tree, the root among
/// them, has as many visits as its edges have together.
pub proof fn lemma_node_visits_are_edge_visits(tree: Seq<NodeView>, n: int)
    requires
        tree_ok(tree),
        0 <= n < tree.len(),
    ensures
        tree[n].num_plays == plays_below(tree[n].edges, tree[n].edges.len() as int),
{
}

/// Visit counts: between playouts an edge without a child has no visit; an
/// edge with a child has at least one, the playout that made the child, and
/// one more for each visit of the child, which is each time an edge was
/// selected there. A child without edges is never visited itself.
pub proof fn lemma_edge_visits_are_child_visits(tree: Seq<NodeView>, n: int, i: int)
    requires
        tree_ok(tree),
        0 <= n < tree.len(),
        0 <= i < tree[n].edges.len(),
    ensures
        match tree[n].edges[i].post_state {
            Some(c) => {
                &&& n < c < tree.len()
                &&& tree[c as int].parent == Some((n, i))
                &&& tree[c as int].state == tree[n].state.after_step(tree[n].edges[i].action)
                &&& tree[n].edges[i].num_plays >= 1
                &&& tree[c as int].edges.len() > 0 ==> tree[n].edges[i].num_plays
                    == tree[c as int].num_plays + 1
                &&& tree[c as int].edges.len() == 0 ==> tree[c as int].num_plays == 0
            },
            None => tree[n].edges[i].num_plays == 0,
        },
{
    assert(child_holds(tree, n, i));
    if tree[n].edges[i].post_state is Some {
        let c = tree[n].edges[i].post_state->Some_0 as int;
        assert(link_holds(tree, c, 0, 0));
        lemma_plays_below_nonnegative(tree[c].edges, tree[c].edges.len() as int);
    }
}

} // verus!
