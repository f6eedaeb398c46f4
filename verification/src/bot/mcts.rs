//! A bot that grows a search tree by playing games out at random.
//!
//! The tree lives in one vector: a node names its children by their indices,
//! and the moves that the bot may make now are the first nodes. Which child a
//! visit goes down to is decided by a rating that the caller supplies; the
//! tree keeps the counts that the rating is made from.

use vstd::prelude::*;
use crate::bot::botlogic::BotLogic;
use crate::bot::random::random_index;
use crate::common::Size;
use crate::game::Game;
use crate::grid::{detect_line, empty_cells, is_legal, lemma_empty_cells, possible_moves, Grid};
use crate::player_move::PlayerMove;

verus! {

/// A move in the search tree, with what the search has learnt of it.
pub struct Node {
    /// The move, and after it the markers of the line that it completed.
    pub moves: Vec<PlayerMove>,
    /// The indices of the nodes for the answers that were tried.
    pub children: Vec<usize>,
    /// The sum of the outcomes of the visits, as the mover sees them.
    pub score: i64,
    pub visit_counter: u32,
    /// The answers that were not tried yet.
    pub possible_moves: Vec<Size>,
    /// What every visit is worth where the move completed a line.
    pub win_result: Option<i64>,
}

/// The move `m` completes a line on the board `log`.
pub open spec fn completes_line(log: Seq<PlayerMove>, size: Size, win_length: u32, m: PlayerMove) -> bool {
    detect_line(log.push(m), size, m.position, win_length).len() > 0
}

/// `node` is the node of the move `m` on the board `log` before any visit:
/// seen once; worth 1 for good, with no answers, where `m` completes a line,
/// and else worth 0 so far, with every cell that is empty after `m` as an
/// answer to try.
pub open spec fn is_fresh_node(
    node: Node,
    log: Seq<PlayerMove>,
    size: Size,
    win_length: u32,
    m: PlayerMove,
) -> bool {
    let won = completes_line(log, size, win_length, m);
    &&& node.moves@ == seq![m] + detect_line(log.push(m), size, m.position, win_length)
    &&& node.children@ == Seq::<usize>::empty()
    &&& node.visit_counter == 1
    &&& node.score == if won {
        1i64
    } else {
        0i64
    }
    &&& node.win_result == if won {
        Some(1i64)
    } else {
        None
    }
    &&& node.possible_moves@ == if won {
        Seq::empty()
    } else {
        empty_cells(log.push(m), size)
    }
}

impl Node {
    /// The move completed a line.
    pub open spec fn won(&self) -> bool {
        self.win_result is Some
    }

    /// What holds of every node of a tree: it was seen at least once, its
    /// score is within its visits on either side, it has a move, and a move
    /// that completed a line is worth 1 and has no answers.
    pub open spec fn well_formed(&self) -> bool {
        &&& self.visit_counter >= 1
        &&& -self.visit_counter <= self.score <= self.visit_counter
        &&& self.moves@.len() >= 1
        &&& self.won() ==> self.win_result == Some(1i64) && self.possible_moves@.len() == 0
            && self.children@.len() == 0
    }

    /// The node of the move `m` on the board `grid`: see `is_fresh_node`.
    pub fn new(m: PlayerMove, grid: Grid, win_length: u32) -> (node: Self)
        ensures
            is_fresh_node(node, grid@, grid.extent(), win_length, m),
            node.well_formed(),
    {
        let mut grid = grid;
        let mut moves: Vec<PlayerMove> = Vec::new();
        moves.push(m);
        grid.add(m);
        let mut result = grid.check_win(&m.position, win_length);
        let won = result.len() > 0;
        moves.append(&mut result);
        let possible_moves = if won {
            Vec::new()
        } else {
            grid.get_possible_moves_size()
        };
        Self {
            moves,
            children: Vec::new(),
            score: if won {
                1
            } else {
                0
            },
            visit_counter: 1,
            possible_moves,
            win_result: if won {
                Some(1)
            } else {
                None
            },
        }
    }

    /// One fresh node for each of `moves` on the board `grid`, in their
    /// order.
    pub fn from_possible_moves(moves: Vec<PlayerMove>, grid: &Grid, win_length: u32) -> (nodes: Vec<
        Self,
    >)
        ensures
            nodes@.len() == moves@.len(),
            forall|i: int|
                0 <= i < nodes@.len() ==> is_fresh_node(
                    #[trigger] nodes@[i],
                    grid@,
                    grid.extent(),
                    win_length,
                    moves@[i],
                ) && nodes@[i].well_formed(),
    {
        let mut nodes: Vec<Self> = Vec::new();
        let mut i: usize = 0;
        while i < moves.len()
            invariant
                i <= moves.len(),
                nodes@.len() == i,
                forall|k: int|
                    0 <= k < i ==> is_fresh_node(
                        #[trigger] nodes@[k],
                        grid@,
                        grid.extent(),
                        win_length,
                        moves@[k],
                    ) && nodes@[k].well_formed(),
            decreases moves.len() - i,
        {
            nodes.push(Self::new(moves[i], grid.clone(), win_length));
            i += 1;
        }
        nodes
    }
}

/// A rating can be asked about any node: about its score and its visits,
/// and the visits of the node above it.
pub open spec fn rates_all<F: Fn(i64, u32, u32) -> i64>(rate: &F) -> bool {
    forall|score: i64, visits: u32, parent_visits: u32|
        call_requires(rate, (score, visits, parent_visits))
}

/// `keys` holds, for each of `candidates`, a rating that `rate` gave of that
/// node under a node with `parent_visits` visits.
pub open spec fn rated_by<F: Fn(i64, u32, u32) -> i64>(
    rate: &F,
    nodes: Seq<Node>,
    candidates: Seq<usize>,
    parent_visits: u32,
    keys: Seq<i64>,
) -> bool {
    &&& keys.len() == candidates.len()
    &&& forall|k: int|
        0 <= k < candidates.len() ==> call_ensures(
            rate,
            (
                nodes[candidates[k] as int].score,
                nodes[candidates[k] as int].visit_counter,
                parent_visits,
            ),
            #[trigger] keys[k],
        )
}

/// `chosen` is the last of the places at which `keys` is greatest.
pub open spec fn is_last_max(keys: Seq<i64>, chosen: int) -> bool {
    &&& 0 <= chosen < keys.len()
    &&& forall|j: int| 0 <= j < keys.len() ==> keys[j] <= keys[chosen]
    &&& forall|j: int| chosen < j < keys.len() ==> keys[j] < keys[chosen]
}

/// The node `a` has done at least as well for each of its visits as `b`:
/// the quotient of score and visits is not less.
pub open spec fn ratio_at_least(a: Node, b: Node) -> bool {
    a.score * b.visit_counter >= b.score * a.visit_counter
}

/// Among the first `count` nodes, `best` is the last of those that have done
/// best for each of their visits.
pub open spec fn is_best_root(nodes: Seq<Node>, count: int, best: int) -> bool {
    &&& 0 <= best < count
    &&& forall|j: int| 0 <= j < count ==> ratio_at_least(nodes[best], #[trigger] nodes[j])
    &&& forall|j: int| best < j < count ==> !ratio_at_least(#[trigger] nodes[j], nodes[best])
}

/// The turn after `turn` among `count` participants.
pub open spec fn turn_after(turn: int, count: int) -> int {
    if turn + 1 >= count {
        0
    } else {
        turn + 1
    }
}

/// Each of `picks` names one of the cells that are left when its turn
/// comes, and there is a pick for every one of the `count` cells.
pub open spec fn picks_fit(picks: Seq<int>, count: int) -> bool {
    &&& picks.len() == count
    &&& forall|k: int| 0 <= k < picks.len() ==> 0 <= #[trigger] picks[k] < count - k
}

/// How a game that is played out ends for the participant at `own_turn`:
/// the participants move in turn, `turn` first, each to the cell of `cells`
/// that the next of `picks` names, which then leaves `cells`. The first move
/// that completes a line ends the game: 1 where it is made at `own_turn`,
/// -1 where another makes it. 0 where the cells run out first.
pub open spec fn rollout(
    log: Seq<PlayerMove>,
    size: Size,
    players: Seq<i32>,
    win_length: u32,
    own_turn: int,
    turn: int,
    cells: Seq<Size>,
    picks: Seq<int>,
) -> int
    decreases cells.len(),
{
    if cells.len() == 0 || picks.len() == 0 || !(0 <= picks[0] < cells.len()) {
        0
    } else {
        let m = PlayerMove { player: players[turn], position: cells[picks[0]] };
        if completes_line(log, size, win_length, m) {
            if turn == own_turn {
                1
            } else {
                -1
            }
        } else {
            rollout(
                log.push(m),
                size,
                players,
                win_length,
                own_turn,
                turn_after(turn, players.len() as int),
                cells.remove(picks[0]),
                picks.drop_first(),
            )
        }
    }
}

/// A search tree for one choice of move.
pub struct MCTSAlgorithm {
    /// All nodes of the tree. The moves that can be made now come first.
    pub nodes: Vec<Node>,
    /// The indices of the nodes for the moves that can be made now:
    /// 0, 1, 2 and so on.
    pub roots: Vec<usize>,
    /// The number of moves that can be made now, plus the number of
    /// iterations so far.
    pub total_iterations: u32,
}

impl MCTSAlgorithm {
    /// The tree hangs together: the first nodes are the roots; children come
    /// after their parents and are no roots; every node is well formed and
    /// was seen no more often than the tree was searched; a root whose move
    /// completes a line has as high a score as visits, and any other root a
    /// lower one.
    pub open spec fn wf(&self) -> bool {
        &&& self.roots@.len() <= self.nodes@.len()
        &&& forall|k: int| 0 <= k < self.roots@.len() ==> #[trigger] self.roots@[k] == k
        &&& forall|i: int|
            0 <= i < self.nodes@.len() ==> (#[trigger] self.nodes@[i]).well_formed()
                && self.nodes@[i].visit_counter <= self.total_iterations
        &&& forall|i: int, k: int|
            0 <= i < self.nodes@.len() && 0 <= k < self.nodes@[i].children@.len() ==> i
                < #[trigger] self.nodes@[i].children@[k] < self.nodes@.len()
                && self.nodes@[i].children@[k] >= self.roots@.len()
        &&& forall|i: int|
            0 <= i < self.roots@.len() ==> if (#[trigger] self.nodes@[i]).won() {
                self.nodes@[i].score == self.nodes@[i].visit_counter
            } else {
                self.nodes@[i].score < self.nodes@[i].visit_counter
            }
    }

    /// The tree for the choice of `id` on the board `grid`: one fresh node
    /// for each move that `id` can make, and nothing below them yet.
    pub fn new(id: i32, grid: &Grid, win_length: u32) -> (tree: Self)
        ensures
            tree.wf(),
            tree.nodes@.len() == possible_moves(grid@, grid.extent(), id).len(),
            tree.roots@.len() == tree.nodes@.len(),
            tree.total_iterations == if tree.nodes@.len() <= u32::MAX {
                tree.nodes@.len() as u32
            } else {
                u32::MAX
            },
            forall|i: int|
                0 <= i < tree.nodes@.len() ==> is_fresh_node(
                    #[trigger] tree.nodes@[i],
                    grid@,
                    grid.extent(),
                    win_length,
                    possible_moves(grid@, grid.extent(), id)[i],
                ),
    {
        let nodes = Node::from_possible_moves(grid.get_possible_moves(id), grid, win_length);
        let mut roots: Vec<usize> = Vec::new();
        let mut i: usize = 0;
        while i < nodes.len()
            invariant
                i <= nodes.len(),
                roots@.len() == i,
                forall|k: int| 0 <= k < i ==> #[trigger] roots@[k] == k,
            decreases nodes.len() - i,
        {
            roots.push(i);
            i += 1;
        }
        let total_iterations: u32 = if nodes.len() <= u32::MAX as usize {
            nodes.len() as u32
        } else {
            u32::MAX
        };
        Self { nodes, roots, total_iterations }
    }

    /// Chooses among `candidates` the node to visit next: each is rated,
    /// and the last of those with the greatest rating is chosen. Returns its
    /// place in `candidates`.
    pub fn select<F: Fn(i64, u32, u32) -> i64>(
        nodes: &Vec<Node>,
        candidates: &Vec<usize>,
        parent_visits: u32,
        rate: &F,
    ) -> (chosen: usize)
        requires
            candidates@.len() > 0,
            forall|k: int| 0 <= k < candidates@.len() ==> #[trigger] candidates@[k] < nodes@.len(),
            rates_all(rate),
        ensures
            chosen < candidates@.len(),
            exists|keys: Seq<i64>|
                rated_by(rate, nodes@, candidates@, parent_visits, keys) && is_last_max(
                    keys,
                    chosen as int,
                ),
    {
        let first = &nodes[candidates[0]];
        let mut best_key: i64 = rate(first.score, first.visit_counter, parent_visits);
        let mut chosen: usize = 0;
        let ghost mut keys: Seq<i64> = seq![best_key];
        let mut k: usize = 1;
        while k < candidates.len()
            invariant
                1 <= k <= candidates.len(),
                forall|j: int|
                    0 <= j < candidates@.len() ==> #[trigger] candidates@[j] < nodes@.len(),
                rates_all(rate),
                rated_by(rate, nodes@, candidates@.take(k as int), parent_visits, keys),
                is_last_max(keys, chosen as int),
                best_key == keys[chosen as int],
            decreases candidates.len() - k,
        {
            let node = &nodes[candidates[k]];
            let key = rate(node.score, node.visit_counter, parent_visits);
            proof {
                keys = keys.push(key);
            }
            if key >= best_key {
                best_key = key;
                chosen = k;
            }
            k += 1;
        }
        proof {
            assert(candidates@.take(k as int) =~= candidates@);
        }
        chosen
    }

    /// The move to make: that of the root that has done best for each of its
    /// visits, the last of several that have done equally well. (0, 0) where
    /// no move can be made.
    pub fn find_best_move(&self) -> (pos: Size)
        requires
            self.wf(),
        ensures
            self.roots@.len() == 0 ==> pos == (Size { x: 0, y: 0 }),
            self.roots@.len() > 0 ==> exists|best: int|
                is_best_root(self.nodes@, self.roots@.len() as int, best) && pos
                    == self.nodes@[best].moves@[0].position,
    {
        if self.roots.len() == 0 {
            return Size::new(0, 0);
        }
        let mut best: usize = 0;
        let mut i: usize = 1;
        assert(ratio_at_least(self.nodes@[0], self.nodes@[0]));
        while i < self.roots.len()
            invariant
                self.wf(),
                1 <= i <= self.roots@.len(),
                is_best_root(self.nodes@, i as int, best as int),
            decreases self.roots.len() - i,
        {
            let a = &self.nodes[i];
            let b = &self.nodes[best];
            let ghost (sa, va, sb, vb) = (
                a.score as int,
                a.visit_counter as int,
                b.score as int,
                b.visit_counter as int,
            );
            assert(-0x1_0000_0000_0000_0000 <= sa * vb <= 0x1_0000_0000_0000_0000 && -0x1_0000_0000_0000_0000
                <= sb * va <= 0x1_0000_0000_0000_0000) by (nonlinear_arith)
                requires
                    -va <= sa <= va,
                    -vb <= sb <= vb,
                    1 <= va <= 0xffff_ffff,
                    1 <= vb <= 0xffff_ffff,
            ;
            let left: i128 = (a.score as i128) * (b.visit_counter as i128);
            let right: i128 = (b.score as i128) * (a.visit_counter as i128);
            if left >= right {
                proof {
                    assert forall|j: int| 0 <= j < i + 1 implies ratio_at_least(
                        self.nodes@[i as int],
                        #[trigger] self.nodes@[j],
                    ) by {
                        let (sj, vj) = (
                            self.nodes@[j].score as int,
                            self.nodes@[j].visit_counter as int,
                        );
                        if j < i {
                            assert(ratio_at_least(self.nodes@[best as int], self.nodes@[j]));
                            assert(sa * vj >= sj * va) by (nonlinear_arith)
                                requires
                                    sa * vb >= sb * va,
                                    sb * vj >= sj * vb,
                                    va >= 1,
                                    vb >= 1,
                                    vj >= 1,
                            ;
                        }
                    }
                }
                best = i;
            }
            i += 1;
        }
        self.nodes[best].moves[0].position
    }
}

impl MCTSAlgorithm {
    /// Counts one more visit of the node `v`, and adds `delta` to its score.
    pub fn settle(&mut self, v: usize, delta: i64)
        requires
            old(self).wf(),
            v < old(self).nodes@.len(),
            -1 <= delta <= 1,
            old(self).nodes@[v as int].visit_counter < old(self).total_iterations,
            old(self).nodes@[v as int].won() ==> delta == 1,
        ensures
            final(self).wf(),
            final(self).roots@ == old(self).roots@,
            final(self).total_iterations == old(self).total_iterations,
            final(self).nodes@.len() == old(self).nodes@.len(),
            final(self).nodes@[v as int].visit_counter == old(self).nodes@[v as int].visit_counter
                + 1,
            final(self).nodes@[v as int].score == old(self).nodes@[v as int].score + delta,
            final(self).nodes@[v as int].moves@ == old(self).nodes@[v as int].moves@,
            final(self).nodes@[v as int].win_result == old(self).nodes@[v as int].win_result,
            final(self).nodes@[v as int].children@ == old(self).nodes@[v as int].children@,
            final(self).nodes@[v as int].possible_moves@ == old(
                self,
            ).nodes@[v as int].possible_moves@,
            forall|i: int|
                0 <= i < old(self).nodes@.len() && i != v ==> #[trigger] final(self).nodes@[i]
                    == old(self).nodes@[i],
    {
        self.nodes[v].visit_counter += 1;
        self.nodes[v].score += delta;
    }

    /// Gives the node `v` a child for the move of `id` to the cell that
    /// `pick` names among the answers of `v` that were not tried: that cell
    /// leaves the answers, and the child is a fresh node on the board
    /// `grid`. Returns the child's index.
    pub fn expand(&mut self, v: usize, id: i32, grid: &Grid, win_length: u32, pick: usize) -> (child:
        usize)
        requires
            old(self).wf(),
            v < old(self).nodes@.len(),
            pick < old(self).nodes@[v as int].possible_moves@.len(),
        ensures
            final(self).wf(),
            final(self).roots@ == old(self).roots@,
            final(self).total_iterations == old(self).total_iterations,
            child == old(self).nodes@.len(),
            final(self).nodes@.len() == old(self).nodes@.len() + 1,
            is_fresh_node(
                final(self).nodes@[child as int],
                grid@,
                grid.extent(),
                win_length,
                PlayerMove {
                    player: id,
                    position: old(self).nodes@[v as int].possible_moves@[pick as int],
                },
            ),
            final(self).nodes@[v as int].possible_moves@ == old(
                self,
            ).nodes@[v as int].possible_moves@.remove(pick as int),
            final(self).nodes@[v as int].children@ == old(self).nodes@[v as int].children@.push(
                child,
            ),
            final(self).nodes@[v as int].visit_counter == old(self).nodes@[v as int].visit_counter,
            final(self).nodes@[v as int].score == old(self).nodes@[v as int].score,
            final(self).nodes@[v as int].moves@ == old(self).nodes@[v as int].moves@,
            final(self).nodes@[v as int].win_result == old(self).nodes@[v as int].win_result,
            forall|i: int|
                0 <= i < old(self).nodes@.len() && i != v ==> #[trigger] final(self).nodes@[i]
                    == old(self).nodes@[i],
    {
        let pos = self.nodes[v].possible_moves.remove(pick);
        let node = Node::new(PlayerMove::new(id, pos), grid.clone(), win_length);
        let child = self.nodes.len();
        self.nodes.push(node);
        self.nodes[v].children.push(child);
        proof {
            assert forall|i: int, k: int|
                0 <= i < self.nodes@.len() && 0 <= k < self.nodes@[i].children@.len() implies i
                < #[trigger] self.nodes@[i].children@[k] < self.nodes@.len()
                && self.nodes@[i].children@[k] >= self.roots@.len() by {
                if i == v {
                    if k < old(self).nodes@[i].children@.len() {
                        assert(self.nodes@[i].children@[k] == old(self).nodes@[i].children@[k]);
                    }
                } else if i < child {
                    assert(self.nodes@[i] == old(self).nodes@[i]);
                    assert(self.nodes@[i].children@[k] == old(self).nodes@[i].children@[k]);
                }
            }
            assert forall|i: int| 0 <= i < self.nodes@.len() implies (
            #[trigger] self.nodes@[i]).well_formed() && self.nodes@[i].visit_counter
                <= self.total_iterations by {
                if i < child {
                    assert(old(self).nodes@[i].well_formed());
                    assert(old(self).nodes@[v as int].visit_counter >= 1);
                } else {
                    assert(old(self).nodes@[v as int].well_formed());
                }
            }
            assert forall|i: int| 0 <= i < self.roots@.len() implies if (
            #[trigger] self.nodes@[i]).won() {
                self.nodes@[i].score == self.nodes@[i].visit_counter
            } else {
                self.nodes@[i].score < self.nodes@[i].visit_counter
            } by {
                assert(old(self).nodes@[i].won() == self.nodes@[i].won());
            }
        }
        child
    }

    /// One move of a game that is played out: the participant at `turn`
    /// moves to the cell that `pick` names, and the cell leaves `cells`.
    /// Returns how the game has ended for the participant at `own_turn`
    /// where the move completes a line, and `None` where the game goes on.
    pub fn simulate_step(
        grid: &mut Grid,
        own_turn: usize,
        turn: usize,
        players: &Vec<i32>,
        win_length: u32,
        cells: &mut Vec<Size>,
        pick: usize,
    ) -> (ended: Option<i64>)
        requires
            turn < players@.len(),
            pick < old(cells)@.len(),
        ensures
            final(grid).extent() == old(grid).extent(),
            final(cells)@ == old(cells)@.remove(pick as int),
            ({
                let m = PlayerMove {
                    player: players@[turn as int],
                    position: old(cells)@[pick as int],
                };
                let line = detect_line(
                    old(grid)@.push(m),
                    old(grid).extent(),
                    m.position,
                    win_length,
                );
                &&& final(grid)@ == old(grid)@.push(m) + line
                &&& ended == if line.len() == 0 {
                    None
                } else if turn == own_turn {
                    Some(1i64)
                } else {
                    Some(-1i64)
                }
            }),
    {
        let pos = cells.remove(pick);
        grid.add(PlayerMove::new(players[turn], pos));
        let result = grid.check_win(&pos, win_length);
        grid.add_range(&result);
        if result.len() > 0 && turn == own_turn {
            Some(1)
        } else if result.len() > 0 {
            Some(-1)
        } else {
            None
        }
    }

    /// Plays a game out from the board `grid` with moves drawn by chance
    /// from `possible_moves`, the participant at `current_turn` first, and
    /// returns how it ends for the participant at `own_turn`: the outcome of
    /// `rollout` for the picks that were drawn.
    pub fn simulate(
        grid: &mut Grid,
        own_turn: usize,
        current_turn: usize,
        players: &Vec<i32>,
        win_length: u32,
        possible_moves: Vec<Size>,
    ) -> (outcome: i64)
        requires
            current_turn < players@.len(),
        ensures
            -1 <= outcome <= 1,
            exists|picks: Seq<int>|
                picks_fit(picks, possible_moves@.len() as int) && outcome == rollout(
                    old(grid)@,
                    old(grid).extent(),
                    players@,
                    win_length,
                    own_turn as int,
                    current_turn as int,
                    possible_moves@,
                    picks,
                ),
    {
        let mut cells = possible_moves;
        let mut turn = current_turn;
        let ghost mut drawn: Seq<int> = Seq::empty();
        let ghost size = grid.extent();
        let ghost all = cells@;
        proof {
            assert forall|rest: Seq<int>| drawn + rest == rest by {
                assert(drawn + rest =~= rest);
            }
        }
        while cells.len() > 0
            invariant
                turn < players@.len(),
                grid.extent() == size,
                size == old(grid).extent(),
                all == possible_moves@,
                drawn.len() + cells@.len() == all.len(),
                forall|k: int| 0 <= k < drawn.len() ==> 0 <= #[trigger] drawn[k] < all.len() - k,
                forall|rest: Seq<int>|
                    #[trigger] rollout(
                        old(grid)@,
                        size,
                        players@,
                        win_length,
                        own_turn as int,
                        current_turn as int,
                        all,
                        drawn + rest,
                    ) == rollout(
                        grid@,
                        size,
                        players@,
                        win_length,
                        own_turn as int,
                        turn as int,
                        cells@,
                        rest,
                    ),
            decreases cells@.len(),
        {
            let pick = random_index(cells.len());
            let ghost log = grid@;
            let ghost left = cells@;
            let ghost before = drawn;
            let ended = Self::simulate_step(
                grid,
                own_turn,
                turn,
                players,
                win_length,
                &mut cells,
                pick,
            );
            match ended {
                Some(outcome) => {
                    proof {
                        let padding = Seq::new((left.len() - 1) as nat, |k: int| 0int);
                        let rest = seq![pick as int] + padding;
                        let picks = before + rest;
                        assert(rest[0] == pick);
                        assert(picks_fit(picks, all.len() as int));
                        assert(rollout(
                            old(grid)@,
                            size,
                            players@,
                            win_length,
                            own_turn as int,
                            current_turn as int,
                            all,
                            before + rest,
                        ) == outcome);
                    }
                    return outcome;
                },
                None => {},
            }
            let ghost played = turn;
            turn = if turn >= players.len() - 1 {
                0
            } else {
                turn + 1
            };
            proof {
                drawn = before.push(pick as int);
                assert forall|rest: Seq<int>|
                    #[trigger] rollout(
                        old(grid)@,
                        size,
                        players@,
                        win_length,
                        own_turn as int,
                        current_turn as int,
                        all,
                        drawn + rest,
                    ) == rollout(
                        grid@,
                        size,
                        players@,
                        win_length,
                        own_turn as int,
                        turn as int,
                        cells@,
                        rest,
                    ) by {
                    let longer = seq![pick as int] + rest;
                    assert(drawn + rest =~= before + longer);
                    assert(longer[0] == pick);
                    assert(longer.drop_first() =~= rest);
                    let m = PlayerMove {
                        player: players@[played as int],
                        position: left[pick as int],
                    };
                    assert(grid@ =~= log.push(m));
                    assert(rollout(
                        old(grid)@,
                        size,
                        players@,
                        win_length,
                        own_turn as int,
                        current_turn as int,
                        all,
                        before + longer,
                    ) == rollout(
                        log,
                        size,
                        players@,
                        win_length,
                        own_turn as int,
                        played as int,
                        left,
                        longer,
                    ));
                }
            }
        }
        proof {
            assert(drawn + Seq::<int>::empty() =~= drawn);
            assert(picks_fit(drawn, all.len() as int));
        }
        0
    }
}

/// The tree `now` has grown out of the tree `before`: no node is lost or
/// has another move, and none was seen less often.
pub open spec fn grown_from(now: Seq<Node>, before: Seq<Node>) -> bool {
    &&& now.len() >= before.len()
    &&& forall|j: int|
        0 <= j < before.len() ==> (#[trigger] now[j]).moves@ == before[j].moves@
            && now[j].win_result == before[j].win_result && now[j].visit_counter
            >= before[j].visit_counter
}

/// Of the first `count` nodes, the node `r` was seen once more, and no other
/// was seen or has another score.
pub open spec fn one_root_visited(now: Seq<Node>, before: Seq<Node>, count: int, r: int) -> bool {
    &&& 0 <= r < count
    &&& now[r].visit_counter == before[r].visit_counter + 1
    &&& forall|j: int|
        0 <= j < count && j != r ==> (#[trigger] now[j]).visit_counter
            == before[j].visit_counter && now[j].score == before[j].score
}

/// A node as the contracts of the search speak of it.
pub struct NodeView {
    pub moves: Seq<PlayerMove>,
    pub children: Seq<usize>,
    pub score: int,
    pub visit_counter: int,
    pub possible_moves: Seq<Size>,
    pub win_result: Option<i64>,
}

impl View for Node {
    type V = NodeView;

    open spec fn view(&self) -> NodeView {
        NodeView {
            moves: self.moves@,
            children: self.children@,
            score: self.score as int,
            visit_counter: self.visit_counter as int,
            possible_moves: self.possible_moves@,
            win_result: self.win_result,
        }
    }
}

/// The views of the nodes of a tree, in their order.
pub open spec fn tree_view(nodes: Seq<Node>) -> Seq<NodeView> {
    nodes.map_values(|n: Node| n@)
}

/// The node of the move `m` on the board `board` before any visit: what
/// `is_fresh_node` says of it.
pub open spec fn fresh_view(board: Seq<PlayerMove>, size: Size, win_length: u32, m: PlayerMove) -> NodeView {
    let won = completes_line(board, size, win_length, m);
    NodeView {
        moves: seq![m] + detect_line(board.push(m), size, m.position, win_length),
        children: Seq::empty(),
        score: if won {
            1
        } else {
            0
        },
        visit_counter: 1,
        possible_moves: if won {
            Seq::empty()
        } else {
            empty_cells(board.push(m), size)
        },
        win_result: if won {
            Some(1i64)
        } else {
            None
        },
    }
}

/// The node seen once more, with `delta` added to its score.
pub open spec fn seen(node: NodeView, delta: int) -> NodeView {
    NodeView { visit_counter: node.visit_counter + 1, score: node.score + delta, ..node }
}

/// What decides the course of one visit of the tree: at each node on the
/// way down, the place of the child that the ratings chose; at the node
/// where the way ends, which of its untried answers was drawn; and the
/// picks of the game that was played out from there.
pub struct Draws {
    pub choices: Seq<int>,
    pub pick: int,
    pub picks: Seq<int>,
}

/// What a visit leaves: the tree, and what the visit was worth at whose
/// turn.
pub struct Visit {
    pub tree: Seq<NodeView>,
    pub value: int,
    pub value_turn: int,
}

/// The visit of the node `v` of `tree`, where it is the turn of `turn` and
/// `board` holds the moves that lead to `v`.
///
/// - A node whose move completed a line is seen once more and scores 1; the
///   visit is worth 1 at `turn`.
/// - A node with untried answers loses the answer that `draws.pick` names
///   and gets a child for it at the end of the tree: the fresh node of that
///   move by the next participant. Where the child has answers of its own,
///   its score is the outcome of the game played out from it with
///   `draws.picks`, the next participant moving first. The node is seen once
///   more and loses the child's score from its own; the visit is worth the
///   child's score at the next turn.
/// - A node without answers and children is seen once more; the visit is
///   worth 0.
/// - Any other node passes the visit on to the child at the place
///   `draws.choices[0]`, with the rest of the choices. It is then seen once
///   more, and what the visit was worth is added to its score where that is
///   at its own turn, and taken from it otherwise.
pub open spec fn visit(
    tree: Seq<NodeView>,
    v: int,
    turn: int,
    board: Seq<PlayerMove>,
    size: Size,
    players: Seq<i32>,
    win_length: u32,
    draws: Draws,
) -> Visit
    decreases draws.choices.len(),
{
    let node = tree[v];
    let next = turn_after(turn, players.len() as int);
    let here = board + node.moves;
    if node.win_result is Some {
        Visit { tree: tree.update(v, seen(node, 1)), value: 1, value_turn: turn }
    } else if node.possible_moves.len() > 0 {
        let m = PlayerMove { player: players[next], position: node.possible_moves[draws.pick] };
        let fresh = fresh_view(here, size, win_length, m);
        let child = if fresh.possible_moves.len() > 0 {
            NodeView {
                score: rollout(
                    here + fresh.moves,
                    size,
                    players,
                    win_length,
                    next,
                    next,
                    fresh.possible_moves,
                    draws.picks,
                ),
                ..fresh
            }
        } else {
            fresh
        };
        let parent = NodeView {
            possible_moves: node.possible_moves.remove(draws.pick),
            children: node.children.push(tree.len() as usize),
            visit_counter: node.visit_counter + 1,
            score: node.score - child.score,
            ..node
        };
        Visit { tree: tree.update(v, parent).push(child), value: child.score, value_turn: next }
    } else if node.children.len() == 0 || draws.choices.len() == 0 {
        Visit { tree: tree.update(v, seen(node, 0)), value: 0, value_turn: turn }
    } else {
        let below = visit(
            tree,
            node.children[draws.choices[0]] as int,
            next,
            here,
            size,
            players,
            win_length,
            Draws { choices: draws.choices.drop_first(), ..draws },
        );
        let delta = if turn == below.value_turn {
            below.value
        } else {
            -below.value
        };
        Visit { tree: below.tree.update(v, seen(below.tree[v], delta)), ..below }
    }
}

/// The draws are such as a visit of the node `v` can meet with: each choice
/// is the place that `select` takes among the children, for ratings that
/// `rate` gave them under their parent's visits, this one counted; the pick
/// names one of the untried answers of the node where the way ends; and the
/// picks fit the answers of the child made there. There are as many choices
/// as the way down has steps.
pub open spec fn draws_fit<F: Fn(i64, u32, u32) -> i64>(
    rate: &F,
    nodes: Seq<Node>,
    v: int,
    turn: int,
    board: Seq<PlayerMove>,
    size: Size,
    players: Seq<i32>,
    win_length: u32,
    draws: Draws,
) -> bool
    decreases draws.choices.len(),
{
    let node = nodes[v];
    let next = turn_after(turn, players.len() as int);
    let here = board + node.moves@;
    if node.won() {
        draws.choices.len() == 0
    } else if node.possible_moves@.len() > 0 {
        let m = PlayerMove { player: players[next], position: node.possible_moves@[draws.pick] };
        let fresh = fresh_view(here, size, win_length, m);
        &&& draws.choices.len() == 0
        &&& 0 <= draws.pick < node.possible_moves@.len()
        &&& fresh.possible_moves.len() > 0 ==> picks_fit(
            draws.picks,
            fresh.possible_moves.len() as int,
        )
    } else if node.children@.len() == 0 {
        draws.choices.len() == 0
    } else {
        &&& draws.choices.len() > 0
        &&& exists|keys: Seq<i64>|
            rated_by(rate, nodes, node.children@, (node.visit_counter + 1) as u32, keys)
                && is_last_max(keys, draws.choices[0])
        &&& draws_fit(
            rate,
            nodes,
            node.children@[draws.choices[0]] as int,
            next,
            here,
            size,
            players,
            win_length,
            Draws { choices: draws.choices.drop_first(), ..draws },
        )
    }
}

/// The tree `after` is what one iteration makes of the tree `before`: the
/// root `r` is the one that `select` takes for the ratings `keys`, which
/// `rate` gave the roots under `total` iterations; only that root was seen;
/// and the tree is what the visit of `r` with the draws `draws` leaves, for
/// draws that such a visit can meet with.
pub open spec fn is_iteration<F: Fn(i64, u32, u32) -> i64>(
    rate: &F,
    before: Seq<Node>,
    roots: Seq<usize>,
    total: u32,
    after: Seq<Node>,
    turn: int,
    board: Seq<PlayerMove>,
    size: Size,
    players: Seq<i32>,
    win_length: u32,
    keys: Seq<i64>,
    r: int,
    draws: Draws,
) -> bool {
    &&& rated_by(rate, before, roots, total, keys)
    &&& is_last_max(keys, r)
    &&& one_root_visited(after, before, roots.len() as int, r)
    &&& draws_fit(rate, before, r, turn, board, size, players, win_length, draws)
    &&& tree_view(after) == visit(
        tree_view(before),
        r,
        turn,
        board,
        size,
        players,
        win_length,
        draws,
    ).tree
}

/// The visit `outcome` of the node `v` is what `visit` gives for the draws
/// `draws`, which are draws that the visit can meet with: it leaves the tree
/// `after` of the tree `before`.
pub open spec fn is_visit<F: Fn(i64, u32, u32) -> i64>(
    rate: &F,
    before: Seq<Node>,
    after: Seq<Node>,
    v: int,
    turn: int,
    board: Seq<PlayerMove>,
    size: Size,
    players: Seq<i32>,
    win_length: u32,
    outcome: (i64, usize),
    draws: Draws,
) -> bool {
    &&& draws_fit(rate, before, v, turn, board, size, players, win_length, draws)
    &&& visit(tree_view(before), v, turn, board, size, players, win_length, draws) == (Visit {
        tree: tree_view(after),
        value: outcome.0 as int,
        value_turn: outcome.1 as int,
    })
}

/// What a visit of the node `v` keeps and changes, whatever its course: the
/// tree hangs together as before, with the same roots and the same count of
/// iterations; it has grown by one node at most; `v` was seen once more;
/// and no node before `v`, and no other root, has changed.
pub open spec fn visited(before: MCTSAlgorithm, after: MCTSAlgorithm, v: int) -> bool {
    &&& after.wf()
    &&& after.roots@ == before.roots@
    &&& after.total_iterations == before.total_iterations
    &&& before.nodes@.len() <= after.nodes@.len() <= before.nodes@.len() + 1
    &&& grown_from(after.nodes@, before.nodes@)
    &&& after.nodes@[v].visit_counter == before.nodes@[v].visit_counter + 1
    &&& forall|i: int|
        0 <= i < before.nodes@.len() && i != v && (i < v || i < before.roots@.len())
            ==> #[trigger] after.nodes@[i] == before.nodes@[i]
}

/// A visit that is passed on to a child and then counted at the node is the
/// visit of the node.
proof fn lemma_passed_on<F: Fn(i64, u32, u32) -> i64>(
    rate: &F,
    before: Seq<Node>,
    after: Seq<Node>,
    between: Seq<Node>,
    v: int,
    turn: int,
    board: Seq<PlayerMove>,
    size: Size,
    players: Seq<i32>,
    win_length: u32,
    below: (i64, usize),
    draws: Draws,
    deeper: Draws,
)
    requires
        0 <= v < before.len(),
        !before[v].won(),
        before[v].possible_moves@.len() == 0,
        before[v].children@.len() > 0,
        draws.choices.len() > 0,
        deeper == (Draws { choices: draws.choices.drop_first(), ..draws }),
        exists|keys: Seq<i64>|
            rated_by(
                rate,
                before,
                before[v].children@,
                (before[v].visit_counter + 1) as u32,
                keys,
            ) && is_last_max(keys, draws.choices[0]),
        is_visit(
            rate,
            before,
            between,
            before[v].children@[draws.choices[0]] as int,
            turn_after(turn, players.len() as int),
            board + before[v].moves@,
            size,
            players,
            win_length,
            below,
            deeper,
        ),
        tree_view(after) == tree_view(between).update(
            v,
            seen(
                tree_view(between)[v],
                if turn == below.1 {
                    below.0 as int
                } else {
                    -(below.0 as int)
                },
            ),
        ),
    ensures
        is_visit(rate, before, after, v, turn, board, size, players, win_length, below, draws),
{
    let tree = tree_view(before);
    assert(tree[v] == before[v]@);
}

/// The node passes a visit on to one of its children: its move completed
/// no line, and all its answers were tried.
pub open spec fn passes_on(node: NodeView) -> bool {
    node.win_result is None && node.possible_moves.len() == 0 && node.children.len() > 0
}

/// The node `i` lies on the way that a visit of `v` takes with `choices`.
pub open spec fn on_way(tree: Seq<NodeView>, v: int, choices: Seq<int>, i: int) -> bool
    decreases choices.len(),
{
    i == v || (passes_on(tree[v]) && choices.len() > 0 && on_way(
        tree,
        tree[v].children[choices[0]] as int,
        choices.drop_first(),
        i,
    ))
}

/// Each of `choices` names a child of the node at which it is made.
pub open spec fn choices_fit(tree: Seq<NodeView>, v: int, choices: Seq<int>) -> bool
    decreases choices.len(),
{
    passes_on(tree[v]) && choices.len() > 0 ==> 0 <= choices[0] < tree[v].children.len()
        && choices_fit(tree, tree[v].children[choices[0]] as int, choices.drop_first())
}

/// Every child comes after its parent in the tree.
pub open spec fn children_follow(tree: Seq<NodeView>) -> bool {
    forall|i: int, k: int|
        0 <= i < tree.len() && 0 <= k < tree[i].children.len() ==> i
            < #[trigger] tree[i].children[k] < tree.len()
}

/// What a visit does to the tree: a node off the way stays as it was; a node
/// on the way keeps its move and is seen once more; and a node that passed
/// the visit on has what the visit was worth added to its score where that
/// is at its own turn, and taken from it otherwise. The tree loses no node
/// and gains one at most.
pub proof fn lemma_visit_touches_the_way(
    tree: Seq<NodeView>,
    v: int,
    turn: int,
    board: Seq<PlayerMove>,
    size: Size,
    players: Seq<i32>,
    win_length: u32,
    draws: Draws,
)
    requires
        children_follow(tree),
        0 <= v < tree.len(),
        choices_fit(tree, v, draws.choices),
    ensures
        ({
            let end = visit(tree, v, turn, board, size, players, win_length, draws);
            &&& tree.len() <= end.tree.len() <= tree.len() + 1
            &&& forall|i: int|
                0 <= i < tree.len() && !on_way(tree, v, draws.choices, i) ==> #[trigger] end.tree[i]
                    == tree[i]
            &&& forall|i: int|
                0 <= i < tree.len() && on_way(tree, v, draws.choices, i) ==> (
                #[trigger] end.tree[i]).visit_counter == tree[i].visit_counter + 1
                    && end.tree[i].moves == tree[i].moves
            &&& forall|i: int| 0 <= i < v ==> !on_way(tree, v, draws.choices, i)
            &&& passes_on(tree[v]) && draws.choices.len() > 0 ==> end.tree[v].score
                == tree[v].score + if turn == end.value_turn {
                end.value
            } else {
                -end.value
            }
        }),
    decreases draws.choices.len(),
{
    let end = visit(tree, v, turn, board, size, players, win_length, draws);
    if passes_on(tree[v]) && draws.choices.len() > 0 {
        let child = tree[v].children[draws.choices[0]] as int;
        let rest = Draws { choices: draws.choices.drop_first(), ..draws };
        let next = turn_after(turn, players.len() as int);
        lemma_visit_touches_the_way(
            tree,
            child,
            next,
            board + tree[v].moves,
            size,
            players,
            win_length,
            rest,
        );
        let below = visit(tree, child, next, board + tree[v].moves, size, players, win_length, rest);
        assert(!on_way(tree, child, rest.choices, v));
        assert(below.tree[v] == tree[v]);
        assert forall|i: int| 0 <= i < tree.len() && !on_way(tree, v, draws.choices, i) implies (
        #[trigger] end.tree[i]) == tree[i] by {
            assert(!on_way(tree, child, rest.choices, i));
            assert(below.tree[i] == tree[i]);
        }
        assert forall|i: int| 0 <= i < tree.len() && on_way(tree, v, draws.choices, i) implies (
        #[trigger] end.tree[i]).visit_counter == tree[i].visit_counter + 1 && end.tree[i].moves
            == tree[i].moves by {
            if i != v {
                assert(on_way(tree, child, rest.choices, i));
                assert(below.tree[i].visit_counter == tree[i].visit_counter + 1);
            }
        }
        assert forall|i: int| 0 <= i < v implies !on_way(tree, v, draws.choices, i) by {
            assert(!on_way(tree, child, rest.choices, i));
        }
    }
}

/// A copy of `cells`.
pub fn copy_cells(cells: &Vec<Size>) -> (copy: Vec<Size>)
    ensures
        copy@ == cells@,
{
    let mut copy: Vec<Size> = Vec::new();
    let mut i: usize = 0;
    while i < cells.len()
        invariant
            i <= cells.len(),
            copy@ == cells@.take(i as int),
        decreases cells.len() - i,
    {
        copy.push(cells[i]);
        i += 1;
        assert(copy@ =~= cells@.take(i as int));
    }
    assert(cells@.take(i as int) =~= cells@);
    copy
}

impl MCTSAlgorithm {
    /// Replaces the score of the node `v`, which is no root and was seen
    /// once, by the outcome of the game that was played out from it.
    pub fn set_score(&mut self, v: usize, outcome: i64)
        requires
            old(self).wf(),
            old(self).roots@.len() <= v < old(self).nodes@.len(),
            -1 <= outcome <= 1,
            !old(self).nodes@[v as int].won(),
        ensures
            final(self).wf(),
            final(self).roots@ == old(self).roots@,
            final(self).total_iterations == old(self).total_iterations,
            final(self).nodes@.len() == old(self).nodes@.len(),
            final(self).nodes@[v as int].score == outcome,
            final(self).nodes@[v as int].visit_counter == old(self).nodes@[v as int].visit_counter,
            final(self).nodes@[v as int].moves@ == old(self).nodes@[v as int].moves@,
            final(self).nodes@[v as int].win_result == old(self).nodes@[v as int].win_result,
            final(self).nodes@[v as int].children@ == old(self).nodes@[v as int].children@,
            final(self).nodes@[v as int].possible_moves@ == old(
                self,
            ).nodes@[v as int].possible_moves@,
            forall|i: int|
                0 <= i < old(self).nodes@.len() && i != v ==> #[trigger] final(self).nodes@[i]
                    == old(self).nodes@[i],
    {
        self.nodes[v].score = outcome;
    }

    /// Visits the node `v`, whose way ends here without a new child: one
    /// whose move completed a line, or one without answers and children.
    pub fn visit_end<F: Fn(i64, u32, u32) -> i64>(
        &mut self,
        v: usize,
        turn: usize,
        board: &Grid,
        players: &Vec<i32>,
        win_length: u32,
        rate: &F,
    ) -> (outcome: (i64, usize))
        requires
            old(self).wf(),
            v < old(self).nodes@.len(),
            players@.len() > 0,
            turn < players@.len(),
            old(self).nodes@[v as int].visit_counter < old(self).total_iterations,
            old(self).nodes@[v as int].won() || (old(self).nodes@[v as int].possible_moves@.len()
                == 0 && old(self).nodes@[v as int].children@.len() == 0),
        ensures
            visited(*old(self), *final(self), v as int),
            final(self).nodes@.len() == old(self).nodes@.len(),
            -1 <= outcome.0 <= 1,
            outcome.1 < players@.len(),
            exists|draws: Draws|
                is_visit(
                    rate,
                    old(self).nodes@,
                    final(self).nodes@,
                    v as int,
                    turn as int,
                    board@,
                    board.extent(),
                    players@,
                    win_length,
                    outcome,
                    draws,
                ),
    {
        let ghost tree = tree_view(self.nodes@);
        let worth: i64 = if self.nodes[v].win_result.is_some() {
            1
        } else {
            0
        };
        self.settle(v, worth);
        proof {
            let draws = Draws { choices: Seq::empty(), pick: 0, picks: Seq::empty() };
            assert(tree_view(self.nodes@) =~= tree.update(
                v as int,
                seen(tree[v as int], worth as int),
            ));
            assert(is_visit(
                rate,
                old(self).nodes@,
                self.nodes@,
                v as int,
                turn as int,
                board@,
                board.extent(),
                players@,
                win_length,
                (worth, turn),
                draws,
            ));
        }
        (worth, turn)
    }

    /// Visits the node `v`, which has untried answers: it gets a child for
    /// one of them, drawn by chance, and a game is played out from there.
    pub fn visit_new_child<F: Fn(i64, u32, u32) -> i64>(
        &mut self,
        v: usize,
        turn: usize,
        board: Grid,
        players: &Vec<i32>,
        win_length: u32,
        rate: &F,
    ) -> (outcome: (i64, usize))
        requires
            old(self).wf(),
            v < old(self).nodes@.len(),
            players@.len() > 0,
            turn < players@.len(),
            old(self).nodes@[v as int].visit_counter < old(self).total_iterations,
            old(self).nodes@[v as int].possible_moves@.len() > 0,
        ensures
            visited(*old(self), *final(self), v as int),
            final(self).nodes@.len() == old(self).nodes@.len() + 1,
            -1 <= outcome.0 <= 1,
            outcome.1 < players@.len(),
            exists|draws: Draws|
                is_visit(
                    rate,
                    old(self).nodes@,
                    final(self).nodes@,
                    v as int,
                    turn as int,
                    board@,
                    board.extent(),
                    players@,
                    win_length,
                    outcome,
                    draws,
                ),
    {
        let ghost before = self.nodes@;
        let ghost tree = tree_view(before);
        let ghost base = board@;
        let ghost size = board.extent();
        let mut board = board;
        let next: usize = if turn >= players.len() - 1 {
            0
        } else {
            turn + 1
        };
        board.add_range(&self.nodes[v].moves);
        let pick = random_index(self.nodes[v].possible_moves.len());
        let ghost m = PlayerMove {
            player: players@[next as int],
            position: before[v as int].possible_moves@[pick as int],
        };
        let ghost here = base + before[v as int].moves@;
        let ghost fresh = fresh_view(here, size, win_length, m);
        let child = self.expand(v, players[next], &board, win_length, pick);
        assert(self.nodes@[child as int]@ == fresh);
        board.add_range(&self.nodes[child].moves);
        let ghost mut picks: Seq<int> = Seq::empty();
        if self.nodes[child].possible_moves.len() > 0 {
            let cells = copy_cells(&self.nodes[child].possible_moves);
            let ghost start = board@;
            let played = Self::simulate(&mut board, next, next, players, win_length, cells);
            proof {
                picks = choose|picks: Seq<int>|
                    picks_fit(picks, fresh.possible_moves.len() as int) && played == rollout(
                        start,
                        size,
                        players@,
                        win_length,
                        next as int,
                        next as int,
                        fresh.possible_moves,
                        picks,
                    );
                assert(start =~= here + fresh.moves);
            }
            self.set_score(child, played);
        }
        let child_score = self.nodes[child].score;
        assert(self.nodes@[child as int].well_formed());
        let ghost grown = self.nodes@;
        self.settle(v, -child_score);
        proof {
            let draws = Draws { choices: Seq::empty(), pick: pick as int, picks };
            let end = visit(tree, v as int, turn as int, base, size, players@, win_length, draws);
            assert(self.nodes@[child as int] == grown[child as int]);
            assert(tree_view(self.nodes@) =~= end.tree);
            assert(is_visit(
                rate,
                before,
                self.nodes@,
                v as int,
                turn as int,
                base,
                size,
                players@,
                win_length,
                (child_score, next),
                draws,
            ));
        }
        (child_score, next)
    }

    /// Visits the node `v`, where it is the turn of `turn` and `board` holds
    /// the moves that lead to `v`, and the nodes below it: see `visit`.
    /// Returns what the visit was worth, and at whose turn.
    pub fn visit_node<F: Fn(i64, u32, u32) -> i64>(
        &mut self,
        v: usize,
        turn: usize,
        board: Grid,
        players: &Vec<i32>,
        win_length: u32,
        rate: &F,
    ) -> (outcome: (i64, usize))
        requires
            old(self).wf(),
            v < old(self).nodes@.len(),
            players@.len() > 0,
            turn < players@.len(),
            rates_all(rate),
            forall|i: int|
                0 <= i < old(self).nodes@.len() ==> (#[trigger] old(self).nodes@[i]).visit_counter
                    < old(self).total_iterations,
        ensures
            visited(*old(self), *final(self), v as int),
            -1 <= outcome.0 <= 1,
            outcome.1 < players@.len(),
            exists|draws: Draws|
                is_visit(
                    rate,
                    old(self).nodes@,
                    final(self).nodes@,
                    v as int,
                    turn as int,
                    board@,
                    board.extent(),
                    players@,
                    win_length,
                    outcome,
                    draws,
                ),
        decreases old(self).nodes@.len() - v,
    {
        if self.nodes[v].win_result.is_some() {
            return self.visit_end(v, turn, &board, players, win_length, rate);
        }
        if self.nodes[v].possible_moves.len() > 0 {
            return self.visit_new_child(v, turn, board, players, win_length, rate);
        }
        if self.nodes[v].children.len() == 0 {
            return self.visit_end(v, turn, &board, players, win_length, rate);
        }
        let ghost before = self.nodes@;
        let ghost base = board@;
        let ghost size = board.extent();
        let mut board = board;
        let next: usize = if turn >= players.len() - 1 {
            0
        } else {
            turn + 1
        };
        let place = Self::select(
            &self.nodes,
            &self.nodes[v].children,
            self.nodes[v].visit_counter + 1,
            rate,
        );
        let child = self.nodes[v].children[place];
        board.add_range(&self.nodes[v].moves);
        let ghost here = board@;
        let below = self.visit_node(child, next, board, players, win_length, rate);
        let ghost after = self.nodes@;
        let ghost deeper = choose|draws: Draws|
            is_visit(
                rate,
                before,
                after,
                child as int,
                next as int,
                here,
                size,
                players@,
                win_length,
                below,
                draws,
            );
        assert(self.nodes@[v as int] == before[v as int]);
        let delta: i64 = if turn == below.1 {
            below.0
        } else {
            -below.0
        };
        self.settle(v, delta);
        proof {
            let draws = Draws {
                choices: seq![place as int] + deeper.choices,
                pick: deeper.pick,
                picks: deeper.picks,
            };
            assert(draws.choices[0] == place);
            assert(draws.choices.drop_first() =~= deeper.choices);
            assert((Draws { choices: draws.choices.drop_first(), ..draws }) == deeper);
            assert(tree_view(self.nodes@) =~= tree_view(after).update(
                v as int,
                seen(tree_view(after)[v as int], delta as int),
            ));
            lemma_passed_on(
                rate,
                before,
                self.nodes@,
                after,
                v as int,
                turn as int,
                base,
                size,
                players@,
                win_length,
                below,
                draws,
                deeper,
            );
        }
        below
    }

    /// One iteration of the search. The root is visited that `select`
    /// chooses for the ratings under the number of iterations so far, and
    /// from it the tree is visited as `visit` says: down through the nodes
    /// that the ratings choose, to a node that is given a new child by
    /// chance and a game played out from it, or to a node that has no
    /// answers; every node on the way is seen once more and takes the
    /// outcome into its score, for or against it according to its turn.
    pub fn iterate<F: Fn(i64, u32, u32) -> i64>(
        &mut self,
        players: &Vec<i32>,
        current_turn: usize,
        grid: &Grid,
        win_length: u32,
        rate: &F,
    )
        requires
            old(self).wf(),
            old(self).roots@.len() > 0,
            old(self).total_iterations < u32::MAX,
            players@.len() > 0,
            current_turn < players@.len(),
            rates_all(rate),
        ensures
            final(self).wf(),
            final(self).roots@ == old(self).roots@,
            final(self).total_iterations == old(self).total_iterations + 1,
            final(self).nodes@.len() <= old(self).nodes@.len() + 1,
            grown_from(final(self).nodes@, old(self).nodes@),
            exists|keys: Seq<i64>, r: int, draws: Draws|
                is_iteration(
                    rate,
                    old(self).nodes@,
                    old(self).roots@,
                    old(self).total_iterations,
                    final(self).nodes@,
                    current_turn as int,
                    grid@,
                    grid.extent(),
                    players@,
                    win_length,
                    keys,
                    r,
                    draws,
                ),
    {
        let top = Self::select(&self.nodes, &self.roots, self.total_iterations, rate);
        let ghost keys = choose|keys: Seq<i64>|
            rated_by(rate, self.nodes@, self.roots@, self.total_iterations, keys) && is_last_max(
                keys,
                top as int,
            );
        self.total_iterations += 1;
        let root = self.roots[top];
        let outcome = self.visit_node(root, current_turn, grid.clone(), players, win_length, rate);
        proof {
            let draws = choose|draws: Draws|
                is_visit(
                    rate,
                    old(self).nodes@,
                    self.nodes@,
                    root as int,
                    current_turn as int,
                    grid@,
                    grid.extent(),
                    players@,
                    win_length,
                    outcome,
                    draws,
                );
            assert(one_root_visited(
                self.nodes@,
                old(self).nodes@,
                old(self).roots@.len() as int,
                top as int,
            ));
            assert(is_iteration(
                rate,
                old(self).nodes@,
                old(self).roots@,
                old(self).total_iterations,
                self.nodes@,
                current_turn as int,
                grid@,
                grid.extent(),
                players@,
                win_length,
                keys,
                top as int,
                draws,
            ));
        }
    }
}

/// How many iterations the search for one move makes.
pub const ITERATIONS: u32 = 10000;

/// A bot that chooses its moves by a search that plays games out at random.
/// `rate` tells the search which node to look at next: of the nodes that it
/// can choose from, the search visits the one that `rate` gives most for.
pub struct MCTSBot<F> {
    pub rate: F,
}

impl<F: Fn(i64, u32, u32) -> i64> MCTSBot<F> {
    pub fn new(rate: F) -> (bot: Self)
        ensures
            bot.rate == rate,
    {
        Self { rate }
    }
}

impl<F: Fn(i64, u32, u32) -> i64> BotLogic for MCTSBot<F> {
    /// Where a move is legal, the search needs a participant whose turn it
    /// is, and a rating that can be asked about any node.
    open spec fn can_play(&self, game: &Game) -> bool {
        empty_cells(game@.log, game@.size).len() > 0 ==> {
            &&& game.player_list@.len() > 0
            &&& game.current_turn < game.player_list@.len()
            &&& rates_all(&self.rate)
        }
    }

    open spec fn name(&self) -> Seq<char> {
        "mcts"@
    }

    /// A move found by the search, or (0, 0) where no move is legal. Where a
    /// move completes a line at once, such a move is chosen, whatever the
    /// rating and whatever chance brings.
    fn generate_move(&self, id: i32, game: &Game) -> (pos: Size)
        ensures
            forall|p: Size|
                is_legal(game@.log, game@.size, p) && #[trigger] completes_line(
                    game@.log,
                    game@.size,
                    game@.win_length,
                    PlayerMove { player: id, position: p },
                ) ==> completes_line(
                    game@.log,
                    game@.size,
                    game@.win_length,
                    PlayerMove { player: id, position: pos },
                ),
    {
        let ghost log = game@.log;
        let ghost size = game@.size;
        let ghost candidates = possible_moves(log, size, id);
        let mut algorithm = MCTSAlgorithm::new(id, &game.grid, game.win_length);
        proof {
            lemma_empty_cells(log, size);
        }
        if algorithm.roots.len() == 0 {
            return Size::new(0, 0);
        }
        let mut i: u32 = 0;
        while i < ITERATIONS && algorithm.total_iterations < u32::MAX
            invariant
                algorithm.wf(),
                game.player_list@.len() > 0,
                game.current_turn < game.player_list@.len(),
                rates_all(&self.rate),
                algorithm.roots@.len() == candidates.len(),
                candidates.len() > 0,
                forall|r: int|
                    0 <= r < candidates.len() ==> (#[trigger] algorithm.nodes@[r]).moves@[0]
                        == candidates[r] && algorithm.nodes@[r].won() == completes_line(
                        log,
                        size,
                        game@.win_length,
                        candidates[r],
                    ),
            decreases ITERATIONS - i,
        {
            let ghost before = algorithm.nodes@;
            algorithm.iterate(
                &game.player_list,
                game.current_turn,
                &game.grid,
                game.win_length,
                &self.rate,
            );
            proof {
                assert forall|r: int| 0 <= r < candidates.len() implies (
                #[trigger] algorithm.nodes@[r]).moves@[0] == candidates[r]
                    && algorithm.nodes@[r].won() == completes_line(
                    log,
                    size,
                    game@.win_length,
                    candidates[r],
                ) by {
                    assert(before[r].moves@[0] == candidates[r]);
                }
            }
            i += 1;
        }
        let pos = algorithm.find_best_move();
        proof {
            let best = choose|best: int|
                is_best_root(algorithm.nodes@, algorithm.roots@.len() as int, best) && pos
                    == algorithm.nodes@[best].moves@[0].position;
            let chosen = algorithm.nodes@[best];
            assert(chosen.moves@[0] == candidates[best]);
            assert(empty_cells(log, size)[best] == pos);
            assert forall|p: Size|
                is_legal(log, size, p) && #[trigger] completes_line(
                    log,
                    size,
                    game@.win_length,
                    PlayerMove { player: id, position: p },
                ) implies completes_line(
                log,
                size,
                game@.win_length,
                PlayerMove { player: id, position: pos },
            ) by {
                let r = empty_cells(log, size).index_of(p);
                assert(candidates[r] == PlayerMove { player: id, position: p });
                let winner = algorithm.nodes@[r];
                assert(winner.won());
                assert(ratio_at_least(chosen, winner));
                assert(chosen.well_formed() && winner.well_formed());
                assert(chosen.score >= chosen.visit_counter) by (nonlinear_arith)
                    requires
                        chosen.score * winner.visit_counter >= winner.score
                            * chosen.visit_counter,
                        winner.score == winner.visit_counter,
                        winner.visit_counter >= 1,
                        chosen.visit_counter >= 1,
                ;
            }
        }
        pos
    }

    fn get_name(&self) -> (name: String) {
        "mcts".to_owned()
    }
}

} // verus!
