//! A bot that searches the game tree to a bounded depth.
//!
//! A move that completes a line is worth more the sooner it comes; a move at
//! the search horizon is worth nothing; any other move is worth the negative
//! of the best answer to it.

use vstd::prelude::*;
use crate::bot::botlogic::BotLogic;
use crate::common::Size;
use crate::game::{Game, GameView};
use crate::grid::{
    detect_line, empty_cells, is_legal, lemma_empty_cells, possible_moves, Grid,
};
use crate::player_move::PlayerMove;

verus! {

/// How many positions a search looks at, at most, before it goes no deeper.
pub const COMPLEXITY_LIMIT: u128 = 100000;

/// The product `num * (num - 1) * ...` of `depth` factors, cut short where
/// the factors reach 1: a bound on the number of lines of play of `depth`
/// moves that start where `num` moves are possible.
pub open spec fn falling_product(num: nat, depth: nat) -> nat
    decreases depth,
{
    if depth == 0 || num <= 1 {
        1
    } else {
        num * falling_product((num - 1) as nat, (depth - 1) as nat)
    }
}

/// The product of the `count` factors `num, num - 1, ...`, for a `count` of
/// at most `num`.
pub open spec fn product_of_first(num: nat, count: nat) -> nat
    decreases count,
{
    if count == 0 {
        1
    } else {
        product_of_first(num, (count - 1) as nat) * (num - count + 1) as nat
    }
}

proof fn lemma_product_step(num: nat, count: nat)
    requires
        1 <= count <= num,
    ensures
        product_of_first(num, count) == num * product_of_first((num - 1) as nat, (count - 1) as nat),
    decreases count,
{
    if count == 1 {
        assert(product_of_first(num, 0) == 1);
        assert(product_of_first((num - 1) as nat, 0) == 1);
        assert(product_of_first(num, 1) == 1 * num);
    } else {
        lemma_product_step(num, (count - 1) as nat);
        let a = product_of_first((num - 1) as nat, (count - 2) as nat);
        let f = (num - count + 1) as nat;
        assert(product_of_first(num, (count - 1) as nat) == num * a);
        assert(product_of_first((num - 1) as nat, (count - 1) as nat) == a * f);
        assert((num * a) * f == num * (a * f)) by (nonlinear_arith);
    }
}

/// Up to `num` factors, the two products are the same number.
pub proof fn lemma_products_agree(num: nat, count: nat)
    requires
        count <= num,
    ensures
        falling_product(num, count) == product_of_first(num, count),
    decreases count,
{
    if count == 0 {
    } else if num <= 1 {
        assert(product_of_first(num, 0) == 1);
        assert(product_of_first(num, 1) == 1 * num);
    } else {
        lemma_product_step(num, count);
        lemma_products_agree((num - 1) as nat, (count - 1) as nat);
    }
}

/// With more factors the product does not get smaller, and it is never less
/// than `num` once it has a factor.
proof fn lemma_product_grows(num: nat, count: nat)
    requires
        1 <= count <= num,
    ensures
        product_of_first(num, count) >= product_of_first(num, (count - 1) as nat),
        product_of_first(num, count) >= num,
    decreases count,
{
    let f = (num - count + 1) as nat;
    let before = product_of_first(num, (count - 1) as nat);
    if count == 1 {
        assert(before == 1);
        assert(product_of_first(num, 1) == 1 * num);
    } else {
        lemma_product_grows(num, (count - 1) as nat);
        assert(before * f >= before) by (nonlinear_arith)
            requires
                f >= 1,
        ;
    }
}

/// The number of lines of play of `depth` moves from a position with `num`
/// possible moves, where every move leaves one move less: 1 where `depth` is
/// 0 or at most one move is possible.
pub fn get_complexity(num: u128, depth: u128) -> (complexity: u128)
    requires
        falling_product(num as nat, depth as nat) <= u128::MAX,
    ensures
        complexity == falling_product(num as nat, depth as nat),
    decreases depth,
{
    if depth == 0 || num <= 1 {
        return 1;
    }
    let ghost rest = falling_product((num - 1) as nat, (depth - 1) as nat);
    assert(rest <= num * rest) by (nonlinear_arith)
        requires
            num >= 1,
            rest >= 0,
    ;
    num * get_complexity(num - 1, depth - 1)
}

/// `depth` is how deep a search may go from a position with `num` possible
/// moves: the greatest depth, of at least 1 and at most `num`, for which the
/// products of 2, 3, ... and `depth` of the factors `num, num - 1, ...` all
/// stay below `complexity`.
pub open spec fn is_search_depth(num: nat, complexity: nat, depth: nat) -> bool {
    &&& 1 <= depth
    &&& depth <= num || depth == 1
    &&& forall|k: nat| 2 <= k <= depth ==> #[trigger] product_of_first(num, k) < complexity
    &&& depth < num ==> product_of_first(num, depth + 1) >= complexity
}

/// How deep a search may go from a position with `num` possible moves
/// without looking at `complexity` lines of play or more: see
/// `is_search_depth`. Where `num` itself is within `complexity`, so is the
/// number of lines of play of that depth.
pub fn get_depth(num: u128, complexity: u128) -> (depth: u128)
    ensures
        is_search_depth(num as nat, complexity as nat, depth as nat),
        depth == 1 || depth < complexity,
        num <= complexity && 1 <= complexity ==> falling_product(num as nat, depth as nat)
            <= complexity,
{
    let mut depth: u128 = 1;
    let mut current_complexity: u128 = num;
    proof {
        assert(product_of_first(num as nat, 0) == 1);
        assert(product_of_first(num as nat, 1) == 1 * num);
    }
    while depth < num
        invariant
            1 <= depth,
            depth <= num || depth == 1,
            current_complexity == product_of_first(num as nat, depth as nat),
            depth >= 2 ==> current_complexity < complexity,
            forall|k: nat|
                2 <= k <= depth ==> #[trigger] product_of_first(num as nat, k) < complexity,
        ensures
            1 <= depth,
            depth <= num || depth == 1,
            current_complexity == product_of_first(num as nat, depth as nat),
            depth >= 2 ==> current_complexity < complexity,
            forall|k: nat|
                2 <= k <= depth ==> #[trigger] product_of_first(num as nat, k) < complexity,
            depth < num ==> product_of_first(num as nat, (depth + 1) as nat) >= complexity,
        decreases num - depth,
    {
        let next = match current_complexity.checked_mul(num - depth) {
            Some(product) => product,
            None => {
                break ;
            },
        };
        if next >= complexity {
            break ;
        }
        current_complexity = next;
        depth += 1;
    }
    proof {
        if depth <= num {
            lemma_products_agree(num as nat, depth as nat);
            lemma_product_grows(num as nat, depth as nat);
        } else {
            assert(falling_product(0, 1) == 1);
        }
    }
    depth
}

/// What the move `m` is worth to the player who makes it, with `remaining`
/// further moves to look ahead: `remaining + 1` where it completes a line, 0
/// at the search horizon or where no answer is possible, and else the
/// negative of what the best answer is worth to the participant whose turn
/// is next.
pub open spec fn move_score(
    log: Seq<PlayerMove>,
    size: Size,
    players: Seq<i32>,
    win_length: u32,
    turn: int,
    m: PlayerMove,
    remaining: nat,
) -> int
    decreases remaining, 0nat, 0nat,
{
    let played = log.push(m);
    if detect_line(played, size, m.position, win_length).len() > 0 {
        (remaining + 1) as int
    } else if remaining == 0 {
        0
    } else {
        let next = (turn + 1) % (players.len() as int);
        let replies = possible_moves(played, size, players[next]);
        if replies.len() == 0 {
            0
        } else {
            -best_choice(
                played,
                size,
                players,
                win_length,
                next,
                replies,
                (remaining - 1) as nat,
            ).1
        }
    }
}

/// The best of `candidates`: the index of the first of those that are worth
/// most, and what it is worth.
pub open spec fn best_choice(
    log: Seq<PlayerMove>,
    size: Size,
    players: Seq<i32>,
    win_length: u32,
    turn: int,
    candidates: Seq<PlayerMove>,
    remaining: nat,
) -> (int, int)
    decreases remaining, 1nat, candidates.len(),
{
    if candidates.len() <= 1 {
        (0, move_score(log, size, players, win_length, turn, candidates[0], remaining))
    } else {
        let before = best_choice(
            log,
            size,
            players,
            win_length,
            turn,
            candidates.drop_last(),
            remaining,
        );
        let last = move_score(log, size, players, win_length, turn, candidates.last(), remaining);
        if last > before.1 {
            (candidates.len() - 1, last)
        } else {
            before
        }
    }
}

/// A move is never worth more than a line completed at once, nor less than
/// the negative of that.
pub proof fn lemma_move_score_bounds(
    log: Seq<PlayerMove>,
    size: Size,
    players: Seq<i32>,
    win_length: u32,
    turn: int,
    m: PlayerMove,
    remaining: nat,
)
    ensures
        -(remaining + 1) <= move_score(log, size, players, win_length, turn, m, remaining)
            <= remaining + 1,
    decreases remaining, 0nat, 0nat,
{
    let played = log.push(m);
    if detect_line(played, size, m.position, win_length).len() == 0 && remaining > 0 {
        let next = (turn + 1) % (players.len() as int);
        let replies = possible_moves(played, size, players[next]);
        if replies.len() > 0 {
            lemma_best_choice_bounds(
                played,
                size,
                players,
                win_length,
                next,
                replies,
                (remaining - 1) as nat,
            );
        }
    }
}

/// The best of some candidates is one of them, and worth what that one is
/// worth; no candidate is worth more, and none before it as much.
pub proof fn lemma_best_choice_bounds(
    log: Seq<PlayerMove>,
    size: Size,
    players: Seq<i32>,
    win_length: u32,
    turn: int,
    candidates: Seq<PlayerMove>,
    remaining: nat,
)
    requires
        candidates.len() > 0,
    ensures
        ({
            let best = best_choice(log, size, players, win_length, turn, candidates, remaining);
            &&& 0 <= best.0 < candidates.len()
            &&& best.1 == move_score(
                log,
                size,
                players,
                win_length,
                turn,
                candidates[best.0],
                remaining,
            )
            &&& -(remaining + 1) <= best.1 <= remaining + 1
            &&& forall|i: int|
                0 <= i < candidates.len() ==> move_score(
                    log,
                    size,
                    players,
                    win_length,
                    turn,
                    #[trigger] candidates[i],
                    remaining,
                ) <= best.1
            &&& forall|i: int|
                0 <= i < best.0 ==> move_score(
                    log,
                    size,
                    players,
                    win_length,
                    turn,
                    #[trigger] candidates[i],
                    remaining,
                ) < best.1
        }),
    decreases remaining, 1nat, candidates.len(),
{
    if candidates.len() <= 1 {
        lemma_move_score_bounds(log, size, players, win_length, turn, candidates[0], remaining);
    } else {
        let shorter = candidates.drop_last();
        lemma_best_choice_bounds(log, size, players, win_length, turn, shorter, remaining);
        lemma_move_score_bounds(log, size, players, win_length, turn, candidates.last(), remaining);
        let before = best_choice(log, size, players, win_length, turn, shorter, remaining);
        assert(shorter[before.0] == candidates[before.0]);
        assert forall|i: int| 0 <= i < candidates.len() - 1 implies move_score(
            log,
            size,
            players,
            win_length,
            turn,
            #[trigger] candidates[i],
            remaining,
        ) <= before.1 by {
            assert(shorter[i] == candidates[i]);
        }
        assert forall|i: int| 0 <= i < before.0 implies move_score(
            log,
            size,
            players,
            win_length,
            turn,
            #[trigger] candidates[i],
            remaining,
        ) < before.1 by {
            assert(shorter[i] == candidates[i]);
        }
    }
}

/// The depth to which a search from a position with `count` possible moves
/// goes: as `get_depth` computes it for the complexity limit.
pub open spec fn search_depth(count: nat) -> nat
    recommends
        count >= 1,
{
    choose|depth: nat| is_search_depth(count, COMPLEXITY_LIMIT as nat, depth)
}

/// The move that the search chooses for `id` on the board `log`: none where
/// no move is legal.
pub open spec fn minimax_move(
    log: Seq<PlayerMove>,
    size: Size,
    players: Seq<i32>,
    win_length: u32,
    turn: int,
    id: i32,
) -> Option<Size> {
    let candidates = possible_moves(log, size, id);
    if candidates.len() == 0 {
        None
    } else {
        Some(
            candidates[best_choice(
                log,
                size,
                players,
                win_length,
                turn,
                candidates,
                (search_depth(candidates.len()) - 1) as nat,
            ).0].position,
        )
    }
}

/// Only one depth meets what `get_depth` promises.
pub proof fn lemma_search_depth_unique(count: nat, limit: nat, a: nat, b: nat)
    requires
        is_search_depth(count, limit, a),
        is_search_depth(count, limit, b),
    ensures
        a == b,
{
    if a < b {
        assert(product_of_first(count, a + 1) < limit);
    } else if b < a {
        assert(product_of_first(count, b + 1) < limit);
    }
}

/// The search has no memory and takes no chances: for two games with the
/// same board, the same participants in the same order, the same win length
/// and the same turn, it chooses the same move for the same player.
pub proof fn lemma_search_is_deterministic(a: GameView, b: GameView, id: i32)
    requires
        a.log == b.log,
        a.size == b.size,
        a.player_list == b.player_list,
        a.win_length == b.win_length,
        a.current_turn == b.current_turn,
    ensures
        minimax_move(a.log, a.size, a.player_list, a.win_length, a.current_turn as int, id)
            == minimax_move(
            b.log,
            b.size,
            b.player_list,
            b.win_length,
            b.current_turn as int,
            id,
        ),
{
}

/// A bot that chooses its moves by a depth-bounded search.
pub struct MinMaxBot {}

impl MinMaxBot {
    pub fn new() -> Self {
        Self {  }
    }

    /// The move that the search chooses for `id` in `game`, or `None` where
    /// no move is legal. The choice depends on nothing but the board, the
    /// participants and their order, the win length and the turn.
    pub fn get_best_move(id: i32, game: &Game) -> (best: Option<Size>)
        requires
            empty_cells(game@.log, game@.size).len() > 0 ==> game.player_list@.len() > 0
                && game.current_turn < game.player_list@.len(),
        ensures
            best == minimax_move(
                game@.log,
                game@.size,
                game@.player_list,
                game@.win_length,
                game@.current_turn as int,
                id,
            ),
            best is None <==> empty_cells(game@.log, game@.size).len() == 0,
            best matches Some(pos) ==> is_legal(game@.log, game@.size, pos),
    {
        let moves = game.grid.get_possible_moves(id);
        if moves.len() < 1 {
            return None;
        }
        let count = moves.len() as u128;
        let limited = get_depth(count, COMPLEXITY_LIMIT);
        let depth = limited as u32;
        proof {
            let found = search_depth(count as nat);
            lemma_search_depth_unique(
                count as nat,
                COMPLEXITY_LIMIT as nat,
                limited as nat,
                found,
            );
            lemma_best_choice_bounds(
                game@.log,
                game@.size,
                game@.player_list,
                game@.win_length,
                game@.current_turn as int,
                moves@,
                (depth - 1) as nat,
            );
            lemma_empty_cells(game@.log, game@.size);
        }
        let best = Self::find_best_move(
            moves,
            &game.grid,
            &game.player_list,
            game.win_length,
            game.current_turn,
            depth,
        );
        Some(best.1)
    }

    /// What the move `m` is worth on the board `grid`, with `depth` further
    /// moves to look ahead: see `move_score`.
    pub fn get_score(
        m: &PlayerMove,
        grid: Grid,
        player_list: &Vec<i32>,
        win_length: u32,
        current_turn: usize,
        depth: u32,
    ) -> (score: i64)
        requires
            player_list@.len() > 0,
            current_turn < player_list@.len(),
        ensures
            score == move_score(
                grid@,
                grid.extent(),
                player_list@,
                win_length,
                current_turn as int,
                *m,
                depth as nat,
            ),
        decreases depth, 1nat,
    {
        let mut grid = grid;
        let ghost log = grid@;
        grid.add(*m);
        let line = grid.check_win(&m.position, win_length);
        if line.len() > 0 {
            return depth as i64 + 1;
        }
        if depth == 0 {
            return 0;
        }
        let next_turn = if current_turn >= player_list.len() - 1 {
            0
        } else {
            current_turn + 1
        };
        assert(next_turn == (current_turn + 1) % (player_list@.len() as int)) by (nonlinear_arith)
            requires
                0 <= current_turn < player_list@.len(),
                next_turn == if current_turn >= player_list@.len() - 1 {
                    0
                } else {
                    current_turn + 1
                },
        ;
        let replies = grid.get_possible_moves(player_list[next_turn]);
        if replies.len() == 0 {
            return 0;
        }
        proof {
            lemma_best_choice_bounds(
                grid@,
                grid.extent(),
                player_list@,
                win_length,
                next_turn as int,
                replies@,
                (depth - 1) as nat,
            );
        }
        let best = Self::find_best_move(replies, &grid, player_list, win_length, next_turn, depth);
        -best.0
    }

    /// The best of `moves` on the board `grid` for the participant at
    /// `current_turn`, with `depth - 1` further moves to look ahead: what it
    /// is worth, and where it goes. Of several that are worth most, the
    /// first is chosen.
    pub fn find_best_move(
        moves: Vec<PlayerMove>,
        grid: &Grid,
        player_list: &Vec<i32>,
        win_length: u32,
        current_turn: usize,
        depth: u32,
    ) -> (best: (i64, Size))
        requires
            moves@.len() > 0,
            depth >= 1,
            player_list@.len() > 0,
            current_turn < player_list@.len(),
        ensures
            best.0 == best_choice(
                grid@,
                grid.extent(),
                player_list@,
                win_length,
                current_turn as int,
                moves@,
                (depth - 1) as nat,
            ).1,
            best.1 == moves@[best_choice(
                grid@,
                grid.extent(),
                player_list@,
                win_length,
                current_turn as int,
                moves@,
                (depth - 1) as nat,
            ).0].position,
        decreases depth, 0nat,
    {
        let mut high_score: i64 = Self::get_score(
            &moves[0],
            grid.clone(),
            player_list,
            win_length,
            current_turn,
            depth - 1,
        );
        let mut best_move = moves[0].position;
        let ghost mut best_index: int = 0;
        let mut i: usize = 1;
        proof {
            assert(moves@.take(1)[0] == moves@[0]);
        }
        while i < moves.len()
            invariant
                1 <= i <= moves.len(),
                depth >= 1,
                player_list@.len() > 0,
                current_turn < player_list@.len(),
                (best_index, high_score as int) == best_choice(
                    grid@,
                    grid.extent(),
                    player_list@,
                    win_length,
                    current_turn as int,
                    moves@.take(i as int),
                    (depth - 1) as nat,
                ),
                0 <= best_index < i,
                best_move == moves@[best_index].position,
            decreases moves.len() - i,
        {
            let score = Self::get_score(
                &moves[i],
                grid.clone(),
                player_list,
                win_length,
                current_turn,
                depth - 1,
            );
            proof {
                let longer = moves@.take(i + 1);
                assert(longer.drop_last() =~= moves@.take(i as int));
                assert(longer.last() == moves@[i as int]);
            }
            if score > high_score {
                high_score = score;
                best_move = moves[i].position;
                proof {
                    best_index = i as int;
                }
            }
            i += 1;
        }
        proof {
            assert(moves@.take(i as int) =~= moves@);
        }
        (high_score, best_move)
    }
}

impl BotLogic for MinMaxBot {
    /// Where a move is legal, the search needs a participant whose turn it
    /// is.
    open spec fn can_play(&self, game: &Game) -> bool {
        empty_cells(game@.log, game@.size).len() > 0 ==> game.player_list@.len() > 0
            && game.current_turn < game.player_list@.len()
    }

    open spec fn name(&self) -> Seq<char> {
        "minmax"@
    }

    /// The move that the search chooses, or (0, 0) where no move is legal.
    /// Asked again about the same game, the search chooses the same move.
    fn generate_move(&self, id: i32, game: &Game) -> (pos: Size)
        ensures
            pos == match minimax_move(
                game@.log,
                game@.size,
                game@.player_list,
                game@.win_length,
                game@.current_turn as int,
                id,
            ) {
                Some(best) => best,
                None => Size { x: 0, y: 0 },
            },
    {
        match Self::get_best_move(id, game) {
            Some(best) => best,
            None => Size::new(0, 0),
        }
    }

    fn get_name(&self) -> (name: String) {
        "minmax".to_owned()
    }
}

} // verus!
