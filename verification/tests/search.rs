use connect_n::bot::botlogic::BotLogic;
use connect_n::bot::mcts::{copy_cells, MCTSAlgorithm, MCTSBot, Node};
use connect_n::bot::minmax::{get_complexity, get_depth, MinMaxBot};
use connect_n::bot::random::RandomBot;
use connect_n::bot::{Bot, BotStrategy, TurnOutcome};
use connect_n::common::Size;
use connect_n::game::Game;
use connect_n::grid::Grid;
use connect_n::net::GameCreationData;
use connect_n::player::Player;
use connect_n::player_move::PlayerMove;

#[test]
fn test_complexity() {
    for i in 1..10 {
        for j in 1..10 {
            let num = i * 10;
            let max_complexity = j * 100000;
            let depth = get_depth(num, max_complexity);
            let complexity = get_complexity(i * 10, depth);
            assert!(
                complexity <= max_complexity,
                "{} <= {} is not true!",
                complexity,
                max_complexity
            );
        }
    }
}

#[test]
fn complexity_is_a_falling_product() {
    assert_eq!(get_complexity(5, 3), 60);
    assert_eq!(get_complexity(5, 0), 1);
    assert_eq!(get_complexity(0, 4), 1);
    assert_eq!(get_complexity(1, 4), 1);
    assert_eq!(get_complexity(4, 9), 24);
    assert_eq!(get_complexity(10, 5), 30240);
}

#[test]
fn depth_is_the_greatest_below_the_limit() {
    assert_eq!(get_depth(10, 100000), 5);
    assert_eq!(get_depth(10, 30241), 5);
    assert_eq!(get_depth(10, 30240), 4);
    assert_eq!(get_depth(6, 100000), 6);
    assert_eq!(get_depth(0, 100000), 1);
    assert_eq!(get_depth(1, 100000), 1);
    assert_eq!(get_depth(1000000, 10), 1);
    assert_eq!(get_depth(3, 0), 1);
    assert_eq!(get_depth(u128::MAX, u128::MAX), 1);
}

/// A game that runs, with the given moves on its board and the participants
/// 0 and 1.
fn game_with(width: u32, height: u32, win: u32, turn: usize, moves: &[(i32, u32, u32)]) -> Game {
    let mut counter = 0;
    let mut game = Game::new(
        &GameCreationData::new(Size::new(width, height), false, 4, win),
        &mut counter,
        &Player::new(0),
    );
    game.player_list = vec![0, 1];
    game.current_turn = turn;
    game.running = true;
    for (id, x, y) in moves {
        game.grid.add(PlayerMove::new(*id, Size::new(*x, *y)));
    }
    game
}

/// The rating of a node by the upper confidence bound, as a number whose
/// order is that of the bound.
fn upper_confidence(score: i64, visits: u32, parent_visits: u32) -> i64 {
    let bound = (score as f32) / (visits as f32)
        + (2.0f32).sqrt() * ((parent_visits as f32).log10() / (visits as f32)).sqrt();
    let bits = bound.to_bits() as i32;
    (bits ^ ((((bits >> 31) as u32) >> 1) as i32)) as i64
}

// A search written out plainly, to hold the library's against.

fn owner(board: &Vec<(i32, u32, u32)>, x: i64, y: i64) -> Option<i32> {
    board.iter().rev().find(|m| m.1 as i64 == x && m.2 as i64 == y).map(|m| m.0)
}

fn has_line(board: &Vec<(i32, u32, u32)>, w: u32, h: u32, win: u32, x: u32, y: u32) -> bool {
    let me = owner(board, x as i64, y as i64);
    for (dx, dy) in [(1i64, 0i64), (0, 1), (1, 1), (1, -1)] {
        let mut run = 1;
        for sign in [-1i64, 1] {
            let (mut cx, mut cy) = (x as i64 + sign * dx, y as i64 + sign * dy);
            while cx >= 0 && cy >= 0 && cx < w as i64 && cy < h as i64 && owner(board, cx, cy) == me
            {
                run += 1;
                cx += sign * dx;
                cy += sign * dy;
            }
        }
        if run >= win {
            return true;
        }
    }
    false
}

fn free(board: &Vec<(i32, u32, u32)>, w: u32, h: u32) -> Vec<(u32, u32)> {
    let mut cells = Vec::new();
    for x in 0..w {
        for y in 0..h {
            if owner(board, x as i64, y as i64).is_none() {
                cells.push((x, y));
            }
        }
    }
    cells
}

fn plain_score(
    board: &Vec<(i32, u32, u32)>,
    w: u32,
    h: u32,
    win: u32,
    players: &[i32],
    turn: usize,
    m: (i32, u32, u32),
    remaining: u32,
) -> i64 {
    let mut next = board.clone();
    next.push(m);
    if has_line(&next, w, h, win, m.1, m.2) {
        return remaining as i64 + 1;
    }
    if remaining == 0 {
        return 0;
    }
    let turn = (turn + 1) % players.len();
    let cells = free(&next, w, h);
    if cells.is_empty() {
        return 0;
    }
    let mut best = i64::MIN;
    for (x, y) in cells {
        let s = plain_score(&next, w, h, win, players, turn, (players[turn], x, y), remaining - 1);
        if s > best {
            best = s;
        }
    }
    -best
}

fn plain_choice(board: &Vec<(i32, u32, u32)>, w: u32, h: u32, win: u32, turn: usize, id: i32) -> (u32, u32) {
    let cells = free(board, w, h);
    let depth = get_depth(cells.len() as u128, 100000) as u32;
    let mut best = (i64::MIN, (0, 0));
    for (x, y) in cells {
        let s = plain_score(board, w, h, win, &[0, 1], turn, (id, x, y), depth - 1);
        if s > best.0 {
            best = (s, (x, y));
        }
    }
    best.1
}

#[test]
fn minimax_takes_the_winning_move() {
    let game = game_with(3, 3, 3, 0, &[(0, 0, 0), (1, 0, 1), (0, 1, 0), (1, 1, 1)]);
    assert_eq!(MinMaxBot::new().generate_move(0, &game), Size::new(2, 0));
    assert_eq!(MinMaxBot::get_best_move(0, &game), Some(Size::new(2, 0)));
}

#[test]
fn minimax_answers_the_same_when_asked_again() {
    let game = game_with(3, 3, 3, 1, &[(0, 1, 1), (1, 0, 0), (0, 2, 2)]);
    let first = MinMaxBot::new().generate_move(1, &game);
    for _ in 0..3 {
        assert_eq!(MinMaxBot::new().generate_move(1, &game), first);
    }
    assert_eq!(game.grid.move_count(), 3);
}

#[test]
fn minimax_agrees_with_a_plain_search() {
    let boards: Vec<(usize, Vec<(i32, u32, u32)>)> = vec![
        (0, vec![(0, 0, 0), (1, 0, 1), (0, 1, 0), (1, 1, 1)]),
        (1, vec![(0, 1, 1), (1, 0, 0), (0, 2, 2)]),
        (0, vec![(0, 1, 1), (1, 0, 0), (0, 0, 2), (1, 2, 0)]),
        (1, vec![(0, 0, 0), (1, 1, 1), (0, 2, 2), (1, 0, 2), (0, 2, 0)]),
        (0, vec![(0, 0, 0), (1, 1, 0), (0, 2, 0), (1, 0, 1), (0, 1, 1), (1, 2, 1), (1, 0, 2)]),
    ];
    for (turn, board) in boards {
        let game = game_with(3, 3, 3, turn, &board);
        let id = [0, 1][turn];
        let expected = plain_choice(&board, 3, 3, 3, turn, id);
        assert_eq!(
            MinMaxBot::new().generate_move(id, &game),
            Size::new(expected.0, expected.1)
        );
    }
}

#[test]
fn minimax_scores_a_line_by_the_depth_left() {
    let mut grid = Grid::new(Size::new(3, 3));
    grid.add(PlayerMove::new(0, Size::new(0, 0)));
    grid.add(PlayerMove::new(0, Size::new(1, 0)));
    let players = vec![0, 1];
    let win = PlayerMove::new(0, Size::new(2, 0));
    assert_eq!(MinMaxBot::get_score(&win, grid.clone(), &players, 3, 0, 4), 5);
    assert_eq!(MinMaxBot::get_score(&win, grid.clone(), &players, 3, 0, 0), 1);
    let quiet = PlayerMove::new(0, Size::new(2, 2));
    assert_eq!(MinMaxBot::get_score(&quiet, grid.clone(), &players, 3, 0, 0), 0);
    let gift = PlayerMove::new(1, Size::new(2, 2));
    assert_eq!(MinMaxBot::get_score(&gift, grid.clone(), &players, 3, 1, 1), -1);
    let moves = vec![quiet, win, PlayerMove::new(0, Size::new(1, 1))];
    assert_eq!(
        MinMaxBot::find_best_move(moves, &grid, &players, 3, 0, 2),
        (2, Size::new(2, 0))
    );
}

#[test]
fn minimax_takes_the_first_of_equal_moves() {
    let grid = Grid::new(Size::new(3, 3));
    let players = vec![0, 1];
    let moves = grid.get_possible_moves(0);
    assert_eq!(
        MinMaxBot::find_best_move(moves, &grid, &players, 3, 0, 1),
        (0, Size::new(0, 0))
    );
}

#[test]
fn bots_answer_the_origin_on_a_full_board() {
    let mut moves = Vec::new();
    for x in 0..2 {
        for y in 0..2 {
            moves.push((7, x, y));
        }
    }
    let game = game_with(2, 2, 3, 0, &moves);
    assert_eq!(MinMaxBot::new().generate_move(0, &game), Size::new(0, 0));
    assert_eq!(RandomBot::new().generate_move(0, &game), Size::new(0, 0));
    assert_eq!(MCTSBot::new(upper_confidence).generate_move(0, &game), Size::new(0, 0));
    assert_eq!(MinMaxBot::get_best_move(0, &game), None);
    assert_eq!(RandomBot::get_random_move(0, &game.grid), None);
}

#[test]
fn random_bot_plays_legal_moves_only() {
    let game = game_with(3, 3, 3, 0, &[(0, 0, 0), (1, 1, 1), (0, 2, 2), (1, 0, 2), (0, 2, 0)]);
    let mut seen = std::collections::HashSet::new();
    for _ in 0..200 {
        let pos = RandomBot::new().generate_move(0, &game);
        assert!(game.grid.is_valid_move(&pos));
        seen.insert((pos.x, pos.y));
    }
    assert!(seen.len() > 1);
    let one = game_with(1, 2, 3, 0, &[(0, 0, 0)]);
    assert_eq!(RandomBot::get_random_move(0, &one.grid), Some(Size::new(0, 1)));
}

#[test]
fn pick_move_reads_the_move_at_the_index() {
    let moves = vec![PlayerMove::new(1, Size::new(4, 5)), PlayerMove::new(1, Size::new(6, 7))];
    assert_eq!(RandomBot::pick_move(&moves, 1), Some(Size::new(6, 7)));
    assert_eq!(RandomBot::pick_move(&moves, 2), None);
}

#[test]
fn names_of_the_algorithms() {
    assert_eq!(MinMaxBot::new().get_name(), "minmax");
    assert_eq!(RandomBot::new().get_name(), "random");
    assert_eq!(MCTSBot::new(upper_confidence).get_name(), "mcts");
    assert!(matches!(Bot::get_bot_logic("minimax", upper_confidence), BotStrategy::MinMax(_)));
    assert!(matches!(Bot::get_bot_logic("mcts", upper_confidence), BotStrategy::Mcts(_)));
    assert!(matches!(Bot::get_bot_logic("", upper_confidence), BotStrategy::Random(_)));
    assert!(matches!(Bot::get_bot_logic("random", upper_confidence), BotStrategy::Random(_)));
    assert!(matches!(Bot::get_bot_logic("minmax", upper_confidence), BotStrategy::Random(_)));
    assert!(matches!(Bot::get_bot_logic("Minimax", upper_confidence), BotStrategy::Random(_)));
    assert!(matches!(Bot::get_bot_logic("minimax ", upper_confidence), BotStrategy::Random(_)));
    assert_eq!(Bot::get_bot_logic("minimax", upper_confidence).get_name(), "minmax");
    assert_eq!(Bot::get_bot_logic("mcts", upper_confidence).get_name(), "mcts");
    assert_eq!(Bot::get_bot_logic("", upper_confidence).get_name(), "random");
}

#[test]
fn mcts_takes_the_winning_move() {
    let game = game_with(3, 3, 3, 0, &[(0, 0, 0), (1, 0, 1), (0, 1, 0), (1, 1, 1)]);
    for _ in 0..3 {
        assert_eq!(MCTSBot::new(upper_confidence).generate_move(0, &game), Size::new(2, 0));
    }
    assert_eq!(game.grid.move_count(), 4);
}

#[test]
fn mcts_takes_the_winning_move_whatever_the_rating() {
    let game = game_with(3, 3, 3, 1, &[(0, 0, 0), (1, 0, 1), (0, 1, 0), (1, 1, 1), (0, 2, 2)]);
    assert_eq!(MCTSBot::new(|_: i64, _: u32, _: u32| 0i64).generate_move(1, &game), Size::new(2, 1));
    assert_eq!(
        MCTSBot::new(|score: i64, _: u32, _: u32| -score).generate_move(1, &game),
        Size::new(2, 1)
    );
}

#[test]
fn mcts_plays_a_legal_move() {
    let game = game_with(3, 3, 3, 0, &[(0, 1, 1), (1, 0, 0)]);
    let pos = MCTSBot::new(upper_confidence).generate_move(0, &game);
    assert!(game.grid.is_valid_move(&pos));
}

#[test]
fn fresh_nodes() {
    let mut grid = Grid::new(Size::new(3, 1));
    grid.add(PlayerMove::new(0, Size::new(0, 0)));
    let quiet = Node::new(PlayerMove::new(1, Size::new(1, 0)), grid.clone(), 2);
    assert_eq!(quiet.moves, vec![PlayerMove::new(1, Size::new(1, 0))]);
    assert_eq!((quiet.score, quiet.visit_counter, quiet.win_result), (0, 1, None));
    assert_eq!(quiet.possible_moves, vec![Size::new(2, 0)]);
    assert_eq!(quiet.children.len(), 0);
    let won = Node::new(PlayerMove::new(0, Size::new(1, 0)), grid.clone(), 2);
    assert_eq!(
        won.moves,
        vec![
            PlayerMove::new(0, Size::new(1, 0)),
            PlayerMove::blocked(Size::new(1, 0)),
            PlayerMove::blocked(Size::new(0, 0)),
        ]
    );
    assert_eq!((won.score, won.visit_counter, won.win_result), (1, 1, Some(1)));
    assert_eq!(won.possible_moves.len(), 0);
    let both = Node::from_possible_moves(grid.get_possible_moves(0), &grid, 2);
    assert_eq!(both.len(), 2);
    assert_eq!(both[0].win_result, Some(1));
    assert_eq!(both[1].win_result, None);
}

#[test]
fn tree_grows_by_one_node_at_most_and_counts_visits() {
    let grid = Grid::new(Size::new(3, 3));
    let players = vec![0, 1];
    let mut tree = MCTSAlgorithm::new(0, &grid, 3);
    assert_eq!(tree.nodes.len(), 9);
    assert_eq!(tree.roots, (0..9).collect::<Vec<usize>>());
    assert_eq!(tree.total_iterations, 9);
    for round in 0..200u32 {
        let nodes = tree.nodes.len();
        let visits: Vec<u32> = tree.nodes.iter().map(|n| n.visit_counter).collect();
        tree.iterate(&players, 0, &grid, 3, &upper_confidence);
        assert_eq!(tree.total_iterations, 10 + round);
        assert!(tree.nodes.len() == nodes || tree.nodes.len() == nodes + 1);
        for (i, before) in visits.iter().enumerate() {
            assert!(tree.nodes[i].visit_counter >= *before);
            assert!(tree.nodes[i].score.abs() <= tree.nodes[i].visit_counter as i64);
        }
        let seen: u32 = tree.nodes[..9].iter().map(|n| n.visit_counter).sum();
        assert_eq!(seen, 9 + round + 1);
    }
    let pos = tree.find_best_move();
    assert!(grid.is_valid_move(&pos));
}

#[test]
fn select_takes_the_last_of_the_best() {
    let grid = Grid::new(Size::new(2, 2));
    let mut tree = MCTSAlgorithm::new(0, &grid, 3);
    tree.nodes[1].score = 1;
    tree.nodes[2].score = 1;
    let by_score = |score: i64, _: u32, _: u32| score;
    assert_eq!(MCTSAlgorithm::select(&tree.nodes, &tree.roots, 4, &by_score), 2);
    let by_parent = |_: i64, _: u32, parent: u32| parent as i64;
    assert_eq!(MCTSAlgorithm::select(&tree.nodes, &tree.roots, 4, &by_parent), 3);
    let some = vec![3usize, 1, 0];
    assert_eq!(MCTSAlgorithm::select(&tree.nodes, &some, 4, &by_score), 1);
}

#[test]
fn best_move_is_by_score_for_each_visit() {
    let grid = Grid::new(Size::new(2, 2));
    let mut tree = MCTSAlgorithm::new(0, &grid, 3);
    tree.total_iterations = 100;
    for (i, (score, visits)) in [(1i64, 4u32), (3, 6), (-1, 2), (2, 4)].iter().enumerate() {
        tree.nodes[i].score = *score;
        tree.nodes[i].visit_counter = *visits;
    }
    assert_eq!(tree.find_best_move(), Size::new(1, 1));
    tree.nodes[3].score = 1;
    assert_eq!(tree.find_best_move(), Size::new(0, 1));
}

#[test]
fn expand_takes_the_picked_cell() {
    let grid = Grid::new(Size::new(2, 2));
    let mut tree = MCTSAlgorithm::new(0, &grid, 3);
    let mut board = grid.clone();
    board.add_range(&tree.nodes[0].moves.clone());
    let child = tree.expand(0, 1, &board, 3, 1);
    assert_eq!(child, 4);
    assert_eq!(tree.nodes[0].children, vec![4]);
    assert_eq!(tree.nodes[0].possible_moves, vec![Size::new(0, 1), Size::new(1, 1)]);
    assert_eq!(tree.nodes[4].moves, vec![PlayerMove::new(1, Size::new(1, 0))]);
    assert_eq!(tree.nodes[4].possible_moves, vec![Size::new(0, 1), Size::new(1, 1)]);
    tree.set_score(4, -1);
    tree.settle(0, 1);
    assert_eq!((tree.nodes[0].score, tree.nodes[0].visit_counter), (1, 2));
    assert_eq!(tree.nodes[4].score, -1);
}

#[test]
fn simulation_ends_with_the_first_line() {
    let players = vec![0, 1];
    let mut grid = Grid::new(Size::new(2, 1));
    let cells = grid.get_possible_moves_size();
    assert_eq!(MCTSAlgorithm::simulate(&mut grid, 0, 0, &players, 1, copy_cells(&cells)), 1);
    let mut grid = Grid::new(Size::new(2, 1));
    assert_eq!(MCTSAlgorithm::simulate(&mut grid, 1, 0, &players, 1, copy_cells(&cells)), -1);
    let mut grid = Grid::new(Size::new(2, 1));
    assert_eq!(MCTSAlgorithm::simulate(&mut grid, 0, 0, &players, 3, copy_cells(&cells)), 0);
    assert_eq!(grid.move_count(), 2);
    let mut grid = Grid::new(Size::new(2, 1));
    assert_eq!(MCTSAlgorithm::simulate(&mut grid, 0, 0, &players, 2, Vec::new()), 0);

    let mut grid = Grid::new(Size::new(3, 1));
    let mut cells = grid.get_possible_moves_size();
    let ended = MCTSAlgorithm::simulate_step(&mut grid, 0, 1, &players, 1, &mut cells, 1);
    assert_eq!(ended, Some(-1));
    assert_eq!(cells, vec![Size::new(0, 0), Size::new(2, 0)]);
    assert_eq!(grid.get_pos(&Size::new(1, 0)), Some(connect_n::player_move::BLOCKED));
    let ended = MCTSAlgorithm::simulate_step(&mut grid, 0, 0, &players, 2, &mut cells, 0);
    assert_eq!(ended, None);
    assert_eq!(grid.get_pos(&Size::new(0, 0)), Some(0));
}

#[test]
fn bot_moves_when_told_that_it_is_its_turn() {
    let mut game = game_with(3, 3, 3, 1, &[(0, 0, 0), (1, 0, 1), (0, 1, 0), (1, 1, 1), (0, 2, 2)]);
    let mut roster = vec![Player::new(0)];
    let bot = Bot::new(1, Some("minimax".to_string()), &mut roster, &mut game);
    assert_eq!((bot.player, bot.game, bot.bot_type.as_str()), (1, 0, "minimax"));
    assert_eq!(roster.len(), 2);
    assert!(roster[1].is_bot);
    assert_eq!(game.queue.len(), 1);
    game.queue.clear();
    let logic = Bot::get_bot_logic(&bot.bot_type, upper_confidence);
    assert_eq!(bot.process_turn("0", &logic, &mut game), TurnOutcome::Ignored);
    assert_eq!(bot.process_turn("one", &logic, &mut game), TurnOutcome::Ignored);
    assert_eq!(bot.process_turn("1.5", &logic, &mut game), TurnOutcome::Ignored);
    assert_eq!(game.queue.len(), 0);
    assert_eq!(
        bot.process_turn(" 1 ", &logic, &mut game),
        TurnOutcome::Moved { pos: Size::new(2, 1), accepted: true }
    );
    assert_eq!(game.queue.len(), 1);
    assert_eq!(game.queue[0].position, Some(Size::new(2, 1)));
    assert_eq!(game.queue[0].player, 1);
}

#[test]
fn bot_does_nothing_in_a_game_that_does_not_run() {
    let mut game = game_with(3, 3, 3, 1, &[]);
    game.running = false;
    let bot = Bot { player: 1, game: 0, bot_type: String::new() };
    let logic = Bot::get_bot_logic(&bot.bot_type, upper_confidence);
    assert_eq!(bot.process_turn("1", &logic, &mut game), TurnOutcome::Ignored);
    assert_eq!(bot.act_on_turn(Some(1), &logic, &mut game), TurnOutcome::Ignored);
    game.running = true;
    assert_eq!(bot.act_on_turn(None, &logic, &mut game), TurnOutcome::Ignored);
    assert_eq!(bot.act_on_turn(Some(0), &logic, &mut game), TurnOutcome::Ignored);
    assert!(matches!(
        bot.act_on_turn(Some(1), &logic, &mut game),
        TurnOutcome::Moved { accepted: true, .. }
    ));
}

#[test]
fn bot_move_is_refused_out_of_turn() {
    let mut game = game_with(3, 3, 3, 0, &[]);
    let bot = Bot { player: 1, game: 0, bot_type: "minimax".to_string() };
    let logic = Bot::get_bot_logic(&bot.bot_type, upper_confidence);
    assert_eq!(bot.try_make_move(&logic, &mut game), (Size::new(0, 0), false));
    assert_eq!(game.queue.len(), 0);
}

#[test]
fn bot_tries_what_its_algorithm_chooses() {
    let mut game = game_with(3, 3, 3, 0, &[(0, 0, 0), (1, 0, 1), (0, 1, 0), (1, 1, 1)]);
    let bot = Bot { player: 0, game: 0, bot_type: "minimax".to_string() };
    let logic = Bot::get_bot_logic(&bot.bot_type, upper_confidence);
    assert_eq!(bot.try_make_move(&logic, &mut game), (Size::new(2, 0), true));
    let chance = Bot::get_bot_logic("", upper_confidence);
    for _ in 0..20 {
        let mut game = game_with(2, 2, 3, 0, &[(0, 0, 0), (1, 1, 1), (0, 1, 0)]);
        assert_eq!(bot.try_make_move(&chance, &mut game), (Size::new(0, 1), true));
    }
    let mut full = game_with(1, 1, 3, 0, &[(1, 0, 0)]);
    assert_eq!(bot.try_make_move(&logic, &mut full), (Size::new(0, 0), false));
    assert_eq!(
        bot.act_on_turn(Some(0), &chance, &mut full),
        TurnOutcome::Moved { pos: Size::new(0, 0), accepted: false }
    );
}

#[test]
fn searching_bots_answer_the_origin_without_participants_when_the_board_is_full() {
    let mut game = game_with(1, 2, 3, 0, &[(7, 0, 0), (7, 0, 1)]);
    game.player_list = Vec::new();
    assert_eq!(MinMaxBot::new().generate_move(0, &game), Size::new(0, 0));
    assert_eq!(MinMaxBot::get_best_move(0, &game), None);
    assert_eq!(MCTSBot::new(upper_confidence).generate_move(0, &game), Size::new(0, 0));
}

#[test]
fn first_visit_of_a_root_gives_it_a_child() {
    let grid = Grid::new(Size::new(2, 2));
    let players = vec![10, 11];
    let mut tree = MCTSAlgorithm::new(10, &grid, 3);
    let last = |_: i64, _: u32, _: u32| 0i64;
    tree.iterate(&players, 0, &grid, 3, &last);
    assert_eq!(tree.nodes.len(), 5);
    assert_eq!(tree.total_iterations, 5);
    let root = &tree.nodes[3];
    assert_eq!(root.moves, vec![PlayerMove::new(10, Size::new(1, 1))]);
    assert_eq!(root.visit_counter, 2);
    assert_eq!(root.children, vec![4]);
    assert_eq!(root.possible_moves.len(), 2);
    let child = &tree.nodes[4];
    assert_eq!(child.moves.len(), 1);
    assert_eq!(child.moves[0].player, 11);
    assert!(!root.possible_moves.contains(&child.moves[0].position));
    assert_ne!(child.moves[0].position, Size::new(1, 1));
    assert_eq!((child.visit_counter, child.score), (1, 0));
    assert_eq!(root.score, 0);
    for i in 0..3 {
        assert_eq!((tree.nodes[i].visit_counter, tree.nodes[i].score), (1, 0));
        assert_eq!(tree.nodes[i].children.len(), 0);
    }
}

#[test]
fn visit_of_a_winning_root_scores_it() {
    let mut grid = Grid::new(Size::new(2, 1));
    grid.add(PlayerMove::new(10, Size::new(0, 0)));
    let players = vec![10, 11];
    let mut tree = MCTSAlgorithm::new(10, &grid, 2);
    assert_eq!(tree.nodes.len(), 1);
    for round in 1..5 {
        tree.iterate(&players, 0, &grid, 2, &upper_confidence);
        assert_eq!(tree.nodes.len(), 1);
        assert_eq!((tree.nodes[0].score, tree.nodes[0].visit_counter), (1 + round, 1 + round as u32));
    }
}

#[test]
fn outcome_goes_up_the_way_with_the_sign_of_the_turn() {
    let grid = Grid::new(Size::new(2, 1));
    let players = vec![10, 11];
    let mut tree = MCTSAlgorithm::new(10, &grid, 2);
    tree.nodes.truncate(1);
    tree.roots.truncate(1);
    tree.total_iterations = 1;
    let any = |_: i64, _: u32, _: u32| 0i64;
    let worth = tree.visit_node(0, 0, grid.clone(), &players, 2, &any);
    assert_eq!(worth, (0, 1));
    assert_eq!(tree.nodes.len(), 2);
    assert_eq!(tree.nodes[1].moves, vec![PlayerMove::new(11, Size::new(1, 0))]);
    assert_eq!((tree.nodes[0].score, tree.nodes[0].visit_counter), (0, 2));
    tree.total_iterations = 3;
    let worth = tree.visit_node(0, 0, grid.clone(), &players, 2, &any);
    assert_eq!(worth, (0, 1));
    assert_eq!(tree.nodes.len(), 2);
    assert_eq!((tree.nodes[1].score, tree.nodes[1].visit_counter), (0, 2));
    assert_eq!((tree.nodes[0].score, tree.nodes[0].visit_counter), (0, 3));

    let mut grid = Grid::new(Size::new(3, 1));
    grid.add(PlayerMove::new(11, Size::new(0, 0)));
    let mut tree = MCTSAlgorithm::new(10, &grid, 2);
    tree.nodes.truncate(1);
    tree.roots.truncate(1);
    assert_eq!(tree.nodes[0].moves, vec![PlayerMove::new(10, Size::new(1, 0))]);
    tree.total_iterations = 2;
    let worth = tree.visit_node(0, 0, grid.clone(), &players, 2, &any);
    assert_eq!(worth, (0, 1));
    assert_eq!(tree.nodes[1].moves, vec![PlayerMove::new(11, Size::new(2, 0))]);
    assert_eq!(tree.nodes[1].possible_moves.len(), 0);
}
