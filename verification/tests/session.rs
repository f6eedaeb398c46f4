use connect_n::common::{get_unique_id, Size};
use connect_n::game::{Game, GameError};
use connect_n::net::{Effect, GameCreationData, GameEvent, InternalMessage, InternalMessageKind};
use connect_n::player::Player;
use connect_n::player_move::{PlayerMove, BLOCKED};

#[test]
fn player_join() {
    let mut players_all: Vec<Player> = Vec::new();
    let player = Player::new(0);
    players_all.push(player.clone());
    let mut game_id_counter = 0;
    let game_parameters = GameCreationData::new(Size::new(5, 5), true, 10, 4);
    let mut game = Game::new(&game_parameters, &mut game_id_counter, &player);

    let mut players: Vec<Player> = Vec::new();
    for i in 1..10 {
        let p = Player::new(i);
        players.push(p.clone());
        players_all.push(p);
        game.join_player(players.last().unwrap());
    }
}

/// What an effect says, in short: the recipient and the event, or the
/// request to the host.
#[derive(Debug, Clone, PartialEq)]
enum Said {
    State(i32, Vec<PlayerMove>),
    Turn(i32, i32),
    Move(i32, PlayerMove),
    Joined(i32, u32),
    Roster,
    Spawn(i32, u32, String),
}

fn said(effects: &Vec<Effect>) -> Vec<Said> {
    effects
        .iter()
        .map(|e| match e {
            Effect::Send { to, event } => match event {
                GameEvent::CurrentState(grid) => Said::State(*to, grid.moves().clone()),
                GameEvent::Turn(id) => Said::Turn(*to, *id),
                GameEvent::NewMove(m) => Said::Move(*to, *m),
                GameEvent::JoinedGame(id) => Said::Joined(*to, *id),
            },
            Effect::BroadcastPlayers => Said::Roster,
            Effect::SpawnBot { bot } => Said::Spawn(bot.player, bot.game, bot.bot_type.clone()),
        })
        .collect()
}

fn lobby(width: u32, height: u32, hotjoin: bool, limit: usize, win: u32) -> Game {
    let mut counter = 3;
    let creator = Player::new(0);
    let game = Game::new(
        &GameCreationData::new(Size::new(width, height), hotjoin, limit, win),
        &mut counter,
        &creator,
    );
    assert_eq!(counter, 4);
    game
}

/// A running game of the given humans, and the roster that holds them.
fn running(width: u32, height: u32, win: u32, ids: &[i32]) -> (Game, Vec<Player>, i32) {
    let mut game = lobby(width, height, false, 10, win);
    let mut roster: Vec<Player> = ids.iter().map(|id| Player::new(*id)).collect();
    let mut next_id = 100;
    for p in roster.clone().iter() {
        assert!(game.join_player(p));
        let (_, fault) = game.run(&mut roster, &mut next_id);
        assert_eq!(fault, None);
    }
    for i in 0..roster.len() {
        let mut p = roster[i].clone();
        game.ready_toggle(&mut p);
        roster[i] = p;
        let (_, fault) = game.run(&mut roster, &mut next_id);
        assert_eq!(fault, None);
    }
    assert!(game.is_running());
    (game, roster, next_id)
}

fn play(game: &mut Game, roster: &mut Vec<Player>, id: i32, x: u32, y: u32) -> Vec<Said> {
    let mover = Player::new(id);
    assert!(game.add_move(&mover, Size::new(x, y)));
    let mut next_id = 100;
    let (effects, fault) = game.run(roster, &mut next_id);
    assert_eq!(fault, None);
    said(&effects)
}

#[test]
fn new_game_is_an_empty_lobby() {
    let game = lobby(5, 4, true, 7, 3);
    assert_eq!(game.id, 3);
    assert_eq!(game.grid.size(), Size::new(5, 4));
    assert_eq!(game.grid.move_count(), 0);
    assert_eq!(game.player_list.len(), 0);
    assert_eq!(game.queue.len(), 0);
    assert_eq!(game.creator, 0);
    assert_eq!(game.current_turn, 0);
    assert!(game.hotjoin);
    assert_eq!(game.player_limit, 7);
    assert!(!game.is_running());
    assert_eq!(game.win_length, 3);
    assert_eq!((game.width, game.height), (5, 4));
}

#[test]
fn join_is_queued_then_processed() {
    let mut game = lobby(3, 3, false, 2, 3);
    let mut roster = vec![Player::new(0), Player::new(1)];
    let mut next_id = 2;
    assert!(game.join_player(&roster[1].clone()));
    assert_eq!(game.player_list.len(), 0);
    assert_eq!(game.queue.len(), 1);
    assert_eq!(game.queue[0].kind, InternalMessageKind::PlayerJoin);
    assert_eq!(game.queue[0].player, 1);
    let (effects, fault) = game.run(&mut roster, &mut next_id);
    assert_eq!(fault, None);
    assert_eq!(said(&effects), vec![Said::Roster]);
    assert_eq!(game.player_list, vec![1]);
    assert_eq!(game.queue.len(), 0);
    assert_eq!(roster[1].joined_game_id, Some(3));
    assert_eq!(roster[0].joined_game_id, None);
}

#[test]
fn join_is_refused_when_full_present_or_closed() {
    let mut game = lobby(3, 3, false, 2, 3);
    let mut roster = vec![Player::new(0), Player::new(1), Player::new(2)];
    let mut next_id = 3;
    assert!(game.join_player(&Player::new(0)));
    game.run(&mut roster, &mut next_id);
    assert!(!game.join_player(&Player::new(0)));
    assert!(game.join_player(&Player::new(1)));
    game.run(&mut roster, &mut next_id);
    assert!(!game.join_player(&Player::new(2)));
    assert_eq!(game.queue.len(), 0);

    let (mut closed, _, _) = running(3, 3, 3, &[0, 1]);
    assert!(!closed.join_player(&Player::new(2)));
    closed.join_player_forced(&Player::new(2));
    assert_eq!(closed.queue.len(), 1);
}

#[test]
fn late_joiner_gets_the_board_at_once() {
    let mut game = lobby(3, 3, true, 5, 3);
    let mut roster = vec![Player::new(0), Player::new(1)];
    let mut next_id = 2;
    game.join_player(&Player::new(0));
    game.run(&mut roster, &mut next_id);
    let mut p0 = roster[0].clone();
    game.ready_toggle(&mut p0);
    roster[0] = p0;
    game.run(&mut roster, &mut next_id);
    assert!(game.is_running());
    assert!(game.add_move(&Player::new(0), Size::new(1, 1)));
    game.run(&mut roster, &mut next_id);
    assert!(game.join_player(&Player::new(1)));
    let (effects, _) = game.run(&mut roster, &mut next_id);
    assert_eq!(
        said(&effects),
        vec![Said::State(1, vec![PlayerMove::new(0, Size::new(1, 1))]), Said::Roster]
    );
}

#[test]
fn ready_toggle_flips_and_refuses_when_running() {
    let mut game = lobby(3, 3, false, 5, 3);
    let mut roster = vec![Player::new(0)];
    let mut next_id = 1;
    game.join_player(&Player::new(0));
    game.run(&mut roster, &mut next_id);
    let mut p = roster[0].clone();
    let status = game.ready_toggle(&mut p);
    assert_eq!((status.status.as_str(), status.details.as_str()), ("ok", ""));
    assert!(p.ready);
    assert_eq!(game.queue.len(), 1);
    assert_eq!(game.queue[0].kind, InternalMessageKind::PlayerReady);
    let status = game.ready_toggle(&mut p);
    assert_eq!(status.status, "ok");
    assert!(!p.ready);
    assert_eq!(game.queue.len(), 1);
    let (effects, _) = game.run(&mut roster, &mut next_id);
    assert_eq!(effects.len(), 0);
    assert!(!game.is_running());

    let (mut started, _, _) = running(3, 3, 3, &[0, 1]);
    let mut q = Player::new(0);
    q.ready = true;
    let status = started.ready_toggle(&mut q);
    assert_eq!(
        (status.status.as_str(), status.details.as_str()),
        ("error", "Game is already running.")
    );
    assert!(q.ready);
    assert_eq!(started.queue.len(), 0);
}

#[test]
fn start_sends_the_board_before_the_turn() {
    let mut game = lobby(3, 3, false, 5, 3);
    let mut roster = vec![Player::new(10), Player::new(11)];
    let mut next_id = 100;
    game.join_player(&Player::new(10));
    game.join_player(&Player::new(11));
    game.run(&mut roster, &mut next_id);
    roster[0].ready = true;
    game.process(InternalMessage::new_ready(10), &mut roster, &mut next_id).unwrap();
    assert!(!game.is_running());
    roster[1].ready = true;
    let effects = game.process(InternalMessage::new_ready(11), &mut roster, &mut next_id).unwrap();
    assert!(game.is_running());
    assert_eq!(
        said(&effects),
        vec![
            Said::State(10, vec![]),
            Said::State(11, vec![]),
            Said::Turn(10, 10),
            Said::Turn(11, 10),
        ]
    );
}

#[test]
fn ready_fails_on_a_participant_missing_from_the_roster() {
    let mut game = lobby(3, 3, false, 5, 3);
    let mut roster = vec![Player::new(0)];
    let mut next_id = 1;
    game.join_player(&Player::new(0));
    game.join_player(&Player::new(5));
    game.run(&mut roster, &mut next_id);
    roster[0].ready = true;
    game.queue.push(InternalMessage::new_ready(0));
    game.queue.push(InternalMessage::new_current_state(0));
    let (effects, fault) = game.run(&mut roster, &mut next_id);
    assert_eq!(fault, Some(GameError::MissingParticipant));
    assert_eq!(effects.len(), 0);
    assert!(!game.is_running());
    assert_eq!(game.queue.len(), 1);
    assert_eq!(
        game.process(InternalMessage::new_ready(0), &mut roster, &mut next_id).err(),
        Some(GameError::MissingParticipant)
    );
}

#[test]
fn unready_participant_is_asked_before_a_missing_one() {
    let mut game = lobby(3, 3, false, 5, 3);
    let mut roster = vec![Player::new(0)];
    let mut next_id = 1;
    game.join_player(&Player::new(0));
    game.join_player(&Player::new(5));
    game.run(&mut roster, &mut next_id);
    assert_eq!(game.can_start(&roster), Some(false));
    roster[0].ready = true;
    assert_eq!(game.can_start(&roster), None);
    roster.push(Player::new_bot(5));
    assert_eq!(game.can_start(&roster), Some(true));
}

#[test]
fn move_is_refused_out_of_turn_off_board_taken_or_in_lobby() {
    let (mut game, mut roster, _) = running(3, 3, 3, &[0, 1]);
    assert!(!game.add_move(&Player::new(1), Size::new(0, 0)));
    assert!(!game.add_move(&Player::new(0), Size::new(3, 0)));
    assert!(!game.add_move(&Player::new(7), Size::new(0, 0)));
    assert_eq!(game.queue.len(), 0);
    play(&mut game, &mut roster, 0, 0, 0);
    assert!(!game.add_move(&Player::new(1), Size::new(0, 0)));
    assert!(game.add_move(&Player::new(1), Size::new(0, 1)));

    let mut waiting = lobby(3, 3, false, 5, 3);
    let mut roster = vec![Player::new(0)];
    let mut next_id = 1;
    waiting.join_player(&Player::new(0));
    waiting.run(&mut roster, &mut next_id);
    assert!(!waiting.add_move(&Player::new(0), Size::new(0, 0)));

    let mut nobody = lobby(3, 3, false, 5, 3);
    nobody.running = true;
    assert!(!nobody.add_move(&Player::new(0), Size::new(0, 0)));
}

#[test]
fn move_is_announced_then_the_turn() {
    let (mut game, mut roster, _) = running(3, 3, 3, &[0, 1]);
    let told = play(&mut game, &mut roster, 0, 1, 1);
    let m = PlayerMove::new(0, Size::new(1, 1));
    assert_eq!(
        told,
        vec![Said::Move(0, m), Said::Move(1, m), Said::Turn(0, 1), Said::Turn(1, 1)]
    );
    assert_eq!(game.current_turn, 1);
    assert_eq!(game.grid.moves().clone(), vec![m]);
}

#[test]
fn end_to_end_line_is_blocked_and_turn_passes() {
    let mut game = lobby(3, 3, false, 2, 3);
    let mut roster = vec![Player::new(0), Player::new(1)];
    let mut next_id = 2;
    assert!(game.join_player(&Player::new(0)));
    assert!(game.join_player(&Player::new(1)));
    game.run(&mut roster, &mut next_id);
    let mut p0 = roster[0].clone();
    game.ready_toggle(&mut p0);
    roster[0] = p0;
    let (effects, fault) = game.run(&mut roster, &mut next_id);
    assert_eq!(fault, None);
    assert_eq!(effects.len(), 0);
    let mut p1 = roster[1].clone();
    game.ready_toggle(&mut p1);
    roster[1] = p1;
    let (effects, fault) = game.run(&mut roster, &mut next_id);
    assert_eq!(fault, None);
    assert_eq!(
        said(&effects),
        vec![
            Said::State(0, vec![]),
            Said::State(1, vec![]),
            Said::Turn(0, 0),
            Said::Turn(1, 0),
        ]
    );
    play(&mut game, &mut roster, 0, 0, 0);
    play(&mut game, &mut roster, 1, 1, 1);
    play(&mut game, &mut roster, 0, 1, 0);
    play(&mut game, &mut roster, 1, 0, 1);
    let told = play(&mut game, &mut roster, 0, 2, 0);
    let last = PlayerMove::new(0, Size::new(2, 0));
    let mut expected = vec![Said::Move(0, last), Said::Move(1, last)];
    for x in [2u32, 1, 0] {
        let marker = PlayerMove::new(BLOCKED, Size::new(x, 0));
        expected.push(Said::Move(0, marker));
        expected.push(Said::Move(1, marker));
    }
    expected.push(Said::Turn(0, 1));
    expected.push(Said::Turn(1, 1));
    assert_eq!(told, expected);
    assert_eq!(game.current_turn, 1);
    for x in 0..3 {
        assert_eq!(game.grid.get_pos(&Size::new(x, 0)), Some(BLOCKED));
        assert!(!game.grid.is_valid_move(&Size::new(x, 0)));
    }
    assert!(game.is_running());
    assert!(!game.add_move(&Player::new(1), Size::new(1, 0)));
}

#[test]
fn turn_comes_round_after_as_many_moves_as_participants() {
    let (mut game, mut roster, _) = running(4, 4, 4, &[5, 6, 7]);
    play(&mut game, &mut roster, 5, 0, 0);
    assert_eq!(game.current_turn, 1);
    let start = game.current_turn;
    play(&mut game, &mut roster, 6, 1, 0);
    play(&mut game, &mut roster, 7, 2, 0);
    play(&mut game, &mut roster, 5, 3, 0);
    assert_eq!(game.current_turn, start);
    assert_eq!(game.player_list, vec![5, 6, 7]);
}

#[test]
fn leave_before_the_turn_moves_the_index_down() {
    let (mut game, mut roster, mut next_id) = running(4, 4, 4, &[5, 6, 7]);
    play(&mut game, &mut roster, 5, 0, 0);
    play(&mut game, &mut roster, 6, 1, 0);
    assert_eq!(game.current_turn, 2);
    game.leave_player(&Player::new(5));
    let (effects, _) = game.run(&mut roster, &mut next_id);
    assert_eq!(game.player_list, vec![6, 7]);
    assert_eq!(game.current_turn, 1);
    assert_eq!(said(&effects), vec![Said::Turn(6, 7), Said::Turn(7, 7)]);
    assert_eq!(roster[0].joined_game_id, None);
    assert_eq!(roster[1].joined_game_id, Some(3));
}

#[test]
fn leave_at_or_after_the_turn_keeps_the_index() {
    let (mut game, mut roster, mut next_id) = running(4, 4, 4, &[5, 6, 7]);
    play(&mut game, &mut roster, 5, 0, 0);
    assert_eq!(game.current_turn, 1);
    game.leave_player(&Player::new(7));
    game.run(&mut roster, &mut next_id);
    assert_eq!(game.player_list, vec![5, 6]);
    assert_eq!(game.current_turn, 1);
    game.leave_player(&Player::new(6));
    let (effects, _) = game.run(&mut roster, &mut next_id);
    assert_eq!(game.player_list, vec![5]);
    assert_eq!(game.current_turn, 0);
    assert_eq!(said(&effects), vec![Said::Turn(5, 5)]);
    game.leave_player(&Player::new(5));
    let (effects, _) = game.run(&mut roster, &mut next_id);
    assert_eq!(game.player_list.len(), 0);
    assert_eq!(game.current_turn, 0);
    assert_eq!(effects.len(), 0);
}

#[test]
fn leave_of_a_stranger_changes_nothing() {
    let (mut game, mut roster, mut next_id) = running(4, 4, 4, &[5, 6]);
    game.leave_player(&Player::new(9));
    let (effects, fault) = game.run(&mut roster, &mut next_id);
    assert_eq!(fault, None);
    assert_eq!(effects.len(), 0);
    assert_eq!(game.player_list, vec![5, 6]);
    assert_eq!(game.current_turn, 0);
}

#[test]
fn full_board_is_replaced_by_an_empty_one() {
    let (mut game, mut roster, _) = running(2, 2, 3, &[0, 1]);
    play(&mut game, &mut roster, 0, 0, 0);
    play(&mut game, &mut roster, 1, 1, 0);
    play(&mut game, &mut roster, 0, 0, 1);
    let told = play(&mut game, &mut roster, 1, 1, 1);
    let last = PlayerMove::new(1, Size::new(1, 1));
    assert_eq!(
        told,
        vec![
            Said::Move(0, last),
            Said::Move(1, last),
            Said::State(0, vec![]),
            Said::State(1, vec![]),
            Said::Turn(0, 0),
            Said::Turn(1, 0),
        ]
    );
    assert_eq!(game.grid.move_count(), 0);
    assert_eq!(game.grid.size(), Size::new(2, 2));
    assert!(game.is_running());
    assert!(game.add_move(&Player::new(0), Size::new(1, 1)));
}

#[test]
fn full_board_with_blocked_cells_is_replaced_too() {
    let (mut game, mut roster, _) = running(2, 1, 2, &[0]);
    play(&mut game, &mut roster, 0, 0, 0);
    let told = play(&mut game, &mut roster, 0, 1, 0);
    assert_eq!(
        told,
        vec![
            Said::Move(0, PlayerMove::new(0, Size::new(1, 0))),
            Said::Move(0, PlayerMove::new(BLOCKED, Size::new(1, 0))),
            Said::Move(0, PlayerMove::new(BLOCKED, Size::new(0, 0))),
            Said::State(0, vec![]),
            Said::Turn(0, 0),
        ]
    );
    assert_eq!(game.grid.get_possible_moves(0).len(), 2);
}

#[test]
fn game_stops_when_only_bots_are_left() {
    let mut game = lobby(3, 3, false, 5, 3);
    let mut roster = vec![Player::new(0)];
    let mut next_id = 1;
    game.join_player(&Player::new(0));
    assert!(game.add_bot(&Player::new(0), "random".to_string()));
    assert!(!game.add_bot(&Player::new(1), "random".to_string()));
    let (effects, fault) = game.run(&mut roster, &mut next_id);
    assert_eq!(fault, None);
    assert_eq!(
        said(&effects),
        vec![Said::Roster, Said::Roster, Said::Spawn(1, 3, "random".to_string()), Said::Roster]
    );
    assert_eq!(next_id, 2);
    assert_eq!(game.player_list, vec![0, 1]);
    assert_eq!(roster.len(), 2);
    assert!(roster[1].is_bot && roster[1].ready && roster[1].id == 1);
    assert_eq!(roster[1].joined_game_id, Some(3));
    roster[0].ready = true;
    game.process(InternalMessage::new_ready(0), &mut roster, &mut next_id).unwrap();
    assert!(game.is_running());
    assert!(!game.are_all_players_bots(&roster));
    game.leave_player(&Player::new(0));
    game.run(&mut roster, &mut next_id);
    assert!(game.is_running());
    assert!(game.are_all_players_bots(&roster));
    assert_eq!(game.current_turn, 0);
    assert!(game.add_move(&Player::new(1), Size::new(0, 0)));
    let (effects, _) = game.run(&mut roster, &mut next_id);
    assert_eq!(said(&effects), vec![Said::Move(1, PlayerMove::new(1, Size::new(0, 0)))]);
    assert!(!game.is_running());
    assert_eq!(game.current_turn, 0);
}

#[test]
fn add_bot_fails_when_identifiers_run_out() {
    let mut game = lobby(3, 3, false, 5, 3);
    let mut roster = vec![Player::new(0)];
    let mut next_id = i32::MAX;
    assert!(game.add_bot(&Player::new(0), String::new()));
    let (effects, fault) = game.run(&mut roster, &mut next_id);
    assert_eq!(fault, Some(GameError::IdsExhausted));
    assert_eq!(effects.len(), 0);
    assert_eq!(roster.len(), 1);
    assert_eq!(next_id, i32::MAX);
}

#[test]
fn current_state_goes_to_the_one_who_asked() {
    let (mut game, mut roster, mut next_id) = running(3, 3, 3, &[0, 1]);
    play(&mut game, &mut roster, 0, 2, 2);
    game.request_current_state(&Player::new(1));
    let (effects, _) = game.run(&mut roster, &mut next_id);
    assert_eq!(said(&effects), vec![Said::State(1, vec![PlayerMove::new(0, Size::new(2, 2))])]);
}

#[test]
fn commands_are_processed_in_the_order_of_the_queue() {
    let (mut game, mut roster, mut next_id) = running(3, 3, 3, &[0, 1]);
    assert!(game.add_move(&Player::new(0), Size::new(0, 0)));
    game.request_current_state(&Player::new(0));
    game.leave_player(&Player::new(1));
    let (effects, fault) = game.run(&mut roster, &mut next_id);
    assert_eq!(fault, None);
    let m = PlayerMove::new(0, Size::new(0, 0));
    assert_eq!(
        said(&effects),
        vec![
            Said::Move(0, m),
            Said::Move(1, m),
            Said::Turn(0, 1),
            Said::Turn(1, 1),
            Said::State(0, vec![m]),
            Said::Turn(0, 0),
        ]
    );
    assert_eq!(game.queue.len(), 0);
}

#[test]
fn unique_ids_count_up() {
    let mut counter = 41;
    assert_eq!(get_unique_id(&mut counter), 41);
    assert_eq!(get_unique_id(&mut counter), 42);
    assert_eq!(counter, 43);
}
