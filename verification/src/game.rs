//! One match: its board, its participants, whose turn it is, and the queue
//! of commands that change it one at a time.
//!
//! What a command does is written once as a function on views (`step`); the
//! methods of `Game` are proved to do exactly that.

use vstd::prelude::*;
use crate::bot::{Bot, BotView};
use crate::common::{get_unique_id, Size};
use crate::grid::{
    detect_line, empty_cells, is_legal, lemma_blocked_is_terminal, lemma_detect_line_blocks,
    lemma_empty_cells, only_legal_or_markers, owner_at, Grid,
};
use crate::player_move::BLOCKED;
use crate::net::{
    effect_views, queue_view, send_to_each, CommandView, Effect, EffectView, GameCreationData,
    GameEvent, GameEventView, InternalMessage, InternalMessageKind, Status,
};
use crate::player::{
    bot_player, find_player, roster_index, roster_view, set_membership, with_membership, Player,
    PlayerView,
};
use crate::player_move::PlayerMove;

verus! {

/// Why a game could not process a command.
#[derive(Clone, Copy, Debug, PartialEq, Eq, Structural)]
pub enum GameError {
    /// A participant of the game is not in the roster.
    MissingParticipant,
    /// No identifier is left for a new bot.
    IdsExhausted,
}

/// One match.
pub struct Game {
    pub id: u32,
    pub grid: Grid,
    /// The commands that wait to be processed, oldest first.
    pub queue: Vec<InternalMessage>,
    /// The participants in the order in which they joined, which is also the
    /// order of their turns.
    pub player_list: Vec<i32>,
    pub creator: i32,
    /// The index in `player_list` of the participant whose turn it is.
    pub current_turn: usize,
    /// Whether players may join while the game runs.
    pub hotjoin: bool,
    pub player_limit: usize,
    pub running: bool,
    pub win_length: u32,
    pub width: u32,
    pub height: u32,
}

/// A game as its contracts speak of it.
pub struct GameView {
    pub id: u32,
    pub size: Size,
    pub log: Seq<PlayerMove>,
    pub queue: Seq<CommandView>,
    pub player_list: Seq<i32>,
    pub creator: i32,
    pub current_turn: nat,
    pub hotjoin: bool,
    pub player_limit: nat,
    pub running: bool,
    pub win_length: u32,
}

impl View for Game {
    type V = GameView;

    open spec fn view(&self) -> GameView {
        GameView {
            id: self.id,
            size: self.grid.extent(),
            log: self.grid@,
            queue: queue_view(self.queue@),
            player_list: self.player_list@,
            creator: self.creator,
            current_turn: self.current_turn as nat,
            hotjoin: self.hotjoin,
            player_limit: self.player_limit as nat,
            running: self.running,
            win_length: self.win_length,
        }
    }
}

/// The turn index points at a participant, or is 0 where there is none.
pub open spec fn turn_in_range(turn: nat, players: nat) -> bool {
    if players == 0 {
        turn == 0
    } else {
        turn < players
    }
}

/// The participant whose turn it is, or 0 where the turn index points at
/// nobody.
pub open spec fn turn_owner(g: GameView) -> i32 {
    if g.current_turn < g.player_list.len() {
        g.player_list[g.current_turn as int]
    } else {
        0
    }
}

/// The board of `g` as an event.
pub open spec fn snapshot(g: GameView) -> GameEventView {
    GameEventView::CurrentState { size: g.size, log: g.log }
}

/// `g` with `command` at the end of its queue.
pub open spec fn enqueue(g: GameView, command: CommandView) -> GameView {
    GameView { queue: g.queue.push(command), ..g }
}

/// Each of `moves` in turn, announced to all of `recipients`.
pub open spec fn broadcast_moves(recipients: Seq<i32>, moves: Seq<PlayerMove>) -> Seq<EffectView>
    decreases moves.len(),
{
    if moves.len() == 0 {
        Seq::empty()
    } else {
        broadcast_moves(recipients, moves.drop_last()) + send_to_each(
            recipients,
            GameEventView::NewMove(moves.last()),
        )
    }
}

/// Every player of the roster that takes part is a bot.
pub open spec fn all_bots(player_list: Seq<i32>, roster: Seq<PlayerView>) -> bool {
    forall|i: int|
        0 <= i < roster.len() && player_list.contains((#[trigger] roster[i]).id) ==> roster[i].is_bot
}

/// Whether the game may start: every participant is ready. The participants
/// are asked in their order up to the first that is not ready; `None` where
/// one that is asked is not in the roster.
pub open spec fn start_check(player_list: Seq<i32>, roster: Seq<PlayerView>) -> Option<bool>
    decreases player_list.len(),
{
    if player_list.len() == 0 {
        Some(true)
    } else {
        match roster_index(roster, player_list[0]) {
            None => None,
            Some(i) => if roster[i].ready {
                start_check(player_list.drop_first(), roster)
            } else {
                Some(false)
            },
        }
    }
}

/// The turn index after a move: the next participant, and the first after
/// the last.
pub open spec fn next_turn_index(turn: nat, players: nat) -> nat {
    if turn + 1 >= players {
        0
    } else {
        turn + 1
    }
}

/// Whether a player may join: not while the game runs without hot-join, not
/// beyond the limit, and not twice.
pub open spec fn can_join(g: GameView, id: i32) -> bool {
    &&& !(g.running && !g.hotjoin)
    &&& g.player_list.len() < g.player_limit
    &&& !g.player_list.contains(id)
}

/// Whether `id` may move to `pos`: the game runs, the move is legal on the
/// board, and it is `id`'s turn.
pub open spec fn can_move(g: GameView, id: i32, pos: Size) -> bool {
    &&& g.running
    &&& is_legal(g.log, g.size, pos)
    &&& g.current_turn < g.player_list.len()
    &&& g.player_list[g.current_turn as int] == id
}

/// What the move `m` adds to the log: `m`, then the markers of the line that
/// it completed, if any.
pub open spec fn recorded_by_move(g: GameView, m: PlayerMove) -> Seq<PlayerMove> {
    seq![m] + detect_line(g.log.push(m), g.size, m.position, g.win_length)
}

/// No move is legal any more.
pub open spec fn board_full(log: Seq<PlayerMove>, size: Size) -> bool {
    empty_cells(log, size).len() == 0
}

/// What a game and a roster are after a command, and what the host is
/// asked to do.
pub struct Change {
    pub game: GameView,
    pub roster: Seq<PlayerView>,
    pub effects: Seq<EffectView>,
}

/// A change together with the identifier counter after it.
pub struct Outcome {
    pub game: GameView,
    pub roster: Seq<PlayerView>,
    pub next_id: i32,
    pub effects: Seq<EffectView>,
}

impl Change {
    /// The change, with the identifier counter left at `next_id`.
    pub open spec fn leaving(self, next_id: i32) -> Outcome {
        Outcome { game: self.game, roster: self.roster, next_id, effects: self.effects }
    }

    /// Nothing changes and nothing is asked.
    pub open spec fn none(g: GameView, roster: Seq<PlayerView>) -> Change {
        Change { game: g, roster, effects: Seq::empty() }
    }
}

/// A join: the player is in the game from now on and, where the game runs,
/// is sent the board at once.
pub open spec fn join(g: GameView, roster: Seq<PlayerView>, id: i32) -> Change {
    Change {
        game: GameView { player_list: g.player_list.push(id), ..g },
        roster: with_membership(roster, id, Some(g.id)),
        effects: if g.running {
            seq![EffectView::Send { to: id, event: snapshot(g) }, EffectView::BroadcastPlayers]
        } else {
            seq![EffectView::BroadcastPlayers]
        },
    }
}

/// A move: it is recorded and announced, then the markers of the line that
/// it completed; a board without a legal move is replaced by an empty one,
/// which is announced; the turn passes on. Where only bots are left, the
/// game stops running and the turn is not announced.
pub open spec fn play(g: GameView, roster: Seq<PlayerView>, id: i32, pos: Size) -> Change {
    let m = PlayerMove { player: id, position: pos };
    let recorded = recorded_by_move(g, m);
    let log = g.log + recorded;
    let full = board_full(log, g.size);
    let halted = all_bots(g.player_list, roster);
    let after = GameView {
        log: if full {
            Seq::empty()
        } else {
            log
        },
        current_turn: next_turn_index(g.current_turn, g.player_list.len()),
        running: g.running && !halted,
        ..g
    };
    Change {
        game: after,
        roster,
        effects: broadcast_moves(g.player_list, recorded) + (if full {
            send_to_each(g.player_list, snapshot(after))
        } else {
            Seq::empty()
        }) + (if halted {
            Seq::empty()
        } else {
            send_to_each(g.player_list, GameEventView::Turn(turn_owner(after)))
        }),
    }
}

/// The game once the participant at index `i` has left: the turn stays with
/// the participant that had it, and passes to the first where that one was
/// the last and has left.
pub open spec fn without_participant(g: GameView, i: int) -> GameView {
    let list = g.player_list.remove(i);
    GameView {
        player_list: list,
        current_turn: if i < g.current_turn {
            (g.current_turn - 1) as nat
        } else if g.current_turn >= list.len() {
            0
        } else {
            g.current_turn
        },
        ..g
    }
}

/// A leave: the participant's first entry leaves the list, and the turn is
/// announced to those who remain. Nothing happens where the player takes no
/// part.
pub open spec fn leave(g: GameView, roster: Seq<PlayerView>, id: i32) -> Change {
    match g.player_list.index_of_first(id) {
        None => Change::none(g, roster),
        Some(i) => {
            let after = without_participant(g, i);
            Change {
                game: after,
                roster: with_membership(roster, id, None),
                effects: send_to_each(after.player_list, GameEventView::Turn(turn_owner(after))),
            }
        },
    }
}

/// A ready signal: where every participant is ready, the game starts. The
/// board is announced first and then the turn.
pub open spec fn ready(g: GameView, roster: Seq<PlayerView>) -> Result<Change, GameError> {
    match start_check(g.player_list, roster) {
        None => Err(GameError::MissingParticipant),
        Some(false) => Ok(Change::none(g, roster)),
        Some(true) => Ok(
            Change {
                game: GameView { running: true, ..g },
                roster,
                effects: send_to_each(g.player_list, snapshot(g)) + send_to_each(
                    g.player_list,
                    GameEventView::Turn(turn_owner(g)),
                ),
            },
        ),
    }
}

/// The algorithm's name that a command to add a bot carries, or the empty
/// text.
pub open spec fn bot_type_of(command: CommandView) -> Seq<char> {
    match command.bot_type {
        Some(text) => text,
        None => Seq::empty(),
    }
}

/// A new bot: it gets the next identifier, enters the roster, and its join
/// is queued.
pub open spec fn add_bot(
    g: GameView,
    roster: Seq<PlayerView>,
    next_id: i32,
    bot_type: Seq<char>,
) -> Result<Outcome, GameError> {
    if next_id == i32::MAX {
        Err(GameError::IdsExhausted)
    } else {
        Ok(
            Outcome {
                game: enqueue(g, CommandView::join(next_id)),
                roster: roster.push(bot_player(next_id)),
                next_id: (next_id + 1) as i32,
                effects: seq![
                    EffectView::BroadcastPlayers,
                    EffectView::SpawnBot {
                        bot: BotView { player: next_id, game: g.id, bot_type },
                    },
                ],
            },
        )
    }
}

/// What the command `command` does to a game, the roster and the identifier
/// counter.
pub open spec fn step(g: GameView, roster: Seq<PlayerView>, next_id: i32, command: CommandView) -> Result<
    Outcome,
    GameError,
> {
    match command.kind {
        InternalMessageKind::PlayerJoin => Ok(join(g, roster, command.player).leaving(next_id)),
        InternalMessageKind::PlayerMove => match command.position {
            Some(pos) => Ok(play(g, roster, command.player, pos).leaving(next_id)),
            None => Ok(Change::none(g, roster).leaving(next_id)),
        },
        InternalMessageKind::PlayerLeave => Ok(leave(g, roster, command.player).leaving(next_id)),
        InternalMessageKind::PlayerReady => match ready(g, roster) {
            Ok(change) => Ok(change.leaving(next_id)),
            Err(e) => Err(e),
        },
        InternalMessageKind::AddBot => add_bot(g, roster, next_id, bot_type_of(command)),
        InternalMessageKind::CurrentState => Ok(
            Change {
                game: g,
                roster,
                effects: seq![EffectView::Send { to: command.player, event: snapshot(g) }],
            }.leaving(next_id),
        ),
    }
}

/// How much work a queued command stands for: adding a bot also queues the
/// bot's join.
pub open spec fn command_weight(command: CommandView) -> nat {
    if command.kind == InternalMessageKind::AddBot {
        2
    } else {
        1
    }
}

/// The work that a queue stands for.
pub open spec fn queue_weight(queue: Seq<CommandView>) -> nat
    decreases queue.len(),
{
    if queue.len() == 0 {
        0
    } else {
        command_weight(queue[0]) + queue_weight(queue.drop_first())
    }
}

pub proof fn lemma_weight_push(queue: Seq<CommandView>, command: CommandView)
    ensures
        queue_weight(queue.push(command)) == queue_weight(queue) + command_weight(command),
    decreases queue.len(),
{
    if queue.len() == 0 {
        assert(queue.push(command).drop_first() =~= queue);
    } else {
        lemma_weight_push(queue.drop_first(), command);
        assert(queue.push(command).drop_first() =~= queue.drop_first().push(command));
    }
}

/// A command leaves less work in the queue than there was with it.
pub proof fn lemma_step_shrinks_queue(
    g: GameView,
    roster: Seq<PlayerView>,
    next_id: i32,
    command: CommandView,
)
    ensures
        step(g, roster, next_id, command) matches Ok(o) ==> queue_weight(o.game.queue)
            < queue_weight(g.queue) + command_weight(command),
{
    if command.kind == InternalMessageKind::AddBot {
        lemma_weight_push(g.queue, CommandView::join(next_id));
    }
}

/// What processing a whole queue comes to.
pub struct RunOutcome {
    pub game: GameView,
    pub roster: Seq<PlayerView>,
    pub next_id: i32,
    pub effects: Seq<EffectView>,
    /// Why processing stopped before the queue was empty, if it did.
    pub error: Option<GameError>,
}

/// Processes the queue of `g` from its head, one command after the other,
/// those included that are queued on the way, until the queue is empty or a
/// command fails. The command that fails is taken from the queue and changes
/// nothing else.
pub open spec fn run_all(g: GameView, roster: Seq<PlayerView>, next_id: i32) -> RunOutcome
    decreases queue_weight(g.queue),
{
    if g.queue.len() == 0 {
        RunOutcome { game: g, roster, next_id, effects: Seq::empty(), error: None }
    } else {
        let rest = GameView { queue: g.queue.drop_first(), ..g };
        match step(rest, roster, next_id, g.queue[0]) {
            Err(e) => RunOutcome {
                game: rest,
                roster,
                next_id,
                effects: Seq::empty(),
                error: Some(e),
            },
            Ok(o) => {
                proof {
                    lemma_step_shrinks_queue(rest, roster, next_id, g.queue[0]);
                }
                let later = run_all(o.game, o.roster, o.next_id);
                RunOutcome { effects: o.effects + later.effects, ..later }
            },
        }
    }
}

/// Whether `id` occurs in `list`.
pub fn contains_id(list: &Vec<i32>, id: i32) -> (found: bool)
    ensures
        found == list@.contains(id),
{
    let mut i: usize = 0;
    while i < list.len()
        invariant
            i <= list.len(),
            forall|j: int| 0 <= j < i ==> list@[j] != id,
        decreases list.len() - i,
    {
        if list[i] == id {
            return true;
        }
        i += 1;
    }
    false
}

impl Game {
    /// The turn index is in range, and the board has the game's extent.
    pub open spec fn wf(&self) -> bool {
        &&& turn_in_range(self.current_turn as nat, self.player_list@.len())
        &&& self.grid.extent() == (Size { x: self.width, y: self.height })
    }

    /// A game in its lobby, with an empty board and no participants. It takes
    /// the next game identifier.
    pub fn new(parameters: &GameCreationData, game_id_counter: &mut u32, creator: &Player) -> (game:
        Self)
        requires
            *old(game_id_counter) < u32::MAX,
        ensures
            *final(game_id_counter) == *old(game_id_counter) + 1,
            game.wf(),
            game.width == parameters.size.x,
            game.height == parameters.size.y,
            game@ == (GameView {
                id: *old(game_id_counter),
                size: parameters.size,
                log: Seq::empty(),
                queue: Seq::empty(),
                player_list: Seq::empty(),
                creator: creator.id,
                current_turn: 0,
                hotjoin: parameters.hotjoin,
                player_limit: parameters.player_limit as nat,
                running: false,
                win_length: parameters.length_to_win,
            }),
    {
        let id = *game_id_counter;
        *game_id_counter += 1;
        let game = Self {
            id,
            grid: Grid::new(parameters.size),
            queue: Vec::new(),
            player_list: Vec::new(),
            creator: creator.id,
            current_turn: 0,
            hotjoin: parameters.hotjoin,
            player_limit: parameters.player_limit,
            running: false,
            win_length: parameters.length_to_win,
            width: parameters.size.x,
            height: parameters.size.y,
        };
        assert(queue_view(game.queue@) =~= Seq::empty());
        game
    }

    pub fn is_running(&self) -> (running: bool)
        ensures
            running == self.running,
    {
        self.running
    }

    /// Puts `command` at the end of the queue.
    fn push_command(&mut self, command: InternalMessage)
        ensures
            final(self)@ == enqueue(old(self)@, command@),
            final(self).wf() == old(self).wf(),
            final(self).width == old(self).width,
            final(self).height == old(self).height,
    {
        self.queue.push(command);
        assert(queue_view(self.queue@) =~= queue_view(old(self).queue@).push(command@));
    }

    /// Asks to let `player` into the game. The join is queued where
    /// `can_join` allows it, and refused otherwise.
    pub fn join_player(&mut self, player: &Player) -> (accepted: bool)
        ensures
            accepted == can_join(old(self)@, player.id),
            final(self)@ == if accepted {
                enqueue(old(self)@, CommandView::join(player.id))
            } else {
                old(self)@
            },
            final(self).wf() == old(self).wf(),
    {
        if (self.running && !self.hotjoin) || self.player_list.len() >= self.player_limit
            || contains_id(&self.player_list, player.id) {
            return false;
        }
        self.push_command(InternalMessage::new_join(player.id));
        true
    }

    /// Queues the join of `player` without asking whether it may join.
    pub fn join_player_forced(&mut self, player: &Player)
        ensures
            final(self)@ == enqueue(old(self)@, CommandView::join(player.id)),
            final(self).wf() == old(self).wf(),
    {
        self.push_command(InternalMessage::new_join(player.id));
    }

    /// Asks to move `player` to `pos`. The move is queued where `can_move`
    /// allows it, and refused otherwise.
    pub fn add_move(&mut self, player: &Player, pos: Size) -> (accepted: bool)
        ensures
            accepted == can_move(old(self)@, player.id, pos),
            final(self)@ == if accepted {
                enqueue(old(self)@, CommandView::play(player.id, pos))
            } else {
                old(self)@
            },
            final(self).wf() == old(self).wf(),
    {
        self.add_move_of(player.id, pos)
    }

    /// Asks to move the player `id` to `pos`, as `add_move` does for a
    /// player of the roster.
    pub fn add_move_of(&mut self, id: i32, pos: Size) -> (accepted: bool)
        ensures
            accepted == can_move(old(self)@, id, pos),
            final(self)@ == if accepted {
                enqueue(old(self)@, CommandView::play(id, pos))
            } else {
                old(self)@
            },
            final(self).wf() == old(self).wf(),
    {
        if !self.running || !self.grid.is_valid_move(&pos) || self.current_turn
            >= self.player_list.len() || id != self.player_list[self.current_turn] {
            return false;
        }
        self.push_command(InternalMessage::new_move(id, pos));
        true
    }

    /// Queues the departure of `player`.
    pub fn leave_player(&mut self, player: &Player)
        ensures
            final(self)@ == enqueue(old(self)@, CommandView::leave(player.id)),
            final(self).wf() == old(self).wf(),
    {
        self.push_command(InternalMessage::new_leave(player.id));
    }

    /// Asks for a new bot that plays by `bot_type`. Only the game's creator
    /// may ask.
    pub fn add_bot(&mut self, player: &Player, bot_type: String) -> (accepted: bool)
        ensures
            accepted == (player.id == old(self).creator),
            final(self)@ == if accepted {
                enqueue(old(self)@, CommandView::add_bot(player.id, bot_type@))
            } else {
                old(self)@
            },
            final(self).wf() == old(self).wf(),
    {
        if player.id != self.creator {
            return false;
        }
        self.push_command(InternalMessage::new_add_bot(player.id, bot_type));
        true
    }

    /// Queues a request to send `player` the board.
    pub fn request_current_state(&mut self, player: &Player)
        ensures
            final(self)@ == enqueue(old(self)@, CommandView::current_state(player.id)),
            final(self).wf() == old(self).wf(),
    {
        self.push_command(InternalMessage::new_current_state(player.id));
    }

    /// Asks the host to put `event` into the outbox of `to`.
    pub fn send_to_player_id(to: i32, event: GameEvent, effects: &mut Vec<Effect>)
        ensures
            effect_views(final(effects)@) == effect_views(old(effects)@).push(
                EffectView::Send { to, event: event@ },
            ),
    {
        effects.push(Effect::Send { to, event });
        assert(effect_views(effects@) =~= effect_views(old(effects)@).push(
            EffectView::Send { to, event: event@ },
        ));
    }

    /// Sends `event` to every participant, in the order of their turns.
    pub fn broadcast(&self, event: &GameEvent, effects: &mut Vec<Effect>)
        ensures
            effect_views(final(effects)@) == effect_views(old(effects)@) + send_to_each(
                self.player_list@,
                event@,
            ),
    {
        let mut i: usize = 0;
        assert(self.player_list@.take(0) =~= Seq::<i32>::empty());
        assert(effect_views(effects@) =~= effect_views(old(effects)@) + send_to_each(
            self.player_list@.take(0),
            event@,
        ));
        while i < self.player_list.len()
            invariant
                i <= self.player_list.len(),
                effect_views(effects@) == effect_views(old(effects)@) + send_to_each(
                    self.player_list@.take(i as int),
                    event@,
                ),
            decreases self.player_list.len() - i,
        {
            let ghost before = effect_views(effects@);
            Self::send_to_player_id(self.player_list[i], event.clone(), effects);
            i += 1;
            assert(self.player_list@.take(i as int) =~= self.player_list@.take(i - 1).push(
                self.player_list@[i - 1],
            ));
            assert(effect_views(effects@) =~= effect_views(old(effects)@) + send_to_each(
                self.player_list@.take(i as int),
                event@,
            ));
        }
        assert(self.player_list@.take(i as int) =~= self.player_list@);
    }

    /// Tells every participant whose turn it is.
    pub fn broadcast_turn(&self, effects: &mut Vec<Effect>)
        ensures
            effect_views(final(effects)@) == effect_views(old(effects)@) + send_to_each(
                self.player_list@,
                GameEventView::Turn(turn_owner(self@)),
            ),
    {
        let owner = if self.current_turn < self.player_list.len() {
            self.player_list[self.current_turn]
        } else {
            0
        };
        self.broadcast(&GameEvent::Turn(owner), effects);
    }

    /// Tells every participant of the move `m`.
    pub fn broadcast_move(&self, m: &PlayerMove, effects: &mut Vec<Effect>)
        ensures
            effect_views(final(effects)@) == effect_views(old(effects)@) + send_to_each(
                self.player_list@,
                GameEventView::NewMove(*m),
            ),
    {
        self.broadcast(&GameEvent::NewMove(*m), effects);
    }

    /// Sends every participant the board as it stands.
    pub fn broadcast_current_state(&self, effects: &mut Vec<Effect>)
        ensures
            effect_views(final(effects)@) == effect_views(old(effects)@) + send_to_each(
                self.player_list@,
                snapshot(self@),
            ),
    {
        self.broadcast(&GameEvent::CurrentState(self.grid.clone()), effects);
    }

    /// Sends the player `player` the board as it stands.
    pub fn send_current_state(&self, player: i32, effects: &mut Vec<Effect>)
        ensures
            effect_views(final(effects)@) == effect_views(old(effects)@).push(
                EffectView::Send { to: player, event: snapshot(self@) },
            ),
    {
        Self::send_to_player_id(player, GameEvent::CurrentState(self.grid.clone()), effects);
    }

    /// Whether every player of the roster that takes part is a bot.
    pub fn are_all_players_bots(&self, players: &Vec<Player>) -> (all: bool)
        ensures
            all == all_bots(self.player_list@, roster_view(players@)),
    {
        let ghost roster = roster_view(players@);
        let mut i: usize = 0;
        while i < players.len()
            invariant
                i <= players.len(),
                roster == roster_view(players@),
                forall|j: int|
                    0 <= j < i && self.player_list@.contains((#[trigger] roster[j]).id)
                        ==> roster[j].is_bot,
            decreases players.len() - i,
        {
            if contains_id(&self.player_list, players[i].id) && !players[i].is_bot {
                assert(self.player_list@.contains(roster[i as int].id) && !roster[i as int].is_bot);
                return false;
            }
            i += 1;
        }
        true
    }

    /// Whether the game may start: `start_check` of the participants.
    pub fn can_start(&self, players: &Vec<Player>) -> (ready: Option<bool>)
        ensures
            ready == start_check(self.player_list@, roster_view(players@)),
    {
        let ghost roster = roster_view(players@);
        let mut i: usize = 0;
        assert(self.player_list@.skip(0) =~= self.player_list@);
        while i < self.player_list.len()
            invariant
                i <= self.player_list.len(),
                roster == roster_view(players@),
                start_check(self.player_list@, roster) == start_check(
                    self.player_list@.skip(i as int),
                    roster,
                ),
            decreases self.player_list.len() - i,
        {
            let ghost rest = self.player_list@.skip(i as int);
            assert(rest[0] == self.player_list@[i as int]);
            assert(rest.drop_first() =~= self.player_list@.skip(i + 1));
            match find_player(players, self.player_list[i]) {
                None => {
                    return None;
                },
                Some(k) => {
                    if !players[k].ready {
                        return Some(false);
                    }
                },
            }
            i += 1;
        }
        Some(true)
    }

    /// Starts the game: the board is announced first, then the turn.
    pub fn start(&mut self, effects: &mut Vec<Effect>)
        ensures
            final(self)@ == (GameView { running: true, ..old(self)@ }),
            final(self).wf() == old(self).wf(),
            effect_views(final(effects)@) == effect_views(old(effects)@) + send_to_each(
                old(self).player_list@,
                snapshot(old(self)@),
            ) + send_to_each(
                old(self).player_list@,
                GameEventView::Turn(turn_owner(old(self)@)),
            ),
    {
        self.running = true;
        self.broadcast_current_state(effects);
        self.broadcast_turn(effects);
    }

    /// Lets the player `player` in: see `join`.
    pub fn handle_player_join(
        &mut self,
        players: &mut Vec<Player>,
        player: i32,
        effects: &mut Vec<Effect>,
    )
        requires
            old(self).wf(),
        ensures
            final(self).wf(),
            final(self)@ == join(old(self)@, roster_view(old(players)@), player).game,
            roster_view(final(players)@) == join(
                old(self)@,
                roster_view(old(players)@),
                player,
            ).roster,
            effect_views(final(effects)@) == effect_views(old(effects)@) + join(
                old(self)@,
                roster_view(old(players)@),
                player,
            ).effects,
    {
        set_membership(players, player, Some(self.id));
        self.player_list.push(player);
        if self.running {
            self.send_current_state(player, effects);
        }
        let ghost sent = effect_views(effects@);
        effects.push(Effect::BroadcastPlayers);
        assert(effect_views(effects@) =~= sent.push(EffectView::BroadcastPlayers));
        assert(effect_views(effects@) =~= effect_views(old(effects)@) + join(
            old(self)@,
            roster_view(old(players)@),
            player,
        ).effects);
    }

    /// The index of the first entry of `player` among the participants.
    pub fn participant_index(&self, player: i32) -> (index: Option<usize>)
        ensures
            match index {
                Some(i) => self.player_list@.index_of_first(player) == Some(i as int) && i
                    < self.player_list@.len(),
                None => self.player_list@.index_of_first(player) is None,
            },
    {
        let mut i: usize = 0;
        while i < self.player_list.len()
            invariant
                i <= self.player_list.len(),
                forall|j: int| 0 <= j < i ==> self.player_list@[j] != player,
            decreases self.player_list.len() - i,
        {
            if self.player_list[i] == player {
                proof {
                    self.player_list@.index_of_first_ensures(player);
                    assert(self.player_list@[i as int] == player);
                    assert(self.player_list@.contains(player));
                    let first = self.player_list@.index_of_first(player).unwrap();
                    if first < i {
                        assert(self.player_list@[first] != player);
                    }
                }
                return Some(i);
            }
            i += 1;
        }
        proof {
            self.player_list@.index_of_first_ensures(player);
        }
        None
    }

    /// Takes the player `player` out of the game: see `leave`.
    pub fn remove_player(
        &mut self,
        players: &mut Vec<Player>,
        player: i32,
        effects: &mut Vec<Effect>,
    )
        requires
            old(self).wf(),
        ensures
            final(self).wf(),
            final(self)@ == leave(old(self)@, roster_view(old(players)@), player).game,
            roster_view(final(players)@) == leave(
                old(self)@,
                roster_view(old(players)@),
                player,
            ).roster,
            effect_views(final(effects)@) == effect_views(old(effects)@) + leave(
                old(self)@,
                roster_view(old(players)@),
                player,
            ).effects,
    {
        let index = match self.participant_index(player) {
            Some(i) => i,
            None => {
                assert(effect_views(effects@) =~= effect_views(old(effects)@) + Seq::<
                    EffectView,
                >::empty());
                return ;
            },
        };
        if index < self.current_turn {
            self.current_turn -= 1;
        } else if self.current_turn >= self.player_list.len() - 1 {
            self.current_turn = 0;
        }
        set_membership(players, player, None);
        self.player_list.remove(index);
        self.broadcast_turn(effects);
    }

    /// Passes the turn on: see `play`.
    pub fn next_turn(&mut self, players: &Vec<Player>, effects: &mut Vec<Effect>)
        requires
            old(self).wf(),
        ensures
            final(self).wf(),
            final(self)@ == (GameView {
                current_turn: next_turn_index(
                    old(self)@.current_turn,
                    old(self)@.player_list.len(),
                ),
                running: old(self).running && !all_bots(
                    old(self).player_list@,
                    roster_view(players@),
                ),
                ..old(self)@
            }),
            effect_views(final(effects)@) == effect_views(old(effects)@) + if all_bots(
                old(self).player_list@,
                roster_view(players@),
            ) {
                Seq::empty()
            } else {
                send_to_each(final(self).player_list@, GameEventView::Turn(turn_owner(final(self)@)))
            },
    {
        if self.player_list.len() == 0 || self.current_turn >= self.player_list.len() - 1 {
            self.current_turn = 0;
        } else {
            self.current_turn += 1;
        }
        if self.are_all_players_bots(players) {
            self.running = false;
            assert(effect_views(effects@) =~= effect_views(old(effects)@) + Seq::<
                EffectView,
            >::empty());
            return ;
        }
        self.broadcast_turn(effects);
    }

    /// Records the move of `player` to `pos` and all that follows from it:
    /// see `play`.
    pub fn handle_player_move(
        &mut self,
        players: &Vec<Player>,
        player: i32,
        pos: Size,
        effects: &mut Vec<Effect>,
    )
        requires
            old(self).wf(),
        ensures
            final(self).wf(),
            final(self)@ == play(old(self)@, roster_view(players@), player, pos).game,
            effect_views(final(effects)@) == effect_views(old(effects)@) + play(
                old(self)@,
                roster_view(players@),
                player,
                pos,
            ).effects,
    {
        let ghost g = self@;
        let ghost list = self.player_list@;
        let ghost before = effect_views(effects@);
        let m = PlayerMove::new(player, pos);
        self.broadcast_move(&m, effects);
        self.grid.add(m);
        let line = self.grid.check_win(&pos, self.win_length);
        proof {
            assert(seq![m].drop_last() =~= Seq::<PlayerMove>::empty());
            assert(seq![m].last() == m);
            assert(broadcast_moves(list, Seq::<PlayerMove>::empty()) =~= Seq::<EffectView>::empty());
            assert(broadcast_moves(list, seq![m]) =~= send_to_each(list, GameEventView::NewMove(m)));
            assert(line@.take(0) =~= Seq::<PlayerMove>::empty());
            assert(seq![m] + line@.take(0) =~= seq![m]);
            assert(g.log.push(m) + line@.take(0) =~= g.log.push(m));
        }
        let mut i: usize = 0;
        while i < line.len()
            invariant
                i <= line.len(),
                self.wf(),
                self@ == (GameView { log: g.log.push(m) + line@.take(i as int), ..g }),
                list == g.player_list,
                effect_views(effects@) == before + broadcast_moves(
                    list,
                    seq![m] + line@.take(i as int),
                ),
            decreases line.len() - i,
        {
            let ghost sent = seq![m] + line@.take(i as int);
            self.broadcast_move(&line[i], effects);
            self.grid.add(line[i]);
            i += 1;
            proof {
                let now = seq![m] + line@.take(i as int);
                assert(now.drop_last() =~= sent);
                assert(now.last() == line@[i - 1]);
                assert(effect_views(effects@) =~= before + broadcast_moves(list, now));
                assert(self.grid@ =~= g.log.push(m) + line@.take(i as int));
            }
        }
        proof {
            assert(line@.take(i as int) =~= line@);
            assert(self.grid@ =~= g.log + recorded_by_move(g, m));
        }
        if self.grid.get_possible_moves(0).len() == 0 {
            self.grid = Grid::new(self.grid.size());
            self.broadcast_current_state(effects);
        } else {
            assert(effect_views(effects@) =~= effect_views(effects@) + Seq::<EffectView>::empty());
        }
        self.next_turn(players, effects);
        proof {
            let o = play(g, roster_view(players@), player, pos);
            assert(self@.log =~= o.game.log);
            assert(effect_views(effects@) =~= before + o.effects);
        }
    }

    /// Processes the command `msg`: see `step`. A command that fails changes
    /// nothing.
    pub fn process(
        &mut self,
        msg: InternalMessage,
        players: &mut Vec<Player>,
        player_id_counter: &mut i32,
    ) -> (result: Result<Vec<Effect>, GameError>)
        requires
            old(self).wf(),
        ensures
            final(self).wf(),
            match result {
                Ok(effects) => step(
                    old(self)@,
                    roster_view(old(players)@),
                    *old(player_id_counter),
                    msg@,
                ) == Ok::<Outcome, GameError>(
                    Outcome {
                        game: final(self)@,
                        roster: roster_view(final(players)@),
                        next_id: *final(player_id_counter),
                        effects: effect_views(effects@),
                    },
                ),
                Err(e) => step(
                    old(self)@,
                    roster_view(old(players)@),
                    *old(player_id_counter),
                    msg@,
                ) == Err::<Outcome, GameError>(e) && final(self)@ == old(self)@ && roster_view(
                    final(players)@,
                ) == roster_view(old(players)@) && *final(player_id_counter) == *old(
                    player_id_counter,
                ),
            },
    {
        let mut effects: Vec<Effect> = Vec::new();
        let ghost none = Seq::<EffectView>::empty();
        assert(effect_views(effects@) =~= none);
        match msg.kind {
            InternalMessageKind::PlayerJoin => {
                self.handle_player_join(players, msg.player, &mut effects);
                assert(effect_views(effects@) =~= join(
                    old(self)@,
                    roster_view(old(players)@),
                    msg.player,
                ).effects);
            },
            InternalMessageKind::PlayerMove => {
                match msg.position {
                    Some(pos) => {
                        self.handle_player_move(players, msg.player, pos, &mut effects);
                        assert(effect_views(effects@) =~= play(
                            old(self)@,
                            roster_view(old(players)@),
                            msg.player,
                            pos,
                        ).effects);
                    },
                    None => {},
                }
            },
            InternalMessageKind::PlayerLeave => {
                self.remove_player(players, msg.player, &mut effects);
                assert(effect_views(effects@) =~= leave(
                    old(self)@,
                    roster_view(old(players)@),
                    msg.player,
                ).effects);
            },
            InternalMessageKind::PlayerReady => {
                match self.can_start(players) {
                    None => {
                        return Err(GameError::MissingParticipant);
                    },
                    Some(false) => {},
                    Some(true) => {
                        self.start(&mut effects);
                        assert(effect_views(effects@) =~= send_to_each(
                            old(self).player_list@,
                            snapshot(old(self)@),
                        ) + send_to_each(
                            old(self).player_list@,
                            GameEventView::Turn(turn_owner(old(self)@)),
                        ));
                    },
                }
            },
            InternalMessageKind::AddBot => {
                if *player_id_counter == i32::MAX {
                    return Err(GameError::IdsExhausted);
                }
                let bot_id = get_unique_id(player_id_counter);
                let bot = Bot::new(bot_id, msg.bot_type, players, self);
                effects.push(Effect::BroadcastPlayers);
                effects.push(Effect::SpawnBot { bot });
                assert(effect_views(effects@) =~= seq![
                    EffectView::BroadcastPlayers,
                    EffectView::SpawnBot { bot: bot@ },
                ]);
            },
            InternalMessageKind::CurrentState => {
                self.send_current_state(msg.player, &mut effects);
                assert(effect_views(effects@) =~= seq![
                    EffectView::Send { to: msg.player, event: snapshot(old(self)@) },
                ]);
            },
        }
        Ok(effects)
    }

    /// Processes the queue until it is empty or a command fails: see
    /// `run_all`. Returns what the host is asked to do, in order, and the
    /// failure, if there was one.
    pub fn run(&mut self, players: &mut Vec<Player>, player_id_counter: &mut i32) -> (report: (
        Vec<Effect>,
        Option<GameError>,
    ))
        requires
            old(self).wf(),
        ensures
            final(self).wf(),
            run_all(old(self)@, roster_view(old(players)@), *old(player_id_counter)) == (
                RunOutcome {
                    game: final(self)@,
                    roster: roster_view(final(players)@),
                    next_id: *final(player_id_counter),
                    effects: effect_views(report.0@),
                    error: report.1,
                }),
    {
        let ghost whole = run_all(old(self)@, roster_view(old(players)@), *old(player_id_counter));
        let mut effects: Vec<Effect> = Vec::new();
        assert(effect_views(effects@) =~= Seq::<EffectView>::empty());
        assert(effect_views(effects@) + whole.effects =~= whole.effects);
        while self.queue.len() > 0
            invariant
                self.wf(),
                whole == run_all(
                    old(self)@,
                    roster_view(old(players)@),
                    *old(player_id_counter),
                ),
                whole == (RunOutcome {
                    effects: effect_views(effects@) + run_all(
                        self@,
                        roster_view(players@),
                        *player_id_counter,
                    ).effects,
                    ..run_all(self@, roster_view(players@), *player_id_counter)
                }),
            decreases queue_weight(self@.queue),
        {
            let ghost g = self@;
            let ghost roster = roster_view(players@);
            let ghost next_id = *player_id_counter;
            let ghost done = effect_views(effects@);
            let msg = self.queue.remove(0);
            let ghost rest = GameView { queue: g.queue.drop_first(), ..g };
            proof {
                assert(queue_view(self.queue@) =~= g.queue.drop_first());
                assert(self@ == rest);
                assert(msg@ == g.queue[0]);
                lemma_step_shrinks_queue(rest, roster, next_id, msg@);
            }
            match self.process(msg, players, player_id_counter) {
                Ok(mut more) => {
                    let ghost added = effect_views(more@);
                    effects.append(&mut more);
                    proof {
                        assert(g.queue.len() > 0);
                        assert(effect_views(effects@) =~= done + added);
                        let later = run_all(self@, roster_view(players@), *player_id_counter);
                        assert(run_all(g, roster, next_id) == (RunOutcome {
                            effects: added + later.effects,
                            ..later
                        }));
                        assert(done + (added + later.effects) =~= (done + added) + later.effects);
                    }
                },
                Err(e) => {
                    proof {
                        assert(g.queue.len() > 0);
                        assert(run_all(g, roster, next_id) == (RunOutcome {
                            game: rest,
                            roster,
                            next_id,
                            effects: Seq::empty(),
                            error: Some(e),
                        }));
                        assert(done + Seq::<EffectView>::empty() =~= done);
                    }
                    return (effects, Some(e));
                },
            }
        }
        proof {
            assert(effect_views(effects@) + Seq::<EffectView>::empty() =~= effect_views(effects@));
        }
        (effects, None)
    }

    /// Flips `player`'s ready flag, unless the game runs already. Where the
    /// player is ready now, a ready signal is queued.
    pub fn ready_toggle(&mut self, player: &mut Player) -> (status: Status)
        ensures
            final(self).wf() == old(self).wf(),
            final(player)@ == (PlayerView {
                ready: if old(self).running {
                    old(player).ready
                } else {
                    !old(player).ready
                },
                ..old(player)@
            }),
            final(self)@ == if !old(self).running && !old(player).ready {
                enqueue(old(self)@, CommandView::ready(old(player).id))
            } else {
                old(self)@
            },
            status.status@ == if old(self).running {
                "error"@
            } else {
                "ok"@
            },
            status.details@ == if old(self).running {
                "Game is already running."@
            } else {
                ""@
            },
    {
        if self.running {
            return Status::new("error", "Game is already running.");
        }
        player.ready = !player.ready;
        if player.ready {
            self.push_command(InternalMessage::new_ready(player.id));
        }
        Status::new("ok", "")
    }
}

} // verus!

verus! {

/// The game after the moves of `moves`, each processed in turn.
pub open spec fn play_all(g: GameView, roster: Seq<PlayerView>, moves: Seq<PlayerMove>) -> GameView
    decreases moves.len(),
{
    if moves.len() == 0 {
        g
    } else {
        play(
            play_all(g, roster, moves.drop_last()),
            roster,
            moves.last().player,
            moves.last().position,
        ).game
    }
}

/// Moves change neither who takes part nor in which order, and each passes
/// the turn on by one place.
pub proof fn lemma_turn_after_moves(g: GameView, roster: Seq<PlayerView>, moves: Seq<PlayerMove>)
    requires
        g.current_turn < g.player_list.len(),
    ensures
        play_all(g, roster, moves).player_list == g.player_list,
        play_all(g, roster, moves).current_turn == (g.current_turn + moves.len()) as int % (
        g.player_list.len() as int),
    decreases moves.len(),
{
    let k = g.player_list.len() as int;
    if moves.len() == 0 {
        assert((g.current_turn as int) % k == g.current_turn) by (nonlinear_arith)
            requires
                0 <= g.current_turn < k,
        ;
    } else {
        lemma_turn_after_moves(g, roster, moves.drop_last());
        let t = (g.current_turn + moves.len() - 1) % k;
        let n = g.current_turn + moves.len() - 1;
        assert(0 <= t < k && (if t + 1 >= k {
            0
        } else {
            t + 1
        }) == (n + 1) % k) by (nonlinear_arith)
            requires
                t == n % k,
                0 <= n,
                0 < k,
        ;
    }
}

/// With as many moves as there are participants, and nobody leaving or
/// joining, the turn comes back to the participant who had it.
pub proof fn lemma_turn_comes_round(g: GameView, roster: Seq<PlayerView>, moves: Seq<PlayerMove>)
    requires
        turn_in_range(g.current_turn, g.player_list.len()),
        moves.len() == g.player_list.len(),
    ensures
        play_all(g, roster, moves).player_list == g.player_list,
        play_all(g, roster, moves).current_turn == g.current_turn,
{
    let k = g.player_list.len() as int;
    if k > 0 {
        lemma_turn_after_moves(g, roster, moves);
        assert((g.current_turn + k) as int % k == g.current_turn) by (nonlinear_arith)
            requires
                0 <= g.current_turn < k,
        ;
    }
}

/// When the participant at index `i` leaves, the turn index goes down by
/// exactly one where `i` was before it, and else stays, taken modulo the new
/// number of participants. The turn stays with the participant who had it,
/// unless it is that one who leaves.
pub proof fn lemma_leave_corrects_turn(g: GameView, roster: Seq<PlayerView>, id: i32, i: int)
    requires
        turn_in_range(g.current_turn, g.player_list.len()),
        g.player_list.index_of_first(id) == Some(i),
    ensures
        ({
            let after = leave(g, roster, id).game;
            &&& after.player_list == g.player_list.remove(i)
            &&& turn_in_range(after.current_turn, after.player_list.len())
            &&& i < g.current_turn ==> after.current_turn == g.current_turn - 1
            &&& i >= g.current_turn && after.player_list.len() > 0 ==> after.current_turn
                == (g.current_turn as int) % (after.player_list.len() as int)
            &&& i >= g.current_turn && after.player_list.len() == 0 ==> after.current_turn == 0
            &&& i != g.current_turn ==> turn_owner(after) == turn_owner(g)
        }),
{
    g.player_list.index_of_first_ensures(id);
    let after = leave(g, roster, id).game;
    let k = after.player_list.len() as int;
    if i >= g.current_turn && k > 0 {
        if g.current_turn >= k {
            assert(g.current_turn == k);
            assert(k % k == 0) by (nonlinear_arith)
                requires
                    k > 0,
            ;
        } else {
            assert((g.current_turn as int) % k == g.current_turn) by (nonlinear_arith)
                requires
                    0 <= g.current_turn < k,
            ;
        }
    }
}

/// A player who is not among the participants leaves nothing changed.
pub proof fn lemma_leave_of_stranger(g: GameView, roster: Seq<PlayerView>, id: i32)
    requires
        !g.player_list.contains(id),
    ensures
        leave(g, roster, id).game == g,
        leave(g, roster, id).effects == Seq::<EffectView>::empty(),
{
    g.player_list.index_of_first_ensures(id);
}

/// A move never leaves the game with a board on which no move is legal:
/// where the move filled the board, the game goes on with an empty one.
pub proof fn lemma_move_never_leaves_board_full(
    g: GameView,
    roster: Seq<PlayerView>,
    id: i32,
    pos: Size,
)
    requires
        g.size.x > 0,
        g.size.y > 0,
    ensures
        !board_full(play(g, roster, id, pos).game.log, g.size),
        board_full(g.log + recorded_by_move(g, PlayerMove { player: id, position: pos }), g.size)
            ==> play(g, roster, id, pos).game.log == Seq::<PlayerMove>::empty(),
{
    let after = play(g, roster, id, pos).game;
    if board_full(g.log + recorded_by_move(g, PlayerMove { player: id, position: pos }), g.size) {
        let origin = Size { x: 0, y: 0 };
        assert(is_legal(after.log, g.size, origin));
        lemma_empty_cells(after.log, g.size);
        assert(empty_cells(after.log, g.size).contains(origin));
    }
}

/// A cell that is blocked stays blocked through every move that the game
/// accepted, for as long as the board is not replaced.
pub proof fn lemma_accepted_move_keeps_blocked(
    g: GameView,
    roster: Seq<PlayerView>,
    id: i32,
    pos: Size,
    cell: Size,
)
    requires
        can_move(g, id, pos),
        owner_at(g.log, cell) == Some(BLOCKED),
        !board_full(g.log + recorded_by_move(g, PlayerMove { player: id, position: pos }), g.size),
    ensures
        owner_at(play(g, roster, id, pos).game.log, cell) == Some(BLOCKED),
{
    let m = PlayerMove { player: id, position: pos };
    let recorded = recorded_by_move(g, m);
    lemma_detect_line_blocks(g.log.push(m), g.size, pos, g.win_length);
    assert forall|i: int| 0 <= i < recorded.len() implies (#[trigger] recorded[i]).player == BLOCKED
        || is_legal(g.log + recorded.take(i), g.size, recorded[i].position) by {
        if i == 0 {
            assert(g.log + recorded.take(0) =~= g.log);
        } else {
            assert(recorded[i] == detect_line(g.log.push(m), g.size, pos, g.win_length)[i - 1]);
        }
    }
    lemma_blocked_is_terminal(g.log, g.size, recorded, cell);
}

} // verus!
