//! What travels between the parts of a server: the events a client sends and
//! receives, the commands queued for a game, and what a game asks its host
//! to do.

use vstd::prelude::*;
use crate::bot::{Bot, BotView};
use crate::common::Size;
use crate::grid::Grid;
use crate::player::Player;
use crate::player_move::PlayerMove;

verus! {

/// An event on the wire: its name and its content as text.
#[derive(Clone, Debug)]
pub struct MessageEvent {
    pub event: String,
    pub content: String,
}

impl MessageEvent {
    pub fn new(event: &str, content: &str) -> (m: Self)
        ensures
            m.event@ == event@,
            m.content@ == content@,
    {
        Self { event: event.to_owned(), content: content.to_owned() }
    }

    /// The event that stands for "nothing to send".
    pub fn new_empty() -> (m: Self)
        ensures
            m.event@ == Seq::<char>::empty(),
            m.content@ == Seq::<char>::empty(),
    {
        Self { event: String::new(), content: String::new() }
    }

    /// Whether this is the event that stands for "nothing to send": one
    /// without a name.
    pub fn is_empty(&self) -> (empty: bool)
        ensures
            empty == (self.event@.len() == 0),
    {
        self.event.as_str().is_empty()
    }
}

/// What a client asks for when it creates a game.
#[derive(Clone, Copy, Debug)]
pub struct GameCreationData {
    pub size: Size,
    pub hotjoin: bool,
    pub player_limit: usize,
    pub length_to_win: u32,
}

impl GameCreationData {
    pub fn new(size: Size, hotjoin: bool, player_limit: usize, length_to_win: u32) -> (data: Self)
        ensures
            data.size == size,
            data.hotjoin == hotjoin,
            data.player_limit == player_limit,
            data.length_to_win == length_to_win,
    {
        Self { size, hotjoin, player_limit, length_to_win }
    }
}

/// The game that a client asks to join, or has joined.
#[derive(Clone, Copy, Debug)]
pub struct GameJoinData {
    pub id: u32,
}

impl GameJoinData {
    pub fn new(id: u32) -> (data: Self)
        ensures
            data.id == id,
    {
        Self { id }
    }
}

/// The kinds of command that a game processes.
#[derive(Clone, Copy, Debug, PartialEq, Eq, Structural)]
pub enum InternalMessageKind {
    PlayerJoin,
    PlayerMove,
    PlayerLeave,
    PlayerReady,
    AddBot,
    CurrentState,
}

/// A command in a game's queue. `player` is the identifier of the
/// participant that it concerns.
#[derive(Debug)]
pub struct InternalMessage {
    pub kind: InternalMessageKind,
    pub player: i32,
    pub position: Option<Size>,
    pub bot_type: Option<String>,
}

/// An `InternalMessage` with its text as a sequence of characters.
pub struct CommandView {
    pub kind: InternalMessageKind,
    pub player: i32,
    pub position: Option<Size>,
    pub bot_type: Option<Seq<char>>,
}

impl View for InternalMessage {
    type V = CommandView;

    open spec fn view(&self) -> CommandView {
        CommandView {
            kind: self.kind,
            player: self.player,
            position: self.position,
            bot_type: match self.bot_type {
                Some(text) => Some(text@),
                None => None,
            },
        }
    }
}

/// The views of the commands of a queue, in their order.
pub open spec fn queue_view(queue: Seq<InternalMessage>) -> Seq<CommandView> {
    queue.map_values(|msg: InternalMessage| msg@)
}

impl CommandView {
    pub open spec fn join(player: i32) -> CommandView {
        CommandView {
            kind: InternalMessageKind::PlayerJoin,
            player,
            position: None,
            bot_type: None,
        }
    }

    pub open spec fn play(player: i32, pos: Size) -> CommandView {
        CommandView {
            kind: InternalMessageKind::PlayerMove,
            player,
            position: Some(pos),
            bot_type: None,
        }
    }

    pub open spec fn leave(player: i32) -> CommandView {
        CommandView {
            kind: InternalMessageKind::PlayerLeave,
            player,
            position: None,
            bot_type: None,
        }
    }

    pub open spec fn ready(player: i32) -> CommandView {
        CommandView {
            kind: InternalMessageKind::PlayerReady,
            player,
            position: None,
            bot_type: None,
        }
    }

    pub open spec fn add_bot(player: i32, bot_type: Seq<char>) -> CommandView {
        CommandView {
            kind: InternalMessageKind::AddBot,
            player,
            position: None,
            bot_type: Some(bot_type),
        }
    }

    pub open spec fn current_state(player: i32) -> CommandView {
        CommandView {
            kind: InternalMessageKind::CurrentState,
            player,
            position: None,
            bot_type: None,
        }
    }
}

impl InternalMessage {
    pub fn new_join(player: i32) -> (msg: Self)
        ensures
            msg@ == CommandView::join(player),
    {
        Self { kind: InternalMessageKind::PlayerJoin, player, position: None, bot_type: None }
    }

    pub fn new_move(player: i32, pos: Size) -> (msg: Self)
        ensures
            msg@ == CommandView::play(player, pos),
    {
        Self { kind: InternalMessageKind::PlayerMove, player, position: Some(pos), bot_type: None }
    }

    pub fn new_leave(player: i32) -> (msg: Self)
        ensures
            msg@ == CommandView::leave(player),
    {
        Self { kind: InternalMessageKind::PlayerLeave, player, position: None, bot_type: None }
    }

    pub fn new_ready(player: i32) -> (msg: Self)
        ensures
            msg@ == CommandView::ready(player),
    {
        Self { kind: InternalMessageKind::PlayerReady, player, position: None, bot_type: None }
    }

    pub fn new_add_bot(player: i32, bot_type: String) -> (msg: Self)
        ensures
            msg@ == CommandView::add_bot(player, bot_type@),
    {
        Self { kind: InternalMessageKind::AddBot, player, position: None, bot_type: Some(bot_type) }
    }

    pub fn new_current_state(player: i32) -> (msg: Self)
        ensures
            msg@ == CommandView::current_state(player),
    {
        Self { kind: InternalMessageKind::CurrentState, player, position: None, bot_type: None }
    }
}

/// The outcome of a request: `"ok"` or `"error"`, and why.
#[derive(Clone, Debug)]
pub struct Status {
    pub status: String,
    pub details: String,
}

impl Status {
    pub fn new(status: &str, details: &str) -> (s: Self)
        ensures
            s.status@ == status@,
            s.details@ == details@,
    {
        Self { status: status.to_owned(), details: details.to_owned() }
    }
}

/// A player's picture, as sent to a client.
#[derive(Clone, Debug)]
pub struct PlayerImageResponse {
    pub id: i32,
    pub image: String,
}

impl PlayerImageResponse {
    pub fn new(id: i32, image: String) -> (response: Self)
        ensures
            response.id == id,
            response.image == image,
    {
        Self { id, image }
    }
}

/// What a game tells a participant.
pub enum GameEvent {
    /// The whole board as it stands.
    CurrentState(Grid),
    /// Whose turn it is.
    Turn(i32),
    /// A move that was recorded: a participant's, or a blocking marker.
    NewMove(PlayerMove),
    /// The game that the participant has been let into.
    JoinedGame(u32),
}

impl Clone for GameEvent {
    fn clone(&self) -> (copy: Self)
        ensures
            copy@ == self@,
    {
        match self {
            GameEvent::CurrentState(grid) => GameEvent::CurrentState(grid.clone()),
            GameEvent::Turn(id) => GameEvent::Turn(*id),
            GameEvent::NewMove(m) => GameEvent::NewMove(*m),
            GameEvent::JoinedGame(id) => GameEvent::JoinedGame(*id),
        }
    }
}

impl GameEvent {
    /// The name under which the event travels.
    pub fn event_name(&self) -> (name: String)
        ensures
            name@ == match self {
                GameEvent::CurrentState(_) => "current_state"@,
                GameEvent::Turn(_) => "turn"@,
                GameEvent::NewMove(_) => "new_move"@,
                GameEvent::JoinedGame(_) => "joined_game"@,
            },
    {
        match self {
            GameEvent::CurrentState(_) => "current_state".to_owned(),
            GameEvent::Turn(_) => "turn".to_owned(),
            GameEvent::NewMove(_) => "new_move".to_owned(),
            GameEvent::JoinedGame(_) => "joined_game".to_owned(),
        }
    }
}

/// A `GameEvent` with its board as a log and an extent.
pub enum GameEventView {
    CurrentState { size: Size, log: Seq<PlayerMove> },
    Turn(i32),
    NewMove(PlayerMove),
    JoinedGame(u32),
}

impl View for GameEvent {
    type V = GameEventView;

    open spec fn view(&self) -> GameEventView {
        match self {
            GameEvent::CurrentState(grid) => GameEventView::CurrentState {
                size: grid.extent(),
                log: grid@,
            },
            GameEvent::Turn(id) => GameEventView::Turn(*id),
            GameEvent::NewMove(m) => GameEventView::NewMove(*m),
            GameEvent::JoinedGame(id) => GameEventView::JoinedGame(*id),
        }
    }
}

/// What a game asks of the host that runs it, in the order in which it is to
/// be done.
pub enum Effect {
    /// Put `event` into the outbox of the participant `to`.
    Send { to: i32, event: GameEvent },
    /// The roster has changed: publish it to every connected player.
    BroadcastPlayers,
    /// Start the driver of a bot that has just been created.
    SpawnBot { bot: Bot },
}

/// An `Effect` with its event as a view.
pub enum EffectView {
    Send { to: i32, event: GameEventView },
    BroadcastPlayers,
    SpawnBot { bot: BotView },
}

impl View for Effect {
    type V = EffectView;

    open spec fn view(&self) -> EffectView {
        match self {
            Effect::Send { to, event } => EffectView::Send { to: *to, event: event@ },
            Effect::BroadcastPlayers => EffectView::BroadcastPlayers,
            Effect::SpawnBot { bot } => EffectView::SpawnBot { bot: bot@ },
        }
    }
}

/// The views of `effects`, in their order.
pub open spec fn effect_views(effects: Seq<Effect>) -> Seq<EffectView> {
    effects.map_values(|e: Effect| e@)
}

/// One copy of `event` for each of `recipients`, in their order.
pub open spec fn send_to_each(recipients: Seq<i32>, event: GameEventView) -> Seq<EffectView> {
    recipients.map_values(|to: i32| EffectView::Send { to, event })
}

/// The deliveries that send `message` to every player of the roster.
pub fn broadcast(players: &Vec<Player>, message: &MessageEvent) -> (deliveries: Vec<
    (i32, MessageEvent),
>)
    ensures
        deliveries@.len() == players@.len(),
        forall|i: int|
            0 <= i < players@.len() ==> (#[trigger] deliveries@[i]).0 == players@[i].id
                && deliveries@[i].1.event@ == message.event@ && deliveries@[i].1.content@
                == message.content@,
{
    let mut deliveries: Vec<(i32, MessageEvent)> = Vec::new();
    let mut i: usize = 0;
    while i < players.len()
        invariant
            i <= players.len(),
            deliveries@.len() == i,
            forall|k: int|
                0 <= k < i ==> (#[trigger] deliveries@[k]).0 == players@[k].id
                    && deliveries@[k].1.event@ == message.event@ && deliveries@[k].1.content@
                    == message.content@,
        decreases players.len() - i,
    {
        let copy = MessageEvent {
            event: message.event.clone(),
            content: message.content.clone(),
        };
        deliveries.push((players[i].id, copy));
        i += 1;
    }
    deliveries
}

} // verus!
