//! Bots: players whose moves an algorithm chooses.

pub mod botlogic;
pub mod mcts;
pub mod minmax;
pub mod random;

use vstd::prelude::*;
use crate::bot::botlogic::BotLogic;
use crate::bot::mcts::MCTSBot;
use crate::bot::minmax::MinMaxBot;
use crate::bot::random::RandomBot;
use crate::common::Size;
use crate::game::{can_move, enqueue, Game, GameView};
use crate::grid::{empty_cells, is_legal};
use crate::net::CommandView;
use crate::player::{bot_player, roster_view, Player};

verus! {

/// A bot that plays in one game.
#[derive(Debug)]
pub struct Bot {
    /// The identifier of the bot's player.
    pub player: i32,
    /// The identifier of the game that the bot plays in.
    pub game: u32,
    /// The name of the algorithm that chooses the bot's moves.
    pub bot_type: String,
}

impl Bot {
    /// A bot for `game` that plays by `bot_type`, or by the algorithm that
    /// the empty name stands for. Its player enters the roster, and its join
    /// is queued without asking whether it may join.
    pub fn new(id: i32, bot_type: Option<String>, players: &mut Vec<Player>, game: &mut Game) -> (bot:
        Self)
        ensures
            bot@ == (BotView {
                player: id,
                game: old(game).id,
                bot_type: match bot_type {
                    Some(text) => text@,
                    None => Seq::empty(),
                },
            }),
            roster_view(final(players)@) == roster_view(old(players)@).push(bot_player(id)),
            final(game)@ == enqueue(old(game)@, CommandView::join(id)),
            final(game).wf() == old(game).wf(),
    {
        let player = Player::new_bot(id);
        game.join_player_forced(&player);
        players.push(player);
        assert(roster_view(players@) =~= roster_view(old(players)@).push(bot_player(id)));
        Self {
            player: id,
            game: game.id,
            bot_type: match bot_type {
                Some(text) => text,
                None => String::new(),
            },
        }
    }
}

/// `serde_json::Error`: why a text could not be read as JSON.
#[verifier::external_type_specification]
#[verifier::external_body]
pub struct ExJsonError(serde_json::Error);

/// The number that a text stands for as JSON, as `serde_json::from_str`
/// reads it into an `i32`; `None` where it reads none.
pub uninterp spec fn json_i32(text: Seq<char>) -> Option<i32>;

/// Reads `content` as the JSON of an `i32` with `serde_json::from_str`. Not
/// proved: that what is read depends on the text alone, which is what gives
/// the result its name.
#[verifier::external_body]
fn read_turn(content: &str) -> (turn: Result<i32, serde_json::Error>)
    ensures
        match turn {
            Ok(id) => json_i32(content@) == Some(id),
            Err(_) => json_i32(content@) is None,
        },
{
    serde_json::from_str::<i32>(content)
}

/// The algorithm that plays for a bot.
pub enum BotStrategy<F> {
    MinMax(MinMaxBot),
    Mcts(MCTSBot<F>),
    Random(RandomBot),
}

impl<F: Fn(i64, u32, u32) -> i64> BotLogic for BotStrategy<F> {
    open spec fn can_play(&self, game: &Game) -> bool {
        match self {
            BotStrategy::MinMax(bot) => bot.can_play(game),
            BotStrategy::Mcts(bot) => bot.can_play(game),
            BotStrategy::Random(bot) => bot.can_play(game),
        }
    }

    open spec fn name(&self) -> Seq<char> {
        match self {
            BotStrategy::MinMax(bot) => bot.name(),
            BotStrategy::Mcts(bot) => bot.name(),
            BotStrategy::Random(bot) => bot.name(),
        }
    }

    fn generate_move(&self, id: i32, game: &Game) -> (pos: Size) {
        match self {
            BotStrategy::MinMax(bot) => bot.generate_move(id, game),
            BotStrategy::Mcts(bot) => bot.generate_move(id, game),
            BotStrategy::Random(bot) => bot.generate_move(id, game),
        }
    }

    fn get_name(&self) -> (name: String) {
        match self {
            BotStrategy::MinMax(bot) => bot.get_name(),
            BotStrategy::Mcts(bot) => bot.get_name(),
            BotStrategy::Random(bot) => bot.get_name(),
        }
    }
}

/// `pos` is what every algorithm owes for a move in the game `g`: a legal
/// move where there is one, and (0, 0) where there is none.
pub open spec fn chosen_as_agreed(g: GameView, pos: Size) -> bool {
    &&& empty_cells(g.log, g.size).len() > 0 ==> is_legal(g.log, g.size, pos)
    &&& empty_cells(g.log, g.size).len() == 0 ==> pos == (Size { x: 0, y: 0 })
}

/// What a bot did about a turn.
#[derive(Clone, Copy, Debug, PartialEq, Eq, Structural)]
pub enum TurnOutcome {
    /// The turn was not the bot's, or the game does not run.
    Ignored,
    /// The bot asked for the move to `pos`, and the game accepted it or not.
    Moved { pos: Size, accepted: bool },
}

impl Bot {
    /// The algorithm that `s` names: `"minimax"` the depth-bounded search,
    /// `"mcts"` the search that plays games out, with `rate` as its rating,
    /// and any other name the choice by chance.
    pub fn get_bot_logic<F: Fn(i64, u32, u32) -> i64>(s: &str, rate: F) -> (logic: BotStrategy<F>)
        ensures
            s@ == "minimax"@ ==> logic is MinMax,
            s@ == "mcts"@ ==> (logic matches BotStrategy::Mcts(bot) && bot.rate == rate),
            s@ != "minimax"@ && s@ != "mcts"@ ==> logic is Random,
    {
        proof {
            reveal_strlit("minimax");
            reveal_strlit("mcts");
            assert("minimax"@.len() == 7 && "mcts"@.len() == 4);
        }
        let name = s.to_owned();
        if name == "minimax".to_owned() {
            BotStrategy::MinMax(MinMaxBot::new())
        } else if name == "mcts".to_owned() {
            BotStrategy::Mcts(MCTSBot::new(rate))
        } else {
            BotStrategy::Random(RandomBot::new())
        }
    }

    /// Lets `bot_logic` choose a move and asks the game for it. Returns the
    /// move, which is a legal one where there is one and (0, 0) where there
    /// is none, and whether the game accepted it.
    pub fn try_make_move<L: BotLogic>(&self, bot_logic: &L, game: &mut Game) -> (tried: (Size, bool))
        requires
            bot_logic.can_play(old(game)),
        ensures
            chosen_as_agreed(old(game)@, tried.0),
            tried.1 == can_move(old(game)@, self.player, tried.0),
            final(game)@ == if tried.1 {
                enqueue(old(game)@, CommandView::play(self.player, tried.0))
            } else {
                old(game)@
            },
            final(game).wf() == old(game).wf(),
    {
        let m = bot_logic.generate_move(self.player, game);
        let accepted = game.add_move_of(self.player, m);
        (m, accepted)
    }

    /// Acts on the news that it is the turn of `turn`, or that the news
    /// could not be read: the bot tries a move where the game runs and the
    /// turn is its own, and does nothing otherwise.
    pub fn act_on_turn<L: BotLogic>(&self, turn: Option<i32>, bot_logic: &L, game: &mut Game) -> (outcome:
        TurnOutcome)
        requires
            old(game).running && turn == Some(self.player) ==> bot_logic.can_play(old(game)),
        ensures
            final(game).wf() == old(game).wf(),
            old(game).running && turn == Some(self.player) <==> outcome is Moved,
            match outcome {
                TurnOutcome::Ignored => final(game)@ == old(game)@,
                TurnOutcome::Moved { pos, accepted } => chosen_as_agreed(old(game)@, pos)
                    && accepted == can_move(old(game)@, self.player, pos) && final(game)@
                    == if accepted {
                    enqueue(old(game)@, CommandView::play(self.player, pos))
                } else {
                    old(game)@
                },
            },
    {
        if !game.is_running() {
            return TurnOutcome::Ignored;
        }
        match turn {
            Some(id) => {
                if id != self.player {
                    return TurnOutcome::Ignored;
                }
            },
            None => {
                return TurnOutcome::Ignored;
            },
        }
        let tried = self.try_make_move(bot_logic, game);
        TurnOutcome::Moved { pos: tried.0, accepted: tried.1 }
    }

    /// Acts on a turn event whose content is `content`, the JSON of the
    /// identifier of the player whose turn it is: see `act_on_turn`.
    pub fn process_turn<L: BotLogic>(&self, content: &str, bot_logic: &L, game: &mut Game) -> (outcome:
        TurnOutcome)
        requires
            old(game).running ==> bot_logic.can_play(old(game)),
        ensures
            final(game).wf() == old(game).wf(),
            old(game).running && json_i32(content@) == Some(self.player) <==> outcome is Moved,
            match outcome {
                TurnOutcome::Ignored => final(game)@ == old(game)@,
                TurnOutcome::Moved { pos, accepted } => chosen_as_agreed(old(game)@, pos)
                    && accepted == can_move(old(game)@, self.player, pos) && final(game)@
                    == if accepted {
                    enqueue(old(game)@, CommandView::play(self.player, pos))
                } else {
                    old(game)@
                },
            },
    {
        let turn = match read_turn(content) {
            Ok(id) => Some(id),
            Err(_) => None,
        };
        self.act_on_turn(turn, bot_logic, game)
    }
}

/// A `Bot` with its text as a sequence of characters.
pub struct BotView {
    pub player: i32,
    pub game: u32,
    pub bot_type: Seq<char>,
}

impl View for Bot {
    type V = BotView;

    open spec fn view(&self) -> BotView {
        BotView { player: self.player, game: self.game, bot_type: self.bot_type@ }
    }
}

} // verus!
