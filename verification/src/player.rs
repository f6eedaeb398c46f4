//! The players that a server knows.

use vstd::prelude::*;
use crate::common::find_index;
use crate::game::{can_join, enqueue, Game};
use crate::net::{
    effect_views, CommandView, Effect, EffectView, GameEventView, GameEvent, GameJoinData, Status,
};

verus! {

/// A connected player, human or bot, as the roster holds it.
#[derive(Clone, Debug)]
pub struct Player {
    pub id: i32,
    /// The game that the player is in, if any.
    pub joined_game_id: Option<u32>,
    pub ready: bool,
    pub name: String,
    pub is_bot: bool,
    /// The player's picture, once it has been asked for.
    pub image: Option<String>,
}

/// Two players are the same player where they have the same identifier.
impl PartialEq for Player {
    fn eq(&self, other: &Self) -> (same: bool) {
        self.id == other.id
    }
}

impl vstd::std_specs::cmp::PartialEqSpecImpl for Player {
    open spec fn obeys_eq_spec() -> bool {
        true
    }

    open spec fn eq_spec(&self, other: &Self) -> bool {
        self.id == other.id
    }
}

/// A `Player` with its texts as sequences of characters.
pub struct PlayerView {
    pub id: i32,
    pub joined_game_id: Option<u32>,
    pub ready: bool,
    pub name: Seq<char>,
    pub is_bot: bool,
    pub image: Option<Seq<char>>,
}

impl View for Player {
    type V = PlayerView;

    open spec fn view(&self) -> PlayerView {
        PlayerView {
            id: self.id,
            joined_game_id: self.joined_game_id,
            ready: self.ready,
            name: self.name@,
            is_bot: self.is_bot,
            image: match self.image {
                Some(text) => Some(text@),
                None => None,
            },
        }
    }
}

/// The views of the players of a roster, in their order.
pub open spec fn roster_view(players: Seq<Player>) -> Seq<PlayerView> {
    players.map_values(|p: Player| p@)
}

/// The identifiers of the players of a roster, in their order.
pub open spec fn roster_ids(roster: Seq<PlayerView>) -> Seq<i32> {
    roster.map_values(|p: PlayerView| p.id)
}

/// Where the roster holds the player `id`: the index of the first player
/// with that identifier.
pub open spec fn roster_index(roster: Seq<PlayerView>, id: i32) -> Option<int> {
    roster_ids(roster).index_of_first(id)
}

/// The roster with the player `id`, where it holds one, in the game `game`
/// or in none.
pub open spec fn with_membership(roster: Seq<PlayerView>, id: i32, game: Option<u32>) -> Seq<
    PlayerView,
> {
    match roster_index(roster, id) {
        Some(i) => roster.update(i, PlayerView { joined_game_id: game, ..roster[i] }),
        None => roster,
    }
}

/// The player that stands for the bot `id` in the roster.
pub open spec fn bot_player(id: i32) -> PlayerView {
    PlayerView {
        id,
        joined_game_id: None,
        ready: true,
        name: "Unnamed"@,
        is_bot: true,
        image: None,
    }
}

/// The index in `players` of the first player with the identifier `id`.
pub fn find_player(players: &Vec<Player>, id: i32) -> (index: Option<usize>)
    ensures
        match index {
            Some(i) => roster_index(roster_view(players@), id) == Some(i as int) && i
                < players@.len() && players@[i as int].id == id,
            None => roster_index(roster_view(players@), id) is None,
        },
{
    let has_id = |p: &Player| -> (b: bool)
        ensures
            b == (p.id == id),
        { p.id == id };
    let index = find_index(players, has_id);
    proof {
        let ids = roster_ids(roster_view(players@));
        ids.index_of_first_ensures(id);
        match index {
            Some(i) => {
                assert(ids[i as int] == id);
                assert forall|j: int| 0 <= j < i implies ids[j] != id by {
                    assert(call_ensures(has_id, (&players@[j],), false));
                }
            },
            None => {
                assert forall|j: int| 0 <= j < ids.len() implies ids[j] != id by {
                    assert(call_ensures(has_id, (&players@[j],), false));
                }
            },
        }
    }
    index
}

/// Records that the player `id`, where the roster holds one, is in the game
/// `game` or in none.
pub fn set_membership(players: &mut Vec<Player>, id: i32, game: Option<u32>)
    ensures
        roster_view(final(players)@) == with_membership(roster_view(old(players)@), id, game),
{
    match find_player(players, id) {
        Some(i) => {
            players[i].joined_game_id = game;
            assert(roster_view(players@) =~= with_membership(roster_view(old(players)@), id, game));
        },
        None => {},
    }
}

impl Player {
    /// A human player who is in no game and not ready.
    pub fn new(id: i32) -> (player: Self)
        ensures
            player.id == id,
            player.joined_game_id is None,
            !player.ready,
            player.name@ == "Unnamed"@,
            !player.is_bot,
            player.image is None,
    {
        Self {
            id,
            joined_game_id: None,
            ready: false,
            name: "Unnamed".to_owned(),
            is_bot: false,
            image: None,
        }
    }

    /// A bot: a player that is always ready.
    pub fn new_bot(id: i32) -> (player: Self)
        ensures
            player@ == bot_player(id),
    {
        Self {
            id,
            joined_game_id: None,
            ready: true,
            name: "Unnamed".to_owned(),
            is_bot: true,
            image: None,
        }
    }
}

/// A colour with its opacity, one byte for each channel.
#[derive(Clone, Copy, Debug, PartialEq, Eq, Structural)]
pub struct Color {
    pub r: u8,
    pub g: u8,
    pub b: u8,
    pub a: u8,
}

/// How the two colours of a picture alternate.
#[derive(Clone, Copy, Debug, PartialEq, Eq, Structural)]
pub enum Stripes {
    /// Every other row has the first colour.
    Rows,
    /// Every other column has the first colour.
    Columns,
    /// Every other pixel of every other row has the first colour.
    Dots,
}

/// The picture of a player: two colours and how they alternate.
#[derive(Clone, Copy, Debug, PartialEq, Eq, Structural)]
pub struct Pattern {
    pub primary: Color,
    pub secondary: Color,
    pub stripes: Stripes,
}

/// The width and the height of a player's picture, in pixels.
pub const IMAGE_SIDE: u32 = 16;

/// The remainder of `a` divided by `b` that has the sign of `a`.
pub open spec fn signed_rem(a: int, b: int) -> int {
    if a >= 0 {
        a % b
    } else {
        -((-a) % b)
    }
}

/// The picture that belongs to the identifier `id`.
pub open spec fn pattern_of(id: i32) -> Pattern {
    let r4 = signed_rem(id as int, 4);
    let r3 = signed_rem(id as int, 3);
    Pattern {
        primary: Color {
            r: if r4 == 3 {
                128
            } else {
                0
            },
            g: if r4 == 2 {
                128
            } else {
                0
            },
            b: if r4 == 1 {
                128
            } else {
                0
            },
            a: 255,
        },
        secondary: Color {
            r: if r3 == 0 {
                255
            } else {
                0
            },
            g: if r3 == 1 {
                255
            } else {
                0
            },
            b: if r3 == 2 {
                255
            } else {
                0
            },
            a: 255,
        },
        stripes: if r3 == 2 {
            Stripes::Rows
        } else if r3 == 1 {
            Stripes::Columns
        } else {
            Stripes::Dots
        },
    }
}

impl Pattern {
    /// The colour of the pixel in column `x` and row `y`.
    pub open spec fn color_of(self, x: int, y: int) -> Color {
        let first = match self.stripes {
            Stripes::Rows => y % 2 == 0,
            Stripes::Columns => x % 2 == 0,
            Stripes::Dots => x % 2 == 0 && y % 2 == 0,
        };
        if first {
            self.primary
        } else {
            self.secondary
        }
    }

    /// The byte at `k` of the picture's pixels, which stand row by row with
    /// four bytes each: red, green, blue, opacity.
    pub open spec fn byte_of(self, k: int) -> u8 {
        let color = self.color_of((k / 4) % (IMAGE_SIDE as int), (k / 4) / (IMAGE_SIDE as int));
        if k % 4 == 0 {
            color.r
        } else if k % 4 == 1 {
            color.g
        } else if k % 4 == 2 {
            color.b
        } else {
            color.a
        }
    }

    /// The pixels of the picture as bytes.
    pub open spec fn bytes(self) -> Seq<u8> {
        Seq::new((IMAGE_SIDE * IMAGE_SIDE * 4) as nat, |k: int| self.byte_of(k))
    }

    /// The colour of the pixel in column `x` and row `y`.
    pub fn color_at(&self, x: u32, y: u32) -> (color: Color)
        ensures
            color == self.color_of(x as int, y as int),
    {
        let first = match self.stripes {
            Stripes::Rows => y % 2 == 0,
            Stripes::Columns => x % 2 == 0,
            Stripes::Dots => x % 2 == 0 && y % 2 == 0,
        };
        if first {
            self.primary
        } else {
            self.secondary
        }
    }

    /// The pixels of the picture as bytes, row by row.
    pub fn render(&self) -> (pixels: Vec<u8>)
        ensures
            pixels@ == self.bytes(),
    {
        let mut pixels: Vec<u8> = Vec::new();
        let mut y: u32 = 0;
        while y < IMAGE_SIDE
            invariant
                y <= IMAGE_SIDE,
                pixels@.len() == y * IMAGE_SIDE * 4,
                forall|k: int| 0 <= k < pixels@.len() ==> pixels@[k] == self.byte_of(k),
            decreases IMAGE_SIDE - y,
        {
            let mut x: u32 = 0;
            while x < IMAGE_SIDE
                invariant
                    y < IMAGE_SIDE,
                    x <= IMAGE_SIDE,
                    pixels@.len() == (y * IMAGE_SIDE + x) * 4,
                    forall|k: int| 0 <= k < pixels@.len() ==> pixels@[k] == self.byte_of(k),
                decreases IMAGE_SIDE - x,
            {
                let color = self.color_at(x, y);
                pixels.push(color.r);
                pixels.push(color.g);
                pixels.push(color.b);
                pixels.push(color.a);
                x += 1;
            }
            y += 1;
        }
        assert(pixels@ =~= self.bytes());
        pixels
    }
}

/// `image::ImageError`: why a picture could not be encoded.
#[verifier::external_type_specification]
#[verifier::external_body]
pub struct ExImageError(image::ImageError);

/// The PNG file that `image`'s encoder writes for the pixels `pixels`, four
/// bytes each, of a picture `width` wide and `height` high; `None` where it
/// refuses them.
pub uninterp spec fn png_rgba8(pixels: Seq<u8>, width: u32, height: u32) -> Option<Seq<u8>>;

/// The text that the standard base64 alphabet, with padding, gives for
/// `bytes`, as `base64` writes it.
pub uninterp spec fn base64_standard(bytes: Seq<u8>) -> Seq<char>;

/// Encodes `pixels` as a PNG file with `write_image` of
/// `image::codecs::png::PngEncoder`, for the colour type `Rgba8`. Not proved:
/// that the file depends on the pixels and the extent alone, which is what
/// gives it its name. The encoder panics on a buffer of another length than
/// four bytes for each pixel.
#[verifier::external_body]
fn encode_png(pixels: &Vec<u8>, width: u32, height: u32) -> (png: Result<Vec<u8>, image::ImageError>)
    requires
        pixels@.len() == width * height * 4,
    ensures
        match png {
            Ok(bytes) => png_rgba8(pixels@, width, height) == Some(bytes@),
            Err(_) => png_rgba8(pixels@, width, height) is None,
        },
{
    let mut buffer: Vec<u8> = Vec::new();
    let encoder = image::codecs::png::PngEncoder::new(&mut buffer);
    match image::ImageEncoder::write_image(encoder, pixels, width, height, image::ColorType::Rgba8) {
        Ok(()) => Ok(buffer),
        Err(e) => Err(e),
    }
}

/// Encodes `bytes` with `encode` of `base64::Engine`, on the engine
/// `BASE64_STANDARD`. Not proved: that the text is the base64 of the bytes.
/// The engine panics where the text's length does not fit in a `usize`.
#[verifier::external_body]
fn encode_base64(bytes: &Vec<u8>) -> (text: String)
    requires
        bytes@.len() < (usize::MAX / 4) * 3,
    ensures
        text@ == base64_standard(bytes@),
{
    base64::Engine::encode(&base64::prelude::BASE64_STANDARD, bytes)
}

/// Why a player has no picture.
#[derive(Clone, Copy, Debug, PartialEq, Eq, Structural)]
pub enum PictureError {
    /// The encoder refused the pixels.
    Encoding,
    /// The file is too long to be written as text.
    TooLong,
}

/// The picture of the player `id` as text: the base64 of its PNG file.
pub open spec fn picture_of(id: i32) -> Result<Seq<char>, PictureError> {
    match png_rgba8(pattern_of(id).bytes(), IMAGE_SIDE, IMAGE_SIDE) {
        None => Err(PictureError::Encoding),
        Some(file) => if file.len() < (usize::MAX / 4) * 3 {
            Ok(base64_standard(file))
        } else {
            Err(PictureError::TooLong)
        },
    }
}

/// The index of the first game with the identifier `id`.
pub open spec fn game_index(games: Seq<Game>, id: u32) -> Option<int> {
    games.map_values(|g: Game| g.id).index_of_first(id)
}

/// The index in `games` of the first game with the identifier `id`.
pub fn find_game(games: &Vec<Game>, id: u32) -> (index: Option<usize>)
    ensures
        match index {
            Some(i) => game_index(games@, id) == Some(i as int) && i < games@.len(),
            None => game_index(games@, id) is None,
        },
{
    let has_id = |g: &Game| -> (b: bool)
        ensures
            b == (g.id == id),
        { g.id == id };
    let index = find_index(games, has_id);
    proof {
        let ids = games@.map_values(|g: Game| g.id);
        ids.index_of_first_ensures(id);
        match index {
            Some(i) => {
                assert(ids[i as int] == id);
                assert forall|j: int| 0 <= j < i implies ids[j] != id by {
                    assert(call_ensures(has_id, (&games@[j],), false));
                }
            },
            None => {
                assert forall|j: int| 0 <= j < ids.len() implies ids[j] != id by {
                    assert(call_ensures(has_id, (&games@[j],), false));
                }
            },
        }
    }
    index
}

impl Player {
    /// The picture that belongs to the player.
    pub fn get_pattern_fn(&self) -> (pattern: Pattern)
        ensures
            pattern == pattern_of(self.id),
    {
        let magnitude: u32 = if self.id >= 0 {
            self.id as u32
        } else {
            (-(self.id as i64)) as u32
        };
        let positive = self.id >= 0;
        let m4 = magnitude % 4;
        let m3 = magnitude % 3;
        Pattern {
            primary: Color {
                r: if positive && m4 == 3 {
                    128
                } else {
                    0
                },
                g: if positive && m4 == 2 {
                    128
                } else {
                    0
                },
                b: if positive && m4 == 1 {
                    128
                } else {
                    0
                },
                a: 255,
            },
            secondary: Color {
                r: if m3 == 0 {
                    255
                } else {
                    0
                },
                g: if positive && m3 == 1 {
                    255
                } else {
                    0
                },
                b: if positive && m3 == 2 {
                    255
                } else {
                    0
                },
                a: 255,
            },
            stripes: if positive && m3 == 2 {
                Stripes::Rows
            } else if positive && m3 == 1 {
                Stripes::Columns
            } else {
                Stripes::Dots
            },
        }
    }

    /// Draws the player's picture and encodes it: see `picture_of`.
    pub fn generate_image(&self) -> (picture: Result<String, PictureError>)
        ensures
            match picture {
                Ok(text) => picture_of(self.id) == Ok::<Seq<char>, PictureError>(text@),
                Err(e) => picture_of(self.id) == Err::<Seq<char>, PictureError>(e),
            },
    {
        let pixels = self.get_pattern_fn().render();
        let file = match encode_png(&pixels, IMAGE_SIDE, IMAGE_SIDE) {
            Ok(bytes) => bytes,
            Err(_) => {
                return Err(PictureError::Encoding);
            },
        };
        if file.len() >= (usize::MAX / 4) * 3 {
            return Err(PictureError::TooLong);
        }
        Ok(encode_base64(&file))
    }

    /// The player's picture as text. It is drawn when it is first asked for
    /// and kept from then on.
    pub fn get_image(&mut self) -> (picture: Result<String, PictureError>)
        ensures
            match old(self).image {
                Some(kept) => picture == Ok::<String, PictureError>(kept) && *final(self) == *old(
                    self,
                ),
                None => match picture {
                    Ok(text) => picture_of(old(self).id) == Ok::<Seq<char>, PictureError>(text@)
                        && final(self)@ == (PlayerView { image: Some(text@), ..old(self)@ }),
                    Err(e) => picture_of(old(self).id) == Err::<Seq<char>, PictureError>(e)
                        && *final(self) == *old(self),
                },
            },
    {
        match &self.image {
            Some(kept) => {
                return Ok(kept.clone());
            },
            None => {},
        }
        match self.generate_image() {
            Ok(text) => {
                self.image = Some(text.clone());
                Ok(text)
            },
            Err(e) => Err(e),
        }
    }

    /// Asks to let `player` into the game that `join_data` names. Returns
    /// the answer for the player and what the host is to do: where the game
    /// accepts, the roster is published and the player is told the game.
    /// The answer is an error where the request could not be read, where
    /// there is no such game, and where the game refuses the player.
    pub fn join_game(player: &Player, join_data: &Result<GameJoinData, String>, games: &mut Vec<
        Game,
    >) -> (reply: (Status, Vec<Effect>))
        ensures
            final(games)@.len() == old(games)@.len(),
            match join_data {
                Err(why) => reply.0.status@ == "error"@ && reply.0.details@ == why@
                    && final(games)@ == old(games)@ && reply.1@.len() == 0,
                Ok(data) => match game_index(old(games)@, data.id) {
                    None => reply.0.status@ == "error"@ && reply.0.details@
                        == "Game does not exist."@ && final(games)@ == old(games)@
                        && reply.1@.len() == 0,
                    Some(i) => {
                        let accepted = can_join(old(games)@[i]@, player.id);
                        &&& forall|j: int|
                            0 <= j < old(games)@.len() && j != i ==> final(games)@[j] == old(
                                games,
                            )@[j]
                        &&& final(games)@[i].wf() == old(games)@[i].wf()
                        &&& final(games)@[i]@ == if accepted {
                            enqueue(old(games)@[i]@, CommandView::join(player.id))
                        } else {
                            old(games)@[i]@
                        }
                        &&& reply.0.status@ == if accepted {
                            "ok"@
                        } else {
                            "error"@
                        }
                        &&& reply.0.details@ == if accepted {
                            ""@
                        } else {
                            "Can't join game."@
                        }
                        &&& effect_views(reply.1@) == if accepted {
                            seq![
                                EffectView::BroadcastPlayers,
                                EffectView::Send {
                                    to: player.id,
                                    event: GameEventView::JoinedGame(data.id),
                                },
                            ]
                        } else {
                            Seq::empty()
                        }
                    },
                },
            },
    {
        let mut effects: Vec<Effect> = Vec::new();
        let data = match join_data {
            Ok(data) => data,
            Err(why) => {
                return (Status::new("error", why.as_str()), effects);
            },
        };
        let index = match find_game(games, data.id) {
            Some(i) => i,
            None => {
                return (Status::new("error", "Game does not exist."), effects);
            },
        };
        if !games[index].join_player(player) {
            assert(effect_views(effects@) =~= Seq::<EffectView>::empty());
            return (Status::new("error", "Can't join game."), effects);
        }
        effects.push(Effect::BroadcastPlayers);
        effects.push(Effect::Send { to: player.id, event: GameEvent::JoinedGame(data.id) });
        assert(effect_views(effects@) =~= seq![
            EffectView::BroadcastPlayers,
            EffectView::Send { to: player.id, event: GameEventView::JoinedGame(data.id) },
        ]);
        (Status::new("ok", ""), effects)
    }
}

} // verus!
