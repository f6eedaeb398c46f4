//! A connect-N board game played on a rectangular grid by human and
//! algorithmic players, where a completed line blocks its cells instead of
//! ending the match.
//!
//! - [`grid`]: the board, an append-only log of moves, and the detection of
//!   lines.
//! - [`game`]: one match as a state machine that processes queued commands
//!   one at a time and says what its host is to send to whom.
//! - [`bot`]: the algorithms that choose moves, and the bot that plays by
//!   one of them.
//! - [`player`], [`net`], [`player_move`], [`common`]: the players of a
//!   server, the values that travel between its parts, moves, and
//!   coordinates.
//!
//! Every function is verified against its contract. What is taken on trust
//! is marked: the calls into `rand`, `serde_json`, `image` and `base64`.

pub mod bot;
pub mod common;
pub mod game;
pub mod grid;
pub mod net;
pub mod player;
pub mod player_move;
