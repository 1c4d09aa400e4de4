//! Rules engine for a tile-and-stock board game: a 12 by 9 board on which
//! placed tiles grow, found and merge hotel companies, a stock ledger for
//! seven fixed companies, and a per-turn phase state machine that walks each
//! turn from tile placement through merge resolution to stock purchase.

pub mod company;
pub mod text;
pub mod tile;
pub mod messages;
pub mod board;
pub mod kernel;
pub mod client;
