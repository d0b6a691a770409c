//! Core engine of a turn-based word-placement game.
//!
//! The library holds the board placement and scoring rules, the trie-backed
//! dictionary with its bidirectional (GADDAG) expansion, and the data model
//! for tiles, moves, racks and the tile bag.  Every operation carries a
//! contract stating exactly what it computes; the rendering and input glue
//! around the engine lives outside the library.

pub mod bonuses;
pub mod tile;
pub mod spot;
pub mod smove;
pub mod board;
pub mod gaddag;
pub mod dico;
pub mod config;
pub mod tilebag;
pub mod hand;
pub mod turn;
pub mod player;
