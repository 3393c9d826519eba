//! Mana costs of a trading-card game: the symbol catalog, a parser for the
//! bracketed cost notation, a canonical cost value, its mana value and its
//! printed form.

pub mod mana;
pub mod digits;
pub mod token;
pub mod mana_cost;
pub mod roundtrip;
pub mod mana_symbol;
pub mod number;
pub mod card_object;
pub mod game;
pub mod player;
pub mod concat;
