use vstd::prelude::*;
use crate::card_object::MtgObject;

verus! {

/// A player: life, storm count, floating mana and the zones of their own.
pub struct Player {
    /// Unique within a game.
    pub id: usize,
    pub life: i32,
    pub storm_count: i32,
    // floating mana
    pub generic_mana: i32,
    pub white_mana: i32,
    pub blue_mana: i32,
    pub black_mana: i32,
    pub red_mana: i32,
    pub green_mana: i32,
    // zones unique to a player
    pub library: Vec<MtgObject>,
    pub graveyard: Vec<MtgObject>,
    pub command: Vec<MtgObject>,
}

} // verus!
