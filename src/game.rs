use vstd::prelude::*;
use crate::card_object::MtgObject;
use crate::player::Player;

verus! {

/// The shared state of a game: its players and the zones they share.
pub struct Game {
    pub players: Vec<Player>,
    pub stack: Vec<MtgObject>,
    pub battlefield: Vec<MtgObject>,
    pub exile: Vec<MtgObject>,
}

} // verus!
