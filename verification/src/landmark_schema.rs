//! Typed, language-independent data for Landmark tiles.

use vstd::prelude::*;

use crate::card_schema::{Region, Skill};

verus! {

#[derive(Debug, Clone, PartialEq, Eq)]
pub struct LandmarkDefinition {
    pub id: String,
    pub name: String,
    pub cost: LandmarkCost,
    pub region: Region,
    pub effects: Vec<LandmarkEffect>,
}

/// A Landmark's price: Skills as `(Skill, amount)` pairs, plus a coin for each
/// Fortress that the buyer already has on the board.
#[derive(Debug, Clone, PartialEq, Eq)]
pub struct LandmarkCost {
    pub coins_per_existing_fortress: u8,
    pub skills: Vec<(Skill, u8)>,
}

#[derive(Debug, Clone, PartialEq, Eq)]
pub enum LandmarkEffect {
    PlaceFortress { location: Region },
    PlaceUnits { amount: u8, regions: Vec<Region>, choose: u8 },
    GainCoins { amount: u8 },
    MoveUnits { amount: u8 },
    AdvanceQuest { spaces: u8 },
    TwoOfAnyOneRaceTokens,
    DiscardOneGreyCardFromOpponent,
    PlayOneCardFromDiscardForFree,
}

} // verus!
