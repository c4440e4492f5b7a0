//! Typed, data-driven definitions for Alliance-token effects and triggers.

use vstd::prelude::*;

use crate::card_schema::{CardColor, Race};

verus! {

#[derive(Debug, Clone, PartialEq, Eq)]
pub struct AllianceTokenDefinition {
    pub race: Race,
    pub id: u8,
    pub name: String,
    pub immediate: Vec<AllianceEffect>,
    pub persistent: Vec<PersistentEffect>,
}

#[derive(Debug, Clone, Copy, PartialEq, Eq, Structural)]
pub enum AllianceEffect {
    GainCoins { amount: u8 },
    AdvanceQuest { spaces: u8 },
    PlaceUnitsAnywhere { amount: u8 },
    MoveUnits { amount: u8 },
    RemoveEnemyUnits { amount: u8 },
    OpponentLosesCoins { amount: u8 },
    TakeExtraTurn,
    RemoveEnemyFortress,
    PlayDiscardedCardForFree,
    ChooseManeuvers { times: u8 },
}

#[derive(Debug, Clone, Copy, PartialEq, Eq, Structural)]
pub enum PersistentEffect {
    OnCardPlayed { color: CardColor, effect: AllianceEffect },
    OnChainedCardPlayed { effect: AllianceEffect },
    OnLandmarkTaken { effect: AllianceEffect },
    DiscardIncomeMultiplier { multiplier: u8 },
    WaiveLandmarkFortressCost,
    AnySkillOncePerTurn,
    RedDeploymentAnywhere,
    AdditionalRedUnits { amount: u8 },
    EagleRaceSymbol,
}

} // verus!
