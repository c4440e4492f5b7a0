//! Deterministic, text-first rules primitives for *The Lord of the Rings:
//! Duel for Middle-earth*.

pub mod alliance_schema;
pub mod card_schema;
pub mod catalog;
pub mod game;
pub mod helpers;
pub mod landmark_schema;
pub mod random_play;
pub mod server;
pub mod text;
pub mod types;

pub use game::Game;
pub use types::{
    Action, AllianceStack, AllianceToken, AllianceTrigger, CardSlot, CardVisibility, ChapterCard,
    ChapterState, EntManeuver, Faction, GameError, LandmarkState, PendingDecision, PlayerState,
    QuestBonus, QuestBonusEffect, QuestCharacter, QuestTrack, Race, Region, RegionState,
    VictoryType, CARDS_IN_LAYOUT, CARDS_PER_CHAPTER, RACES, REGIONS, TOTAL_COINS,
};
