//! The printed components (Chapter cards, Landmark tiles and Alliance
//! tokens), physical chapter-deck construction and layout geometry.

use vstd::prelude::*;
use vstd::multiset::Multiset;

use crate::alliance_schema::{AllianceEffect, AllianceTokenDefinition, PersistentEffect};
use crate::card_schema::{CardColor, CardDefinition, Cost, Effect, Provides, Race, Region, Skill};
use crate::landmark_schema::{LandmarkCost, LandmarkDefinition, LandmarkEffect};
use crate::text::{push_str, string_of};
use crate::types::{
    race_index, slot_cards, AllianceToken, CardSlot, CardVisibility, ChapterCard, ChapterState,
};

verus! {

broadcast use vstd::seq_lib::group_seq_properties;

/// Every printed component the engine reads: 69 Chapter cards (chapter by
/// chapter, in number order), 7 Landmark tiles and 18 Alliance tokens (Race by
/// Race in `RACES` order, then by token number).
#[derive(Debug, Clone, PartialEq, Eq)]
pub struct Catalogue {
    pub cards: Vec<CardDefinition>,
    pub landmarks: Vec<LandmarkDefinition>,
    pub tokens: Vec<AllianceTokenDefinition>,
}

/// A physical Chapter card that the catalogue describes.
pub open spec fn valid_card(card: ChapterCard) -> bool {
    1 <= card.chapter <= 3 && 1 <= card.number <= 23
}

/// The catalogue position of a card's definition.
pub open spec fn card_index(card: ChapterCard) -> int {
    (card.chapter - 1) * 23 + (card.number - 1)
}

/// The catalogue position of an Alliance token's definition.
pub open spec fn token_index(token: AllianceToken) -> int {
    race_index(token.race) * 3 + (token.id - 1)
}

pub open spec fn valid_token(token: AllianceToken) -> bool {
    1 <= token.id <= 3
}

impl Catalogue {
    pub open spec fn wf(&self) -> bool {
        &&& self.cards@.len() == 69
        &&& self.landmarks@.len() == 7
        &&& self.tokens@.len() == 18
    }

    /// The full set of printed components.
    pub fn new() -> (c: Catalogue)
        ensures
            c.wf(),
            c.landmarks@.map_values(|l: LandmarkDefinition| l.id@) == printed_landmark_names(),
            forall|k: int| 0 <= k < c.cards@.len() ==> skill_lists_in_order(#[trigger] c.cards@[k]),
            forall|k: int| 0 <= k < c.landmarks@.len() ==> crate::card_schema::skills_in_order(
                #[trigger] c.landmarks@[k].cost.skills@,
            ),
    {
        let mut cards = chapter1_cards();
        let mut two = chapter2_cards();
        let mut three = chapter3_cards();
        let ghost (c1, c2, c3) = (cards@, two@, three@);
        cards.append(&mut two);
        cards.append(&mut three);
        proof {
            assert(cards@ =~= c1 + c2 + c3);
            assert forall|k: int| 0 <= k < cards@.len() implies skill_lists_in_order(#[trigger] cards@[k]) by {
                if k < 23 {
                    assert(cards@[k] == c1[k]);
                } else if k < 46 {
                    assert(cards@[k] == c2[k - 23]);
                } else {
                    assert(cards@[k] == c3[k - 46]);
                }
            }
        }
        Catalogue { cards, landmarks: landmark_tiles(), tokens: alliance_tokens() }
    }

    /// The printed face of a physical Chapter card.
    pub fn card_definition(&self, card: ChapterCard) -> (r: &CardDefinition)
        requires
            self.wf(),
            valid_card(card),
        ensures
            *r == self.cards@[card_index(card)],
    {
        let index = (card.chapter as usize - 1) * 23 + (card.number as usize - 1);
        &self.cards[index]
    }

    /// The printed face of an Alliance token.
    pub fn alliance_token_definition(&self, token: AllianceToken) -> (r: &AllianceTokenDefinition)
        requires
            self.wf(),
            valid_token(token),
        ensures
            *r == self.tokens@[token_index(token)],
    {
        let index = token.race.index() * 3 + (token.id as usize - 1);
        &self.tokens[index]
    }

    /// The position of the first Landmark with this ID, if the catalogue has one.
    pub fn landmark_index(&self, id: &str) -> (r: Option<usize>)
        ensures
            r matches Some(i) ==> i == landmark_position(self.landmarks@, id@),
            r is None ==> landmark_position(self.landmarks@, id@) < 0,
    {
        let mut i: usize = 0;
        while i < self.landmarks.len()
            invariant
                i <= self.landmarks@.len(),
                forall|k: int| 0 <= k < i ==> (#[trigger] self.landmarks@[k]).id@ != id@,
            decreases self.landmarks.len() - i,
        {
            let candidate = self.landmarks[i].id.as_str();
            if crate::text::same_text(candidate, id) {
                proof {
                    lemma_landmark_position_at(self.landmarks@, id@, i as int);
                }
                return Some(i);
            }
            i = i + 1;
        }
        proof {
            lemma_landmark_position_none(self.landmarks@, id@);
        }
        None
    }

    /// The first Landmark tile with this ID, if the catalogue has one.
    pub fn landmark_definition(&self, id: &str) -> (r: Option<&LandmarkDefinition>)
        ensures
            r matches Some(d) ==> 0 <= landmark_position(self.landmarks@, id@) && *d
                == self.landmarks@[landmark_position(self.landmarks@, id@)],
            r is None <==> landmark_position(self.landmarks@, id@) < 0,
    {
        proof {
            lemma_landmark_position(self.landmarks@, id@);
        }
        match self.landmark_index(id) {
            Some(i) => Some(&self.landmarks[i]),
            None => None,
        }
    }

    /// Whether every printed component keeps its rules: each card, each
    /// Landmark tile and each Alliance token.
    pub open spec fn components_valid(&self) -> bool {
        &&& forall|i: int| 0 <= i < self.cards@.len() ==> crate::card_schema::validation_error(
            #[trigger] self.cards@[i],
        ) is None
        &&& forall|i: int| 0 <= i < self.landmarks@.len() ==> landmark_error(#[trigger] self.landmarks@[i]) is None
        &&& forall|i: int| 0 <= i < self.tokens@.len() ==> token_error(#[trigger] self.tokens@[i]) is None
    }

    /// Checks every printed component, cards first, then Landmark tiles, then
    /// Alliance tokens; the first failure is reported.
    #[verifier::rlimit(30)]
    pub fn validate(&self) -> (r: Result<(), String>)
        ensures
            r is Ok <==> self.components_valid(),
    {
        let mut i: usize = 0;
        while i < self.cards.len()
            invariant
                i <= self.cards@.len(),
                forall|k: int| 0 <= k < i ==> crate::card_schema::validation_error(#[trigger] self.cards@[k]) is None,
            decreases self.cards.len() - i,
        {
            let checked = self.cards[i].validate();
            if checked.is_err() {
                return checked;
            }
            i = i + 1;
        }
        let mut j: usize = 0;
        while j < self.landmarks.len()
            invariant
                j <= self.landmarks@.len(),
                forall|k: int| 0 <= k < self.cards@.len() ==> crate::card_schema::validation_error(#[trigger] self.cards@[k]) is None,
                forall|k: int| 0 <= k < j ==> landmark_error(#[trigger] self.landmarks@[k]) is None,
            decreases self.landmarks.len() - j,
        {
            let checked = validate_landmark(&self.landmarks[j]);
            if checked.is_err() {
                return checked;
            }
            j = j + 1;
        }
        let mut t: usize = 0;
        while t < self.tokens.len()
            invariant
                t <= self.tokens@.len(),
                forall|k: int| 0 <= k < self.cards@.len() ==> crate::card_schema::validation_error(#[trigger] self.cards@[k]) is None,
                forall|k: int| 0 <= k < self.landmarks@.len() ==> landmark_error(#[trigger] self.landmarks@[k]) is None,
                forall|k: int| 0 <= k < t ==> token_error(#[trigger] self.tokens@[k]) is None,
            decreases self.tokens.len() - t,
        {
            let checked = validate_alliance_token(&self.tokens[t]);
            if checked.is_err() {
                return checked;
            }
            t = t + 1;
        }
        Ok(())
    }

    /// The Landmark IDs in catalogue order.
    pub fn landmark_ids(&self) -> (r: Vec<String>)
        ensures
            r@.len() == self.landmarks@.len(),
            forall|i: int| 0 <= i < r@.len() ==> #[trigger] r@[i] == self.landmarks@[i].id,
    {
        let mut ids: Vec<String> = Vec::new();
        let mut i: usize = 0;
        while i < self.landmarks.len()
            invariant
                i <= self.landmarks@.len(),
                ids@.len() == i,
                forall|k: int| 0 <= k < i ==> #[trigger] ids@[k] == self.landmarks@[k].id,
            decreases self.landmarks.len() - i,
        {
            ids.push(self.landmarks[i].id.clone());
            i = i + 1;
        }
        ids
    }
}

/// Why a Landmark tile breaks the printed rules, if it does: it needs an ID,
/// a name, a one-coin surcharge per existing Fortress and a nonempty list of
/// nonzero Skills, and its first effect places the Fortress of its own region.
pub open spec fn landmark_error(l: LandmarkDefinition) -> Option<Seq<char>> {
    if l.id@.len() == 0 || l.name@.len() == 0 || l.cost.coins_per_existing_fortress != 1
        || l.cost.skills@.len() == 0 || crate::card_schema::has_zero_amount(l.cost.skills@) {
        Some(l.id@ + " has an invalid Landmark identity or cost"@)
    } else if !(l.effects@.len() > 0 && (l.effects@[0] matches LandmarkEffect::PlaceFortress {
        location,
    } && location == l.region)) {
        Some(l.id@ + " must first place its regional Fortress"@)
    } else {
        None
    }
}

/// Why an Alliance token breaks the printed rules, if it does: it is numbered
/// 1 to 3, named, and either immediate or persistent but not both.
pub open spec fn token_error(t: AllianceTokenDefinition) -> Option<Seq<char>> {
    if !(1 <= t.id <= 3) || t.name@.len() == 0 {
        Some("Alliance tokens require a numbered, named face"@)
    } else if (t.immediate@.len() == 0) == (t.persistent@.len() == 0) {
        Some(t.name@ + " must be either immediate or persistent"@)
    } else {
        None
    }
}

/// Checks one Landmark tile against the printed rules.
pub fn validate_landmark(landmark: &LandmarkDefinition) -> (r: Result<(), String>)
    ensures
        r is Ok <==> landmark_error(*landmark) is None,
        r matches Err(e) ==> landmark_error(*landmark) == Some(e@),
{
    let zero = crate::card_schema::validate_skills(&landmark.cost.skills, landmark.id.as_str());
    if landmark.id.as_str().unicode_len() == 0 || landmark.name.as_str().unicode_len() == 0
        || landmark.cost.coins_per_existing_fortress != 1 || landmark.cost.skills.len() == 0
        || zero.is_err() {
        let mut e = landmark.id.clone();
        push_str(&mut e, " has an invalid Landmark identity or cost");
        return Err(e);
    }
    let places_own = landmark.effects.len() > 0 && match &landmark.effects[0] {
        LandmarkEffect::PlaceFortress { location } => *location == landmark.region,
        _ => false,
    };
    if !places_own {
        let mut e = landmark.id.clone();
        push_str(&mut e, " must first place its regional Fortress");
        return Err(e);
    }
    Ok(())
}

/// Checks one Alliance token against the printed rules.
pub fn validate_alliance_token(token: &AllianceTokenDefinition) -> (r: Result<(), String>)
    ensures
        r is Ok <==> token_error(*token) is None,
        r matches Err(e) ==> token_error(*token) == Some(e@),
{
    if !(1 <= token.id && token.id <= 3) || token.name.as_str().unicode_len() == 0 {
        return Err(string_of("Alliance tokens require a numbered, named face"));
    }
    if (token.immediate.len() == 0) == (token.persistent.len() == 0) {
        let mut e = token.name.clone();
        push_str(&mut e, " must be either immediate or persistent");
        return Err(e);
    }
    Ok(())
}

#[allow(clippy::too_many_arguments)]
/// Every Skill list of a card names each Skill at most once, in Skill order.
pub open spec fn skill_lists_in_order(c: CardDefinition) -> bool {
    &&& crate::card_schema::skills_in_order(c.cost.skills@)
    &&& crate::card_schema::skills_in_order(c.provides.skills@)
    &&& forall|k: int| 0 <= k < c.provides.skills_any_of@.len() ==> crate::card_schema::skills_in_order(
        #[trigger] c.provides.skills_any_of@[k]@,
    )
}

fn make_card(
    chapter: u8,
    number: u8,
    color: CardColor,
    coins: u8,
    cost_skills: Vec<(Skill, u8)>,
    chain: Option<String>,
    provides_chain: Option<String>,
    skills: Vec<(Skill, u8)>,
    skills_any_of: Vec<Vec<(Skill, u8)>>,
    race: Option<Race>,
    effects: Vec<Effect>,
) -> (r: CardDefinition)
    requires
        crate::card_schema::skills_in_order(cost_skills@),
        crate::card_schema::skills_in_order(skills@),
        forall|k: int| 0 <= k < skills_any_of@.len() ==> crate::card_schema::skills_in_order(#[trigger] skills_any_of@[k]@),
    ensures
        skill_lists_in_order(r),
        r.chapter == chapter,
        r.color == color,
        r.id@ == crate::card_schema::stable_card_id(chapter as nat, number as nat),
{
    let mut id = String::new();
    crate::card_schema::push_stable_card_id(&mut id, chapter, number);
    CardDefinition {
        id,
        chapter,
        color,
        cost: Cost { coins, skills: cost_skills, chain },
        provides_chain,
        provides: Provides { skills, skills_any_of, race },
        effects,
    }
}

fn chapter1_cards() -> (r: Vec<CardDefinition>)
    ensures
        r@.len() == 23,
        forall|k: int| 0 <= k < 23 ==> skill_lists_in_order(#[trigger] r@[k]),
{
    let mut v: Vec<CardDefinition> = Vec::new();
    v.push(make_card(1, 1, CardColor::Grey, 0, vec![], None, None, vec![(Skill::Ruse, 1)], vec![], None, vec![]));
    v.push(make_card(1, 2, CardColor::Grey, 1, vec![], None, Some(string_of("Lantern")), vec![(Skill::Strength, 1)], vec![], None, vec![]));
    v.push(make_card(1, 3, CardColor::Grey, 0, vec![], None, None, vec![(Skill::Courage, 1)], vec![], None, vec![]));
    v.push(make_card(1, 4, CardColor::Grey, 1, vec![], None, None, vec![(Skill::Courage, 1)], vec![], None, vec![]));
    v.push(make_card(1, 5, CardColor::Grey, 0, vec![], None, None, vec![(Skill::Strength, 1)], vec![], None, vec![]));
    v.push(make_card(1, 6, CardColor::Grey, 1, vec![], None, Some(string_of("Horn")), vec![(Skill::Ruse, 1)], vec![], None, vec![]));
    v.push(make_card(1, 7, CardColor::Grey, 0, vec![], None, None, vec![(Skill::Knowledge, 1)], vec![], None, vec![]));
    v.push(make_card(1, 8, CardColor::Grey, 0, vec![], None, None, vec![(Skill::Leadership, 1)], vec![], None, vec![]));
    v.push(make_card(1, 9, CardColor::Yellow, 0, vec![], None, None, vec![], vec![], None, vec![Effect::GainCoins { amount: 2 }]));
    v.push(make_card(1, 10, CardColor::Yellow, 0, vec![(Skill::Ruse, 1)], None, Some(string_of("Scroll")), vec![], vec![], None, vec![Effect::GainCoins { amount: 3 }]));
    v.push(make_card(1, 11, CardColor::Yellow, 0, vec![(Skill::Courage, 1)], None, Some(string_of("Bow")), vec![], vec![], None, vec![Effect::GainCoins { amount: 2 }]));
    v.push(make_card(1, 12, CardColor::Yellow, 1, vec![(Skill::Knowledge, 1)], None, Some(string_of("Ring")), vec![], vec![], None, vec![Effect::GainCoins { amount: 4 }]));
    v.push(make_card(1, 13, CardColor::Blue, 0, vec![(Skill::Strength, 1)], None, None, vec![], vec![], None, vec![Effect::AdvanceQuest { spaces: 1 }]));
    v.push(make_card(1, 14, CardColor::Blue, 0, vec![(Skill::Leadership, 1)], None, Some(string_of("Backpack")), vec![], vec![], None, vec![Effect::AdvanceQuest { spaces: 1 }]));
    v.push(make_card(1, 15, CardColor::Blue, 0, vec![(Skill::Courage, 1)], None, Some(string_of("Shield")), vec![], vec![], None, vec![Effect::AdvanceQuest { spaces: 1 }]));
    v.push(make_card(1, 16, CardColor::Blue, 1, vec![], None, None, vec![], vec![], None, vec![Effect::AdvanceQuest { spaces: 1 }]));
    v.push(make_card(1, 17, CardColor::Green, 0, vec![(Skill::Strength, 1)], None, None, vec![], vec![], Some(Race::Humans), vec![]));
    v.push(make_card(1, 18, CardColor::Green, 0, vec![(Skill::Knowledge, 1)], None, Some(string_of("Pipe")), vec![], vec![], Some(Race::Elves), vec![]));
    v.push(make_card(1, 19, CardColor::Green, 0, vec![(Skill::Ruse, 1)], None, None, vec![], vec![], Some(Race::Ents), vec![]));
    v.push(make_card(1, 20, CardColor::Green, 0, vec![(Skill::Courage, 1)], None, None, vec![], vec![], Some(Race::Hobbits), vec![]));
    v.push(make_card(1, 21, CardColor::Red, 0, vec![(Skill::Strength, 1)], None, None, vec![], vec![], None, vec![Effect::PlaceUnits { amount: 1, regions: vec![Region::Gondor, Region::Rohan], choose: 1 }]));
    v.push(make_card(1, 22, CardColor::Red, 0, vec![(Skill::Courage, 1)], None, Some(string_of("Helmet")), vec![], vec![], None, vec![Effect::PlaceUnits { amount: 1, regions: vec![Region::Arnor, Region::Enedwaith], choose: 1 }]));
    v.push(make_card(1, 23, CardColor::Red, 0, vec![(Skill::Ruse, 1)], None, Some(string_of("Banner")), vec![], vec![], None, vec![Effect::PlaceUnits { amount: 1, regions: vec![Region::Rhovanion, Region::Mordor], choose: 1 }]));
    v
}

fn chapter2_cards() -> (r: Vec<CardDefinition>)
    ensures
        r@.len() == 23,
        forall|k: int| 0 <= k < 23 ==> skill_lists_in_order(#[trigger] r@[k]),
{
    let mut v: Vec<CardDefinition> = Vec::new();
    v.push(make_card(2, 1, CardColor::Grey, 1, vec![(Skill::Knowledge, 1), (Skill::Leadership, 1)], None, None, vec![(Skill::Strength, 2)], vec![], None, vec![]));
    v.push(make_card(2, 2, CardColor::Grey, 0, vec![(Skill::Courage, 1)], None, None, vec![], vec![vec![(Skill::Knowledge, 1)], vec![(Skill::Leadership, 1)]], None, vec![]));
    v.push(make_card(2, 3, CardColor::Grey, 0, vec![(Skill::Strength, 1), (Skill::Courage, 1)], None, None, vec![(Skill::Ruse, 2)], vec![], None, vec![]));
    v.push(make_card(2, 4, CardColor::Grey, 0, vec![(Skill::Knowledge, 2)], Some(string_of("Lantern")), None, vec![(Skill::Courage, 2)], vec![], None, vec![]));
    v.push(make_card(2, 5, CardColor::Grey, 0, vec![(Skill::Ruse, 2)], None, Some(string_of("Map")), vec![(Skill::Knowledge, 2)], vec![], None, vec![]));
    v.push(make_card(2, 6, CardColor::Grey, 2, vec![], None, None, vec![(Skill::Leadership, 1)], vec![], None, vec![]));
    v.push(make_card(2, 7, CardColor::Grey, 0, vec![(Skill::Leadership, 2)], None, Some(string_of("Sword")), vec![], vec![vec![(Skill::Strength, 1)], vec![(Skill::Courage, 1)]], None, vec![]));
    v.push(make_card(2, 8, CardColor::Yellow, 2, vec![], Some(string_of("Ring")), None, vec![], vec![], None, vec![Effect::GainCoins { amount: 5 }]));
    v.push(make_card(2, 9, CardColor::Yellow, 0, vec![(Skill::Ruse, 1), (Skill::Leadership, 1)], None, Some(string_of("Axe")), vec![], vec![], None, vec![Effect::GainCoins { amount: 4 }]));
    v.push(make_card(2, 10, CardColor::Blue, 1, vec![], Some(string_of("Backpack")), None, vec![], vec![], None, vec![Effect::AdvanceQuest { spaces: 2 }]));
    v.push(make_card(2, 11, CardColor::Blue, 0, vec![(Skill::Knowledge, 2)], Some(string_of("Horn")), None, vec![], vec![], None, vec![Effect::AdvanceQuest { spaces: 2 }]));
    v.push(make_card(2, 12, CardColor::Blue, 0, vec![(Skill::Strength, 1), (Skill::Courage, 2)], None, None, vec![], vec![], None, vec![Effect::AdvanceQuest { spaces: 2 }]));
    v.push(make_card(2, 13, CardColor::Blue, 0, vec![(Skill::Strength, 2), (Skill::Knowledge, 1)], None, None, vec![], vec![], None, vec![Effect::AdvanceQuest { spaces: 2 }]));
    v.push(make_card(2, 14, CardColor::Blue, 0, vec![(Skill::Ruse, 2), (Skill::Leadership, 1)], None, Some(string_of("Staff")), vec![], vec![], None, vec![Effect::AdvanceQuest { spaces: 2 }]));
    v.push(make_card(2, 15, CardColor::Green, 0, vec![(Skill::Leadership, 2)], Some(string_of("Scroll")), None, vec![], vec![], Some(Race::Dwarves), vec![]));
    v.push(make_card(2, 16, CardColor::Green, 0, vec![(Skill::Courage, 2)], Some(string_of("Pipe")), None, vec![], vec![], Some(Race::Wizards), vec![]));
    v.push(make_card(2, 17, CardColor::Green, 0, vec![(Skill::Ruse, 2)], None, Some(string_of("Crown")), vec![], vec![], Some(Race::Humans), vec![]));
    v.push(make_card(2, 18, CardColor::Green, 0, vec![(Skill::Strength, 2)], None, Some(string_of("Boat")), vec![], vec![], Some(Race::Elves), vec![]));
    v.push(make_card(2, 19, CardColor::Red, 0, vec![(Skill::Strength, 2), (Skill::Courage, 1)], Some(string_of("Helmet")), None, vec![], vec![], None, vec![Effect::PlaceUnits { amount: 2, regions: vec![Region::Lindon, Region::Arnor], choose: 1 }]));
    v.push(make_card(2, 20, CardColor::Red, 0, vec![(Skill::Ruse, 2), (Skill::Courage, 1)], Some(string_of("Bow")), None, vec![], vec![], None, vec![Effect::PlaceUnits { amount: 2, regions: vec![Region::Rohan, Region::Gondor], choose: 1 }]));
    v.push(make_card(2, 21, CardColor::Red, 0, vec![(Skill::Strength, 1), (Skill::Knowledge, 2)], Some(string_of("Shield")), None, vec![], vec![], None, vec![Effect::PlaceUnits { amount: 2, regions: vec![Region::Enedwaith, Region::Rhovanion], choose: 1 }]));
    v.push(make_card(2, 22, CardColor::Red, 0, vec![(Skill::Ruse, 1), (Skill::Leadership, 2)], Some(string_of("Banner")), None, vec![], vec![], None, vec![Effect::PlaceUnits { amount: 2, regions: vec![Region::Mordor, Region::Gondor], choose: 1 }]));
    v.push(make_card(2, 23, CardColor::Red, 0, vec![(Skill::Courage, 2), (Skill::Knowledge, 1)], None, Some(string_of("Tower")), vec![], vec![], None, vec![Effect::PlaceUnits { amount: 2, regions: vec![Region::Arnor, Region::Rohan], choose: 1 }]));
    v
}

fn chapter3_cards() -> (r: Vec<CardDefinition>)
    ensures
        r@.len() == 23,
        forall|k: int| 0 <= k < 23 ==> skill_lists_in_order(#[trigger] r@[k]),
{
    let mut v: Vec<CardDefinition> = Vec::new();
    v.push(make_card(3, 1, CardColor::Yellow, 0, vec![(Skill::Ruse, 2), (Skill::Knowledge, 1)], None, None, vec![], vec![], None, vec![Effect::GainCoins { amount: 6 }]));
    v.push(make_card(3, 2, CardColor::Yellow, 0, vec![(Skill::Strength, 2), (Skill::Leadership, 1)], None, None, vec![], vec![], None, vec![Effect::GainCoins { amount: 5 }]));
    v.push(make_card(3, 3, CardColor::Blue, 0, vec![(Skill::Courage, 2), (Skill::Knowledge, 2)], Some(string_of("Map")), None, vec![], vec![], None, vec![Effect::AdvanceQuest { spaces: 3 }]));
    v.push(make_card(3, 4, CardColor::Blue, 0, vec![(Skill::Ruse, 2), (Skill::Strength, 2)], Some(string_of("Staff")), None, vec![], vec![], None, vec![Effect::AdvanceQuest { spaces: 3 }]));
    v.push(make_card(3, 5, CardColor::Blue, 0, vec![(Skill::Courage, 2), (Skill::Leadership, 2)], None, None, vec![], vec![], None, vec![Effect::AdvanceQuest { spaces: 3 }]));
    v.push(make_card(3, 6, CardColor::Blue, 3, vec![], None, None, vec![], vec![], None, vec![Effect::AdvanceQuest { spaces: 2 }]));
    v.push(make_card(3, 7, CardColor::Blue, 0, vec![(Skill::Knowledge, 3)], None, None, vec![], vec![], None, vec![Effect::AdvanceQuest { spaces: 3 }]));
    v.push(make_card(3, 8, CardColor::Green, 0, vec![(Skill::Strength, 2), (Skill::Knowledge, 2)], None, None, vec![], vec![], Some(Race::Dwarves), vec![]));
    v.push(make_card(3, 9, CardColor::Green, 0, vec![(Skill::Ruse, 3)], Some(string_of("Crown")), None, vec![], vec![], Some(Race::Ents), vec![]));
    v.push(make_card(3, 10, CardColor::Green, 0, vec![(Skill::Courage, 2), (Skill::Leadership, 2)], None, None, vec![], vec![], Some(Race::Wizards), vec![]));
    v.push(make_card(3, 11, CardColor::Green, 0, vec![(Skill::Leadership, 3)], None, None, vec![], vec![], Some(Race::Hobbits), vec![]));
    v.push(make_card(3, 12, CardColor::Red, 0, vec![(Skill::Strength, 3)], Some(string_of("Sword")), None, vec![], vec![], None, vec![Effect::PlaceUnits { amount: 3, regions: vec![Region::Lindon, Region::Enedwaith], choose: 1 }]));
    v.push(make_card(3, 13, CardColor::Red, 0, vec![(Skill::Courage, 3)], Some(string_of("Axe")), None, vec![], vec![], None, vec![Effect::PlaceUnits { amount: 3, regions: vec![Region::Arnor, Region::Rhovanion], choose: 1 }]));
    v.push(make_card(3, 14, CardColor::Red, 0, vec![(Skill::Ruse, 3)], Some(string_of("Boat")), None, vec![], vec![], None, vec![Effect::PlaceUnits { amount: 3, regions: vec![Region::Rohan, Region::Mordor], choose: 1 }]));
    v.push(make_card(3, 15, CardColor::Red, 0, vec![(Skill::Knowledge, 3)], Some(string_of("Tower")), None, vec![], vec![], None, vec![Effect::PlaceUnits { amount: 3, regions: vec![Region::Gondor, Region::Enedwaith], choose: 1 }]));
    v.push(make_card(3, 16, CardColor::Red, 0, vec![(Skill::Strength, 1), (Skill::Leadership, 2)], None, None, vec![], vec![], None, vec![Effect::PlaceUnits { amount: 2, regions: vec![Region::Rhovanion, Region::Gondor], choose: 1 }]));
    v.push(make_card(3, 17, CardColor::Red, 0, vec![(Skill::Ruse, 1), (Skill::Courage, 2)], None, None, vec![], vec![], None, vec![Effect::PlaceUnits { amount: 2, regions: vec![Region::Lindon, Region::Mordor], choose: 1 }]));
    v.push(make_card(3, 18, CardColor::Purple, 1, vec![(Skill::Strength, 2)], None, None, vec![], vec![], None, vec![Effect::MoveUnits { amount: 2 }]));
    v.push(make_card(3, 19, CardColor::Purple, 3, vec![], None, None, vec![], vec![], None, vec![Effect::RemoveEnemyUnits { amount: 1 }, Effect::OpponentLosesCoins { amount: 2 }, Effect::MoveUnits { amount: 1 }]));
    v.push(make_card(3, 20, CardColor::Purple, 0, vec![(Skill::Ruse, 1), (Skill::Courage, 2)], None, None, vec![], vec![], None, vec![Effect::RemoveEnemyUnits { amount: 2 }]));
    v.push(make_card(3, 21, CardColor::Purple, 0, vec![(Skill::Knowledge, 2)], None, None, vec![], vec![], None, vec![Effect::OpponentLosesCoins { amount: 3 }]));
    v.push(make_card(3, 22, CardColor::Purple, 0, vec![(Skill::Strength, 1), (Skill::Leadership, 2)], None, None, vec![], vec![], None, vec![Effect::MoveUnits { amount: 1 }, Effect::RemoveEnemyUnits { amount: 1 }]));
    v.push(make_card(3, 23, CardColor::Purple, 0, vec![(Skill::Ruse, 2)], None, None, vec![], vec![], None, vec![Effect::OpponentLosesCoins { amount: 2 }, Effect::MoveUnits { amount: 1 }]));
    v
}

/// The IDs of the printed Landmark tiles, in catalogue order.
pub open spec fn printed_landmark_names() -> Seq<Seq<char>> {
    seq![
        "helms_deep"@,
        "erebor"@,
        "bree"@,
        "grey_havens"@,
        "minas_tirith"@,
        "isengard"@,
        "barad_dur"@,
    ]
}

fn landmark(
    id: &str,
    name: &str,
    skills: Vec<(Skill, u8)>,
    region: Region,
    effects: Vec<LandmarkEffect>,
) -> (r: LandmarkDefinition)
    requires
        crate::card_schema::skills_in_order(skills@),
    ensures
        crate::card_schema::skills_in_order(r.cost.skills@),
        r.id@ == id@,
        r.region == region,
{
    LandmarkDefinition {
        id: string_of(id),
        name: string_of(name),
        cost: LandmarkCost { coins_per_existing_fortress: 1, skills },
        region,
        effects,
    }
}

fn landmark_tiles() -> (r: Vec<LandmarkDefinition>)
    ensures
        r@.len() == 7,
        r@.map_values(|l: LandmarkDefinition| l.id@) == printed_landmark_names(),
        forall|k: int| 0 <= k < 7 ==> crate::card_schema::skills_in_order(#[trigger] r@[k].cost.skills@),
{
    let mut v: Vec<LandmarkDefinition> = Vec::new();
    v.push(landmark("helms_deep", "Helm's Deep", vec![(Skill::Ruse, 3), (Skill::Knowledge, 1), (Skill::Leadership, 2)], Region::Rohan, vec![LandmarkEffect::PlaceFortress { location: Region::Rohan }, LandmarkEffect::PlaceUnits { amount: 2, regions: vec![Region::Rohan, Region::Gondor], choose: 1 }]));
    v.push(landmark("erebor", "Erebor", vec![(Skill::Ruse, 1), (Skill::Strength, 3), (Skill::Courage, 2)], Region::Rhovanion, vec![LandmarkEffect::PlaceFortress { location: Region::Rhovanion }, LandmarkEffect::GainCoins { amount: 3 }]));
    v.push(landmark("bree", "Bree", vec![(Skill::Courage, 3), (Skill::Knowledge, 2), (Skill::Leadership, 1)], Region::Arnor, vec![LandmarkEffect::PlaceFortress { location: Region::Arnor }, LandmarkEffect::MoveUnits { amount: 2 }]));
    v.push(landmark("grey_havens", "Grey Havens", vec![(Skill::Ruse, 2), (Skill::Courage, 1), (Skill::Knowledge, 3)], Region::Lindon, vec![LandmarkEffect::PlaceFortress { location: Region::Lindon }, LandmarkEffect::TwoOfAnyOneRaceTokens]));
    v.push(landmark("minas_tirith", "Minas Tirith", vec![(Skill::Strength, 2), (Skill::Courage, 1), (Skill::Leadership, 3)], Region::Gondor, vec![LandmarkEffect::PlaceFortress { location: Region::Gondor }, LandmarkEffect::AdvanceQuest { spaces: 2 }]));
    v.push(landmark("isengard", "Isengard", vec![(Skill::Ruse, 1), (Skill::Strength, 2), (Skill::Knowledge, 3)], Region::Enedwaith, vec![LandmarkEffect::PlaceFortress { location: Region::Enedwaith }, LandmarkEffect::DiscardOneGreyCardFromOpponent, LandmarkEffect::AdvanceQuest { spaces: 1 }]));
    v.push(landmark("barad_dur", "Barad-Dûr", vec![(Skill::Ruse, 3), (Skill::Strength, 2), (Skill::Leadership, 1)], Region::Mordor, vec![LandmarkEffect::PlaceFortress { location: Region::Mordor }, LandmarkEffect::PlayOneCardFromDiscardForFree]));
    proof {
        assert(v@.map_values(|l: LandmarkDefinition| l.id@) =~= printed_landmark_names());
    }
    v
}

fn token(
    race: Race,
    id: u8,
    name: &str,
    immediate: Vec<AllianceEffect>,
    persistent: Vec<PersistentEffect>,
) -> (r: AllianceTokenDefinition)
    ensures
        r.race == race,
        r.id == id,
{
    AllianceTokenDefinition { race, id, name: string_of(name), immediate, persistent }
}

fn alliance_tokens() -> (r: Vec<AllianceTokenDefinition>)
    ensures
        r@.len() == 18,
{
    let mut v: Vec<AllianceTokenDefinition> = Vec::new();
    v.push(token(Race::Elves, 1, "Extra turn with each Yellow card", vec![], vec![PersistentEffect::OnCardPlayed { color: CardColor::Yellow, effect: AllianceEffect::TakeExtraTurn }]));
    v.push(token(Race::Elves, 2, "Red deployment anywhere", vec![], vec![PersistentEffect::RedDeploymentAnywhere]));
    v.push(token(Race::Elves, 3, "Any Skill once per turn", vec![], vec![PersistentEffect::AnySkillOncePerTurn]));
    v.push(token(Race::Ents, 1, "Take another turn", vec![AllianceEffect::TakeExtraTurn], vec![]));
    v.push(token(Race::Ents, 2, "Remove an enemy Fortress", vec![AllianceEffect::RemoveEnemyFortress], vec![]));
    v.push(token(Race::Ents, 3, "Three Ent maneuvers", vec![AllianceEffect::ChooseManeuvers { times: 3 }], vec![]));
    v.push(token(Race::Hobbits, 1, "Eagle Race symbol", vec![], vec![PersistentEffect::EagleRaceSymbol]));
    v.push(token(Race::Hobbits, 2, "Two coins with each chained card", vec![], vec![PersistentEffect::OnChainedCardPlayed { effect: AllianceEffect::GainCoins { amount: 2 } }]));
    v.push(token(Race::Hobbits, 3, "Quest step with each Grey card", vec![], vec![PersistentEffect::OnCardPlayed { color: CardColor::Grey, effect: AllianceEffect::AdvanceQuest { spaces: 1 } }]));
    v.push(token(Race::Humans, 1, "Quest step with each Yellow card", vec![], vec![PersistentEffect::OnCardPlayed { color: CardColor::Yellow, effect: AllianceEffect::AdvanceQuest { spaces: 1 } }]));
    v.push(token(Race::Humans, 2, "Extra Unit with each Red card", vec![], vec![PersistentEffect::AdditionalRedUnits { amount: 1 }]));
    v.push(token(Race::Humans, 3, "Double discard income", vec![], vec![PersistentEffect::DiscardIncomeMultiplier { multiplier: 2 }]));
    v.push(token(Race::Dwarves, 1, "Landmark Fortress cost waived", vec![], vec![PersistentEffect::WaiveLandmarkFortressCost]));
    v.push(token(Race::Dwarves, 2, "Unit with each Blue card", vec![], vec![PersistentEffect::OnCardPlayed { color: CardColor::Blue, effect: AllianceEffect::PlaceUnitsAnywhere { amount: 1 } }]));
    v.push(token(Race::Dwarves, 3, "Two coins with each Landmark", vec![], vec![PersistentEffect::OnLandmarkTaken { effect: AllianceEffect::GainCoins { amount: 2 } }]));
    v.push(token(Race::Wizards, 1, "Advance the quest two spaces", vec![AllianceEffect::AdvanceQuest { spaces: 2 }], vec![]));
    v.push(token(Race::Wizards, 2, "Two Units anywhere", vec![AllianceEffect::PlaceUnitsAnywhere { amount: 2 }], vec![]));
    v.push(token(Race::Wizards, 3, "Play a discarded card for free", vec![AllianceEffect::PlayDiscardedCardForFree], vec![]));
    v
}


pub const RNG_GAMMA: u64 = 0x9E37_79B9_7F4A_7C15;

/// The splitmix64 output function applied to an advanced state.
pub open spec fn splitmix_output(state: u64) -> u64 {
    let z1 = vstd::wrapping::u64_specs::wrapping_mul(state ^ (state >> 30u64), 0xBF58_476D_1CE4_E5B9);
    let z2 = vstd::wrapping::u64_specs::wrapping_mul(z1 ^ (z1 >> 27u64), 0x94D0_49BB_1331_11EB);
    z2 ^ (z2 >> 31u64)
}

/// The generator state after `steps` draws from `state`.
pub open spec fn rng_advanced(state: u64, steps: nat) -> u64 {
    ((state as nat + steps * (RNG_GAMMA as nat)) % 0x1_0000_0000_0000_0000) as u64
}

/// The generator state after one draw from `state`.
pub open spec fn rng_next(state: u64) -> u64 {
    vstd::wrapping::u64_specs::wrapping_add(state, RNG_GAMMA)
}

/// The Fisher-Yates passes over positions `index` down to 1, the generator
/// starting at `state`: each draw picks a position at or below the current
/// one, and the two are swapped.
pub open spec fn shuffle_from<T>(values: Seq<T>, state: u64, index: nat) -> Seq<T>
    decreases index,
{
    if index == 0 {
        values
    } else {
        let next = rng_next(state);
        let swap = (splitmix_output(next) as nat % (index + 1)) as int;
        let swapped = values.update(index as int, values[swap]).update(swap, values[index as int]);
        shuffle_from(swapped, next, (index - 1) as nat)
    }
}

/// `values` shuffled by a generator in state `state`.
pub open spec fn spec_shuffle<T>(values: Seq<T>, state: u64) -> Seq<T> {
    if values.len() == 0 {
        values
    } else {
        shuffle_from(values, state, (values.len() - 1) as nat)
    }
}

/// A seeded splitmix64 generator; every random setup element draws from it.
#[derive(Debug, Clone, PartialEq, Eq)]
pub struct DeterministicRng(pub u64);

impl DeterministicRng {
    pub fn new(seed: u64) -> (r: Self)
        ensures
            r.0 == seed,
    {
        DeterministicRng(seed)
    }

    /// Advances the state by the splitmix64 increment and returns the mixed value.
    pub fn next_u64(&mut self) -> (r: u64)
        ensures
            final(self).0 == vstd::wrapping::u64_specs::wrapping_add(old(self).0, RNG_GAMMA),
            r == splitmix_output(final(self).0),
    {
        self.0 = self.0.wrapping_add(RNG_GAMMA);
        let z = self.0;
        let z = (z ^ (z >> 30u64)).wrapping_mul(0xBF58_476D_1CE4_E5B9);
        let z = (z ^ (z >> 27u64)).wrapping_mul(0x94D0_49BB_1331_11EB);
        z ^ (z >> 31u64)
    }

    /// Fisher-Yates shuffle driven by this generator: it permutes `values` and
    /// draws exactly once for each position after the first.
    pub fn shuffle<T: Copy>(&mut self, values: &mut Vec<T>)
        ensures
            final(values)@ == spec_shuffle(old(values)@, old(self).0),
            final(values)@.len() == old(values)@.len(),
            final(values)@.to_multiset() == old(values)@.to_multiset(),
            final(self).0 == rng_advanced(
                old(self).0,
                if old(values)@.len() == 0 { 0 } else { (old(values)@.len() - 1) as nat },
            ),
    {
        let n = values.len();
        if n == 0 {
            proof {
                assert(rng_advanced(self.0, 0) == self.0) by {
                    assert((self.0 as nat + 0 * (RNG_GAMMA as nat)) % 0x1_0000_0000_0000_0000
                        == self.0 as nat);
                }
            }
            return;
        }
        let ghost original = values@;
        let ghost start = self.0;
        let mut index = n - 1;
        proof {
            assert(rng_advanced(start, 0) == start) by {
                assert((start as nat + 0 * (RNG_GAMMA as nat)) % 0x1_0000_0000_0000_0000 == start as nat);
            }
        }
        while index > 0
            invariant
                values@.len() == n,
                n == original.len(),
                index < n,
                values@.to_multiset() == original.to_multiset(),
                self.0 == rng_advanced(start, ((n - 1) - index) as nat),
                spec_shuffle(original, start) == shuffle_from(values@, self.0, index as nat),
            decreases index,
        {
            let ghost state = self.0;
            let ghost current = values@;
            let draw = self.next_u64();
            let swap = (draw % (index as u64 + 1)) as usize;
            proof {
                assert(swap as nat == splitmix_output(rng_next(state)) as nat % (index as nat + 1));
            }
            proof {
                lemma_rng_step(start, ((n - 1) - index) as nat);
            }
            let a = values[index];
            let b = values[swap];
            let ghost before = values@;
            values.set(index, b);
            values.set(swap, a);
            proof {
                lemma_swap_to_multiset(before, index as int, swap as int);
                assert(values@ == current.update(index as int, current[swap as int]).update(
                    swap as int,
                    current[index as int],
                ));
            }
            index = index - 1;
        }
    }
}

/// Draws add up: `a` draws and then `b` more are `a + b` draws.
pub proof fn lemma_rng_compose(start: u64, a: nat, b: nat)
    ensures
        rng_advanced(rng_advanced(start, a), b) == rng_advanced(start, a + b),
{
    let m: int = 0x1_0000_0000_0000_0000;
    let x = start as int + a * (RNG_GAMMA as int);
    assert(0 <= x % m < m);
    assert((x % m + b * (RNG_GAMMA as int)) % m == (x + b * (RNG_GAMMA as int)) % m) by {
        vstd::arithmetic::div_mod::lemma_add_mod_noop(x, b * (RNG_GAMMA as int), m);
        vstd::arithmetic::div_mod::lemma_mod_twice(b * (RNG_GAMMA as int), m);
        vstd::arithmetic::div_mod::lemma_add_mod_noop(x % m, b * (RNG_GAMMA as int), m);
        vstd::arithmetic::div_mod::lemma_mod_twice(x, m);
    }
    assert(x + b * (RNG_GAMMA as int) == start as int + (a + b) * (RNG_GAMMA as int)) by (nonlinear_arith)
        requires
            x == start as int + a * (RNG_GAMMA as int),
    ;
}

proof fn lemma_rng_step(start: u64, k: nat)
    ensures
        vstd::wrapping::u64_specs::wrapping_add(rng_advanced(start, k), RNG_GAMMA) == rng_advanced(
            start,
            k + 1,
        ),
{
    let m: int = 0x1_0000_0000_0000_0000;
    let a = start as int + k * (RNG_GAMMA as int);
    let b = start as int + (k + 1) * (RNG_GAMMA as int);
    assert(b == a + RNG_GAMMA as int);
    assert((a % m + RNG_GAMMA as int) % m == (a + RNG_GAMMA as int) % m) by {
        vstd::arithmetic::div_mod::lemma_add_mod_noop(a, RNG_GAMMA as int, m);
        vstd::arithmetic::div_mod::lemma_mod_twice(RNG_GAMMA as int, m);
    }
}

proof fn lemma_swap_to_multiset<T>(s: Seq<T>, i: int, j: int)
    requires
        0 <= i < s.len(),
        0 <= j < s.len(),
    ensures
        s.update(i, s[j]).update(j, s[i]).to_multiset() == s.to_multiset(),
{
    broadcast use vstd::seq_lib::to_multiset_update;
    broadcast use vstd::multiset::group_multiset_axioms;
    let t = s.update(i, s[j]);
    if i == j {
        assert(s.update(i, s[j]).update(j, s[i]) =~= s);
    } else {
        assert(t[j] == s[j]);
        assert(t.to_multiset() == s.to_multiset().insert(s[j]).remove(s[i]));
        assert(t.update(j, s[i]).to_multiset() == t.to_multiset().insert(s[i]).remove(t[j]));
        assert(s.to_multiset().insert(s[j]).remove(s[i]).insert(s[i]).remove(s[j])
            =~= s.to_multiset());
    }
}

/// A Chapter's cards in the order a generator in state `state` deals them:
/// the first twenty fill the display slot by slot, the last three are
/// discarded.
pub open spec fn spec_deal(chapter: u8, state: u64) -> Seq<ChapterCard> {
    spec_shuffle(spec_chapter_cards(chapter), state)
}

/// The physical cards of one Chapter, in number order (one copy of each face).
pub open spec fn spec_chapter_cards(chapter: u8) -> Seq<ChapterCard> {
    Seq::new(23, |i: int| ChapterCard { chapter, number: (i + 1) as u8, copy: 0 })
}

/// Physical instances. A definition is keyed by `(chapter, number)`; duplicate
/// faces differ only in `copy`.
pub fn chapter_cards(chapter: u8) -> (r: Vec<ChapterCard>)
    ensures
        r@ == spec_chapter_cards(chapter),
{
    let mut cards: Vec<ChapterCard> = Vec::new();
    let mut number: u8 = 1;
    while number <= 23
        invariant
            1 <= number <= 24,
            cards@ =~= spec_chapter_cards(chapter).subrange(0, number - 1),
        decreases 24 - number,
    {
        cards.push(ChapterCard { chapter, number, copy: 0 });
        number = number + 1;
    }
    cards
}

/// The printed rows of a Chapter display: how many cards each row holds and
/// whether that row lies face up.
pub open spec fn row_shape(chapter: u8) -> Seq<(u8, CardVisibility)> {
    if chapter == 1 {
        seq![
            (2u8, CardVisibility::FaceUp),
            (3u8, CardVisibility::FaceDown),
            (4u8, CardVisibility::FaceUp),
            (5u8, CardVisibility::FaceDown),
            (6u8, CardVisibility::FaceUp),
        ]
    } else if chapter == 2 {
        seq![
            (6u8, CardVisibility::FaceUp),
            (5u8, CardVisibility::FaceDown),
            (4u8, CardVisibility::FaceUp),
            (3u8, CardVisibility::FaceDown),
            (2u8, CardVisibility::FaceUp),
        ]
    } else {
        seq![
            (2u8, CardVisibility::FaceUp),
            (3u8, CardVisibility::FaceDown),
            (4u8, CardVisibility::FaceUp),
            (2u8, CardVisibility::FaceDown),
            (4u8, CardVisibility::FaceUp),
            (3u8, CardVisibility::FaceDown),
            (2u8, CardVisibility::FaceUp),
        ]
    }
}

/// The `(row, column, visibility)` positions of the first `rows` rows, row by
/// row and left to right.
pub open spec fn positions_upto(shape: Seq<(u8, CardVisibility)>, rows: nat) -> Seq<(u8, u8, CardVisibility)>
    decreases rows,
{
    if rows == 0 {
        seq![]
    } else {
        positions_upto(shape, (rows - 1) as nat) + row_entries(shape, (rows - 1) as nat)
    }
}

pub open spec fn row_entries(shape: Seq<(u8, CardVisibility)>, row: nat) -> Seq<(u8, u8, CardVisibility)> {
    Seq::new(shape[row as int].0 as nat, |c: int| (row as u8, c as u8, shape[row as int].1))
}

/// The display positions of a Chapter, slot by slot.
pub open spec fn layout_positions(chapter: u8) -> Seq<(u8, u8, CardVisibility)> {
    positions_upto(row_shape(chapter), row_shape(chapter).len())
}

pub proof fn lemma_layout_has_twenty_slots(chapter: u8)
    ensures
        layout_positions(chapter).len() == 20,
{
    reveal_with_fuel(positions_upto, 8);
}

fn row_shape_exec(chapter: u8) -> (r: Vec<(u8, CardVisibility)>)
    requires
        1 <= chapter <= 3,
    ensures
        r@ == row_shape(chapter),
{
    let r = if chapter == 1 {
        vec![
            (2u8, CardVisibility::FaceUp),
            (3u8, CardVisibility::FaceDown),
            (4u8, CardVisibility::FaceUp),
            (5u8, CardVisibility::FaceDown),
            (6u8, CardVisibility::FaceUp),
        ]
    } else if chapter == 2 {
        vec![
            (6u8, CardVisibility::FaceUp),
            (5u8, CardVisibility::FaceDown),
            (4u8, CardVisibility::FaceUp),
            (3u8, CardVisibility::FaceDown),
            (2u8, CardVisibility::FaceUp),
        ]
    } else {
        vec![
            (2u8, CardVisibility::FaceUp),
            (3u8, CardVisibility::FaceDown),
            (4u8, CardVisibility::FaceUp),
            (2u8, CardVisibility::FaceDown),
            (4u8, CardVisibility::FaceUp),
            (3u8, CardVisibility::FaceDown),
            (2u8, CardVisibility::FaceUp),
        ]
    };
    assert(r@ =~= row_shape(chapter));
    r
}

/// The display positions of a Chapter, slot by slot.
pub fn chapter_layout(chapter: u8) -> (r: Vec<(u8, u8, CardVisibility)>)
    requires
        1 <= chapter <= 3,
    ensures
        r@ == layout_positions(chapter),
        r@.len() == 20,
{
    let shape = row_shape_exec(chapter);
    let mut positions: Vec<(u8, u8, CardVisibility)> = Vec::new();
    let mut row: usize = 0;
    while row < shape.len()
        invariant
            row <= shape@.len(),
            shape@ == row_shape(chapter),
            shape@.len() <= 7,
            positions@ == positions_upto(shape@, row as nat),
        decreases shape.len() - row,
    {
        let (count, visibility) = shape[row];
        let mut column: u8 = 0;
        while column < count
            invariant
                column <= count,
                row < shape@.len(),
                shape@.len() <= 7,
                (count, visibility) == shape@[row as int],
                positions@ == positions_upto(shape@, row as nat) + row_entries(shape@, row as nat).subrange(0, column as int),
            decreases count - column,
        {
            positions.push((row as u8, column, visibility));
            proof {
                assert(positions_upto(shape@, row as nat) + row_entries(shape@, row as nat).subrange(0, column + 1)
                    =~= (positions_upto(shape@, row as nat) + row_entries(shape@, row as nat).subrange(0, column as int)).push((row as u8, column, visibility)));
            }
            column = column + 1;
        }
        proof {
            assert(row_entries(shape@, row as nat).subrange(0, count as int) =~= row_entries(shape@, row as nat));
            assert(positions_upto(shape@, (row + 1) as nat) == positions_upto(shape@, row as nat) + row_entries(shape@, row as nat));
        }
        row = row + 1;
    }
    proof {
        lemma_layout_has_twenty_slots(chapter);
    }
    positions
}

/// How many positions lie in `row`.
pub open spec fn row_count(positions: Seq<(u8, u8, CardVisibility)>, row: u8) -> nat
    decreases positions.len(),
{
    if positions.len() == 0 {
        0
    } else {
        row_count(positions.drop_last(), row) + if positions.last().0 == row { 1nat } else { 0nat }
    }
}

/// A position's horizontal centre, in half-card units: rows are centred on one axis.
pub open spec fn position_center(positions: Seq<(u8, u8, CardVisibility)>, i: int) -> int {
    2 * positions[i].1 - row_count(positions, positions[i].0) + 1
}

/// Whether the card at position `j` overlaps (covers) the card at position `i`:
/// it lies in the next row and at most half a card to either side.
pub open spec fn covers(positions: Seq<(u8, u8, CardVisibility)>, i: int, j: int) -> bool {
    positions[j].0 == positions[i].0 + 1 && -1 <= position_center(positions, i)
        - position_center(positions, j) <= 1
}

/// The positions below `n` that cover position `i`, in ascending order.
pub open spec fn covering_below(positions: Seq<(u8, u8, CardVisibility)>, i: int, n: nat) -> Seq<usize>
    decreases n,
{
    if n == 0 {
        seq![]
    } else {
        covering_below(positions, i, (n - 1) as nat) + if covers(positions, i, n - 1) {
            seq![(n - 1) as usize]
        } else {
            seq![]
        }
    }
}

fn row_count_exec(positions: &Vec<(u8, u8, CardVisibility)>, row: u8) -> (r: u32)
    requires
        positions@.len() <= 100,
    ensures
        r == row_count(positions@, row),
        r <= positions@.len(),
{
    let mut count: u32 = 0;
    let mut k: usize = 0;
    while k < positions.len()
        invariant
            k <= positions@.len(),
            positions@.len() <= 100,
            count == row_count(positions@.subrange(0, k as int), row),
            count <= k,
        decreases positions.len() - k,
    {
        proof {
            assert(positions@.subrange(0, k + 1).drop_last() =~= positions@.subrange(0, k as int));
        }
        if positions[k].0 == row {
            count = count + 1;
        }
        k = k + 1;
    }
    assert(positions@.subrange(0, positions@.len() as int) =~= positions@);
    count
}

/// Slot IDs that cover the card at `slot_id`.
pub fn covering_slots(slot_id: usize, positions: &Vec<(u8, u8, CardVisibility)>) -> (r: Vec<usize>)
    requires
        slot_id < positions@.len(),
        positions@.len() <= 100,
    ensures
        r@ == covering_below(positions@, slot_id as int, positions@.len()),
{
    let (row, column, _) = positions[slot_id];
    let count = row_count_exec(positions, row);
    let center: i64 = 2 * (column as i64) - (count as i64) + 1;
    let mut result: Vec<usize> = Vec::new();
    let mut id: usize = 0;
    while id < positions.len()
        invariant
            id <= positions@.len(),
            positions@.len() <= 100,
            slot_id < positions@.len(),
            (row, column) == (positions@[slot_id as int].0, positions@[slot_id as int].1),
            center == position_center(positions@, slot_id as int),
            -200 <= center <= 600,
            result@ == covering_below(positions@, slot_id as int, id as nat),
        decreases positions.len() - id,
    {
        let (other_row, other_column, _) = positions[id];
        let mut covering = false;
        if row < 255 && other_row == row + 1 {
            let other_count = row_count_exec(positions, other_row);
            let other_center: i64 = 2 * (other_column as i64) - (other_count as i64) + 1;
            covering = -1 <= center - other_center && center - other_center <= 1;
        }
        proof {
            assert(covering == covers(positions@, slot_id as int, id as int));
        }
        if covering {
            result.push(id);
        }
        proof {
            assert(covering_below(positions@, slot_id as int, (id + 1) as nat) =~= covering_below(
                positions@,
                slot_id as int,
                id as nat,
            ) + if covering { seq![id] } else { seq![] });
        }
        id = id + 1;
    }
    result
}

/// The display slot for position `id`, holding `card`.
pub open spec fn slot_at(positions: Seq<(u8, u8, CardVisibility)>, id: int, card: ChapterCard) -> CardSlot {
    CardSlot {
        id: id as usize,
        row: positions[id].0,
        column: positions[id].1,
        card,
        visibility: positions[id].2,
        covering_slots: arbitrary(),
    }
}

/// Deals a shuffled Chapter deck into its printed display; the three cards
/// left over go straight to that Chapter's discard pile.
pub fn setup_chapter(chapter: u8, rng: &mut DeterministicRng) -> (r: ChapterState)
    requires
        1 <= chapter <= 3,
    ensures
        r.chapter == chapter,
        r.layout@.len() == 20,
        r.discarded@.len() == 3,
        forall|k: int| 0 <= k < 20 ==> {
            let slot = #[trigger] r.layout@[k];
            &&& slot.id == k
            &&& (slot.row, slot.column, slot.visibility) == layout_positions(chapter)[k]
            &&& slot.covering_slots@ == covering_below(layout_positions(chapter), k, 20)
        },
        (slot_cards(r.layout@) + r.discarded@).to_multiset()
            == spec_chapter_cards(chapter).to_multiset(),
        slot_cards(r.layout@) + r.discarded@ == spec_deal(chapter, old(rng).0),
        final(rng).0 == rng_advanced(old(rng).0, 22),
{
    let mut deck = chapter_cards(chapter);
    rng.shuffle(&mut deck);
    let positions = chapter_layout(chapter);
    let mut layout: Vec<CardSlot> = Vec::new();
    let mut id: usize = 0;
    while id < 20
        invariant
            id <= 20,
            positions@ == layout_positions(chapter),
            positions@.len() == 20,
            deck@.len() == 23,
            layout@.len() == id,
            forall|k: int| 0 <= k < id ==> {
                let slot = #[trigger] layout@[k];
                &&& slot.id == k
                &&& (slot.row, slot.column, slot.visibility) == layout_positions(chapter)[k]
                &&& slot.covering_slots@ == covering_below(layout_positions(chapter), k, 20)
                &&& slot.card == deck@[k]
            },
        decreases 20 - id,
    {
        let (row, column, visibility) = positions[id];
        let covering = covering_slots(id, &positions);
        layout.push(CardSlot { id, row, column, visibility, card: deck[id], covering_slots: covering });
        id = id + 1;
    }
    let mut discarded: Vec<ChapterCard> = Vec::new();
    let mut k: usize = 20;
    while k < 23
        invariant
            20 <= k <= 23,
            deck@.len() == 23,
            discarded@ =~= deck@.subrange(20, k as int),
        decreases 23 - k,
    {
        discarded.push(deck[k]);
        k = k + 1;
    }
    proof {
        let cards = slot_cards(layout@);
        assert(cards =~= deck@.subrange(0, 20));
        assert(cards + discarded@ =~= deck@);
    }
    ChapterState { chapter, layout, discarded }
}


/// The position of the first Landmark with ID `id`, or -1.
pub open spec fn landmark_position(ls: Seq<LandmarkDefinition>, id: Seq<char>) -> int
    decreases ls.len(),
{
    if ls.len() == 0 {
        -1
    } else if landmark_position(ls.drop_last(), id) >= 0 {
        landmark_position(ls.drop_last(), id)
    } else if ls.last().id@ == id {
        ls.len() - 1
    } else {
        -1
    }
}

pub proof fn lemma_landmark_position(ls: Seq<LandmarkDefinition>, id: Seq<char>)
    ensures
        landmark_position(ls, id) >= 0 ==> landmark_position(ls, id) < ls.len()
            && ls[landmark_position(ls, id)].id@ == id,
        landmark_position(ls, id) >= -1,
    decreases ls.len(),
{
    if ls.len() > 0 {
        lemma_landmark_position(ls.drop_last(), id);
    }
}

proof fn lemma_landmark_position_at(ls: Seq<LandmarkDefinition>, id: Seq<char>, i: int)
    requires
        0 <= i < ls.len(),
        ls[i].id@ == id,
        forall|k: int| 0 <= k < i ==> (#[trigger] ls[k]).id@ != id,
    ensures
        landmark_position(ls, id) == i,
    decreases ls.len(),
{
    if i < ls.len() - 1 {
        lemma_landmark_position_at(ls.drop_last(), id, i);
    } else {
        lemma_landmark_position_none(ls.drop_last(), id);
    }
}

proof fn lemma_landmark_position_none(ls: Seq<LandmarkDefinition>, id: Seq<char>)
    requires
        forall|k: int| 0 <= k < ls.len() ==> (#[trigger] ls[k]).id@ != id,
    ensures
        landmark_position(ls, id) == -1,
    decreases ls.len(),
{
    if ls.len() > 0 {
        lemma_landmark_position_none(ls.drop_last(), id);
    }
}
} // verus!
