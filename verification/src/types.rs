//! Shared game vocabulary: factions, regions, Races, board state records,
//! actions and pending decisions.

use vstd::prelude::*;

use crate::card_schema;
use crate::text::{push_decimal, push_str, push_two_digits, string_of};

verus! {

pub const TOTAL_COINS: u8 = 30;
pub const QUEST_VICTORY_POSITION: u8 = 30;
pub const CARDS_PER_CHAPTER: usize = 23;
pub const CARDS_IN_LAYOUT: usize = 20;
pub const UNITS_PER_FACTION: u8 = 15;
pub const FORTRESSES_PER_FACTION: u8 = 7;

pub const REGIONS: [Region; 7] = [
    Region::Lindon,
    Region::Arnor,
    Region::Rhovanion,
    Region::Enedwaith,
    Region::Rohan,
    Region::Gondor,
    Region::Mordor,
];

pub const RACES: [Race; 6] = [
    Race::Elves,
    Race::Ents,
    Race::Hobbits,
    Race::Humans,
    Race::Dwarves,
    Race::Wizards,
];

#[derive(Debug, Clone, Copy, PartialEq, Eq, Structural, Hash)]
pub enum Faction {
    Fellowship,
    Sauron,
}

#[derive(Debug, Clone, Copy, PartialEq, Eq, Structural)]
pub enum VictoryType {
    Quest,
    RaceSupport,
    Conquest,
    TerritorialComparison,
    SharedTerritorialComparison,
}

pub open spec fn victory_type_text(v: VictoryType) -> Seq<char> {
    match v {
        VictoryType::Quest => "Quest of the Ring"@,
        VictoryType::RaceSupport => "Support of the Races"@,
        VictoryType::Conquest => "Conquering Middle-earth"@,
        VictoryType::TerritorialComparison => "final territorial comparison"@,
        VictoryType::SharedTerritorialComparison => "shared final territorial comparison"@,
    }
}

impl VictoryType {
    /// The printed name of this victory.
    pub fn text(self) -> (r: String)
        ensures
            r@ == victory_type_text(self),
    {
        match self {
            VictoryType::Quest => string_of("Quest of the Ring"),
            VictoryType::RaceSupport => string_of("Support of the Races"),
            VictoryType::Conquest => string_of("Conquering Middle-earth"),
            VictoryType::TerritorialComparison => string_of("final territorial comparison"),
            VictoryType::SharedTerritorialComparison => string_of(
                "shared final territorial comparison",
            ),
        }
    }
}

pub open spec fn spec_other(f: Faction) -> Faction {
    match f {
        Faction::Fellowship => Faction::Sauron,
        Faction::Sauron => Faction::Fellowship,
    }
}

pub open spec fn faction_text(f: Faction) -> Seq<char> {
    match f {
        Faction::Fellowship => "Fellowship"@,
        Faction::Sauron => "Sauron"@,
    }
}

/// ASCII lower-casing of one character, as `char::to_ascii_lowercase` does.
pub open spec fn ascii_lower(c: char) -> char {
    if 'A' <= c && c <= 'Z' {
        ((c as u32) + 32) as char
    } else {
        c
    }
}

pub open spec fn lowercase(s: Seq<char>) -> Seq<char> {
    s.map_values(|c: char| ascii_lower(c))
}

/// The faction named by `s`, ignoring ASCII case.
pub open spec fn spec_parse_faction(s: Seq<char>) -> Option<Faction> {
    if lowercase(s) == "fellowship"@ {
        Some(Faction::Fellowship)
    } else if lowercase(s) == "sauron"@ {
        Some(Faction::Sauron)
    } else {
        None
    }
}

/// Whether `s` spells `lower` (an all-lowercase ASCII word) ignoring ASCII case.
fn equals_ignoring_ascii_case(s: &str, lower: &str) -> (r: bool)
    requires
        forall|i: int| 0 <= i < lower@.len() ==> 'a' <= #[trigger] lower@[i] <= 'z',
    ensures
        r == (lowercase(s@) == lower@),
{
    let n = s.unicode_len();
    let m = lower.unicode_len();
    if n != m {
        proof {
            if lowercase(s@) == lower@ {
                assert(lowercase(s@).len() == s@.len());
            }
        }
        return false;
    }
    let mut i: usize = 0;
    while i < n
        invariant
            n == s@.len(),
            m == lower@.len(),
            n == m,
            i <= n,
            forall|k: int| 0 <= k < lower@.len() ==> 'a' <= #[trigger] lower@[k] <= 'z',
            forall|k: int| 0 <= k < i ==> ascii_lower(#[trigger] s@[k]) == lower@[k],
        decreases n - i,
    {
        let c = s.get_char(i);
        let e = lower.get_char(i);
        let same = c == e || ('A' <= c && c <= 'Z' && (c as u32) + 32 == (e as u32));
        proof {
            assert('a' <= e <= 'z');
            if 'A' <= c && c <= 'Z' {
                assert(same == (ascii_lower(c) == e));
            } else {
                assert(ascii_lower(c) == c);
            }
        }
        if !same {
            proof {
                assert(lowercase(s@)[i as int] == ascii_lower(s@[i as int]));
            }
            return false;
        }
        i = i + 1;
    }
    assert(lowercase(s@) =~= lower@);
    true
}

/// Parses a faction name, ignoring ASCII case (`fellowship` or `sauron`).
pub fn parse_faction(value: &str) -> (r: Option<Faction>)
    ensures
        r == spec_parse_faction(value@),
{
    proof {
        reveal_strlit("fellowship");
        reveal_strlit("sauron");
    }
    if equals_ignoring_ascii_case(value, "fellowship") {
        Some(Faction::Fellowship)
    } else if equals_ignoring_ascii_case(value, "sauron") {
        Some(Faction::Sauron)
    } else {
        None
    }
}

impl Faction {
    /// The opposing faction.
    pub fn other(self) -> (r: Self)
        ensures
            r == spec_other(self),
            r != self,
    {
        match self {
            Faction::Fellowship => Faction::Sauron,
            Faction::Sauron => Faction::Fellowship,
        }
    }

    /// The faction's printed name.
    pub fn text(self) -> (r: String)
        ensures
            r@ == faction_text(self),
    {
        match self {
            Faction::Fellowship => string_of("Fellowship"),
            Faction::Sauron => string_of("Sauron"),
        }
    }
}

/// Taking the other faction twice gives back the faction.
pub proof fn lemma_other_involutive(f: Faction)
    ensures
        spec_other(spec_other(f)) == f,
{
}

#[derive(Debug, Clone, Copy, PartialEq, Eq, Structural, Hash)]
pub enum Region {
    Lindon,
    Arnor,
    Rhovanion,
    Enedwaith,
    Rohan,
    Gondor,
    Mordor,
}

pub open spec fn region_text(r: Region) -> Seq<char> {
    match r {
        Region::Lindon => "Lindon"@,
        Region::Arnor => "Arnor"@,
        Region::Rhovanion => "Rhovanion"@,
        Region::Enedwaith => "Enedwaith"@,
        Region::Rohan => "Rohan"@,
        Region::Gondor => "Gondor"@,
        Region::Mordor => "Mordor"@,
    }
}

/// The board position of a region, in the order of `REGIONS`.
pub open spec fn region_index(r: Region) -> int {
    match r {
        Region::Lindon => 0,
        Region::Arnor => 1,
        Region::Rhovanion => 2,
        Region::Enedwaith => 3,
        Region::Rohan => 4,
        Region::Gondor => 5,
        Region::Mordor => 6,
    }
}

pub open spec fn region_at(i: int) -> Region {
    if i == 0 { Region::Lindon }
    else if i == 1 { Region::Arnor }
    else if i == 2 { Region::Rhovanion }
    else if i == 3 { Region::Enedwaith }
    else if i == 4 { Region::Rohan }
    else if i == 5 { Region::Gondor }
    else { Region::Mordor }
}

pub open spec fn all_regions() -> Seq<Region> {
    seq![
        Region::Lindon,
        Region::Arnor,
        Region::Rhovanion,
        Region::Enedwaith,
        Region::Rohan,
        Region::Gondor,
        Region::Mordor,
    ]
}

/// Connections printed on the central board.
pub open spec fn adjacent(r: Region) -> Seq<Region> {
    match r {
        Region::Lindon => seq![Region::Arnor, Region::Enedwaith],
        Region::Arnor => seq![Region::Lindon, Region::Enedwaith, Region::Rhovanion],
        Region::Rhovanion => seq![Region::Arnor, Region::Enedwaith, Region::Rohan, Region::Mordor],
        Region::Enedwaith => seq![
            Region::Lindon,
            Region::Arnor,
            Region::Rhovanion,
            Region::Rohan,
            Region::Gondor,
        ],
        Region::Rohan => seq![Region::Enedwaith, Region::Rhovanion, Region::Gondor, Region::Mordor],
        Region::Gondor => seq![Region::Enedwaith, Region::Rohan, Region::Mordor],
        Region::Mordor => seq![Region::Rhovanion, Region::Rohan, Region::Gondor],
    }
}

pub proof fn lemma_region_index(r: Region)
    ensures
        0 <= region_index(r) < 7,
        region_at(region_index(r)) == r,
        all_regions()[region_index(r)] == r,
{
}

/// Whether the board prints a connection between `a` and `b`.
pub open spec fn connected(a: Region, b: Region) -> bool {
    match a {
        Region::Lindon => b == Region::Arnor || b == Region::Enedwaith,
        Region::Arnor => b == Region::Lindon || b == Region::Enedwaith || b == Region::Rhovanion,
        Region::Rhovanion => b == Region::Arnor || b == Region::Enedwaith || b == Region::Rohan
            || b == Region::Mordor,
        Region::Enedwaith => b == Region::Lindon || b == Region::Arnor || b == Region::Rhovanion
            || b == Region::Rohan || b == Region::Gondor,
        Region::Rohan => b == Region::Enedwaith || b == Region::Rhovanion || b == Region::Gondor
            || b == Region::Mordor,
        Region::Gondor => b == Region::Enedwaith || b == Region::Rohan || b == Region::Mordor,
        Region::Mordor => b == Region::Rhovanion || b == Region::Rohan || b == Region::Gondor,
    }
}

/// A region's printed list of neighbours holds exactly its connections.
pub proof fn lemma_adjacent_lists_connections(a: Region, b: Region)
    ensures
        adjacent(a).contains(b) <==> connected(a, b),
{
    let s = adjacent(a);
    assert(forall|i: int| 0 <= i < s.len() ==> connected(a, #[trigger] s[i])) by {
        assert forall|i: int| 0 <= i < s.len() implies connected(a, #[trigger] s[i]) by {
            assert(i == 0 || i == 1 || i == 2 || i == 3 || i == 4);
        }
    }
    if connected(a, b) {
        let k: int = choose|k: int| 0 <= k < 5 && k < s.len() && s[k] == b;
        assert(exists|k: int| 0 <= k < s.len() && s[k] == b) by {
            assert(s[0] == b || s[1] == b || (s.len() > 2 && s[2] == b) || (s.len() > 3 && s[3]
                == b) || (s.len() > 4 && s[4] == b));
        }
    }
}

/// The printed connections are undirected, and no region is connected to itself.
pub proof fn lemma_connections_symmetric(a: Region, b: Region)
    ensures
        connected(a, b) <==> connected(b, a),
        !connected(a, a),
{
}

impl Region {
    /// Connections printed on the central board. The relation is undirected.
    pub fn adjacent_to(self) -> (r: Vec<Region>)
        ensures
            r@ == adjacent(self),
    {
        match self {
            Region::Lindon => vec![Region::Arnor, Region::Enedwaith],
            Region::Arnor => vec![Region::Lindon, Region::Enedwaith, Region::Rhovanion],
            Region::Rhovanion => vec![
                Region::Arnor,
                Region::Enedwaith,
                Region::Rohan,
                Region::Mordor,
            ],
            Region::Enedwaith => vec![
                Region::Lindon,
                Region::Arnor,
                Region::Rhovanion,
                Region::Rohan,
                Region::Gondor,
            ],
            Region::Rohan => vec![Region::Enedwaith, Region::Rhovanion, Region::Gondor, Region::Mordor],
            Region::Gondor => vec![Region::Enedwaith, Region::Rohan, Region::Mordor],
            Region::Mordor => vec![Region::Rhovanion, Region::Rohan, Region::Gondor],
        }
    }

    /// Whether the board prints a connection from this region to `other`.
    pub fn is_connected_to(self, other: Region) -> (r: bool)
        ensures
            r == connected(self, other),
    {
        match self {
            Region::Lindon => other == Region::Arnor || other == Region::Enedwaith,
            Region::Arnor => other == Region::Lindon || other == Region::Enedwaith || other
                == Region::Rhovanion,
            Region::Rhovanion => other == Region::Arnor || other == Region::Enedwaith || other
                == Region::Rohan || other == Region::Mordor,
            Region::Enedwaith => other == Region::Lindon || other == Region::Arnor || other
                == Region::Rhovanion || other == Region::Rohan || other == Region::Gondor,
            Region::Rohan => other == Region::Enedwaith || other == Region::Rhovanion || other
                == Region::Gondor || other == Region::Mordor,
            Region::Gondor => other == Region::Enedwaith || other == Region::Rohan || other
                == Region::Mordor,
            Region::Mordor => other == Region::Rhovanion || other == Region::Rohan || other
                == Region::Gondor,
        }
    }

    /// The region's position in `REGIONS`.
    pub fn index(self) -> (r: usize)
        ensures
            r == region_index(self),
            r < 7,
    {
        match self {
            Region::Lindon => 0,
            Region::Arnor => 1,
            Region::Rhovanion => 2,
            Region::Enedwaith => 3,
            Region::Rohan => 4,
            Region::Gondor => 5,
            Region::Mordor => 6,
        }
    }

    /// The region's printed name.
    pub fn text(self) -> (r: String)
        ensures
            r@ == region_text(self),
    {
        match self {
            Region::Lindon => string_of("Lindon"),
            Region::Arnor => string_of("Arnor"),
            Region::Rhovanion => string_of("Rhovanion"),
            Region::Enedwaith => string_of("Enedwaith"),
            Region::Rohan => string_of("Rohan"),
            Region::Gondor => string_of("Gondor"),
            Region::Mordor => string_of("Mordor"),
        }
    }

    /// The board region for a region named in catalogue data.
    pub fn from_schema(region: card_schema::Region) -> (r: Region)
        ensures
            r == spec_region_from_schema(region),
    {
        match region {
            card_schema::Region::Lindon => Region::Lindon,
            card_schema::Region::Arnor => Region::Arnor,
            card_schema::Region::Rhovanion => Region::Rhovanion,
            card_schema::Region::Enedwaith => Region::Enedwaith,
            card_schema::Region::Rohan => Region::Rohan,
            card_schema::Region::Gondor => Region::Gondor,
            card_schema::Region::Mordor => Region::Mordor,
        }
    }
}

/// The exec region at index `i` of `REGIONS`.
pub fn region_at_index(i: usize) -> (r: Region)
    requires
        i < 7,
    ensures
        r == region_at(i as int),
        region_index(r) == i,
{
    if i == 0 { Region::Lindon }
    else if i == 1 { Region::Arnor }
    else if i == 2 { Region::Rhovanion }
    else if i == 3 { Region::Enedwaith }
    else if i == 4 { Region::Rohan }
    else if i == 5 { Region::Gondor }
    else { Region::Mordor }
}

pub open spec fn spec_region_from_schema(region: card_schema::Region) -> Region {
    match region {
        card_schema::Region::Lindon => Region::Lindon,
        card_schema::Region::Arnor => Region::Arnor,
        card_schema::Region::Rhovanion => Region::Rhovanion,
        card_schema::Region::Enedwaith => Region::Enedwaith,
        card_schema::Region::Rohan => Region::Rohan,
        card_schema::Region::Gondor => Region::Gondor,
        card_schema::Region::Mordor => Region::Mordor,
    }
}

#[derive(Debug, Clone, Copy, PartialEq, Eq, Structural, Hash)]
pub enum Race {
    Elves,
    Ents,
    Hobbits,
    Humans,
    Dwarves,
    Wizards,
}

pub open spec fn race_text(r: Race) -> Seq<char> {
    match r {
        Race::Elves => "Elves"@,
        Race::Ents => "Ents"@,
        Race::Hobbits => "Hobbits"@,
        Race::Humans => "Humans"@,
        Race::Dwarves => "Dwarves"@,
        Race::Wizards => "Wizards"@,
    }
}

/// The position of a Race in `RACES`.
pub open spec fn race_index(r: Race) -> int {
    match r {
        Race::Elves => 0,
        Race::Ents => 1,
        Race::Hobbits => 2,
        Race::Humans => 3,
        Race::Dwarves => 4,
        Race::Wizards => 5,
    }
}

pub open spec fn race_at(i: int) -> Race {
    if i == 0 { Race::Elves }
    else if i == 1 { Race::Ents }
    else if i == 2 { Race::Hobbits }
    else if i == 3 { Race::Humans }
    else if i == 4 { Race::Dwarves }
    else { Race::Wizards }
}

pub open spec fn spec_race_from_schema(race: card_schema::Race) -> Race {
    match race {
        card_schema::Race::Elves => Race::Elves,
        card_schema::Race::Ents => Race::Ents,
        card_schema::Race::Hobbits => Race::Hobbits,
        card_schema::Race::Humans => Race::Humans,
        card_schema::Race::Dwarves => Race::Dwarves,
        card_schema::Race::Wizards => Race::Wizards,
    }
}

pub open spec fn spec_race_to_schema(race: Race) -> card_schema::Race {
    match race {
        Race::Elves => card_schema::Race::Elves,
        Race::Ents => card_schema::Race::Ents,
        Race::Hobbits => card_schema::Race::Hobbits,
        Race::Humans => card_schema::Race::Humans,
        Race::Dwarves => card_schema::Race::Dwarves,
        Race::Wizards => card_schema::Race::Wizards,
    }
}

/// Converting a Race to its catalogue form and back gives the same Race.
pub proof fn lemma_race_round_trip(race: Race)
    ensures
        spec_race_from_schema(spec_race_to_schema(race)) == race,
{
}

impl Race {
    /// The Race's printed name.
    pub fn text(self) -> (r: String)
        ensures
            r@ == race_text(self),
    {
        match self {
            Race::Elves => string_of("Elves"),
            Race::Ents => string_of("Ents"),
            Race::Hobbits => string_of("Hobbits"),
            Race::Humans => string_of("Humans"),
            Race::Dwarves => string_of("Dwarves"),
            Race::Wizards => string_of("Wizards"),
        }
    }

    /// The board Race for a Race named in catalogue data.
    pub fn from_schema(race: card_schema::Race) -> (r: Race)
        ensures
            r == spec_race_from_schema(race),
    {
        match race {
            card_schema::Race::Elves => Race::Elves,
            card_schema::Race::Ents => Race::Ents,
            card_schema::Race::Hobbits => Race::Hobbits,
            card_schema::Race::Humans => Race::Humans,
            card_schema::Race::Dwarves => Race::Dwarves,
            card_schema::Race::Wizards => Race::Wizards,
        }
    }

    /// The catalogue form of this Race.
    pub fn to_schema(self) -> (r: card_schema::Race)
        ensures
            r == spec_race_to_schema(self),
    {
        match self {
            Race::Elves => card_schema::Race::Elves,
            Race::Ents => card_schema::Race::Ents,
            Race::Hobbits => card_schema::Race::Hobbits,
            Race::Humans => card_schema::Race::Humans,
            Race::Dwarves => card_schema::Race::Dwarves,
            Race::Wizards => card_schema::Race::Wizards,
        }
    }

    /// The Race's position in `RACES`.
    pub fn index(self) -> (r: usize)
        ensures
            r == race_index(self),
            r < 6,
    {
        match self {
            Race::Elves => 0,
            Race::Ents => 1,
            Race::Hobbits => 2,
            Race::Humans => 3,
            Race::Dwarves => 4,
            Race::Wizards => 5,
        }
    }
}

/// The exec Race at index `i` of `RACES`.
pub fn race_at_index(i: usize) -> (r: Race)
    requires
        i < 6,
    ensures
        r == race_at(i as int),
        race_index(r) == i,
{
    if i == 0 { Race::Elves }
    else if i == 1 { Race::Ents }
    else if i == 2 { Race::Hobbits }
    else if i == 3 { Race::Humans }
    else if i == 4 { Race::Dwarves }
    else { Race::Wizards }
}

#[derive(Debug, Clone, Copy, PartialEq, Eq, Structural)]
pub enum QuestCharacter {
    FrodoAndSam,
    Nazgul,
}

impl QuestCharacter {
    /// The character's printed name.
    pub fn text(self) -> (r: String)
        ensures
            r@ == (match self {
                QuestCharacter::FrodoAndSam => "Frodo and Sam"@,
                QuestCharacter::Nazgul => "Nazgul"@,
            }),
    {
        match self {
            QuestCharacter::FrodoAndSam => string_of("Frodo and Sam"),
            QuestCharacter::Nazgul => string_of("Nazgul"),
        }
    }
}

#[derive(Debug, Clone, Copy, PartialEq, Eq, Structural)]
pub struct RegionState {
    pub region: Region,
    pub fellowship_units: u8,
    pub sauron_units: u8,
    pub fortress: Option<Faction>,
}

#[derive(Debug, Clone, PartialEq, Eq)]
pub struct PlayerState {
    pub faction: Faction,
    pub quest_character: QuestCharacter,
    pub coins: u8,
    pub units_in_supply: u8,
    pub fortresses_in_supply: u8,
    pub tableau: Vec<ChapterCard>,
    pub landmarks: Vec<String>,
    pub alliance_tokens: Vec<AllianceToken>,
    pub matched_races: Vec<Race>,
    pub claimed_three_race_alliance: bool,
    pub waives_landmark_fortress_cost: bool,
    pub landmark_grants_extra_turn: bool,
    pub used_any_skill_this_turn: bool,
}

#[derive(Debug, Clone, PartialEq, Eq)]
pub struct QuestTrack {
    /// Frodo and Sam move toward Mount Doom at position 30; the Nazgul follow
    /// behind and win by catching them.
    pub fellowship_position: u8,
    pub sauron_position: u8,
    pub bonuses: Vec<QuestBonus>,
}

#[derive(Debug, Clone, Copy, PartialEq, Eq, Structural)]
pub struct QuestBonus {
    pub position: u8,
    pub effect: QuestBonusEffect,
    pub claimed: bool,
}

#[derive(Debug, Clone, Copy, PartialEq, Eq, Structural)]
pub enum QuestBonusEffect {
    GainCoin,
    PlaceUnit,
    TakeExtraTurn,
    RemoveEnemyFortress,
}

pub open spec fn quest_bonus_effect_text(e: QuestBonusEffect) -> Seq<char> {
    match e {
        QuestBonusEffect::GainCoin => "gain 1 coin"@,
        QuestBonusEffect::PlaceUnit => "place 1 unit in any region"@,
        QuestBonusEffect::TakeExtraTurn => "take another turn"@,
        QuestBonusEffect::RemoveEnemyFortress => "remove 1 enemy fortress"@,
    }
}

impl QuestBonusEffect {
    /// The bonus's printed description.
    pub fn text(self) -> (r: String)
        ensures
            r@ == quest_bonus_effect_text(self),
    {
        match self {
            QuestBonusEffect::GainCoin => string_of("gain 1 coin"),
            QuestBonusEffect::PlaceUnit => string_of("place 1 unit in any region"),
            QuestBonusEffect::TakeExtraTurn => string_of("take another turn"),
            QuestBonusEffect::RemoveEnemyFortress => string_of("remove 1 enemy fortress"),
        }
    }
}

#[derive(Debug, Clone, PartialEq, Eq)]
pub struct AllianceStack {
    pub race: Race,
    pub token_order: Vec<u8>,
}

/// A token is public once acquired. Its numeric ID is stable within its Race
/// stack and maps to the listed effect for that Race.
#[derive(Debug, Clone, Copy, PartialEq, Eq, Structural)]
pub struct AllianceToken {
    pub race: Race,
    pub id: u8,
}

#[derive(Debug, Clone, Copy, PartialEq, Eq, Structural)]
pub enum AllianceTrigger {
    MatchingRace(Race),
    ThreeDifferentRaces,
}

impl AllianceTrigger {
    /// The trigger's description.
    pub fn text(self) -> (r: String)
        ensures
            r@ == (match self {
                AllianceTrigger::MatchingRace(race) => "the matching "@ + race_text(race)
                    + " Race symbols"@,
                AllianceTrigger::ThreeDifferentRaces => "the three different Race symbols"@,
            }),
    {
        match self {
            AllianceTrigger::MatchingRace(race) => {
                let mut s = string_of("the matching ");
                let name = race.text();
                push_str(&mut s, name.as_str());
                push_str(&mut s, " Race symbols");
                s
            },
            AllianceTrigger::ThreeDifferentRaces => string_of("the three different Race symbols"),
        }
    }
}

#[derive(Debug, Clone, Copy, PartialEq, Eq, Structural)]
pub enum CardVisibility {
    FaceUp,
    FaceDown,
}

impl CardVisibility {
    /// The visibility's printed description.
    pub fn text(self) -> (r: String)
        ensures
            r@ == (match self {
                CardVisibility::FaceUp => "face-up"@,
                CardVisibility::FaceDown => "face-down"@,
            }),
    {
        match self {
            CardVisibility::FaceUp => string_of("face-up"),
            CardVisibility::FaceDown => string_of("face-down"),
        }
    }
}

#[derive(Debug, Clone, Copy, PartialEq, Eq, Structural)]
pub struct ChapterCard {
    pub chapter: u8,
    /// Identifies the distinct face within its chapter.
    pub number: u8,
    /// Identifies a physical copy of that face (`a`, `b`, ...).
    pub copy: u8,
}

/// The printed label of a physical card, such as `C1-09a`.
pub open spec fn card_label(card: ChapterCard) -> Seq<char> {
    seq!['C'] + crate::text::decimal(card.chapter as nat) + seq!['-'] + card_schema::padded2(
        card.number as nat,
    ) + seq![copy_letter(card.copy)]
}

pub open spec fn copy_letter(copy: u8) -> char {
    if copy == 0 { 'a' }
    else if copy == 1 { 'b' }
    else if copy == 2 { 'c' }
    else { 'd' }
}

impl ChapterCard {
    /// The printed label of this physical card, such as `C1-09a`.
    pub fn text(&self) -> (r: String)
        ensures
            r@ == card_label(*self),
    {
        let mut s = string_of("C");
        push_decimal(&mut s, self.chapter as u64);
        s.push('-');
        let ghost before = s@;
        if self.number < 10 {
            s.push('0');
            push_decimal(&mut s, self.number as u64);
            proof {
                assert(crate::text::decimal(self.number as nat) == seq![crate::text::digit_char(self.number as nat)]);
            }
        } else {
            push_decimal(&mut s, self.number as u64);
        }
        proof {
            assert(s@ =~= before + card_schema::padded2(self.number as nat));
        }
        let letter = if self.copy == 0 { 'a' }
        else if self.copy == 1 { 'b' }
        else if self.copy == 2 { 'c' }
        else { 'd' };
        s.push(letter);
        proof {
            reveal_strlit("C");
            assert(s@ =~= card_label(*self));
        }
        s
    }
}

#[derive(Debug, Clone, PartialEq, Eq)]
pub struct CardSlot {
    pub id: usize,
    pub row: u8,
    pub column: u8,
    pub card: ChapterCard,
    pub visibility: CardVisibility,
    /// Slot IDs covering this card. An empty list means the card is available.
    pub covering_slots: Vec<usize>,
}

#[derive(Debug, Clone, PartialEq, Eq)]
pub struct ChapterState {
    pub chapter: u8,
    pub layout: Vec<CardSlot>,
    pub discarded: Vec<ChapterCard>,
}

/// The cards lying in a display, slot by slot.
pub open spec fn slot_cards(layout: Seq<CardSlot>) -> Seq<ChapterCard> {
    layout.map_values(|slot: CardSlot| slot.card)
}

#[derive(Debug, Clone, PartialEq, Eq)]
pub struct LandmarkState {
    pub available: Vec<String>,
    pub facedown_deck: Vec<String>,
}

/// A stable, machine-selectable action. The legal set represents the only
/// valid input for the current decision point.
#[derive(Debug, Clone, PartialEq, Eq)]
pub enum Action {
    TakeChapterCard { slot_id: usize },
    TakeLandmark { id: String },
    TakeLandmarkUsingAnySkill { id: String },
    PlaySelectedCard,
    PlaySelectedCardNormally,
    PlaySelectedCardUsingAnySkill,
    DiscardSelectedCard,
    PlaceCardUnits { region: Region },
    ResolveEmptyCardUnitPlacement,
    MoveCardUnit { from: Region, to: Region },
    RemoveCardEnemyUnit { region: Region },
    ResolveUnavailableManeuver,
    PlaceQuestBonusUnit { region: Region },
    RemoveQuestBonusFortress { region: Region },
    DiscardOpponentGreyCard { card: ChapterCard },
    PlayDiscardedCardForFree { card: ChapterCard },
    ResolveAllianceTrigger { trigger: AllianceTrigger },
    ChooseAllianceRace { race: Race },
    TakeAllianceToken { token: AllianceToken },
    ChooseEntManeuver { maneuver: EntManeuver },
    PlaceAllianceUnits { region: Region },
    AcceptQuestBonus,
    SkipQuestBonus,
}

/// Equality of actions as values: landmark IDs are compared by their text.
pub open spec fn same_action_spec(a: Action, b: Action) -> bool {
    match (a, b) {
        (Action::TakeLandmark { id: x }, Action::TakeLandmark { id: y }) => x@ == y@,
        (Action::TakeLandmarkUsingAnySkill { id: x }, Action::TakeLandmarkUsingAnySkill {
            id: y,
        }) => x@ == y@,
        _ => a == b,
    }
}

/// Whether `actions` holds an action equal in value to `action`.
pub open spec fn contains_action(actions: Seq<Action>, action: Action) -> bool {
    exists|i: int| 0 <= i < actions.len() && same_action_spec(#[trigger] actions[i], action)
}

/// Compares two actions as values.
pub fn same_action(a: &Action, b: &Action) -> (r: bool)
    ensures
        r == same_action_spec(*a, *b),
{
    match a {
        Action::PlaySelectedCard => matches!(b, Action::PlaySelectedCard),
        Action::PlaySelectedCardNormally => matches!(b, Action::PlaySelectedCardNormally),
        Action::PlaySelectedCardUsingAnySkill => matches!(b, Action::PlaySelectedCardUsingAnySkill),
        Action::DiscardSelectedCard => matches!(b, Action::DiscardSelectedCard),
        Action::ResolveEmptyCardUnitPlacement => matches!(b, Action::ResolveEmptyCardUnitPlacement),
        Action::ResolveUnavailableManeuver => matches!(b, Action::ResolveUnavailableManeuver),
        Action::AcceptQuestBonus => matches!(b, Action::AcceptQuestBonus),
        Action::SkipQuestBonus => matches!(b, Action::SkipQuestBonus),
        Action::TakeChapterCard { slot_id: x } => match b {
            Action::TakeChapterCard { slot_id: y } => *x == *y,
            _ => false,
        },
        Action::PlaceCardUnits { region: x } => match b {
            Action::PlaceCardUnits { region: y } => *x == *y,
            _ => false,
        },
        Action::RemoveCardEnemyUnit { region: x } => match b {
            Action::RemoveCardEnemyUnit { region: y } => *x == *y,
            _ => false,
        },
        Action::PlaceQuestBonusUnit { region: x } => match b {
            Action::PlaceQuestBonusUnit { region: y } => *x == *y,
            _ => false,
        },
        Action::RemoveQuestBonusFortress { region: x } => match b {
            Action::RemoveQuestBonusFortress { region: y } => *x == *y,
            _ => false,
        },
        Action::DiscardOpponentGreyCard { card: x } => match b {
            Action::DiscardOpponentGreyCard { card: y } => *x == *y,
            _ => false,
        },
        Action::PlayDiscardedCardForFree { card: x } => match b {
            Action::PlayDiscardedCardForFree { card: y } => *x == *y,
            _ => false,
        },
        Action::ResolveAllianceTrigger { trigger: x } => match b {
            Action::ResolveAllianceTrigger { trigger: y } => *x == *y,
            _ => false,
        },
        Action::ChooseAllianceRace { race: x } => match b {
            Action::ChooseAllianceRace { race: y } => *x == *y,
            _ => false,
        },
        Action::TakeAllianceToken { token: x } => match b {
            Action::TakeAllianceToken { token: y } => *x == *y,
            _ => false,
        },
        Action::ChooseEntManeuver { maneuver: x } => match b {
            Action::ChooseEntManeuver { maneuver: y } => *x == *y,
            _ => false,
        },
        Action::PlaceAllianceUnits { region: x } => match b {
            Action::PlaceAllianceUnits { region: y } => *x == *y,
            _ => false,
        },
        Action::MoveCardUnit { from: f1, to: t1 } => match b {
            Action::MoveCardUnit { from: f2, to: t2 } => *f1 == *f2 && *t1 == *t2,
            _ => false,
        },
        Action::TakeLandmark { id: x } => match b {
            Action::TakeLandmark { id: y } => *x == *y,
            _ => false,
        },
        Action::TakeLandmarkUsingAnySkill { id: x } => match b {
            Action::TakeLandmarkUsingAnySkill { id: y } => *x == *y,
            _ => false,
        },
    }
}

/// Whether `actions` holds an action equal in value to `action`.
pub fn action_in(actions: &Vec<Action>, action: &Action) -> (r: bool)
    ensures
        r == contains_action(actions@, *action),
{
    let mut i: usize = 0;
    while i < actions.len()
        invariant
            i <= actions.len(),
            forall|k: int| 0 <= k < i ==> !same_action_spec(#[trigger] actions@[k], *action),
        decreases actions.len() - i,
    {
        if same_action(&actions[i], action) {
            return true;
        }
        i = i + 1;
    }
    false
}

#[derive(Debug, Clone, Copy, PartialEq, Eq, Structural)]
pub enum EntManeuver {
    RemoveEnemyUnit,
    OpponentLosesCoin,
    MoveUnit,
}

/// A choice pauses automatic effect resolution. Only actions which answer the
/// decision are offered, never normal-turn actions at the same time.
#[derive(Debug, Clone, PartialEq, Eq)]
pub enum PendingDecision {
    CardDisposition { card: ChapterCard },
    CardUnitPlacement { player: Faction, amount: u8, regions: Vec<Region> },
    CardUnitMovement { player: Faction, remaining: u8 },
    CardEnemyUnitRemoval { player: Faction, remaining: u8 },
    QuestBonusUnitPlacement { player: Faction },
    QuestBonusFortressRemoval { player: Faction, optional: bool },
    QuestBonusChoice { player: Faction, effect: QuestBonusEffect },
    OpponentGreyCardDiscard { player: Faction },
    DiscardedCardFreePlay { player: Faction },
    AllianceTriggerChoice { player: Faction, triggers: Vec<AllianceTrigger> },
    AllianceRaceChoice { player: Faction },
    AllianceTokenChoice { player: Faction, revealed: Vec<AllianceToken> },
    EntManeuverChoice { player: Faction, remaining: u8 },
    AllianceUnitPlacement { player: Faction, remaining: u8 },
}

#[derive(Debug, Clone, PartialEq, Eq)]
pub enum GameError {
    GameOver,
    IllegalAction(Action),
}

/// The position of the first copy of `card` in `cards`.
pub fn card_position(cards: &Vec<ChapterCard>, card: ChapterCard) -> (r: Option<usize>)
    ensures
        r matches Some(p) ==> p < cards@.len() && cards@[p as int] == card && forall|k: int|
            0 <= k < p ==> cards@[k] != card,
        r is None ==> !cards@.contains(card),
{
    let mut i: usize = 0;
    while i < cards.len()
        invariant
            i <= cards@.len(),
            forall|k: int| 0 <= k < i ==> cards@[k] != card,
        decreases cards.len() - i,
    {
        if cards[i] == card {
            return Some(i);
        }
        i = i + 1;
    }
    None
}


pub open spec fn ent_maneuver_text(m: EntManeuver) -> Seq<char> {
    match m {
        EntManeuver::RemoveEnemyUnit => "remove 1 enemy Unit"@,
        EntManeuver::OpponentLosesCoin => "make the opponent lose 1 Coin"@,
        EntManeuver::MoveUnit => "move 1 Unit"@,
    }
}

impl EntManeuver {
    /// The maneuver's description.
    pub fn text(self) -> (r: String)
        ensures
            r@ == ent_maneuver_text(self),
    {
        match self {
            EntManeuver::RemoveEnemyUnit => string_of("remove 1 enemy Unit"),
            EntManeuver::OpponentLosesCoin => string_of("make the opponent lose 1 Coin"),
            EntManeuver::MoveUnit => string_of("move 1 Unit"),
        }
    }
}

pub open spec fn trigger_text(t: AllianceTrigger) -> Seq<char> {
    match t {
        AllianceTrigger::MatchingRace(race) => "the matching "@ + race_text(race) + " Race symbols"@,
        AllianceTrigger::ThreeDifferentRaces => "the three different Race symbols"@,
    }
}

/// How an action reads to a player.
pub open spec fn action_text(a: Action) -> Seq<char> {
    match a {
        Action::TakeChapterCard { slot_id } => "take available chapter card at slot "@ + crate::text::decimal(
            slot_id as nat,
        ),
        Action::TakeLandmark { id } => "take Landmark "@ + id@,
        Action::TakeLandmarkUsingAnySkill { id } => "take Landmark "@ + id@
            + ", using the Elf any-Skill effect"@,
        Action::PlaySelectedCard => "play the selected chapter card"@,
        Action::PlaySelectedCardNormally => "play the selected chapter card without using its chaining symbol"@,
        Action::PlaySelectedCardUsingAnySkill => "play the selected chapter card, using the Elf any-Skill effect"@,
        Action::DiscardSelectedCard => "discard the selected chapter card"@,
        Action::PlaceCardUnits { region } => "deploy the card's Units in "@ + region_text(region),
        Action::ResolveEmptyCardUnitPlacement => "resolve deployment (no Units remain in supply)"@,
        Action::MoveCardUnit { from, to } => "move 1 Unit from "@ + region_text(from) + " to "@
            + region_text(to),
        Action::RemoveCardEnemyUnit { region } => "remove 1 enemy Unit from "@ + region_text(region),
        Action::ResolveUnavailableManeuver => "resolve maneuver (no legal target)"@,
        Action::PlaceQuestBonusUnit { region } => "place the quest-bonus unit in "@ + region_text(region),
        Action::RemoveQuestBonusFortress { region } => "remove the enemy fortress in "@ + region_text(
            region,
        ),
        Action::DiscardOpponentGreyCard { card } => "discard the opponent's Grey card "@ + card_label(card),
        Action::PlayDiscardedCardForFree { card } => "play discarded card "@ + card_label(card)
            + " for free"@,
        Action::ResolveAllianceTrigger { trigger } => "resolve "@ + trigger_text(trigger),
        Action::ChooseAllianceRace { race } => "reveal Alliance tokens from the "@ + race_text(race)
            + " stack"@,
        Action::TakeAllianceToken { token } => "take revealed "@ + race_text(token.race) + " token "@
            + crate::text::decimal(token.id as nat),
        Action::ChooseEntManeuver { maneuver } => "Ent maneuver: "@ + ent_maneuver_text(maneuver),
        Action::PlaceAllianceUnits { region } => "place an Alliance-token Unit in "@ + region_text(region),
        Action::AcceptQuestBonus => "accept this optional quest bonus"@,
        Action::SkipQuestBonus => "skip this optional quest bonus"@,
    }
}

impl Action {
    /// How the action reads to a player.
    pub fn text(&self) -> (r: String)
        ensures
            r@ == action_text(*self),
    {
        let mut s = String::new();
        let ghost empty = s@;
        proof {
            assert(empty =~= Seq::<char>::empty());
        }
        match self {
            Action::TakeChapterCard { slot_id } => {
                push_str(&mut s, "take available chapter card at slot ");
                crate::text::push_decimal(&mut s, *slot_id as u64);
            },
            Action::TakeLandmark { id } => {
                push_str(&mut s, "take Landmark ");
                push_str(&mut s, id.as_str());
            },
            Action::TakeLandmarkUsingAnySkill { id } => {
                push_str(&mut s, "take Landmark ");
                push_str(&mut s, id.as_str());
                push_str(&mut s, ", using the Elf any-Skill effect");
            },
            Action::PlaySelectedCard => push_str(&mut s, "play the selected chapter card"),
            Action::PlaySelectedCardNormally => push_str(
                &mut s,
                "play the selected chapter card without using its chaining symbol",
            ),
            Action::PlaySelectedCardUsingAnySkill => push_str(
                &mut s,
                "play the selected chapter card, using the Elf any-Skill effect",
            ),
            Action::DiscardSelectedCard => push_str(&mut s, "discard the selected chapter card"),
            Action::PlaceCardUnits { region } => {
                push_str(&mut s, "deploy the card's Units in ");
                push_str(&mut s, region.text().as_str());
            },
            Action::ResolveEmptyCardUnitPlacement => push_str(
                &mut s,
                "resolve deployment (no Units remain in supply)",
            ),
            Action::MoveCardUnit { from, to } => {
                push_str(&mut s, "move 1 Unit from ");
                push_str(&mut s, from.text().as_str());
                push_str(&mut s, " to ");
                push_str(&mut s, to.text().as_str());
            },
            Action::RemoveCardEnemyUnit { region } => {
                push_str(&mut s, "remove 1 enemy Unit from ");
                push_str(&mut s, region.text().as_str());
            },
            Action::ResolveUnavailableManeuver => push_str(&mut s, "resolve maneuver (no legal target)"),
            Action::PlaceQuestBonusUnit { region } => {
                push_str(&mut s, "place the quest-bonus unit in ");
                push_str(&mut s, region.text().as_str());
            },
            Action::RemoveQuestBonusFortress { region } => {
                push_str(&mut s, "remove the enemy fortress in ");
                push_str(&mut s, region.text().as_str());
            },
            Action::DiscardOpponentGreyCard { card } => {
                push_str(&mut s, "discard the opponent's Grey card ");
                push_str(&mut s, card.text().as_str());
            },
            Action::PlayDiscardedCardForFree { card } => {
                push_str(&mut s, "play discarded card ");
                push_str(&mut s, card.text().as_str());
                push_str(&mut s, " for free");
            },
            Action::ResolveAllianceTrigger { trigger } => {
                push_str(&mut s, "resolve ");
                push_str(&mut s, trigger.text().as_str());
            },
            Action::ChooseAllianceRace { race } => {
                push_str(&mut s, "reveal Alliance tokens from the ");
                push_str(&mut s, race.text().as_str());
                push_str(&mut s, " stack");
            },
            Action::TakeAllianceToken { token } => {
                push_str(&mut s, "take revealed ");
                push_str(&mut s, token.race.text().as_str());
                push_str(&mut s, " token ");
                crate::text::push_decimal(&mut s, token.id as u64);
            },
            Action::ChooseEntManeuver { maneuver } => {
                push_str(&mut s, "Ent maneuver: ");
                push_str(&mut s, maneuver.text().as_str());
            },
            Action::PlaceAllianceUnits { region } => {
                push_str(&mut s, "place an Alliance-token Unit in ");
                push_str(&mut s, region.text().as_str());
            },
            Action::AcceptQuestBonus => push_str(&mut s, "accept this optional quest bonus"),
            Action::SkipQuestBonus => push_str(&mut s, "skip this optional quest bonus"),
        }
        proof {
            assert(s@ =~= action_text(*self));
        }
        s
    }
}

pub open spec fn error_text(e: GameError) -> Seq<char> {
    match e {
        GameError::GameOver => "the game is already over"@,
        GameError::IllegalAction(a) => "illegal action: "@ + action_text(a),
    }
}

impl GameError {
    /// How the error reads to a player.
    pub fn text(&self) -> (r: String)
        ensures
            r@ == error_text(*self),
    {
        match self {
            GameError::GameOver => string_of("the game is already over"),
            GameError::IllegalAction(action) => {
                let mut s = string_of("illegal action: ");
                push_str(&mut s, action.text().as_str());
                s
            },
        }
    }
}
} // verus!
