//! The authoritative game state and its transitions.

use std::collections::VecDeque;
use std::rc::Rc;

use vstd::multiset::Multiset;
use vstd::prelude::*;

use crate::alliance_schema::AllianceEffect;
use crate::catalog::{
    layout_positions, setup_chapter, valid_card, valid_token, Catalogue, DeterministicRng,
};
use crate::helpers::{printed_quest_bonuses, quest_bonuses};
use crate::types::{
    region_at, region_index, slot_cards, AllianceStack, AllianceToken, CardSlot, CardVisibility, ChapterCard,
    ChapterState, Faction, LandmarkState, PendingDecision, PlayerState, QuestBonusEffect,
    QuestCharacter, QuestTrack, Race, Region, RegionState, VictoryType, FORTRESSES_PER_FACTION,
    TOTAL_COINS, UNITS_PER_FACTION,
};

pub mod actions;
pub mod board;
pub mod chapters;
pub mod choices;
pub mod effects;
pub mod payments;
pub mod turns;
pub mod render;
pub mod privacy;
pub mod conservation;
pub mod laws;

verus! {

/// One step of automatic resolution, queued in the order the rules resolve them.
/// Printed effects are named by their card or Landmark and position, so the
/// queue never copies printed data.
#[derive(Debug, Clone, Copy, PartialEq, Eq, Structural)]
pub enum Effect {
    ResolvePlayedCard { player: Faction, card: ChapterCard, used_chain: bool },
    ResolveLandmark { player: Faction, landmark: usize },
    ResolveLandmarkEffect { player: Faction, landmark: usize, index: usize },
    ResolveRaceAllianceTriggers { player: Faction },
    ResolveAllianceToken { player: Faction, token: AllianceToken },
    ResolveAllianceEffect { player: Faction, effect: AllianceEffect },
    ResolveEntManeuvers { player: Faction, remaining: u8 },
    ResolveCardEffect { player: Faction, card: ChapterCard, index: usize },
    ResolveQuestBonus { player: Faction, effect: QuestBonusEffect },
    CheckImmediateVictoryConditions,
    RevealNewlyAvailableCards,
    CheckPostRevealEffects,
    TransitionChapterIfComplete,
    CompleteTurn { player: Faction },
}

/// A record of one automatic resolution step, in execution order.
#[derive(Debug, Clone, PartialEq, Eq)]
pub enum ResolutionEvent {
    PlayedCard { player: Faction, card: ChapterCard },
    Landmark { player: Faction, id: String },
    LandmarkEffect { player: Faction },
    RaceAllianceTriggers { player: Faction },
    AllianceToken { player: Faction, token: AllianceToken },
    AllianceEffect { player: Faction },
    EntManeuvers { player: Faction, remaining: u8 },
    CardEffect { player: Faction },
    QuestBonus { player: Faction, effect: QuestBonusEffect },
    CheckImmediateVictoryConditions,
    RevealNewlyAvailableCards,
    CheckPostRevealEffects,
    TransitionChapterIfComplete,
    CompleteTurn { player: Faction },
}

/// How much further work an effect can schedule: a played card, a Landmark or
/// a token (2) expands into printed effects (1), which at most schedule
/// decisions and quest bonuses (0).
pub open spec fn effect_rank(e: Effect) -> int {
    match e {
        Effect::ResolvePlayedCard { .. } | Effect::ResolveLandmark { .. }
        | Effect::ResolveAllianceToken { .. } => 2,
        Effect::ResolveLandmarkEffect { .. } | Effect::ResolveCardEffect { .. }
        | Effect::ResolveAllianceEffect { .. } => 1,
        _ => 0,
    }
}

/// How many queued effects have the given rank.
pub open spec fn count_rank(q: Seq<Effect>, rank: int) -> nat
    decreases q.len(),
{
    if q.len() == 0 {
        0
    } else {
        count_rank(q.drop_last(), rank) + if effect_rank(q.last()) == rank { 1nat } else { 0nat }
    }
}

/// Complete authoritative game state. `new(seed)` constructs every random setup
/// element deterministically, including each independently shuffled stack.
#[derive(Debug, Clone, PartialEq, Eq)]
pub struct Game {
    pub seed: u64,
    pub rng: DeterministicRng,
    pub active_player: Faction,
    pub turn: u32,
    pub winner: Option<Faction>,
    pub victory_type: Option<VictoryType>,
    pub shared_territory_victory: bool,
    pub fellowship: PlayerState,
    pub sauron: PlayerState,
    pub coin_reserve: u8,
    pub map: Vec<RegionState>,
    pub quest: QuestTrack,
    pub alliance_stacks: Vec<AllianceStack>,
    pub landmarks: LandmarkState,
    pub chapters: Vec<ChapterState>,
    pub current_chapter: u8,
    pub pending_decision: Option<PendingDecision>,
    pub effect_queue: VecDeque<Effect>,
    pub extra_turns: u8,
    pub catalogue: Rc<Catalogue>,
    /// Every automatic step resolved since the last action began.
    pub resolution_events: Vec<ResolutionEvent>,
}

/// How many Units `f` has on the board.
pub open spec fn units_on_map(map: Seq<RegionState>, f: Faction) -> nat
    decreases map.len(),
{
    if map.len() == 0 {
        0
    } else {
        units_on_map(map.drop_last(), f) + region_units(map.last(), f)
    }
}

pub open spec fn region_units(r: RegionState, f: Faction) -> nat {
    match f {
        Faction::Fellowship => r.fellowship_units as nat,
        Faction::Sauron => r.sauron_units as nat,
    }
}

/// How many Fortresses `f` has on the board.
pub open spec fn fortresses_on_map(map: Seq<RegionState>, f: Faction) -> nat
    decreases map.len(),
{
    if map.len() == 0 {
        0
    } else {
        fortresses_on_map(map.drop_last(), f) + if map.last().fortress == Some(f) {
            1nat
        } else {
            0nat
        }
    }
}

/// Whether `f` is present in a region: it has a Fortress or a Unit there.
pub open spec fn present(r: RegionState, f: Faction) -> bool {
    r.fortress == Some(f) || region_units(r, f) > 0
}

/// Every card reachable in the state is a printed card of a Chapter already dealt.
pub open spec fn card_dealt(card: ChapterCard, chapters: nat) -> bool {
    valid_card(card) && card.chapter <= chapters
}

pub open spec fn effect_wf(e: Effect, chapters: nat) -> bool {
    match e {
        Effect::ResolvePlayedCard { card, .. } => card_dealt(card, chapters),
        Effect::ResolveCardEffect { card, .. } => card_dealt(card, chapters),
        Effect::ResolveLandmark { landmark, .. } => landmark < 7,
        Effect::ResolveLandmarkEffect { landmark, .. } => landmark < 7,
        Effect::ResolveAllianceToken { token, .. } => valid_token(token),
        _ => true,
    }
}

pub open spec fn decision_wf(d: Option<PendingDecision>, chapters: nat) -> bool {
    match d {
        Some(PendingDecision::CardDisposition { card }) => card_dealt(card, chapters),
        Some(PendingDecision::AllianceTokenChoice { revealed, .. }) => forall|i: int|
            0 <= i < revealed@.len() ==> valid_token(#[trigger] revealed@[i]),
        _ => true,
    }
}

pub open spec fn player_wf(p: PlayerState, f: Faction, chapters: nat) -> bool {
    &&& p.faction == f
    &&& forall|i: int| 0 <= i < p.tableau@.len() ==> card_dealt(#[trigger] p.tableau@[i], chapters)
    &&& forall|i: int| 0 <= i < p.alliance_tokens@.len() ==> valid_token(
        #[trigger] p.alliance_tokens@[i],
    )
}

pub open spec fn chapter_wf(c: ChapterState, chapters: nat) -> bool {
    &&& forall|i: int| 0 <= i < c.layout@.len() ==> card_dealt(#[trigger] c.layout@[i].card, chapters)
    &&& forall|i: int| 0 <= i < c.discarded@.len() ==> card_dealt(#[trigger] c.discarded@[i], chapters)
}

/// The cards a Chapter holds: its display and its discard pile.
pub open spec fn chapter_held(c: ChapterState) -> Multiset<ChapterCard> {
    (slot_cards(c.layout@) + c.discarded@).to_multiset()
}

/// The cards all dealt Chapters hold.
pub open spec fn chapters_held(chapters: Seq<ChapterState>) -> Multiset<ChapterCard>
    decreases chapters.len(),
{
    if chapters.len() == 0 {
        Multiset::empty()
    } else {
        chapters_held(chapters.drop_last()).add(chapter_held(chapters.last()))
    }
}

/// The card waiting to be played or discarded, if any.
pub open spec fn selected_card(d: Option<PendingDecision>) -> Multiset<ChapterCard> {
    match d {
        Some(PendingDecision::CardDisposition { card }) => Multiset::singleton(card),
        _ => Multiset::empty(),
    }
}

/// The tokens a stack of the `i`th Race holds.
pub open spec fn race_tokens(i: int, order: Seq<u8>) -> Multiset<AllianceToken> {
    order.map_values(|id: u8| AllianceToken { race: crate::types::race_at(i), id }).to_multiset()
}

/// The tokens held by the first `n` stacks, the `i`th holding the `i`th Race's.
pub open spec fn order_tokens(orders: Seq<Seq<u8>>, n: int) -> Multiset<AllianceToken>
    decreases n,
{
    if n <= 0 {
        Multiset::empty()
    } else {
        order_tokens(orders, n - 1).add(race_tokens(n - 1, orders[n - 1]))
    }
}

/// The tokens revealed and waiting for a choice, if any.
pub open spec fn revealed_tokens(d: Option<PendingDecision>) -> Multiset<AllianceToken> {
    match d {
        Some(PendingDecision::AllianceTokenChoice { revealed, .. }) => revealed@.to_multiset(),
        _ => Multiset::empty(),
    }
}

/// The eighteen printed Alliance tokens: numbers 1 to 3 of each Race.
pub open spec fn printed_tokens() -> Multiset<AllianceToken> {
    order_tokens(Seq::new(6, |i: int| seq![1u8, 2u8, 3u8]), 6)
}

/// What automatic resolution never changes: each player's tableau, Landmark
/// tiles and Alliance tokens, and the discard piles of the Chapters already
/// dealt (more Chapters may be dealt).
pub open spec fn holdings_kept(a: Game, b: Game) -> bool {
    &&& b.fellowship.tableau == a.fellowship.tableau
    &&& b.sauron.tableau == a.sauron.tableau
    &&& b.fellowship.landmarks == a.fellowship.landmarks
    &&& b.sauron.landmarks == a.sauron.landmarks
    &&& b.fellowship.alliance_tokens == a.fellowship.alliance_tokens
    &&& b.sauron.alliance_tokens == a.sauron.alliance_tokens
    &&& a.chapters@.len() <= b.chapters@.len()
    &&& forall|i: int| 0 <= i < a.chapters@.len() ==> (#[trigger] b.chapters@[i]).discarded == a.chapters@[i].discarded
}

/// The IDs of the printed Landmark tiles, in catalogue order.
pub open spec fn printed_landmark_ids(cat: Catalogue) -> Seq<String> {
    cat.landmarks@.map_values(|l: crate::landmark_schema::LandmarkDefinition| l.id)
}

/// Every printed card of the first `n` Chapters.
pub open spec fn dealt_cards(n: nat) -> Multiset<ChapterCard>
    decreases n,
{
    if n == 0 {
        Multiset::empty()
    } else {
        dealt_cards((n - 1) as nat).add(crate::catalog::spec_chapter_cards(n as u8).to_multiset())
    }
}

impl Game {
    /// The state of one faction's player.
    pub open spec fn player_of(&self, f: Faction) -> PlayerState {
        match f {
            Faction::Fellowship => self.fellowship,
            Faction::Sauron => self.sauron,
        }
    }

    /// This state with one player's record replaced.
    pub open spec fn with_player(self, f: Faction, p: PlayerState) -> Game {
        match f {
            Faction::Fellowship => Game { fellowship: p, ..self },
            Faction::Sauron => Game { sauron: p, ..self },
        }
    }

    pub open spec fn spec_is_over(&self) -> bool {
        self.winner is Some || self.shared_territory_victory
    }

    /// Where the Chapter cards lie: in the dealt Chapters' displays and
    /// discard piles, in the two tableaus, and in the selected card.
    pub open spec fn located_cards(&self) -> Multiset<ChapterCard> {
        chapters_held(self.chapters@).add(self.fellowship.tableau@.to_multiset()).add(
            self.sauron.tableau@.to_multiset(),
        ).add(selected_card(self.pending_decision))
    }

    /// Every card of every dealt Chapter lies in exactly one place.
    pub open spec fn cards_kept(&self) -> bool {
        self.located_cards() == dealt_cards(self.chapters@.len())
    }

    /// Where the Alliance tokens lie: in the Race stacks, with the two
    /// players, and among the tokens revealed for a choice.
    pub open spec fn located_tokens(&self) -> Multiset<AllianceToken> {
        order_tokens(self.alliance_stacks@.map_values(|s: AllianceStack| s.token_order@), 6).add(
            self.fellowship.alliance_tokens@.to_multiset(),
        ).add(self.sauron.alliance_tokens@.to_multiset()).add(revealed_tokens(self.pending_decision))
    }

    /// Every printed Alliance token lies in exactly one place.
    pub open spec fn tokens_kept(&self) -> bool {
        self.located_tokens() == printed_tokens()
    }

    /// Where the Landmark tiles lie: on offer, in the face-down deck, and in
    /// the two players' hands.
    pub open spec fn located_landmarks(&self) -> Multiset<String> {
        self.landmarks.available@.to_multiset().add(self.landmarks.facedown_deck@.to_multiset()).add(
            self.fellowship.landmarks@.to_multiset(),
        ).add(self.sauron.landmarks@.to_multiset())
    }

    /// Every printed Landmark tile lies in exactly one place.
    pub open spec fn landmarks_kept(&self) -> bool {
        self.located_landmarks() == printed_landmark_ids(*self.catalogue).to_multiset()
    }

    /// The board: seven regions in `REGIONS` order, with conflicts resolved.
    pub open spec fn board_wf(&self) -> bool {
        &&& self.map@.len() == 7
        &&& forall|i: int| 0 <= i < 7 ==> (#[trigger] self.map@[i]).region == region_at(i)
        &&& forall|i: int|
            0 <= i < 7 ==> !((#[trigger] self.map@[i]).fellowship_units > 0
                && self.map@[i].sauron_units > 0)
    }

    /// The physical components are conserved: 30 coins in all, 15 Units and 7
    /// Fortresses for each faction, on the board or in supply.
    pub open spec fn conserved(&self) -> bool {
        &&& self.fellowship.coins + self.sauron.coins + self.coin_reserve == TOTAL_COINS
        &&& units_on_map(self.map@, Faction::Fellowship) + self.fellowship.units_in_supply
            == UNITS_PER_FACTION
        &&& units_on_map(self.map@, Faction::Sauron) + self.sauron.units_in_supply
            == UNITS_PER_FACTION
        &&& fortresses_on_map(self.map@, Faction::Fellowship) + self.fellowship.fortresses_in_supply
            == FORTRESSES_PER_FACTION
        &&& fortresses_on_map(self.map@, Faction::Sauron) + self.sauron.fortresses_in_supply
            == FORTRESSES_PER_FACTION
    }

    /// The structure every state reachable by play keeps; kept opaque so that
    /// board arithmetic is proved without it.
    #[verifier::opaque]
    pub open spec fn structure_wf(&self) -> bool {
        self.structure_parts()
    }

    pub proof fn lemma_structure(g: Game)
        requires
            g.structure_wf(),
        ensures
            g.structure_parts(),
    {
        reveal(Game::structure_wf);
    }

    /// A change of the pending decision or the queue keeps the structure when
    /// the new ones are well formed.
    pub proof fn lemma_structure_update(a: Game, b: Game)
        requires
            a.structure_wf(),
            b.catalogue == a.catalogue,
            b.current_chapter == a.current_chapter,
            b.chapters == a.chapters,
            b.alliance_stacks == a.alliance_stacks,
            b.quest == a.quest,
            b.fellowship.faction == a.fellowship.faction,
            b.fellowship.tableau == a.fellowship.tableau,
            b.fellowship.alliance_tokens == a.fellowship.alliance_tokens,
            b.sauron.faction == a.sauron.faction,
            b.sauron.tableau == a.sauron.tableau,
            b.sauron.alliance_tokens == a.sauron.alliance_tokens,
            b.landmarks == a.landmarks,
            b.fellowship.landmarks == a.fellowship.landmarks,
            b.sauron.landmarks == a.sauron.landmarks,
            decision_wf(b.pending_decision, b.chapters@.len()),
            selected_card(b.pending_decision) == selected_card(a.pending_decision),
            revealed_tokens(b.pending_decision) == revealed_tokens(a.pending_decision),
            forall|i: int| 0 <= i < b.effect_queue@.len() ==> effect_wf(#[trigger] b.effect_queue@[i], b.chapters@.len()),
        ensures
            b.structure_wf(),
    {
        reveal(Game::structure_wf);
    }

    pub proof fn lemma_establish(g: Game)
        requires
            g.structure_parts(),
        ensures
            g.structure_wf(),
    {
        reveal(Game::structure_wf);
    }

    /// The parts of the structure invariant.
    pub open spec fn structure_parts(&self) -> bool {
        self.structure_core() && self.cards_kept() && self.tokens_kept()
    }

    /// A state that is well formed but for one dealt card held in hand: the
    /// card lies in no location, and every other card lies in exactly one.
    pub open spec fn wf_holding(&self, card: ChapterCard) -> bool {
        &&& self.board_wf()
        &&& self.conserved()
        &&& self.structure_core()
        &&& self.tokens_kept()
        &&& card_dealt(card, self.chapters@.len())
        &&& self.located_cards().insert(card) == dealt_cards(self.chapters@.len())
    }

    /// A state that is well formed but for the Alliance tokens in `hand`:
    /// they lie in no location, and every other token lies in exactly one.
    pub open spec fn wf_holding_tokens(&self, hand: Multiset<AllianceToken>) -> bool {
        &&& self.board_wf()
        &&& self.conserved()
        &&& self.structure_core()
        &&& self.cards_kept()
        &&& self.located_tokens().add(hand) == printed_tokens()
    }

    /// Everything the structure invariant says but where the cards lie.
    pub open spec fn structure_core(&self) -> bool {
        let n = self.chapters@.len();
        &&& self.catalogue.wf()
        &&& 1 <= self.current_chapter <= 3
        &&& n == self.current_chapter
        &&& forall|i: int| 0 <= i < n ==> chapter_wf(#[trigger] self.chapters@[i], n)
        &&& player_wf(self.fellowship, Faction::Fellowship, n)
        &&& player_wf(self.sauron, Faction::Sauron, n)
        &&& decision_wf(self.pending_decision, n)
        &&& forall|i: int| 0 <= i < self.effect_queue@.len() ==> effect_wf(#[trigger] self.effect_queue@[i], n)
        &&& self.alliance_stacks@.len() == 6
        &&& forall|i: int| 0 <= i < 6 ==> (#[trigger] self.alliance_stacks@[i]).race == crate::types::race_at(i)
        &&& forall|i: int, k: int|
            0 <= i < 6 && 0 <= k < self.alliance_stacks@[i].token_order@.len() ==> 1
                <= #[trigger] self.alliance_stacks@[i].token_order@[k] <= 3
        &&& self.quest.fellowship_position <= 30
        &&& self.quest.sauron_position <= 30
        &&& self.quest.bonuses@.len() == 8
        &&& forall|i: int| 0 <= i < 8 ==> (#[trigger] self.quest.bonuses@[i]).position
            == printed_quest_bonuses()[i].position
        &&& self.landmarks_kept()
    }

    /// Two states that agree on everything the structure invariant reads.
    pub open spec fn same_structure(&self, b: Game) -> bool {
        &&& b.catalogue == self.catalogue
        &&& b.current_chapter == self.current_chapter
        &&& b.chapters == self.chapters
        &&& b.pending_decision == self.pending_decision
        &&& b.effect_queue == self.effect_queue
        &&& b.alliance_stacks == self.alliance_stacks
        &&& b.quest == self.quest
        &&& b.fellowship.faction == self.fellowship.faction
        &&& b.fellowship.tableau == self.fellowship.tableau
        &&& b.fellowship.alliance_tokens == self.fellowship.alliance_tokens
        &&& b.sauron.faction == self.sauron.faction
        &&& b.sauron.tableau == self.sauron.tableau
        &&& b.sauron.alliance_tokens == self.sauron.alliance_tokens
        &&& b.landmarks == self.landmarks
        &&& b.fellowship.landmarks == self.fellowship.landmarks
        &&& b.sauron.landmarks == self.sauron.landmarks
    }

    pub proof fn lemma_structure_kept(a: Game, b: Game)
        requires
            a.structure_wf(),
            a.same_structure(b),
        ensures
            b.structure_wf(),
    {
        reveal(Game::structure_wf);
    }

    pub open spec fn wf(&self) -> bool {
        &&& self.board_wf()
        &&& self.conserved()
        &&& self.structure_wf()
    }

    /// The state of one faction's player.
    pub fn player(&self, faction: Faction) -> (r: &PlayerState)
        ensures
            *r == self.player_of(faction),
    {
        match faction {
            Faction::Fellowship => &self.fellowship,
            Faction::Sauron => &self.sauron,
        }
    }

    pub fn seed(&self) -> (r: u64)
        ensures
            r == self.seed,
    {
        self.seed
    }

    pub fn active_player(&self) -> (r: Faction)
        ensures
            r == self.active_player,
    {
        self.active_player
    }

    pub fn turn(&self) -> (r: u32)
        ensures
            r == self.turn,
    {
        self.turn
    }

    pub fn winner(&self) -> (r: Option<Faction>)
        ensures
            r == self.winner,
    {
        self.winner
    }

    pub fn victory_type(&self) -> (r: Option<VictoryType>)
        ensures
            r == self.victory_type,
    {
        self.victory_type
    }

    pub fn is_shared_victory(&self) -> (r: bool)
        ensures
            r == self.shared_territory_victory,
    {
        self.shared_territory_victory
    }

    /// A game is over once it has a winner or ends in a shared victory.
    pub fn is_over(&self) -> (r: bool)
        ensures
            r == self.spec_is_over(),
    {
        self.winner.is_some() || self.shared_territory_victory
    }
}

/// Every card taken, played or discarded so far, Chapter by Chapter.
pub open spec fn all_discarded(chapters: Seq<ChapterState>) -> Seq<ChapterCard>
    decreases chapters.len(),
{
    if chapters.len() == 0 {
        seq![]
    } else {
        all_discarded(chapters.drop_last()) + chapters.last().discarded@
    }
}

/// Whether no slot still in `layout` has the given ID.
pub open spec fn slot_absent(layout: Seq<CardSlot>, id: usize) -> bool {
    forall|k: int| 0 <= k < layout.len() ==> (#[trigger] layout[k]).id != id
}

/// A card can be taken when it lies face up and none of its covering cards
/// remains in the display.
pub open spec fn slot_available(layout: Seq<CardSlot>, slot: CardSlot) -> bool {
    slot.visibility == CardVisibility::FaceUp && forall|c: int|
        0 <= c < slot.covering_slots@.len() ==> slot_absent(layout, #[trigger] slot.covering_slots@[c])
}

/// The IDs of the available slots among the first `n`, in display order.
pub open spec fn available_ids(layout: Seq<CardSlot>, n: int) -> Seq<usize>
    decreases n,
{
    if n <= 0 {
        seq![]
    } else {
        available_ids(layout, n - 1) + if slot_available(layout, layout[n - 1]) {
            seq![layout[n - 1].id]
        } else {
            seq![]
        }
    }
}

impl Game {
    /// The current Chapter's display and discard pile.
    pub open spec fn current(&self) -> ChapterState {
        self.chapters@[self.current_chapter - 1]
    }

    /// Mutable access to one player's record; the rest of the game is untouched.
    pub fn player_mut(&mut self, faction: Faction) -> (r: &mut PlayerState)
        ensures
            *r == old(self).player_of(faction),
            *final(self) == old(self).with_player(faction, *final(r)),
    {
        match faction {
            Faction::Fellowship => &mut self.fellowship,
            Faction::Sauron => &mut self.sauron,
        }
    }
}

fn fresh_player(faction: Faction, character: QuestCharacter, coins: u8) -> (p: PlayerState)
    ensures
        p.faction == faction,
        p.quest_character == character,
        p.coins == coins,
        p.units_in_supply == 13,
        p.fortresses_in_supply == 7,
        p.tableau@.len() == 0,
        p.landmarks@.len() == 0,
        p.alliance_tokens@.len() == 0,
        p.matched_races@.len() == 0,
        !p.claimed_three_race_alliance,
        !p.waives_landmark_fortress_cost,
        !p.landmark_grants_extra_turn,
        !p.used_any_skill_this_turn,
{
    PlayerState {
        faction,
        quest_character: character,
        coins,
        units_in_supply: 13,
        fortresses_in_supply: 7,
        tableau: Vec::new(),
        landmarks: Vec::new(),
        alliance_tokens: Vec::new(),
        matched_races: Vec::new(),
        claimed_three_race_alliance: false,
        waives_landmark_fortress_cost: false,
        landmark_grants_extra_turn: false,
        used_any_skill_this_turn: false,
    }
}

/// The starting board: two Fellowship Units in Arnor, two Sauron Units in
/// Mordor, no Fortresses.
pub open spec fn starting_region(i: int) -> RegionState {
    RegionState {
        region: region_at(i),
        fellowship_units: if i == 1 { 2 } else { 0 },
        sauron_units: if i == 6 { 2 } else { 0 },
        fortress: None,
    }
}

fn starting_map() -> (m: Vec<RegionState>)
    ensures
        m@.len() == 7,
        forall|i: int| 0 <= i < 7 ==> #[trigger] m@[i] == starting_region(i),
        units_on_map(m@, Faction::Fellowship) == 2,
        units_on_map(m@, Faction::Sauron) == 2,
        fortresses_on_map(m@, Faction::Fellowship) == 0,
        fortresses_on_map(m@, Faction::Sauron) == 0,
{
    let mut m: Vec<RegionState> = Vec::new();
    let mut i: usize = 0;
    while i < 7
        invariant
            i <= 7,
            m@.len() == i,
            forall|k: int| 0 <= k < i ==> #[trigger] m@[k] == starting_region(k),
        decreases 7 - i,
    {
        let region = crate::types::region_at_index(i);
        m.push(RegionState {
            region,
            fellowship_units: if i == 1 { 2 } else { 0 },
            sauron_units: if i == 6 { 2 } else { 0 },
            fortress: None,
        });
        i = i + 1;
    }
    proof {
        reveal_with_fuel(units_on_map, 8);
        reveal_with_fuel(fortresses_on_map, 8);
        assert(m@ =~= seq![starting_region(0), starting_region(1), starting_region(2),
            starting_region(3), starting_region(4), starting_region(5), starting_region(6)]);
    }
    m
}

/// The Landmark IDs in the order the generator set up from `seed` lays them
/// out: the first three are offered, the rest lie face down.
pub open spec fn landmark_offer(seed: u64) -> Seq<Seq<char>> {
    crate::catalog::spec_shuffle(seq![0usize, 1, 2, 3, 4, 5, 6], crate::catalog::rng_advanced(seed, 12)).map_values(
        |i: usize| crate::catalog::printed_landmark_names()[i as int],
    )
}

/// `g` is the game set up from `seed`. The generator, seeded with `seed`,
/// shuffles each Race's token stack in Race order (two draws each), then the
/// Landmark tiles (six draws), then deals the first Chapter (twenty-two
/// draws). Nobody holds a card, Landmark or token yet, and every component
/// lies in exactly one place.
#[verifier::opaque]
pub open spec fn set_up_from(g: Game, seed: u64) -> bool {
    let first = g.chapters@[0];
    &&& g.seed == seed
    &&& g.rng.0 == crate::catalog::rng_advanced(seed, 40)
    &&& g.alliance_stacks@.len() == 6
    &&& forall|i: int| 0 <= i < 6 ==> {
        &&& (#[trigger] g.alliance_stacks@[i]).race == crate::types::race_at(i)
        &&& g.alliance_stacks@[i].token_order@ == crate::catalog::spec_shuffle(
            seq![1u8, 2u8, 3u8],
            crate::catalog::rng_advanced(seed, (2 * i) as nat),
        )
    }
    &&& g.catalogue.landmarks@.map_values(|l: crate::landmark_schema::LandmarkDefinition| l.id@)
        == crate::catalog::printed_landmark_names()
    &&& g.landmarks.available@.map_values(|x: String| x@) == landmark_offer(seed).subrange(0, 3)
    &&& g.landmarks.facedown_deck@.map_values(|x: String| x@) == landmark_offer(seed).subrange(3, 7)
    &&& g.chapters@.len() == 1
    &&& first.chapter == 1
    &&& slot_cards(first.layout@) + first.discarded@ == crate::catalog::spec_deal(
        1,
        crate::catalog::rng_advanced(seed, 18),
    )
    &&& forall|k: int| 0 <= k < 20 ==> {
        let slot = #[trigger] first.layout@[k];
        &&& slot.id == k
        &&& (slot.row, slot.column, slot.visibility) == layout_positions(1)[k]
        &&& slot.covering_slots@ == crate::catalog::covering_below(layout_positions(1), k, 20)
    }
    &&& g.fellowship.tableau@.len() == 0 && g.sauron.tableau@.len() == 0
    &&& g.fellowship.landmarks@.len() == 0 && g.sauron.landmarks@.len() == 0
    &&& g.fellowship.alliance_tokens@.len() == 0 && g.sauron.alliance_tokens@.len() == 0
    &&& g.located_cards() == dealt_cards(1)
    &&& g.located_tokens() == printed_tokens()
    &&& g.located_landmarks() == printed_landmark_ids(*g.catalogue).to_multiset()
}

/// Each Race's token stack, shuffled in Race order by `rng` (two draws each).
fn shuffled_stacks(rng: &mut DeterministicRng) -> (stacks: Vec<AllianceStack>)
    ensures
        final(rng).0 == crate::catalog::rng_advanced(old(rng).0, 12),
        stacks@.len() == 6,
        forall|i: int| 0 <= i < 6 ==> (#[trigger] stacks@[i]).race == crate::types::race_at(i),
        forall|i: int| 0 <= i < 6 ==> (#[trigger] stacks@[i]).token_order@.to_multiset()
            == seq![1u8, 2u8, 3u8].to_multiset(),
        forall|i: int| 0 <= i < 6 ==> (#[trigger] stacks@[i]).token_order@.len() == 3,
        forall|i: int| 0 <= i < 6 ==> race_tokens(i, #[trigger] stacks@[i].token_order@) == race_tokens(
            i,
            seq![1u8, 2u8, 3u8],
        ),
        forall|i: int| 0 <= i < 6 ==> (#[trigger] stacks@[i]).token_order@ == crate::catalog::spec_shuffle(
            seq![1u8, 2u8, 3u8],
            crate::catalog::rng_advanced(old(rng).0, (2 * i) as nat),
        ),
        forall|i: int, k: int| 0 <= i < 6 && 0 <= k < stacks@[i].token_order@.len() ==> 1
            <= #[trigger] stacks@[i].token_order@[k] <= 3,
{
    let ghost seed = rng.0;
    proof {
    assert(crate::catalog::rng_advanced(seed, 0) == seed) by {
        assert((seed as nat + 0 * (crate::catalog::RNG_GAMMA as nat)) % 0x1_0000_0000_0000_0000 == seed as nat);
    }
    }
    let mut stacks: Vec<AllianceStack> = Vec::new();
    let mut r: usize = 0;
    while r < 6
        invariant
            r <= 6,
            stacks@.len() == r,
            forall|i: int| 0 <= i < r ==> (#[trigger] stacks@[i]).race == crate::types::race_at(i),
            forall|i: int| 0 <= i < r ==> (#[trigger] stacks@[i]).token_order@.to_multiset()
                == seq![1u8, 2u8, 3u8].to_multiset(),
            forall|i: int| 0 <= i < r ==> (#[trigger] stacks@[i]).token_order@.len() == 3,
            forall|i: int| 0 <= i < r ==> race_tokens(i, #[trigger] stacks@[i].token_order@) == race_tokens(
                i,
                seq![1u8, 2u8, 3u8],
            ),
            forall|i: int| 0 <= i < r ==> (#[trigger] stacks@[i]).token_order@ == crate::catalog::spec_shuffle(
                seq![1u8, 2u8, 3u8],
                crate::catalog::rng_advanced(seed, (2 * i) as nat),
            ),
            rng.0 == crate::catalog::rng_advanced(seed, (2 * r) as nat),
        decreases 6 - r,
    {
        let mut order: Vec<u8> = vec![1, 2, 3];
        let ghost before = order@;
        proof {
            crate::catalog::lemma_rng_compose(seed, (2 * r) as nat, 2);
        }
        rng.shuffle(&mut order);
        assert(before =~= seq![1u8, 2u8, 3u8]);
        proof {
            lemma_map_permutation(
                order@,
                seq![1u8, 2u8, 3u8],
                |id: u8| AllianceToken { race: crate::types::race_at(r as int), id },
            );
        }
        stacks.push(AllianceStack { race: crate::types::race_at_index(r), token_order: order });
        r = r + 1;
    }
    proof {
        assert forall|i: int, k: int|
            0 <= i < 6 && 0 <= k < stacks@[i].token_order@.len() implies 1
                <= #[trigger] stacks@[i].token_order@[k] <= 3 by {
            let t = stacks@[i].token_order@;
            vstd::seq_lib::to_multiset_contains(t, t[k]);
            broadcast use vstd::seq_lib::to_multiset_contains;
            assert(t.contains(t[k]));
            assert(seq![1u8, 2u8, 3u8].contains(t[k]));
        }
    }
    stacks
}

/// The Landmark tiles laid out by `rng` (six draws): three offered, four
/// face down.
fn laid_out_landmarks(catalogue: &Catalogue, rng: &mut DeterministicRng) -> (r: (Vec<String>, Vec<String>))
    requires
        catalogue.wf(),
        catalogue.landmarks@.map_values(|l: crate::landmark_schema::LandmarkDefinition| l.id@)
            == crate::catalog::printed_landmark_names(),
    ensures
        final(rng).0 == crate::catalog::rng_advanced(old(rng).0, 6),
        r.0@.len() == 3,
        r.1@.len() == 4,
        (r.0@ + r.1@).to_multiset() == printed_landmark_ids(*catalogue).to_multiset(),
        r.0@.to_multiset().add(r.1@.to_multiset()) == printed_landmark_ids(*catalogue).to_multiset(),
        r.0@.map_values(|x: String| x@) == crate::catalog::spec_shuffle(
            seq![0usize, 1, 2, 3, 4, 5, 6],
            old(rng).0,
        ).map_values(|i: usize| crate::catalog::printed_landmark_names()[i as int]).subrange(0, 3),
        r.1@.map_values(|x: String| x@) == crate::catalog::spec_shuffle(
            seq![0usize, 1, 2, 3, 4, 5, 6],
            old(rng).0,
        ).map_values(|i: usize| crate::catalog::printed_landmark_names()[i as int]).subrange(3, 7),
{
    let ghost start = rng.0;
    let ids = catalogue.landmark_ids();
    let mut order: Vec<usize> = vec![0, 1, 2, 3, 4, 5, 6];
    let ghost unshuffled = order@;
    proof {
        assert(unshuffled =~= seq![0usize, 1, 2, 3, 4, 5, 6]);
    }
    rng.shuffle(&mut order);
    let mut available: Vec<String> = Vec::new();
    let mut facedown: Vec<String> = Vec::new();
    let mut k: usize = 0;
    while k < 7
        invariant
            k <= 7,
            ids@.len() == 7,
            order@.len() == 7,
            order@.to_multiset() == seq![0usize, 1, 2, 3, 4, 5, 6].to_multiset(),
            available@.len() == if k < 3 { k as int } else { 3 },
            facedown@.len() == if k < 3 { 0 } else { k - 3 },
            available@ + facedown@ == order@.subrange(0, k as int).map_values(|i: usize| ids@[i as int]),
        decreases 7 - k,
    {
        let position = order[k];
        proof {
            broadcast use vstd::seq_lib::to_multiset_contains;
            vstd::seq_lib::to_multiset_contains(order@, position);
            vstd::seq_lib::to_multiset_contains(seq![0usize, 1, 2, 3, 4, 5, 6], position);
            assert(order@.contains(order@[k as int]));
            assert(seq![0usize, 1, 2, 3, 4, 5, 6].contains(position));
        }
        let id = ids[position].clone();
        let ghost so_far = available@ + facedown@;
        if k < 3 {
            available.push(id);
        } else {
            facedown.push(id);
        }
        proof {
            assert(available@ + facedown@ =~= so_far.push(id));
            assert(order@.subrange(0, k + 1).map_values(|i: usize| ids@[i as int]) =~= order@.subrange(
                0,
                k as int,
            ).map_values(|i: usize| ids@[i as int]).push(ids@[position as int]));
        }
        k = k + 1;
    }
    proof {
        let f = |i: usize| ids@[i as int];
        let printed = seq![0usize, 1, 2, 3, 4, 5, 6];
        assert(order@.subrange(0, 7) =~= order@);
        lemma_map_permutation(order@, printed, f);
        assert(printed.map_values(f) =~= ids@);
        assert(ids@ =~= printed_landmark_ids(*catalogue));
        vstd::seq_lib::lemma_multiset_commutative(available@, facedown@);
    }
    proof {
        let names = order@.map_values(|i: usize| crate::catalog::printed_landmark_names()[i as int]);
        let f = |i: usize| ids@[i as int];
        assert(available@ + facedown@ == order@.map_values(f)) by {
            assert(order@.subrange(0, 7) =~= order@);
        }
        assert forall|j: int| 0 <= j < 7 implies #[trigger] order@.map_values(f)[j]@ == names[j] by {
            broadcast use vstd::seq_lib::to_multiset_contains;
            let i = order@[j];
            vstd::seq_lib::to_multiset_contains(order@, i);
            vstd::seq_lib::to_multiset_contains(seq![0usize, 1, 2, 3, 4, 5, 6], i);
            assert(order@.contains(i));
            assert(seq![0usize, 1, 2, 3, 4, 5, 6].contains(i));
            assert(ids@[i as int] == catalogue.landmarks@[i as int].id);
            assert(catalogue.landmarks@.map_values(|l: crate::landmark_schema::LandmarkDefinition| l.id@)[i as int]
                == catalogue.landmarks@[i as int].id@);
        }
        assert(available@.map_values(|x: String| x@) =~= names.subrange(0, 3)) by {
            assert forall|j: int| 0 <= j < 3 implies available@[j] == order@.map_values(f)[j] by {
                assert((available@ + facedown@)[j] == available@[j]);
            }
        }
        assert(facedown@.map_values(|x: String| x@) =~= names.subrange(3, 7)) by {
            assert forall|j: int| 0 <= j < 4 implies facedown@[j] == order@.map_values(f)[j + 3] by {
                assert((available@ + facedown@)[j + 3] == facedown@[j]);
            }
        }
    }
    (available, facedown)
}

/// Setup is replayable: two games set up from the same seed have the same
/// token stacks, the same Landmark offer and face-down tiles, the same first
/// Chapter display and discards, and their generators stand at the same
/// state.
pub proof fn law_setup_is_replayable(a: Game, b: Game, seed: u64)
    requires
        set_up_from(a, seed),
        set_up_from(b, seed),
    ensures
        a.rng == b.rng,
        a.alliance_stacks@.map_values(|st: AllianceStack| st.token_order@) == b.alliance_stacks@.map_values(
            |st: AllianceStack| st.token_order@,
        ),
        a.landmarks.available@.map_values(|x: String| x@) == b.landmarks.available@.map_values(|x: String| x@),
        a.landmarks.facedown_deck@.map_values(|x: String| x@) == b.landmarks.facedown_deck@.map_values(
            |x: String| x@,
        ),
        slot_cards(a.chapters@[0].layout@) + a.chapters@[0].discarded@ == slot_cards(b.chapters@[0].layout@)
            + b.chapters@[0].discarded@,
{
    reveal(set_up_from);
    assert(a.alliance_stacks@.map_values(|st: AllianceStack| st.token_order@) =~= b.alliance_stacks@.map_values(
        |st: AllianceStack| st.token_order@,
    ));
}

impl Game {
    /// Sets up a game. The seed determines every shuffled element: each Race's
    /// Alliance-token stack, the Landmark order and the first Chapter's deck.
    #[verifier::rlimit(100)]
    #[verifier::spinoff_prover]
    pub fn new(seed: u64) -> (g: Game)
        ensures
            g.wf(),
            g.seed == seed,
            g.active_player == Faction::Sauron,
            g.turn == 0,
            g.winner is None,
            g.victory_type is None,
            !g.shared_territory_victory,
            g.fellowship.coins == 3,
            g.sauron.coins == 2,
            g.coin_reserve == 25,
            g.fellowship.units_in_supply == 13,
            g.sauron.units_in_supply == 13,
            forall|i: int| 0 <= i < 7 ==> #[trigger] g.map@[i] == starting_region(i),
            g.quest.fellowship_position == 15,
            g.quest.sauron_position == 0,
            g.quest.bonuses@ == printed_quest_bonuses(),
            g.current_chapter == 1,
            g.chapters@.len() == 1,
            g.chapters@[0].layout@.len() == 20,
            g.chapters@[0].discarded@.len() == 3,
            g.landmarks.available@.len() == 3,
            g.landmarks.facedown_deck@.len() == 4,
            g.pending_decision is None,
            g.effect_queue@.len() == 0,
            g.extra_turns == 0,
            forall|i: int| 0 <= i < 6 ==> (#[trigger] g.alliance_stacks@[i]).token_order@.to_multiset()
                == seq![1u8, 2u8, 3u8].to_multiset(),
            set_up_from(g, seed),
    {
        let catalogue = Catalogue::new();
        let mut rng = DeterministicRng::new(seed);
        let stacks = shuffled_stacks(&mut rng);
        let (available, facedown) = laid_out_landmarks(&catalogue, &mut rng);
        proof {
            crate::catalog::lemma_rng_compose(seed, 12, 6);
            crate::catalog::lemma_rng_compose(seed, 18, 22);
        }
        let first = setup_chapter(1, &mut rng);
        let mut chapters: Vec<ChapterState> = Vec::new();
        proof {
            lemma_dealt_chapter(first, 1);
        }
        let ghost dealt = first;
        chapters.push(first);
        let map = starting_map();
        let g = Game {
            seed,
            rng,
            active_player: Faction::Sauron,
            turn: 0,
            winner: None,
            victory_type: None,
            shared_territory_victory: false,
            fellowship: fresh_player(Faction::Fellowship, QuestCharacter::FrodoAndSam, 3),
            sauron: fresh_player(Faction::Sauron, QuestCharacter::Nazgul, 2),
            coin_reserve: TOTAL_COINS - 5,
            map,
            quest: QuestTrack {
                fellowship_position: 15,
                sauron_position: 0,
                bonuses: quest_bonuses(),
            },
            alliance_stacks: stacks,
            landmarks: LandmarkState { available, facedown_deck: facedown },
            chapters,
            current_chapter: 1,
            pending_decision: None,
            effect_queue: VecDeque::new(),
            extra_turns: 0,
            catalogue: Rc::new(catalogue),
            resolution_events: Vec::new(),
        };
        proof {
            reveal(Game::structure_wf);
            assert(g.chapters@.drop_last() =~= Seq::<ChapterState>::empty());
            assert(g.fellowship.tableau@ =~= Seq::<ChapterCard>::empty());
            assert(g.sauron.tableau@ =~= Seq::<ChapterCard>::empty());
            assert(g.located_cards() =~= dealt_cards(1)) by {
                broadcast use {vstd::multiset::group_multiset_axioms, vstd::seq_lib::group_to_multiset_ensures};
                assert(Seq::<ChapterCard>::empty().to_multiset() =~= Multiset::<ChapterCard>::empty());
                assert(chapters_held(Seq::<ChapterState>::empty()) == Multiset::<ChapterCard>::empty());
                assert(g.chapters@.last() == g.chapters@[0]);
                assert(chapters_held(g.chapters@) =~= chapter_held(g.chapters@[0]));
                assert(dealt_cards(0) == Multiset::<ChapterCard>::empty());
                assert(dealt_cards(1) =~= crate::catalog::spec_chapter_cards(1).to_multiset());
            }
            assert forall|i: int| 0 <= i < 7 implies !((#[trigger] g.map@[i]).fellowship_units > 0
                && g.map@[i].sauron_units > 0) by {
                assert(g.map@[i] == starting_region(i));
            }
            assert(g.located_tokens() =~= printed_tokens()) by {
                broadcast use {vstd::multiset::group_multiset_axioms, vstd::seq_lib::group_to_multiset_ensures};
                let orders = g.alliance_stacks@.map_values(|st: AllianceStack| st.token_order@);
                let fresh = Seq::new(6, |i: int| seq![1u8, 2u8, 3u8]);
                assert forall|i: int| 0 <= i < 6 implies race_tokens(i, #[trigger] orders[i]) == race_tokens(
                    i,
                    fresh[i],
                ) by {
                    assert(orders[i] == g.alliance_stacks@[i].token_order@);
                }
                lemma_order_tokens_ext(orders, fresh, 6);
                assert(Seq::<AllianceToken>::empty().to_multiset() =~= Multiset::<AllianceToken>::empty());
                assert(g.fellowship.alliance_tokens@ =~= Seq::<AllianceToken>::empty());
                assert(g.sauron.alliance_tokens@ =~= Seq::<AllianceToken>::empty());
            }
            assert(g.located_landmarks() =~= printed_landmark_ids(*g.catalogue).to_multiset()) by {
                broadcast use {vstd::multiset::group_multiset_axioms, vstd::seq_lib::group_to_multiset_ensures};
                assert(Seq::<String>::empty().to_multiset() =~= Multiset::<String>::empty());
                assert(g.fellowship.landmarks@ =~= Seq::<String>::empty());
                assert(g.sauron.landmarks@ =~= Seq::<String>::empty());
            }
        }
        proof {
            assert(g.chapters@[0] == dealt);
            assert(set_up_from(g, seed)) by {
                reveal(set_up_from);
            }
        }
        g
    }
}

/// Replacing one dealt Chapter changes the cards the Chapters hold by the
/// difference between the old and the new one.
pub proof fn lemma_chapters_held_update(cs: Seq<ChapterState>, i: int, c: ChapterState)
    requires
        0 <= i < cs.len(),
    ensures
        chapters_held(cs.update(i, c)).add(chapter_held(cs[i])) =~= chapters_held(cs).add(chapter_held(c)),
    decreases cs.len(),
{
    broadcast use vstd::multiset::group_multiset_axioms;
    let u = cs.update(i, c);
    if i < cs.len() - 1 {
        assert(u.drop_last() =~= cs.drop_last().update(i, c));
        assert(u.last() == cs.last());
        lemma_chapters_held_update(cs.drop_last(), i, c);
        assert forall|x: ChapterCard| #[trigger] chapters_held(u).add(chapter_held(cs[i])).count(x)
            == chapters_held(cs).add(chapter_held(c)).count(x) by {
            assert(chapters_held(u.drop_last()).add(chapter_held(cs.drop_last()[i])).count(x)
                == chapters_held(cs.drop_last()).add(chapter_held(c)).count(x));
        }
    } else {
        assert(u.drop_last() =~= cs.drop_last());
        assert(u.last() == c);
    }
}

/// Dealing a Chapter adds the cards it holds.
pub proof fn lemma_chapters_held_push(cs: Seq<ChapterState>, c: ChapterState)
    ensures
        chapters_held(cs.push(c)) == chapters_held(cs).add(chapter_held(c)),
{
    assert(cs.push(c).drop_last() =~= cs);
}

/// Mapping two sequences that hold the same elements gives two sequences
/// that hold the same elements.
pub proof fn lemma_map_permutation<A, B>(s: Seq<A>, t: Seq<A>, f: spec_fn(A) -> B)
    requires
        s.to_multiset() == t.to_multiset(),
    ensures
        s.map_values(f).to_multiset() == t.map_values(f).to_multiset(),
    decreases s.len(),
{
    broadcast use {vstd::multiset::group_multiset_axioms, vstd::seq_lib::group_to_multiset_ensures};
    if s.len() == 0 {
        vstd::seq_lib::to_multiset_len(s);
        vstd::seq_lib::to_multiset_len(t);
        assert(t.len() == 0);
        assert(s.map_values(f) =~= Seq::<B>::empty());
        assert(t.map_values(f) =~= Seq::<B>::empty());
    } else {
        let x = s.last();
        let rest = s.drop_last();
        assert(rest.push(x) =~= s);
        assert(s.contains(x)) by {
            assert(s[s.len() - 1] == x);
        }
        assert(s.to_multiset().count(x) > 0);
        assert(t.to_multiset().count(x) > 0);
        assert(t.contains(x));
        let j = choose|j: int| 0 <= j < t.len() && t[j] == x;
        let t2 = t.remove(j);
        assert(rest.to_multiset() =~= t2.to_multiset());
        lemma_map_permutation(rest, t2, f);
        assert(s.map_values(f) =~= rest.map_values(f).push(f(x)));
        assert(t.map_values(f).remove(j) =~= t2.map_values(f));
        assert(t.map_values(f)[j] == f(x));
    }
}

/// Replacing one stack changes the tokens the stacks hold by the difference
/// between the old and the new one.
pub proof fn lemma_order_tokens_update(orders: Seq<Seq<u8>>, n: int, i: int, o: Seq<u8>)
    requires
        0 <= i < n <= orders.len(),
    ensures
        order_tokens(orders.update(i, o), n).add(race_tokens(i, orders[i])) =~= order_tokens(orders, n).add(
            race_tokens(i, o),
        ),
    decreases n,
{
    broadcast use vstd::multiset::group_multiset_axioms;
    let u = orders.update(i, o);
    if i < n - 1 {
        lemma_order_tokens_update(orders, n - 1, i, o);
        assert(u[n - 1] == orders[n - 1]);
        assert forall|x: AllianceToken| #[trigger] order_tokens(u, n).add(race_tokens(i, orders[i])).count(x)
            == order_tokens(orders, n).add(race_tokens(i, o)).count(x) by {
            assert(order_tokens(u, n - 1).add(race_tokens(i, orders[i])).count(x) == order_tokens(orders, n - 1).add(
                race_tokens(i, o),
            ).count(x));
        }
    } else {
        lemma_order_tokens_ext(u, orders, n - 1);
        assert(u[n - 1] == o);
    }
}

/// Stacks holding the same tokens, stack by stack, hold the same tokens.
pub proof fn lemma_order_tokens_ext(a: Seq<Seq<u8>>, b: Seq<Seq<u8>>, n: int)
    requires
        forall|i: int| 0 <= i < n ==> race_tokens(i, #[trigger] a[i]) == race_tokens(i, b[i]),
    ensures
        order_tokens(a, n) == order_tokens(b, n),
    decreases n,
{
    if n > 0 {
        lemma_order_tokens_ext(a, b, n - 1);
    }
}

/// How often the first `n` printed stacks hold a token: once if its Race is
/// among the first `n` and its number is 1 to 3, otherwise never.
pub proof fn lemma_printed_tokens_count(n: int, t: AllianceToken)
    requires
        0 <= n <= 6,
    ensures
        order_tokens(Seq::new(6, |i: int| seq![1u8, 2u8, 3u8]), n).count(t) == if crate::types::race_index(t.race)
            < n && 1 <= t.id <= 3 {
            1nat
        } else {
            0nat
        },
    decreases n,
{
    broadcast use {vstd::multiset::group_multiset_axioms, vstd::seq_lib::group_to_multiset_ensures};
    if n > 0 {
        lemma_printed_tokens_count(n - 1, t);
        let fresh = Seq::new(6, |i: int| seq![1u8, 2u8, 3u8]);
        let s = fresh[n - 1].map_values(|id: u8| AllianceToken { race: crate::types::race_at(n - 1), id });
        assert(s =~= seq![
            AllianceToken { race: crate::types::race_at(n - 1), id: 1u8 },
            AllianceToken { race: crate::types::race_at(n - 1), id: 2u8 },
            AllianceToken { race: crate::types::race_at(n - 1), id: 3u8 },
        ]);
        assert(s.no_duplicates());
        s.lemma_multiset_has_no_duplicates();
        if crate::types::race_at(n - 1) == t.race && 1 <= t.id <= 3 {
            assert(s[t.id - 1] == t);
            assert(s.contains(t));
        } else {
            assert(!s.contains(t));
        }
        assert(crate::types::race_at(n - 1) == t.race <==> crate::types::race_index(t.race) == n - 1);
    }
}

/// The cards of a freshly dealt Chapter are printed cards of that Chapter.
pub proof fn lemma_dealt_chapter(c: ChapterState, chapter: u8)
    requires
        1 <= chapter <= 3,
        c.layout@.len() == 20,
        c.discarded@.len() == 3,
        (slot_cards(c.layout@) + c.discarded@).to_multiset()
            == crate::catalog::spec_chapter_cards(chapter).to_multiset(),
    ensures
        chapter_wf(c, chapter as nat),
{
    broadcast use vstd::seq_lib::to_multiset_contains;
    let all = slot_cards(c.layout@) + c.discarded@;
    let printed = crate::catalog::spec_chapter_cards(chapter);
    assert forall|x: ChapterCard| all.contains(x) implies card_dealt(x, chapter as nat) by {
        vstd::seq_lib::to_multiset_contains(all, x);
        vstd::seq_lib::to_multiset_contains(printed, x);
        assert(printed.contains(x));
        let i = choose|i: int| 0 <= i < printed.len() && printed[i] == x;
    }
    assert forall|i: int| 0 <= i < c.layout@.len() implies card_dealt(#[trigger] c.layout@[i].card, chapter as nat) by {
        assert(all[i] == c.layout@[i].card);
        assert(all.contains(all[i]));
    }
    assert forall|i: int| 0 <= i < c.discarded@.len() implies card_dealt(#[trigger] c.discarded@[i], chapter as nat) by {
        assert(all[20 + i] == c.discarded@[i]);
        assert(all.contains(all[20 + i]));
    }
}

} // verus!
