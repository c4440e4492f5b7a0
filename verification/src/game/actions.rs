//! The legal actions at each decision point, and applying one.

use vstd::prelude::*;

use crate::card_schema::CardColor;
use crate::catalog::Catalogue;
use crate::types::{
    all_regions, contains_action, region_at, same_action_spec, spec_other, Action, AllianceStack, AllianceToken,
    AllianceTrigger, ChapterCard, EntManeuver, Faction, GameError, PendingDecision, Region,
    RegionState,
};

use super::board::unit_moves;
use super::choices::{
    accept_quest_bonus_done, choose_alliance_race_done, choose_ent_maneuver_done,
    discard_opponent_grey_card_done, discard_selected_card_done, move_card_unit_done,
    place_alliance_units_done, place_card_units_done, place_quest_bonus_unit_done,
    play_discarded_card_for_free_done, remove_card_enemy_unit_done, remove_quest_bonus_fortress_done,
    resolve_alliance_trigger_done, resolve_empty_card_unit_placement_done,
    resolve_unavailable_maneuver_done, skip_quest_bonus_done, take_alliance_token_done,
};
use super::payments::card_def;
use super::turns::{
    play_selected_card_done, play_selected_card_normally_done, play_selected_card_using_any_skill_done,
    take_landmark_done, take_landmark_using_any_skill_done,
};
use super::{all_discarded, available_ids, region_units, Game};

verus! {

/// Removals of one enemy Unit, from the first `n` regions holding one.
pub open spec fn removal_targets(map: Seq<RegionState>, enemy: Faction, n: int) -> Seq<Action>
    decreases n,
{
    if n <= 0 {
        seq![]
    } else {
        removal_targets(map, enemy, n - 1) + if region_units(map[n - 1], enemy) > 0 {
            seq![Action::RemoveCardEnemyUnit { region: map[n - 1].region }]
        } else {
            seq![]
        }
    }
}

/// Removals of an enemy Fortress, from the first `n` regions holding one.
pub open spec fn fortress_targets(map: Seq<RegionState>, enemy: Faction, n: int) -> Seq<Action>
    decreases n,
{
    if n <= 0 {
        seq![]
    } else {
        fortress_targets(map, enemy, n - 1) + if map[n - 1].fortress == Some(enemy) {
            seq![Action::RemoveQuestBonusFortress { region: map[n - 1].region }]
        } else {
            seq![]
        }
    }
}

/// Discards of each Grey card of `cards`, in tableau order.
pub open spec fn grey_discards(cat: Catalogue, cards: Seq<ChapterCard>) -> Seq<Action>
    decreases cards.len(),
{
    if cards.len() == 0 {
        seq![]
    } else {
        grey_discards(cat, cards.drop_last()) + if card_def(cat, cards.last()).color == CardColor::Grey {
            seq![Action::DiscardOpponentGreyCard { card: cards.last() }]
        } else {
            seq![]
        }
    }
}

/// Choices of each Race whose stack still holds tokens, among the first `n` stacks.
pub open spec fn race_choices(stacks: Seq<AllianceStack>, n: int) -> Seq<Action>
    decreases n,
{
    if n <= 0 {
        seq![]
    } else {
        race_choices(stacks, n - 1) + if stacks[n - 1].token_order@.len() > 0 {
            seq![Action::ChooseAllianceRace { race: stacks[n - 1].race }]
        } else {
            seq![]
        }
    }
}

/// The Landmarks among the first `n` offered that the active player can take.
pub open spec fn landmark_takes(g: Game, n: int, using_any_skill: bool) -> Seq<Action>
    decreases n,
{
    if n <= 0 {
        seq![]
    } else {
        let id = g.landmarks.available@[n - 1];
        landmark_takes(g, n - 1, using_any_skill) + if g.player_of(g.active_player).fortresses_in_supply
            > 0 && g.landmark_payment_spec(id@, using_any_skill) is Some {
            if using_any_skill {
                seq![Action::TakeLandmarkUsingAnySkill { id }]
            } else {
                seq![Action::TakeLandmark { id }]
            }
        } else {
            seq![]
        }
    }
}

/// The ways to dispose of the card just taken: through its chain, normally,
/// with the any-Skill token, or by discarding it.
pub open spec fn disposition_actions(g: Game, card: ChapterCard) -> Seq<Action> {
    let chain = g.chain_open(g.active_player, card);
    let normal = g.normal_payment(card) is Some;
    let any = g.card_payment(card, true) is Some;
    let base = if chain {
        seq![Action::PlaySelectedCard] + (if normal { seq![Action::PlaySelectedCardNormally] } else {
            seq![]
        }) + seq![Action::DiscardSelectedCard]
    } else if normal {
        seq![Action::PlaySelectedCard, Action::DiscardSelectedCard]
    } else {
        seq![Action::DiscardSelectedCard]
    };
    if any {
        seq![Action::PlaySelectedCardUsingAnySkill] + base
    } else {
        base
    }
}

impl Game {
    /// Every action legal now, in the order offered.
    pub open spec fn legal(&self) -> Seq<Action> {
        if self.spec_is_over() {
            seq![]
        } else {
            match self.pending_decision {
                None => available_ids(self.current().layout@, self.current().layout@.len() as int).map_values(
                    |slot_id: usize| Action::TakeChapterCard { slot_id },
                ) + landmark_takes(*self, self.landmarks.available@.len() as int, false) + landmark_takes(
                    *self,
                    self.landmarks.available@.len() as int,
                    true,
                ),
                Some(d) => self.decision_actions(d),
            }
        }
    }

    /// The actions that answer the pending decision `d`.
    pub open spec fn decision_actions(&self, d: PendingDecision) -> Seq<Action> {
        match d {
            PendingDecision::CardDisposition { card } => disposition_actions(*self, card),
            PendingDecision::QuestBonusUnitPlacement { player } => (if self.player_of(player).units_in_supply
                > 0 {
                all_regions().map_values(|region: Region| Action::PlaceQuestBonusUnit { region })
            } else {
                seq![]
            }) + seq![Action::SkipQuestBonus],
            PendingDecision::CardUnitPlacement { player, regions, .. } => if self.player_of(player).units_in_supply
                == 0 {
                seq![Action::ResolveEmptyCardUnitPlacement]
            } else {
                self.red_destinations(player, regions@).map_values(|region: Region| Action::PlaceCardUnits { region })
            },
            PendingDecision::CardUnitMovement { player, .. } => {
                let moves = unit_moves(self.map@, player, 7);
                if moves.len() == 0 {
                    seq![Action::ResolveUnavailableManeuver]
                } else {
                    moves
                }
            },
            PendingDecision::CardEnemyUnitRemoval { player, .. } => {
                let targets = removal_targets(self.map@, spec_other(player), 7);
                if targets.len() == 0 {
                    seq![Action::ResolveUnavailableManeuver]
                } else {
                    targets
                }
            },
            PendingDecision::QuestBonusFortressRemoval { player, optional } => fortress_targets(
                self.map@,
                spec_other(player),
                7,
            ) + if optional {
                seq![Action::SkipQuestBonus]
            } else {
                seq![]
            },
            PendingDecision::QuestBonusChoice { .. } => seq![Action::AcceptQuestBonus, Action::SkipQuestBonus],
            PendingDecision::OpponentGreyCardDiscard { player } => grey_discards(
                *self.catalogue,
                self.player_of(spec_other(player)).tableau@,
            ),
            PendingDecision::DiscardedCardFreePlay { .. } => all_discarded(self.chapters@).map_values(
                |card: ChapterCard| Action::PlayDiscardedCardForFree { card },
            ),
            PendingDecision::AllianceTriggerChoice { triggers, .. } => triggers@.map_values(
                |trigger: AllianceTrigger| Action::ResolveAllianceTrigger { trigger },
            ),
            PendingDecision::AllianceRaceChoice { .. } => race_choices(self.alliance_stacks@, 6),
            PendingDecision::AllianceTokenChoice { revealed, .. } => revealed@.map_values(
                |token: AllianceToken| Action::TakeAllianceToken { token },
            ),
            PendingDecision::EntManeuverChoice { .. } => seq![
                Action::ChooseEntManeuver { maneuver: EntManeuver::RemoveEnemyUnit },
                Action::ChooseEntManeuver { maneuver: EntManeuver::OpponentLosesCoin },
                Action::ChooseEntManeuver { maneuver: EntManeuver::MoveUnit },
            ],
            PendingDecision::AllianceUnitPlacement { player, .. } => if self.player_of(player).units_in_supply
                == 0 {
                seq![Action::ResolveEmptyCardUnitPlacement]
            } else {
                all_regions().map_values(|region: Region| Action::PlaceAllianceUnits { region })
            },
        }
    }

    /// Where a Red card of `player` may deploy.
    pub open spec fn red_destinations(&self, player: Faction, printed: Seq<Region>) -> Seq<Region> {
        if self.held(player).contains(crate::alliance_schema::PersistentEffect::RedDeploymentAnywhere) {
            all_regions()
        } else {
            printed
        }
    }

    /// The player who must answer the pending decision.
    pub open spec fn decider(&self) -> Option<Faction> {
        match self.pending_decision {
            None => None,
            Some(PendingDecision::CardDisposition { .. }) => Some(self.active_player),
            Some(PendingDecision::CardUnitPlacement { player, .. }) => Some(player),
            Some(PendingDecision::CardUnitMovement { player, .. }) => Some(player),
            Some(PendingDecision::CardEnemyUnitRemoval { player, .. }) => Some(player),
            Some(PendingDecision::QuestBonusUnitPlacement { player }) => Some(player),
            Some(PendingDecision::QuestBonusFortressRemoval { player, .. }) => Some(player),
            Some(PendingDecision::QuestBonusChoice { player, .. }) => Some(player),
            Some(PendingDecision::OpponentGreyCardDiscard { player }) => Some(player),
            Some(PendingDecision::DiscardedCardFreePlay { player }) => Some(player),
            Some(PendingDecision::AllianceTriggerChoice { player, .. }) => Some(player),
            Some(PendingDecision::AllianceRaceChoice { player }) => Some(player),
            Some(PendingDecision::AllianceTokenChoice { player, .. }) => Some(player),
            Some(PendingDecision::EntManeuverChoice { player, .. }) => Some(player),
            Some(PendingDecision::AllianceUnitPlacement { player, .. }) => Some(player),
        }
    }

    /// The actions legal for `viewer`: none unless it is the one to act.
    pub open spec fn legal_for(&self, viewer: Faction) -> Seq<Action> {
        if (self.decider() is Some && self.decider() != Some(viewer)) || (self.pending_decision is None
            && self.active_player != viewer) {
            seq![]
        } else {
            self.legal()
        }
    }
}

/// Appends `region` actions for all seven regions.
fn all_region_actions(kind: u8) -> (r: Vec<Action>)
    requires
        kind < 3,
    ensures
        kind == 0 ==> r@ == all_regions().map_values(|region: Region| Action::PlaceQuestBonusUnit { region }),
        kind == 1 ==> r@ == all_regions().map_values(|region: Region| Action::PlaceAllianceUnits { region }),
        kind == 2 ==> r@ == all_regions().map_values(|region: Region| Action::PlaceCardUnits { region }),
{
    let mut out: Vec<Action> = Vec::new();
    let mut i: usize = 0;
    while i < 7
        invariant
            i <= 7,
            kind < 3,
            kind == 0 ==> out@ == all_regions().subrange(0, i as int).map_values(
                |region: Region| Action::PlaceQuestBonusUnit { region },
            ),
            kind == 1 ==> out@ == all_regions().subrange(0, i as int).map_values(
                |region: Region| Action::PlaceAllianceUnits { region },
            ),
            kind == 2 ==> out@ == all_regions().subrange(0, i as int).map_values(
                |region: Region| Action::PlaceCardUnits { region },
            ),
        decreases 7 - i,
    {
        let region = crate::types::region_at_index(i);
        proof {
            assert(all_regions()[i as int] == region);
        }
        if kind == 0 {
            out.push(Action::PlaceQuestBonusUnit { region });
        } else if kind == 1 {
            out.push(Action::PlaceAllianceUnits { region });
        } else {
            out.push(Action::PlaceCardUnits { region });
        }
        i = i + 1;
        proof {
            if kind == 0 {
                assert(out@ =~= all_regions().subrange(0, i as int).map_values(
                    |region: Region| Action::PlaceQuestBonusUnit { region },
                ));
            } else if kind == 1 {
                assert(out@ =~= all_regions().subrange(0, i as int).map_values(
                    |region: Region| Action::PlaceAllianceUnits { region },
                ));
            } else {
                assert(out@ =~= all_regions().subrange(0, i as int).map_values(
                    |region: Region| Action::PlaceCardUnits { region },
                ));
            }
        }
    }
    proof {
        assert(all_regions().subrange(0, 7) =~= all_regions());
    }
    out
}


impl Game {
    fn removal_actions(&self, enemy: Faction) -> (r: Vec<Action>)
        requires
            self.wf(),
        ensures
            r@ == removal_targets(self.map@, enemy, 7),
    {
        let mut out: Vec<Action> = Vec::new();
        let mut i: usize = 0;
        while i < 7
            invariant
                i <= 7,
                self.wf(),
                out@ == removal_targets(self.map@, enemy, i as int),
            decreases 7 - i,
        {
            let state = self.map[i];
            let units = match enemy {
                Faction::Fellowship => state.fellowship_units,
                Faction::Sauron => state.sauron_units,
            };
            if units > 0 {
                out.push(Action::RemoveCardEnemyUnit { region: state.region });
            }
            i = i + 1;
        }
        out
    }

    fn fortress_actions(&self, enemy: Faction) -> (r: Vec<Action>)
        requires
            self.wf(),
        ensures
            r@ == fortress_targets(self.map@, enemy, 7),
    {
        let mut out: Vec<Action> = Vec::new();
        let mut i: usize = 0;
        while i < 7
            invariant
                i <= 7,
                self.wf(),
                out@ == fortress_targets(self.map@, enemy, i as int),
            decreases 7 - i,
        {
            let state = self.map[i];
            if state.fortress == Some(enemy) {
                out.push(Action::RemoveQuestBonusFortress { region: state.region });
            }
            i = i + 1;
        }
        out
    }

    fn grey_actions(&self, owner: Faction) -> (r: Vec<Action>)
        requires
            self.wf(),
        ensures
            r@ == grey_discards(*self.catalogue, self.player_of(owner).tableau@),
    {
        proof {
            Game::lemma_structure(*self);
        }
        let tableau = &self.player(owner).tableau;
        let mut out: Vec<Action> = Vec::new();
        let mut i: usize = 0;
        while i < tableau.len()
            invariant
                i <= tableau@.len(),
                self.catalogue.wf(),
                *tableau == self.player_of(owner).tableau,
                forall|k: int| 0 <= k < tableau@.len() ==> super::card_dealt(#[trigger] tableau@[k], self.chapters@.len()),
                out@ == grey_discards(*self.catalogue, tableau@.subrange(0, i as int)),
            decreases tableau.len() - i,
        {
            proof {
                assert(tableau@.subrange(0, i + 1).drop_last() =~= tableau@.subrange(0, i as int));
                assert(super::card_dealt(tableau@[i as int], self.chapters@.len()));
            }
            let card = tableau[i];
            if self.catalogue.card_definition(card).color == CardColor::Grey {
                out.push(Action::DiscardOpponentGreyCard { card });
            }
            i = i + 1;
        }
        proof {
            assert(tableau@.subrange(0, tableau@.len() as int) =~= tableau@);
        }
        out
    }

    fn race_choice_actions(&self) -> (r: Vec<Action>)
        requires
            self.wf(),
        ensures
            r@ == race_choices(self.alliance_stacks@, 6),
    {
        proof {
            Game::lemma_structure(*self);
        }
        let mut out: Vec<Action> = Vec::new();
        let mut i: usize = 0;
        while i < 6
            invariant
                i <= 6,
                self.alliance_stacks@.len() == 6,
                out@ == race_choices(self.alliance_stacks@, i as int),
            decreases 6 - i,
        {
            if self.alliance_stacks[i].token_order.len() > 0 {
                out.push(Action::ChooseAllianceRace { race: self.alliance_stacks[i].race });
            }
            i = i + 1;
        }
        out
    }

    fn landmark_actions(&self, using_any_skill: bool) -> (r: Vec<Action>)
        requires
            self.wf(),
        ensures
            r@ == landmark_takes(*self, self.landmarks.available@.len() as int, using_any_skill),
    {
        let mut out: Vec<Action> = Vec::new();
        let mut i: usize = 0;
        while i < self.landmarks.available.len()
            invariant
                i <= self.landmarks.available@.len(),
                self.wf(),
                out@ == landmark_takes(*self, i as int, using_any_skill),
            decreases self.landmarks.available.len() - i,
        {
            let id = &self.landmarks.available[i];
            if self.player(self.active_player).fortresses_in_supply > 0
                && self.landmark_payment_with_any_skill(id.as_str(), using_any_skill).is_some() {
                if using_any_skill {
                    out.push(Action::TakeLandmarkUsingAnySkill { id: id.clone() });
                } else {
                    out.push(Action::TakeLandmark { id: id.clone() });
                }
            }
            i = i + 1;
        }
        out
    }

    fn disposition_choices(&self, card: ChapterCard) -> (r: Vec<Action>)
        requires
            self.wf(),
            crate::catalog::valid_card(card),
        ensures
            r@ == disposition_actions(*self, card),
    {
        let chain = self.uses_chain(self.active_player, card);
        let normal = self.normal_payment_for(card).is_some();
        let any = self.payment_for_using_any_skill(card).is_some();
        let mut actions: Vec<Action> = Vec::new();
        if any {
            actions.push(Action::PlaySelectedCardUsingAnySkill);
        }
        if chain {
            actions.push(Action::PlaySelectedCard);
            if normal {
                actions.push(Action::PlaySelectedCardNormally);
            }
        } else if normal {
            actions.push(Action::PlaySelectedCard);
        }
        actions.push(Action::DiscardSelectedCard);
        proof {
            assert(actions@ =~= disposition_actions(*self, card));
        }
        actions
    }

    /// Every action legal now, in the order offered.
    pub fn legal_actions(&self) -> (r: Vec<Action>)
        requires
            self.wf(),
        ensures
            r@ == self.legal(),
    {
        proof {
            Game::lemma_structure(*self);
        }
        if self.is_over() {
            return Vec::new();
        }
        match &self.pending_decision {
            None => {
                let ids = self.available_chapter_slot_ids();
                let mut actions: Vec<Action> = Vec::new();
                let mut i: usize = 0;
                while i < ids.len()
                    invariant
                        i <= ids@.len(),
                        actions@ == ids@.subrange(0, i as int).map_values(|slot_id: usize| Action::TakeChapterCard { slot_id }),
                    decreases ids.len() - i,
                {
                    actions.push(Action::TakeChapterCard { slot_id: ids[i] });
                    i = i + 1;
                    proof {
                        assert(actions@ =~= ids@.subrange(0, i as int).map_values(
                            |slot_id: usize| Action::TakeChapterCard { slot_id },
                        ));
                    }
                }
                proof {
                    assert(ids@.subrange(0, ids@.len() as int) =~= ids@);
                }
                let mut normal = self.landmark_actions(false);
                let mut any = self.landmark_actions(true);
                actions.append(&mut normal);
                actions.append(&mut any);
                actions
            },
            Some(d) => self.decision_choices(d),
        }
    }

    fn decision_choices(&self, d: &PendingDecision) -> (r: Vec<Action>)
        requires
            self.wf(),
            self.pending_decision == Some(*d),
        ensures
            r@ == self.decision_actions(*d),
    {
        proof {
            Game::lemma_structure(*self);
        }
        match d {
            PendingDecision::CardDisposition { card } => self.disposition_choices(*card),
            PendingDecision::QuestBonusUnitPlacement { player } => {
                let mut actions = if self.player(*player).units_in_supply > 0 {
                    all_region_actions(0)
                } else {
                    Vec::new()
                };
                actions.push(Action::SkipQuestBonus);
                actions
            },
            PendingDecision::CardUnitPlacement { player, regions, .. } => {
                if self.player(*player).units_in_supply == 0 {
                    vec![Action::ResolveEmptyCardUnitPlacement]
                } else {
                    let permitted = self.permitted_red_destinations(*player, regions);
                    let mut actions: Vec<Action> = Vec::new();
                    let mut i: usize = 0;
                    while i < permitted.len()
                        invariant
                            i <= permitted@.len(),
                            actions@ == permitted@.subrange(0, i as int).map_values(|region: Region| Action::PlaceCardUnits { region }),
                        decreases permitted.len() - i,
                    {
                        actions.push(Action::PlaceCardUnits { region: permitted[i] });
                        i = i + 1;
                        proof {
                            assert(actions@ =~= permitted@.subrange(0, i as int).map_values(
                                |region: Region| Action::PlaceCardUnits { region },
                            ));
                        }
                    }
                    proof {
                        assert(permitted@.subrange(0, permitted@.len() as int) =~= permitted@);
                    }
                    actions
                }
            },
            PendingDecision::CardUnitMovement { player, .. } => {
                let moves = self.legal_unit_moves(*player);
                if moves.len() == 0 {
                    vec![Action::ResolveUnavailableManeuver]
                } else {
                    moves
                }
            },
            PendingDecision::CardEnemyUnitRemoval { player, .. } => {
                let targets = self.removal_actions(player.other());
                if targets.len() == 0 {
                    vec![Action::ResolveUnavailableManeuver]
                } else {
                    targets
                }
            },
            PendingDecision::QuestBonusFortressRemoval { player, optional } => {
                let mut actions = self.fortress_actions(player.other());
                if *optional {
                    actions.push(Action::SkipQuestBonus);
                }
                actions
            },
            PendingDecision::QuestBonusChoice { .. } => vec![Action::AcceptQuestBonus, Action::SkipQuestBonus],
            PendingDecision::OpponentGreyCardDiscard { player } => self.grey_actions(player.other()),
            PendingDecision::DiscardedCardFreePlay { .. } => {
                let cards = self.discarded_cards();
                let mut actions: Vec<Action> = Vec::new();
                let mut i: usize = 0;
                while i < cards.len()
                    invariant
                        i <= cards@.len(),
                        actions@ == cards@.subrange(0, i as int).map_values(|card: ChapterCard| Action::PlayDiscardedCardForFree { card }),
                    decreases cards.len() - i,
                {
                    actions.push(Action::PlayDiscardedCardForFree { card: cards[i] });
                    i = i + 1;
                    proof {
                        assert(actions@ =~= cards@.subrange(0, i as int).map_values(
                            |card: ChapterCard| Action::PlayDiscardedCardForFree { card },
                        ));
                    }
                }
                proof {
                    assert(cards@.subrange(0, cards@.len() as int) =~= cards@);
                }
                actions
            },
            PendingDecision::AllianceTriggerChoice { triggers, .. } => {
                let mut actions: Vec<Action> = Vec::new();
                let mut i: usize = 0;
                while i < triggers.len()
                    invariant
                        i <= triggers@.len(),
                        actions@ == triggers@.subrange(0, i as int).map_values(
                            |trigger: AllianceTrigger| Action::ResolveAllianceTrigger { trigger },
                        ),
                    decreases triggers.len() - i,
                {
                    actions.push(Action::ResolveAllianceTrigger { trigger: triggers[i] });
                    i = i + 1;
                    proof {
                        assert(actions@ =~= triggers@.subrange(0, i as int).map_values(
                            |trigger: AllianceTrigger| Action::ResolveAllianceTrigger { trigger },
                        ));
                    }
                }
                proof {
                    assert(triggers@.subrange(0, triggers@.len() as int) =~= triggers@);
                }
                actions
            },
            PendingDecision::AllianceRaceChoice { .. } => self.race_choice_actions(),
            PendingDecision::AllianceTokenChoice { revealed, .. } => {
                let mut actions: Vec<Action> = Vec::new();
                let mut i: usize = 0;
                while i < revealed.len()
                    invariant
                        i <= revealed@.len(),
                        actions@ == revealed@.subrange(0, i as int).map_values(
                            |token: AllianceToken| Action::TakeAllianceToken { token },
                        ),
                    decreases revealed.len() - i,
                {
                    actions.push(Action::TakeAllianceToken { token: revealed[i] });
                    i = i + 1;
                    proof {
                        assert(actions@ =~= revealed@.subrange(0, i as int).map_values(
                            |token: AllianceToken| Action::TakeAllianceToken { token },
                        ));
                    }
                }
                proof {
                    assert(revealed@.subrange(0, revealed@.len() as int) =~= revealed@);
                }
                actions
            },
            PendingDecision::EntManeuverChoice { .. } => vec![
                Action::ChooseEntManeuver { maneuver: EntManeuver::RemoveEnemyUnit },
                Action::ChooseEntManeuver { maneuver: EntManeuver::OpponentLosesCoin },
                Action::ChooseEntManeuver { maneuver: EntManeuver::MoveUnit },
            ],
            PendingDecision::AllianceUnitPlacement { player, .. } => {
                if self.player(*player).units_in_supply == 0 {
                    vec![Action::ResolveEmptyCardUnitPlacement]
                } else {
                    all_region_actions(1)
                }
            },
        }
    }
}

impl Game {
    /// The player who must answer the pending decision, if any.
    pub fn decision_player(&self) -> (r: Option<Faction>)
        ensures
            r == self.decider(),
    {
        match &self.pending_decision {
            None => None,
            Some(PendingDecision::CardDisposition { .. }) => Some(self.active_player),
            Some(PendingDecision::CardUnitPlacement { player, .. }) => Some(*player),
            Some(PendingDecision::CardUnitMovement { player, .. }) => Some(*player),
            Some(PendingDecision::CardEnemyUnitRemoval { player, .. }) => Some(*player),
            Some(PendingDecision::QuestBonusUnitPlacement { player }) => Some(*player),
            Some(PendingDecision::QuestBonusFortressRemoval { player, .. }) => Some(*player),
            Some(PendingDecision::QuestBonusChoice { player, .. }) => Some(*player),
            Some(PendingDecision::OpponentGreyCardDiscard { player }) => Some(*player),
            Some(PendingDecision::DiscardedCardFreePlay { player }) => Some(*player),
            Some(PendingDecision::AllianceTriggerChoice { player, .. }) => Some(*player),
            Some(PendingDecision::AllianceRaceChoice { player }) => Some(*player),
            Some(PendingDecision::AllianceTokenChoice { player, .. }) => Some(*player),
            Some(PendingDecision::EntManeuverChoice { player, .. }) => Some(*player),
            Some(PendingDecision::AllianceUnitPlacement { player, .. }) => Some(*player),
        }
    }

    /// The actions legal for `viewer`: empty unless `viewer` is the one to act.
    pub fn legal_actions_for(&self, viewer: Faction) -> (r: Vec<Action>)
        requires
            self.wf(),
        ensures
            r@ == self.legal_for(viewer),
    {
        let decider = self.decision_player();
        let waiting = match decider {
            Some(p) => p != viewer,
            None => false,
        };
        if waiting || (self.pending_decision.is_none() && self.active_player != viewer) {
            Vec::new()
        } else {
            self.legal_actions()
        }
    }

    /// Applies `action` for `viewer`, who must be the one to act.
    pub fn apply_for(&mut self, viewer: Faction, action: Action) -> (r: Result<(), GameError>)
        requires
            old(self).wf(),
        ensures
            final(self).wf(),
            !contains_action(old(self).legal_for(viewer), action) ==> r == Err::<(), GameError>(
                GameError::IllegalAction(action),
            ) && *final(self) == *old(self),
            contains_action(old(self).legal_for(viewer), action) ==> r is Ok && action_done(*old(self), action, *final(self)),
    {
        let legal = self.legal_actions_for(viewer);
        if !crate::types::action_in(&legal, &action) {
            return Err(GameError::IllegalAction(action));
        }
        self.apply(action)
    }

    /// Applies `action`: refused once the game is over or when it is not legal
    /// now, in which case nothing changes.
    pub fn apply(&mut self, action: Action) -> (r: Result<(), GameError>)
        requires
            old(self).wf(),
        ensures
            final(self).wf(),
            final(self).conserved(),
            old(self).spec_is_over() ==> r == Err::<(), GameError>(GameError::GameOver) && *final(self) == *old(self),
            !old(self).spec_is_over() && !contains_action(old(self).legal(), action) ==> r == Err::<(), GameError>(
                GameError::IllegalAction(action),
            ) && *final(self) == *old(self),
            !old(self).spec_is_over() && contains_action(old(self).legal(), action) ==> r is Ok && action_done(
                *old(self),
                action,
                *final(self),
            ),
    {
        if self.is_over() {
            return Err(GameError::GameOver);
        }
        let legal = self.legal_actions();
        if !crate::types::action_in(&legal, &action) {
            return Err(GameError::IllegalAction(action));
        }
        proof {
            lemma_legal_answers(*self, action);
        }
        match action {
            Action::TakeChapterCard { slot_id } => self.take_slot(slot_id),
            Action::TakeLandmark { id } => self.take_landmark(id.as_str()),
            Action::TakeLandmarkUsingAnySkill { id } => self.take_landmark_using_any_skill(id.as_str()),
            Action::PlaySelectedCard => self.play_selected_card(),
            Action::PlaySelectedCardNormally => self.play_selected_card_normally(),
            Action::PlaySelectedCardUsingAnySkill => self.play_selected_card_using_any_skill(),
            Action::DiscardSelectedCard => self.discard_selected_card(),
            Action::PlaceCardUnits { region } => self.place_card_units(region),
            Action::ResolveEmptyCardUnitPlacement => self.resolve_empty_card_unit_placement(),
            Action::MoveCardUnit { from, to } => self.move_card_unit(from, to),
            Action::RemoveCardEnemyUnit { region } => self.remove_card_enemy_unit(region),
            Action::ResolveUnavailableManeuver => self.resolve_unavailable_maneuver(),
            Action::PlaceQuestBonusUnit { region } => self.place_quest_bonus_unit(region),
            Action::RemoveQuestBonusFortress { region } => self.remove_quest_bonus_fortress(region),
            Action::DiscardOpponentGreyCard { card } => self.discard_opponent_grey_card(card),
            Action::PlayDiscardedCardForFree { card } => self.play_discarded_card_for_free(card),
            Action::ResolveAllianceTrigger { trigger } => self.resolve_alliance_trigger(trigger),
            Action::ChooseAllianceRace { race } => self.choose_alliance_race(race),
            Action::TakeAllianceToken { token } => self.take_alliance_token(token),
            Action::ChooseEntManeuver { maneuver } => self.choose_ent_maneuver(maneuver),
            Action::PlaceAllianceUnits { region } => self.place_alliance_units(region),
            Action::AcceptQuestBonus => self.accept_quest_bonus(),
            Action::SkipQuestBonus => self.skip_quest_bonus(),
        }
        Ok(())
    }

    /// Takes the card in slot `slot_id` when the current display holds it.
    fn take_slot(&mut self, slot_id: usize)
        requires
            old(self).wf(),
            old(self).pending_decision is None,
        ensures
            final(self).wf(),
            super::chapters::slot_position(old(self).current().layout@, slot_id) >= 0 ==> super::chapters::card_taken(
                *old(self),
                slot_id,
                *final(self),
            ),
            super::chapters::slot_position(old(self).current().layout@, slot_id) < 0 ==> *final(self) == *old(self),
    {
        proof {
            Game::lemma_structure(*self);
        }
        let c = self.current_chapter as usize - 1;
        let mut k: usize = 0;
        while k < self.chapters[c].layout.len()
            invariant
                self.wf(),
                *self == *old(self),
                self.pending_decision is None,
                c == self.current_chapter - 1,
                c < self.chapters@.len(),
                k <= self.chapters@[c as int].layout@.len(),
                forall|j: int| 0 <= j < k ==> (#[trigger] self.chapters@[c as int].layout@[j]).id != slot_id,
            decreases self.chapters@[c as int].layout@.len() - k,
        {
            if self.chapters[c].layout[k].id == slot_id {
                proof {
                    super::chapters::lemma_slot_found(self.current().layout@, slot_id, k as int);
                }
                self.take_chapter_card(slot_id);
                return;
            }
            k = k + 1;
        }
        proof {
            super::chapters::lemma_slot_position(self.current().layout@, slot_id);
            if super::chapters::slot_position(self.current().layout@, slot_id) >= 0 {
                let pos = super::chapters::slot_position(self.current().layout@, slot_id);
                assert(self.chapters@[c as int].layout@[pos].id == slot_id);
            }
        }
    }
}

impl Game {
    /// Applies `action` with a fresh record of resolution steps; a refused
    /// action keeps the previous record and changes nothing.
    pub fn run_action(&mut self, action: Action) -> (r: Result<(), GameError>)
        requires
            old(self).wf(),
        ensures
            final(self).wf(),
            old(self).spec_is_over() ==> r == Err::<(), GameError>(GameError::GameOver) && *final(self) == *old(self),
            !old(self).spec_is_over() && !contains_action(old(self).legal(), action) ==> r == Err::<(), GameError>(
                GameError::IllegalAction(action),
            ) && *final(self) == *old(self),
            !old(self).spec_is_over() && contains_action(old(self).legal(), action) ==> r is Ok && exists|c: Game|
                #[trigger] fresh_record(*old(self), c) && action_done(c, action, *final(self)),
    {
        let ghost a = *self;
        let mut previous: Vec<super::ResolutionEvent> = Vec::new();
        std::mem::swap(&mut previous, &mut self.resolution_events);
        proof {
            Game::lemma_structure_kept(a, *self);
        }
        let ghost b = *self;
        proof {
            lemma_legal_ignores_events(a, b);
            assert(fresh_record(a, b));
        }
        match self.apply(action) {
            Ok(()) => Ok(()),
            Err(error) => {
                self.resolution_events = previous;
                proof {
                    Game::lemma_structure_kept(b, *self);
                }
                Err(error)
            },
        }
    }

    /// Answers the pending choice with `action`.
    pub fn resolve_choice(&mut self, action: Action) -> (r: Result<(), GameError>)
        requires
            old(self).wf(),
            old(self).pending_decision is Some,
        ensures
            final(self).wf(),
            old(self).spec_is_over() ==> r == Err::<(), GameError>(GameError::GameOver) && *final(self) == *old(self),
            !old(self).spec_is_over() && !contains_action(old(self).legal(), action) ==> r == Err::<(), GameError>(
                GameError::IllegalAction(action),
            ) && *final(self) == *old(self),
            !old(self).spec_is_over() && contains_action(old(self).legal(), action) ==> r is Ok && exists|c: Game|
                #[trigger] fresh_record(*old(self), c) && action_done(c, action, *final(self)),
    {
        self.run_action(action)
    }
}

/// `c` is `a` with an empty record of resolution steps.
pub open spec fn fresh_record(a: Game, c: Game) -> bool {
    &&& c.resolution_events@.len() == 0
    &&& c == (Game { resolution_events: c.resolution_events, ..a })
}

/// The legal actions do not depend on the record of resolution steps.
pub proof fn lemma_legal_ignores_events(a: Game, b: Game)
    requires
        b == (Game { resolution_events: b.resolution_events, ..a }),
    ensures
        a.legal() == b.legal(),
{
    lemma_landmark_takes_ignore_events(a, b, a.landmarks.available@.len() as int, false);
    lemma_landmark_takes_ignore_events(a, b, a.landmarks.available@.len() as int, true);
    if a.pending_decision is Some {
        assert(a.decision_actions(a.pending_decision->0) == b.decision_actions(b.pending_decision->0));
    }
}

proof fn lemma_landmark_takes_ignore_events(a: Game, b: Game, n: int, using_any_skill: bool)
    requires
        b == (Game { resolution_events: b.resolution_events, ..a }),
    ensures
        landmark_takes(a, n, using_any_skill) == landmark_takes(b, n, using_any_skill),
    decreases n,
{
    if n > 0 {
        lemma_landmark_takes_ignore_events(a, b, n - 1, using_any_skill);
        let id = a.landmarks.available@[n - 1];
        assert(a.landmark_payment_spec(id@, using_any_skill) == b.landmark_payment_spec(id@, using_any_skill));
    }
}
/// Whether action `a` can answer the pending decision `d`: a turn action
/// needs none pending, every other action answers one kind of decision.
pub open spec fn answers(a: Action, d: Option<PendingDecision>) -> bool {
    match a {
        Action::TakeChapterCard { .. } | Action::TakeLandmark { .. } | Action::TakeLandmarkUsingAnySkill {
            ..
        } => d is None,
        Action::PlaySelectedCard | Action::PlaySelectedCardNormally | Action::PlaySelectedCardUsingAnySkill
        | Action::DiscardSelectedCard => d matches Some(PendingDecision::CardDisposition { .. }),
        Action::PlaceCardUnits { .. } => d matches Some(PendingDecision::CardUnitPlacement { .. }),
        Action::ResolveEmptyCardUnitPlacement => d matches Some(PendingDecision::CardUnitPlacement { .. })
            || d matches Some(PendingDecision::AllianceUnitPlacement { .. }),
        Action::MoveCardUnit { .. } => d matches Some(PendingDecision::CardUnitMovement { .. }),
        Action::RemoveCardEnemyUnit { .. } => d matches Some(PendingDecision::CardEnemyUnitRemoval { .. }),
        Action::ResolveUnavailableManeuver => d matches Some(PendingDecision::CardUnitMovement { .. })
            || d matches Some(PendingDecision::CardEnemyUnitRemoval { .. }),
        Action::PlaceQuestBonusUnit { .. } => d matches Some(PendingDecision::QuestBonusUnitPlacement { .. }),
        Action::RemoveQuestBonusFortress { .. } => d matches Some(
            PendingDecision::QuestBonusFortressRemoval { .. },
        ),
        Action::DiscardOpponentGreyCard { .. } => d matches Some(PendingDecision::OpponentGreyCardDiscard { .. }),
        Action::PlayDiscardedCardForFree { .. } => d matches Some(PendingDecision::DiscardedCardFreePlay { .. }),
        Action::ResolveAllianceTrigger { .. } => d matches Some(PendingDecision::AllianceTriggerChoice { .. }),
        Action::ChooseAllianceRace { .. } => d matches Some(PendingDecision::AllianceRaceChoice { .. }),
        Action::TakeAllianceToken { .. } => d matches Some(PendingDecision::AllianceTokenChoice { .. }),
        Action::ChooseEntManeuver { .. } => d matches Some(PendingDecision::EntManeuverChoice { .. }),
        Action::PlaceAllianceUnits { .. } => d matches Some(PendingDecision::AllianceUnitPlacement { .. }),
        Action::AcceptQuestBonus => d matches Some(PendingDecision::QuestBonusChoice { .. }),
        Action::SkipQuestBonus => d matches Some(PendingDecision::QuestBonusUnitPlacement { .. }) || d matches Some(
            PendingDecision::QuestBonusFortressRemoval { .. },
        ) || d matches Some(PendingDecision::QuestBonusChoice { .. }),
    }
}

/// Whether every action of `s` answers `d`.
pub open spec fn all_answer(s: Seq<Action>, d: Option<PendingDecision>) -> bool {
    forall|i: int| 0 <= i < s.len() ==> answers(#[trigger] s[i], d)
}

proof fn lemma_all_answer_add(a: Seq<Action>, b: Seq<Action>, d: Option<PendingDecision>)
    requires
        all_answer(a, d),
        all_answer(b, d),
    ensures
        all_answer(a + b, d),
{
    assert forall|i: int| 0 <= i < (a + b).len() implies answers(#[trigger] (a + b)[i], d) by {
        if i < a.len() {
            assert((a + b)[i] == a[i]);
        } else {
            assert((a + b)[i] == b[i - a.len()]);
        }
    }
}

proof fn lemma_removals_answer(map: Seq<RegionState>, enemy: Faction, n: int, d: Option<PendingDecision>)
    requires
        d matches Some(PendingDecision::CardEnemyUnitRemoval { .. }),
    ensures
        all_answer(removal_targets(map, enemy, n), d),
    decreases n,
{
    if n > 0 {
        lemma_removals_answer(map, enemy, n - 1, d);
        let last = if region_units(map[n - 1], enemy) > 0 {
            seq![Action::RemoveCardEnemyUnit { region: map[n - 1].region }]
        } else {
            seq![]
        };
        lemma_all_answer_add(removal_targets(map, enemy, n - 1), last, d);
    }
}

proof fn lemma_fortress_targets_answer(map: Seq<RegionState>, enemy: Faction, n: int, d: Option<PendingDecision>)
    requires
        d matches Some(PendingDecision::QuestBonusFortressRemoval { .. }),
    ensures
        all_answer(fortress_targets(map, enemy, n), d),
    decreases n,
{
    if n > 0 {
        lemma_fortress_targets_answer(map, enemy, n - 1, d);
        let last = if map[n - 1].fortress == Some(enemy) {
            seq![Action::RemoveQuestBonusFortress { region: map[n - 1].region }]
        } else {
            seq![]
        };
        lemma_all_answer_add(fortress_targets(map, enemy, n - 1), last, d);
    }
}

proof fn lemma_grey_discards_answer(cat: Catalogue, cards: Seq<ChapterCard>, d: Option<PendingDecision>)
    requires
        d matches Some(PendingDecision::OpponentGreyCardDiscard { .. }),
    ensures
        all_answer(grey_discards(cat, cards), d),
    decreases cards.len(),
{
    if cards.len() > 0 {
        lemma_grey_discards_answer(cat, cards.drop_last(), d);
        let last = if card_def(cat, cards.last()).color == CardColor::Grey {
            seq![Action::DiscardOpponentGreyCard { card: cards.last() }]
        } else {
            seq![]
        };
        lemma_all_answer_add(grey_discards(cat, cards.drop_last()), last, d);
    }
}

proof fn lemma_race_choices_answer(stacks: Seq<AllianceStack>, n: int, d: Option<PendingDecision>)
    requires
        d matches Some(PendingDecision::AllianceRaceChoice { .. }),
    ensures
        all_answer(race_choices(stacks, n), d),
    decreases n,
{
    if n > 0 {
        lemma_race_choices_answer(stacks, n - 1, d);
        let last = if stacks[n - 1].token_order@.len() > 0 {
            seq![Action::ChooseAllianceRace { race: stacks[n - 1].race }]
        } else {
            seq![]
        };
        lemma_all_answer_add(race_choices(stacks, n - 1), last, d);
    }
}

proof fn lemma_unit_moves_answer(map: Seq<RegionState>, player: Faction, n: int, d: Option<PendingDecision>)
    requires
        d matches Some(PendingDecision::CardUnitMovement { .. }),
    ensures
        all_answer(unit_moves(map, player, n), d),
    decreases n,
{
    if n > 0 {
        lemma_unit_moves_answer(map, player, n - 1, d);
        let from = region_at(n - 1);
        let last = if region_units(map[n - 1], player) > 0 {
            crate::types::adjacent(from).map_values(|to: Region| Action::MoveCardUnit { from, to })
        } else {
            seq![]
        };
        lemma_all_answer_add(unit_moves(map, player, n - 1), last, d);
    }
}

proof fn lemma_landmark_takes_answer(g: Game, n: int, using_any_skill: bool)
    requires
        g.pending_decision is None,
    ensures
        all_answer(landmark_takes(g, n, using_any_skill), g.pending_decision),
    decreases n,
{
    if n > 0 {
        lemma_landmark_takes_answer(g, n - 1, using_any_skill);
        let id = g.landmarks.available@[n - 1];
        let last = if g.player_of(g.active_player).fortresses_in_supply > 0 && g.landmark_payment_spec(
            id@,
            using_any_skill,
        ) is Some {
            if using_any_skill {
                seq![Action::TakeLandmarkUsingAnySkill { id }]
            } else {
                seq![Action::TakeLandmark { id }]
            }
        } else {
            seq![]
        };
        lemma_all_answer_add(landmark_takes(g, n - 1, using_any_skill), last, g.pending_decision);
    }
}

/// Every legal action answers the pending decision: a turn action is legal
/// only when none is pending, and every other action only when the decision
/// it answers is.
pub proof fn lemma_legal_answers(g: Game, a: Action)
    requires
        contains_action(g.legal(), a),
    ensures
        answers(a, g.pending_decision),
{
    let d = g.pending_decision;
    let s = g.legal();
    assert(all_answer(s, d)) by {
        if !g.spec_is_over() {
            match d {
                None => {
                    let n = g.current().layout@.len() as int;
                    let takes = available_ids(g.current().layout@, n).map_values(
                        |slot_id: usize| Action::TakeChapterCard { slot_id },
                    );
                    let m = g.landmarks.available@.len() as int;
                    lemma_landmark_takes_answer(g, m, false);
                    lemma_landmark_takes_answer(g, m, true);
                    lemma_all_answer_add(takes, landmark_takes(g, m, false), d);
                    lemma_all_answer_add(takes + landmark_takes(g, m, false), landmark_takes(g, m, true), d);
                },
                Some(p) => {
                    match p {
                        PendingDecision::CardUnitMovement { player, .. } => {
                            lemma_unit_moves_answer(g.map@, player, 7, d);
                        },
                        PendingDecision::CardEnemyUnitRemoval { player, .. } => {
                            lemma_removals_answer(g.map@, spec_other(player), 7, d);
                        },
                        PendingDecision::QuestBonusFortressRemoval { player, optional } => {
                            lemma_fortress_targets_answer(g.map@, spec_other(player), 7, d);
                            let skip = if optional { seq![Action::SkipQuestBonus] } else { seq![] };
                            lemma_all_answer_add(fortress_targets(g.map@, spec_other(player), 7), skip, d);
                        },
                        PendingDecision::QuestBonusUnitPlacement { player } => {
                            let places = if g.player_of(player).units_in_supply > 0 {
                                all_regions().map_values(|region: Region| Action::PlaceQuestBonusUnit { region })
                            } else {
                                seq![]
                            };
                            lemma_all_answer_add(places, seq![Action::SkipQuestBonus], d);
                        },
                        PendingDecision::OpponentGreyCardDiscard { player } => {
                            lemma_grey_discards_answer(*g.catalogue, g.player_of(spec_other(player)).tableau@, d);
                        },
                        PendingDecision::AllianceRaceChoice { .. } => {
                            lemma_race_choices_answer(g.alliance_stacks@, 6, d);
                        },
                        PendingDecision::CardDisposition { card } => {
                            let acts = disposition_actions(g, card);
                            assert(all_answer(acts, d));
                        },
                        _ => {},
                    }
                },
            }
        }
    }
    let i = choose|i: int| 0 <= i < s.len() && same_action_spec(#[trigger] s[i], a);
    assert(answers(s[i], d));
}

/// What applying the legal action `action` to `a` gives `b`: the answer's
/// own step, followed by automatic resolution where the step goes on.
pub open spec fn action_done(a: Game, action: Action, b: Game) -> bool {
    match action {
        Action::TakeChapterCard { slot_id } => {
            &&& super::chapters::slot_position(a.current().layout@, slot_id) >= 0 ==> super::chapters::card_taken(
                a,
                slot_id,
                b,
            )
            &&& super::chapters::slot_position(a.current().layout@, slot_id) < 0 ==> b == a
        },
        Action::TakeLandmark { id } => take_landmark_done(a, id@, b),
        Action::TakeLandmarkUsingAnySkill { id } => take_landmark_using_any_skill_done(a, id@, b),
        Action::PlaySelectedCard => play_selected_card_done(a, b),
        Action::PlaySelectedCardNormally => play_selected_card_normally_done(a, b),
        Action::PlaySelectedCardUsingAnySkill => play_selected_card_using_any_skill_done(a, b),
        Action::DiscardSelectedCard => discard_selected_card_done(a, b),
        Action::PlaceCardUnits { region } => place_card_units_done(a, region, b),
        Action::ResolveEmptyCardUnitPlacement => resolve_empty_card_unit_placement_done(a, b),
        Action::MoveCardUnit { from, to } => move_card_unit_done(a, from, to, b),
        Action::RemoveCardEnemyUnit { region } => remove_card_enemy_unit_done(a, region, b),
        Action::ResolveUnavailableManeuver => resolve_unavailable_maneuver_done(a, b),
        Action::PlaceQuestBonusUnit { region } => place_quest_bonus_unit_done(a, region, b),
        Action::RemoveQuestBonusFortress { region } => remove_quest_bonus_fortress_done(a, region, b),
        Action::DiscardOpponentGreyCard { card } => discard_opponent_grey_card_done(a, card, b),
        Action::PlayDiscardedCardForFree { card } => play_discarded_card_for_free_done(a, card, b),
        Action::ResolveAllianceTrigger { trigger } => resolve_alliance_trigger_done(a, trigger, b),
        Action::ChooseAllianceRace { race } => choose_alliance_race_done(a, race, b),
        Action::TakeAllianceToken { token } => take_alliance_token_done(a, token, b),
        Action::ChooseEntManeuver { maneuver } => choose_ent_maneuver_done(a, maneuver, b),
        Action::PlaceAllianceUnits { region } => place_alliance_units_done(a, region, b),
        Action::AcceptQuestBonus => accept_quest_bonus_done(a, b),
        Action::SkipQuestBonus => skip_quest_bonus_done(a, b),
    }
}

} // verus!
