//! What a player holds through Alliance tokens, and what a card or a Landmark
//! costs the active player.

use vstd::prelude::*;

use crate::alliance_schema::{AllianceEffect, AllianceTokenDefinition, PersistentEffect};
use crate::card_schema::{CardColor, CardDefinition, Skill};
use crate::catalog::{card_index, landmark_position, token_index, valid_card, Catalogue};
use crate::helpers::{
    add_skills, add_skills_exec, bounded_vector, capped, least_shortfall, minimum_missing_skills,
    nested_view, skill_vector,
};
use crate::types::{AllianceToken, ChapterCard, Faction};

use super::{card_dealt, fortresses_on_map, Game};

verus! {

/// The printed face of a card.
pub open spec fn card_def(cat: Catalogue, card: ChapterCard) -> CardDefinition {
    cat.cards@[card_index(card)]
}

/// The printed face of an Alliance token.
pub open spec fn token_def(cat: Catalogue, token: AllianceToken) -> AllianceTokenDefinition {
    cat.tokens@[token_index(token)]
}

/// The lasting effects of the given tokens, token by token in the order held.
pub open spec fn persistents(cat: Catalogue, tokens: Seq<AllianceToken>) -> Seq<PersistentEffect>
    decreases tokens.len(),
{
    if tokens.len() == 0 {
        seq![]
    } else {
        persistents(cat, tokens.drop_last()) + token_def(cat, tokens.last()).persistent@
    }
}

/// The largest discard-income multiplier among `ps`, if any.
pub open spec fn best_multiplier(ps: Seq<PersistentEffect>) -> Option<u8>
    decreases ps.len(),
{
    if ps.len() == 0 {
        None
    } else {
        let rest = best_multiplier(ps.drop_last());
        match ps.last() {
            PersistentEffect::DiscardIncomeMultiplier { multiplier } => if rest is Some && rest->0
                >= multiplier {
                rest
            } else {
                Some(multiplier)
            },
            _ => rest,
        }
    }
}

pub open spec fn multiplier_or_one(m: Option<u8>) -> nat {
    match m {
        Some(m) => m as nat,
        None => 1,
    }
}

/// The effects that `ps` trigger when a card of `color` is played (`chained`
/// when it was played through a chain symbol), in order.
pub open spec fn card_triggers(ps: Seq<PersistentEffect>, color: CardColor, chained: bool) -> Seq<AllianceEffect>
    decreases ps.len(),
{
    if ps.len() == 0 {
        seq![]
    } else {
        card_triggers(ps.drop_last(), color, chained) + match ps.last() {
            PersistentEffect::OnCardPlayed { color: c, effect } => if c == color {
                seq![effect]
            } else {
                seq![]
            },
            PersistentEffect::OnChainedCardPlayed { effect } => if chained {
                seq![effect]
            } else {
                seq![]
            },
            _ => seq![],
        }
    }
}

/// The effects that `ps` trigger when a Landmark is taken, in order.
pub open spec fn landmark_triggers(ps: Seq<PersistentEffect>) -> Seq<AllianceEffect>
    decreases ps.len(),
{
    if ps.len() == 0 {
        seq![]
    } else {
        landmark_triggers(ps.drop_last()) + match ps.last() {
            PersistentEffect::OnLandmarkTaken { effect } => seq![effect],
            _ => seq![],
        }
    }
}

/// The extra Units that `ps` add to each Red-card deployment.
pub open spec fn extra_red(ps: Seq<PersistentEffect>) -> nat
    decreases ps.len(),
{
    if ps.len() == 0 {
        0
    } else {
        extra_red(ps.drop_last()) + match ps.last() {
            PersistentEffect::AdditionalRedUnits { amount } => amount as nat,
            _ => 0,
        }
    }
}

/// The Skills a tableau produces from its fixed symbols, per Skill.
pub open spec fn production(cat: Catalogue, tableau: Seq<ChapterCard>) -> Seq<nat>
    decreases tableau.len(),
{
    if tableau.len() == 0 {
        seq![0nat, 0nat, 0nat, 0nat, 0nat]
    } else {
        add_skills(production(cat, tableau.drop_last()), card_def(cat, tableau.last()).provides.skills@)
    }
}

/// The choice symbols of a tableau, card by card.
pub open spec fn choice_list(cat: Catalogue, tableau: Seq<ChapterCard>) -> Seq<Seq<Seq<(Skill, u8)>>>
    decreases tableau.len(),
{
    if tableau.len() == 0 {
        seq![]
    } else {
        let alts = card_def(cat, tableau.last()).provides.skills_any_of@;
        choice_list(cat, tableau.drop_last()) + if alts.len() > 0 {
            seq![alts.map_values(|a: Vec<(Skill, u8)>| a@)]
        } else {
            seq![]
        }
    }
}

/// The Skills a tableau leaves missing against `required` (capped at 255).
pub open spec fn missing_for(cat: Catalogue, tableau: Seq<ChapterCard>, required: Seq<(Skill, u8)>) -> nat {
    capped(least_shortfall(required, production(cat, tableau), choice_list(cat, tableau), 0))
}

/// Whether some card of `tableau` other than `except` prints the chain symbol `chain`.
pub open spec fn chain_held(cat: Catalogue, tableau: Seq<ChapterCard>, chain: Seq<char>, except: Option<ChapterCard>) -> bool {
    exists|i: int|
        0 <= i < tableau.len() && Some(tableau[i]) != except && #[trigger] provides_chain_text(
            cat,
            tableau[i],
            chain,
        )
}

pub open spec fn provides_chain_text(cat: Catalogue, card: ChapterCard, chain: Seq<char>) -> bool {
    card_def(cat, card).provides_chain is Some && card_def(cat, card).provides_chain->0@ == chain
}

impl Game {
    /// The lasting effects of `f`'s Alliance tokens.
    pub open spec fn held(&self, f: Faction) -> Seq<PersistentEffect> {
        persistents(*self.catalogue, self.player_of(f).alliance_tokens@)
    }

    /// Whether `player` may still use one Skill of its choice this turn.
    pub open spec fn any_skill_open(&self, player: Faction) -> bool {
        self.held(player).contains(PersistentEffect::AnySkillOncePerTurn)
            && !self.player_of(player).used_any_skill_this_turn
    }

    /// Whether playing `card` through a chain symbol is open to `player`.
    pub open spec fn chain_open(&self, player: Faction, card: ChapterCard) -> bool {
        let cost = card_def(*self.catalogue, card).cost;
        cost.chain is Some && chain_held(
            *self.catalogue,
            self.player_of(player).tableau@,
            cost.chain->0@,
            Some(card),
        )
    }

    /// The coins the active player pays for `card`, if it can: free through a
    /// chain symbol (then never with the any-Skill token), otherwise the coin
    /// cost plus a coin per missing Skill, one Skill fewer with the token.
    pub open spec fn card_payment(&self, card: ChapterCard, using_any_skill: bool) -> Option<u8> {
        let d = card_def(*self.catalogue, card);
        let p = self.player_of(self.active_player);
        if d.cost.chain is Some && chain_held(*self.catalogue, p.tableau@, d.cost.chain->0@, None) {
            if using_any_skill { None } else { Some(0u8) }
        } else {
            self.skill_payment(d.cost.coins as nat, d.cost.skills@, using_any_skill)
        }
    }

    /// The coins the active player pays for `card` without a chain symbol or
    /// the any-Skill token, if it can.
    pub open spec fn normal_payment(&self, card: ChapterCard) -> Option<u8> {
        let d = card_def(*self.catalogue, card);
        self.skill_payment(d.cost.coins as nat, d.cost.skills@, false)
    }

    /// `coins` plus a coin per Skill missing from `required`, one fewer with the
    /// any-Skill token, if the active player has that much.
    pub open spec fn skill_payment(&self, coins: nat, required: Seq<(Skill, u8)>, using_any_skill: bool) -> Option<u8> {
        let p = self.player_of(self.active_player);
        let missing = missing_for(*self.catalogue, p.tableau@, required);
        if using_any_skill && (!self.any_skill_open(self.active_player) || missing == 0) {
            None
        } else {
            let total = coins + if using_any_skill { missing - 1 } else { missing as int };
            if p.coins >= total { Some(total as u8) } else { None }
        }
    }

    /// The coins the active player pays for the Landmark with ID `id`, if it
    /// can: a coin per missing Skill (one fewer with the any-Skill token) plus
    /// the printed price per Fortress it already has, unless that is waived.
    pub open spec fn landmark_payment_spec(&self, id: Seq<char>, using_any_skill: bool) -> Option<u8> {
        let i = landmark_position(self.catalogue.landmarks@, id);
        let p = self.player_of(self.active_player);
        if i < 0 {
            None
        } else {
            let d = self.catalogue.landmarks@[i];
            let missing = missing_for(*self.catalogue, p.tableau@, d.cost.skills@);
            let waived = self.held(self.active_player).contains(PersistentEffect::WaiveLandmarkFortressCost)
                || p.waives_landmark_fortress_cost;
            let extra = if waived {
                0
            } else {
                fortresses_on_map(self.map@, self.active_player) * d.cost.coins_per_existing_fortress
            };
            if using_any_skill && (!self.any_skill_open(self.active_player) || missing == 0) {
                None
            } else {
                let total = extra + if using_any_skill { missing - 1 } else { missing as int };
                if p.coins >= total { Some(total as u8) } else { None }
            }
        }
    }
}

/// Copies a list of Skills.
fn copy_skills(v: &Vec<(Skill, u8)>) -> (r: Vec<(Skill, u8)>)
    ensures
        r@ == v@,
{
    let mut r: Vec<(Skill, u8)> = Vec::new();
    let mut i: usize = 0;
    while i < v.len()
        invariant
            i <= v@.len(),
            r@ == v@.subrange(0, i as int),
        decreases v.len() - i,
    {
        r.push(v[i]);
        i = i + 1;
        proof {
            assert(r@ =~= v@.subrange(0, i as int));
        }
    }
    proof {
        assert(v@.subrange(0, v@.len() as int) =~= v@);
    }
    r
}

/// Copies the alternatives of a choice symbol.
fn copy_alternatives(v: &Vec<Vec<(Skill, u8)>>) -> (r: Vec<Vec<(Skill, u8)>>)
    ensures
        r@.map_values(|a: Vec<(Skill, u8)>| a@) == v@.map_values(|a: Vec<(Skill, u8)>| a@),
{
    let mut r: Vec<Vec<(Skill, u8)>> = Vec::new();
    let mut i: usize = 0;
    while i < v.len()
        invariant
            i <= v@.len(),
            r@.len() == i,
            forall|k: int| 0 <= k < i ==> (#[trigger] r@[k])@ == v@[k]@,
        decreases v.len() - i,
    {
        r.push(copy_skills(&v[i]));
        i = i + 1;
    }
    proof {
        assert(r@.map_values(|a: Vec<(Skill, u8)>| a@) =~= v@.map_values(|a: Vec<(Skill, u8)>| a@));
    }
    r
}

proof fn lemma_production_bounded(cat: Catalogue, tableau: Seq<ChapterCard>)
    ensures
        bounded_vector(production(cat, tableau)),
    decreases tableau.len(),
{
    if tableau.len() > 0 {
        lemma_production_bounded(cat, tableau.drop_last());
        crate::helpers::lemma_add_skills_bounded(
            production(cat, tableau.drop_last()),
            card_def(cat, tableau.last()).provides.skills@,
        );
    }
}

impl Game {
    /// The lasting effects of `player`'s Alliance tokens.
    pub fn persistent_effects(&self, player: Faction) -> (r: Vec<PersistentEffect>)
        requires
            self.wf(),
        ensures
            r@ == self.held(player),
    {
        proof {
            Game::lemma_structure(*self);
        }
        let tokens = &self.player(player).alliance_tokens;
        let mut out: Vec<PersistentEffect> = Vec::new();
        let mut i: usize = 0;
        while i < tokens.len()
            invariant
                i <= tokens@.len(),
                self.wf(),
                self.catalogue.wf(),
                forall|k: int| 0 <= k < tokens@.len() ==> crate::catalog::valid_token(#[trigger] tokens@[k]),
                *tokens == self.player_of(player).alliance_tokens,
                out@ == persistents(*self.catalogue, tokens@.subrange(0, i as int)),
            decreases tokens.len() - i,
        {
            let def = self.catalogue.alliance_token_definition(tokens[i]);
            let ghost before = out@;
            let mut k: usize = 0;
            while k < def.persistent.len()
                invariant
                    k <= def.persistent@.len(),
                    out@ == before + def.persistent@.subrange(0, k as int),
                decreases def.persistent.len() - k,
            {
                out.push(def.persistent[k]);
                k = k + 1;
                proof {
                    assert(out@ =~= before + def.persistent@.subrange(0, k as int));
                }
            }
            proof {
                assert(def.persistent@.subrange(0, def.persistent@.len() as int) =~= def.persistent@);
                assert(tokens@.subrange(0, i + 1).drop_last() =~= tokens@.subrange(0, i as int));
            }
            i = i + 1;
        }
        proof {
            assert(tokens@.subrange(0, tokens@.len() as int) =~= tokens@);
        }
        out
    }

    /// Whether one of `player`'s Alliance tokens has the lasting effect `wanted`.
    pub fn has_persistent(&self, player: Faction, wanted: PersistentEffect) -> (r: bool)
        requires
            self.wf(),
        ensures
            r == self.held(player).contains(wanted),
    {
        let effects = self.persistent_effects(player);
        let mut i: usize = 0;
        while i < effects.len()
            invariant
                i <= effects@.len(),
                effects@ == self.held(player),
                forall|k: int| 0 <= k < i ==> effects@[k] != wanted,
            decreases effects.len() - i,
        {
            if effects[i] == wanted {
                proof {
                    assert(effects@[i as int] == wanted);
                }
                return true;
            }
            i = i + 1;
        }
        false
    }

    /// The coins a discard earns `player`: the Chapter number, times the best
    /// discard-income multiplier it holds (1 without one), at most 255.
    pub fn discard_income_for(&self, player: Faction) -> (r: u8)
        requires
            self.wf(),
        ensures
            r == capped(self.current_chapter as nat * multiplier_or_one(best_multiplier(self.held(player)))),
    {
        proof {
            Game::lemma_structure(*self);
        }
        let effects = self.persistent_effects(player);
        let mut best: Option<u8> = None;
        let mut i: usize = 0;
        while i < effects.len()
            invariant
                i <= effects@.len(),
                best == best_multiplier(effects@.subrange(0, i as int)),
            decreases effects.len() - i,
        {
            proof {
                assert(effects@.subrange(0, i + 1).drop_last() =~= effects@.subrange(0, i as int));
            }
            match effects[i] {
                PersistentEffect::DiscardIncomeMultiplier { multiplier } => {
                    best = match best {
                        Some(m) => if m >= multiplier { Some(m) } else { Some(multiplier) },
                        None => Some(multiplier),
                    };
                },
                _ => {},
            }
            i = i + 1;
        }
        proof {
            assert(effects@.subrange(0, effects@.len() as int) =~= effects@);
        }
        let multiplier: u16 = match best {
            Some(m) => m as u16,
            None => 1,
        };
        proof {
            Game::lemma_structure(*self);
        }
        assert(self.current_chapter as u16 * multiplier <= 255 * 255) by (nonlinear_arith)
            requires
                self.current_chapter <= 255,
                multiplier <= 255,
        ;
        let income = self.current_chapter as u16 * multiplier;
        if income > 255 { 255 } else { income as u8 }
    }

    /// Whether `player` may still use one Skill of its choice this turn.
    pub fn can_use_any_skill(&self, player: Faction) -> (r: bool)
        requires
            self.wf(),
        ensures
            r == self.any_skill_open(player),
    {
        self.has_persistent(player, PersistentEffect::AnySkillOncePerTurn)
            && !self.player(player).used_any_skill_this_turn
    }

    /// The Alliance effects that `player`'s tokens trigger when it plays a card
    /// of `color`, `chained` when the card came through a chain symbol.
    pub fn triggered_card_effects(&self, player: Faction, color: CardColor, chained: bool) -> (r: Vec<AllianceEffect>)
        requires
            self.wf(),
        ensures
            r@ == card_triggers(self.held(player), color, chained),
    {
        let effects = self.persistent_effects(player);
        let mut out: Vec<AllianceEffect> = Vec::new();
        let mut i: usize = 0;
        while i < effects.len()
            invariant
                i <= effects@.len(),
                out@ == card_triggers(effects@.subrange(0, i as int), color, chained),
            decreases effects.len() - i,
        {
            proof {
                assert(effects@.subrange(0, i + 1).drop_last() =~= effects@.subrange(0, i as int));
            }
            match effects[i] {
                PersistentEffect::OnCardPlayed { color: c, effect } => {
                    if c == color {
                        out.push(effect);
                    }
                },
                PersistentEffect::OnChainedCardPlayed { effect } => {
                    if chained {
                        out.push(effect);
                    }
                },
                _ => {},
            }
            i = i + 1;
            proof {
                assert(out@ =~= card_triggers(effects@.subrange(0, i as int), color, chained));
            }
        }
        proof {
            assert(effects@.subrange(0, effects@.len() as int) =~= effects@);
        }
        out
    }

    /// The Alliance effects that `player`'s tokens trigger when it takes a Landmark.
    pub fn landmark_triggered_effects(&self, player: Faction) -> (r: Vec<AllianceEffect>)
        requires
            self.wf(),
        ensures
            r@ == landmark_triggers(self.held(player)),
    {
        let effects = self.persistent_effects(player);
        let mut out: Vec<AllianceEffect> = Vec::new();
        let mut i: usize = 0;
        while i < effects.len()
            invariant
                i <= effects@.len(),
                out@ == landmark_triggers(effects@.subrange(0, i as int)),
            decreases effects.len() - i,
        {
            proof {
                assert(effects@.subrange(0, i + 1).drop_last() =~= effects@.subrange(0, i as int));
            }
            match effects[i] {
                PersistentEffect::OnLandmarkTaken { effect } => {
                    out.push(effect);
                },
                _ => {},
            }
            i = i + 1;
            proof {
                assert(out@ =~= landmark_triggers(effects@.subrange(0, i as int)));
            }
        }
        proof {
            assert(effects@.subrange(0, effects@.len() as int) =~= effects@);
        }
        out
    }

    /// The extra Units `player`'s tokens add to a Red-card deployment, at most 255.
    pub fn additional_red_units(&self, player: Faction) -> (r: u8)
        requires
            self.wf(),
        ensures
            r == capped(extra_red(self.held(player))),
    {
        let effects = self.persistent_effects(player);
        let mut total: u16 = 0;
        let mut i: usize = 0;
        while i < effects.len()
            invariant
                i <= effects@.len(),
                total == capped(extra_red(effects@.subrange(0, i as int))),
            decreases effects.len() - i,
        {
            proof {
                assert(effects@.subrange(0, i + 1).drop_last() =~= effects@.subrange(0, i as int));
            }
            match effects[i] {
                PersistentEffect::AdditionalRedUnits { amount } => {
                    let sum = total + amount as u16;
                    total = if sum > 255 { 255 } else { sum };
                },
                _ => {},
            }
            i = i + 1;
        }
        proof {
            assert(effects@.subrange(0, effects@.len() as int) =~= effects@);
        }
        total as u8
    }

    /// Whether `player` could play `card` through a chain symbol printed on
    /// another card of its tableau.
    pub fn uses_chain(&self, player: Faction, card: ChapterCard) -> (r: bool)
        requires
            self.wf(),
            valid_card(card),
        ensures
            r == self.chain_open(player, card),
    {
        proof {
            Game::lemma_structure(*self);
        }
        let def = self.catalogue.card_definition(card);
        match &def.cost.chain {
            Some(chain) => self.chain_in_tableau(player, chain.as_str(), Some(card)),
            None => false,
        }
    }

    /// Whether a card of `player`'s tableau other than `except` prints `chain`.
    fn chain_in_tableau(&self, player: Faction, chain: &str, except: Option<ChapterCard>) -> (r: bool)
        requires
            self.wf(),
        ensures
            r == chain_held(*self.catalogue, self.player_of(player).tableau@, chain@, except),
    {
        proof {
            Game::lemma_structure(*self);
        }
        let tableau = &self.player(player).tableau;
        let mut i: usize = 0;
        while i < tableau.len()
            invariant
                i <= tableau@.len(),
                self.wf(),
                self.catalogue.wf(),
                *tableau == self.player_of(player).tableau,
                forall|k: int| 0 <= k < tableau@.len() ==> card_dealt(#[trigger] tableau@[k], self.chapters@.len()),
                forall|k: int|
                    0 <= k < i ==> !(Some(tableau@[k]) != except && #[trigger] provides_chain_text(
                        *self.catalogue,
                        tableau@[k],
                        chain@,
                    )),
            decreases tableau.len() - i,
        {
            let owned = tableau[i];
            let skip = match except {
                Some(c) => c == owned,
                None => false,
            };
            if !skip {
                let def = self.catalogue.card_definition(owned);
                let found = match &def.provides_chain {
                    Some(c) => crate::text::same_text(c.as_str(), chain),
                    None => false,
                };
                if found {
                    proof {
                        assert(provides_chain_text(*self.catalogue, tableau@[i as int], chain@));
                    }
                    return true;
                }
            }
            i = i + 1;
        }
        false
    }

    /// The fixed Skill production and the choice symbols of the active
    /// player's tableau.
    fn skill_sources(&self) -> (r: ([u32; 5], Vec<Vec<Vec<(Skill, u8)>>>))
        requires
            self.wf(),
        ensures
            skill_vector(r.0) == production(*self.catalogue, self.player_of(self.active_player).tableau@),
            bounded_vector(skill_vector(r.0)),
            nested_view(r.1@) == choice_list(*self.catalogue, self.player_of(self.active_player).tableau@),
    {
        proof {
            Game::lemma_structure(*self);
        }
        let tableau = &self.player(self.active_player).tableau;
        let mut produced: [u32; 5] = [0, 0, 0, 0, 0];
        let mut choices: Vec<Vec<Vec<(Skill, u8)>>> = Vec::new();
        let mut i: usize = 0;
        proof {
            assert(skill_vector(produced) =~= seq![0nat, 0nat, 0nat, 0nat, 0nat]);
            assert(nested_view(choices@) =~= seq![]);
        }
        while i < tableau.len()
            invariant
                i <= tableau@.len(),
                self.wf(),
                self.catalogue.wf(),
                *tableau == self.player_of(self.active_player).tableau,
                forall|k: int| 0 <= k < tableau@.len() ==> card_dealt(#[trigger] tableau@[k], self.chapters@.len()),
                skill_vector(produced) == production(*self.catalogue, tableau@.subrange(0, i as int)),
                bounded_vector(skill_vector(produced)),
                nested_view(choices@) == choice_list(*self.catalogue, tableau@.subrange(0, i as int)),
            decreases tableau.len() - i,
        {
            proof {
                assert(tableau@.subrange(0, i + 1).drop_last() =~= tableau@.subrange(0, i as int));
                assert(card_dealt(tableau@[i as int], self.chapters@.len()));
            }
            let def = self.catalogue.card_definition(tableau[i]);
            add_skills_exec(&mut produced, &def.provides.skills);
            if def.provides.skills_any_of.len() > 0 {
                let ghost before = choices@;
                choices.push(copy_alternatives(&def.provides.skills_any_of));
                proof {
                    assert(nested_view(choices@) =~= nested_view(before) + seq![
                        def.provides.skills_any_of@.map_values(|a: Vec<(Skill, u8)>| a@)
                    ]);
                }
            }
            i = i + 1;
        }
        proof {
            assert(tableau@.subrange(0, tableau@.len() as int) =~= tableau@);
        }
        (produced, choices)
    }

    /// The Skills the active player lacks for `required` (at most 255).
    fn missing_skills(&self, required: &Vec<(Skill, u8)>) -> (r: u8)
        requires
            self.wf(),
        ensures
            r == missing_for(*self.catalogue, self.player_of(self.active_player).tableau@, required@),
    {
        let (produced, choices) = self.skill_sources();
        minimum_missing_skills(required, produced, &choices)
    }

    /// `coins` plus a coin per missing Skill (one fewer with the any-Skill
    /// token), if the active player has that much.
    fn pay_skills(&self, coins: u8, required: &Vec<(Skill, u8)>, using_any_skill: bool) -> (r: Option<u8>)
        requires
            self.wf(),
        ensures
            r == self.skill_payment(coins as nat, required@, using_any_skill),
    {
        let mut missing = self.missing_skills(required);
        if using_any_skill {
            if !self.can_use_any_skill(self.active_player) || missing == 0 {
                return None;
            }
            missing = missing - 1;
        }
        let total = coins as u16 + missing as u16;
        if self.player(self.active_player).coins as u16 >= total {
            Some(total as u8)
        } else {
            None
        }
    }

    /// The minimum coin payment for `card`, or `None` when the active player
    /// cannot pay.
    pub fn payment_for(&self, card: ChapterCard) -> (r: Option<u8>)
        requires
            self.wf(),
            valid_card(card),
        ensures
            r == self.card_payment(card, false),
    {
        self.payment_for_with_any_skill(card, false)
    }

    /// The payment for `card` when one missing Skill comes from the any-Skill token.
    pub fn payment_for_using_any_skill(&self, card: ChapterCard) -> (r: Option<u8>)
        requires
            self.wf(),
            valid_card(card),
        ensures
            r == self.card_payment(card, true),
    {
        self.payment_for_with_any_skill(card, true)
    }

    pub fn payment_for_with_any_skill(&self, card: ChapterCard, using_any_skill: bool) -> (r: Option<u8>)
        requires
            self.wf(),
            valid_card(card),
        ensures
            r == self.card_payment(card, using_any_skill),
    {
        proof {
            Game::lemma_structure(*self);
        }
        let def = self.catalogue.card_definition(card);
        let chained = match &def.cost.chain {
            Some(chain) => self.chain_in_tableau(self.active_player, chain.as_str(), None),
            None => false,
        };
        if chained {
            return if using_any_skill { None } else { Some(0) };
        }
        self.pay_skills(def.cost.coins, &def.cost.skills, using_any_skill)
    }

    /// The payment for `card` with neither a chain symbol nor the any-Skill token.
    pub fn normal_payment_for(&self, card: ChapterCard) -> (r: Option<u8>)
        requires
            self.wf(),
            valid_card(card),
        ensures
            r == self.normal_payment(card),
    {
        proof {
            Game::lemma_structure(*self);
        }
        let def = self.catalogue.card_definition(card);
        self.pay_skills(def.cost.coins, &def.cost.skills, false)
    }

    /// The payment for the Landmark with ID `id`, or `None` when the active
    /// player cannot pay or no Landmark has that ID.
    pub fn landmark_payment(&self, id: &str) -> (r: Option<u8>)
        requires
            self.wf(),
        ensures
            r == self.landmark_payment_spec(id@, false),
    {
        self.landmark_payment_with_any_skill(id, false)
    }

    pub fn landmark_payment_using_any_skill(&self, id: &str) -> (r: Option<u8>)
        requires
            self.wf(),
        ensures
            r == self.landmark_payment_spec(id@, true),
    {
        self.landmark_payment_with_any_skill(id, true)
    }

    pub fn landmark_payment_with_any_skill(&self, id: &str, using_any_skill: bool) -> (r: Option<u8>)
        requires
            self.wf(),
        ensures
            r == self.landmark_payment_spec(id@, using_any_skill),
    {
        let index = match self.catalogue.landmark_index(id) {
            Some(i) => i,
            None => { return None; },
        };
        proof {
            crate::catalog::lemma_landmark_position(self.catalogue.landmarks@, id@);
        }
        let def = &self.catalogue.landmarks[index];
        let mut missing = self.missing_skills(&def.cost.skills);
        if using_any_skill {
            if !self.can_use_any_skill(self.active_player) || missing == 0 {
                return None;
            }
            missing = missing - 1;
        }
        let waived = self.has_persistent(self.active_player, PersistentEffect::WaiveLandmarkFortressCost)
            || self.player(self.active_player).waives_landmark_fortress_cost;
        let fortresses = self.fortress_total(self.active_player);
        assert(fortresses <= 7);
        assert(fortresses as u16 * def.cost.coins_per_existing_fortress as u16 <= 7 * 255) by (nonlinear_arith)
            requires
                fortresses <= 7,
        ;
        let extra: u16 = if waived { 0 } else { fortresses as u16 * def.cost.coins_per_existing_fortress as u16 };
        let total = missing as u16 + extra;
        if self.player(self.active_player).coins as u16 >= total {
            Some(total as u8)
        } else {
            None
        }
    }

    /// How many Fortresses `faction` has on the board.
    pub fn fortress_total(&self, faction: Faction) -> (r: u8)
        requires
            self.wf(),
        ensures
            r == fortresses_on_map(self.map@, faction),
    {
        let mut count: u8 = 0;
        let mut i: usize = 0;
        while i < self.map.len()
            invariant
                i <= self.map@.len(),
                self.wf(),
                count == fortresses_on_map(self.map@.subrange(0, i as int), faction),
                count <= i,
            decreases self.map.len() - i,
        {
            proof {
                assert(self.map@.subrange(0, i + 1).drop_last() =~= self.map@.subrange(0, i as int));
            }
            if self.map[i].fortress == Some(faction) {
                count = count + 1;
            }
            i = i + 1;
        }
        proof {
            assert(self.map@.subrange(0, self.map@.len() as int) =~= self.map@);
        }
        count
    }
}

} // verus!
