//! The answers to pending decisions. Each handler is reached only through a
//! legal action, so the decision it answers is the pending one.

use vstd::multiset::Multiset;
use vstd::prelude::*;

use crate::catalog::valid_token;
use crate::types::{
    spec_other, Action, AllianceStack, AllianceToken, AllianceTrigger, ChapterCard, EntManeuver, Faction, PendingDecision,
    QuestBonusEffect, Race, Region,
};

use super::actions::answers;
use super::board::{coins_moved, fortress_removed, gained, lost, moved, placed, unit_removed};
use super::chapters::{discarded_into, taken_from_discards, turn_queued};
use super::effects::{revealed_for, settled_from, stacks_after};
use super::payments::{best_multiplier, multiplier_or_one};
use super::{
    card_dealt, decision_wf, effect_wf, lemma_order_tokens_update, lemma_printed_tokens_count,
    race_tokens, Effect, Game,
};

verus! {

/// Whether a pending decision holds components: a card waiting to be played
/// or discarded, or tokens revealed for a choice.
pub open spec fn holds_components(d: Option<PendingDecision>) -> bool {
    d matches Some(PendingDecision::CardDisposition { .. }) || d matches Some(
        PendingDecision::AllianceTokenChoice { .. },
    )
}

/// After `card` was discarded: it lies on top of its Chapter's discard pile,
/// every other discard pile and every tableau are as they were.
pub open spec fn card_discarded(a: Game, card: ChapterCard, b: Game) -> bool {
    &&& a.chapters@.len() <= b.chapters@.len()
    &&& b.chapters@[card.chapter - 1].discarded@ == a.chapters@[card.chapter - 1].discarded@.push(card)
    &&& forall|i: int| 0 <= i < a.chapters@.len() && i != card.chapter - 1 ==> (#[trigger] b.chapters@[i]).discarded
        == a.chapters@[i].discarded
    &&& b.fellowship.tableau == a.fellowship.tableau
    &&& b.sauron.tableau == a.sauron.tableau
}

/// Whether the pending decision asks `player`'s opponent to give up a Grey
/// card, and `card` is one in the opponent's tableau.
pub open spec fn grey_discard_goes_ahead(g: Game, card: ChapterCard) -> bool {
    g.pending_decision matches Some(PendingDecision::OpponentGreyCardDiscard { player })
        && g.player_of(spec_other(player)).tableau@.contains(card)
}

/// Whether the pending decision offers a free play and `card` lies in a
/// discard pile.
pub open spec fn free_play_goes_ahead(g: Game, card: ChapterCard) -> bool {
    g.pending_decision matches Some(PendingDecision::DiscardedCardFreePlay { .. }) && super::all_discarded(
        g.chapters@,
    ).contains(card)
}

/// Whether the pending decision offers revealed tokens and `token` is one.
pub open spec fn token_choice_goes_ahead(g: Game, token: AllianceToken) -> bool {
    g.pending_decision matches Some(PendingDecision::AllianceTokenChoice { revealed, .. }) && revealed@.contains(
        token,
    )
}

/// `g` with its pending decision answered.
pub open spec fn cleared(g: Game) -> Game {
    Game { pending_decision: None, ..g }
}

/// After a step that reached `x`: either the next decision `ask` is pending
/// in `b` and nothing else changed, or automatic resolution went on from `x`.
pub open spec fn then_ask_or_settle(x: Game, ask: Option<PendingDecision>, b: Game) -> bool {
    match ask {
        Some(d) => b == (Game { pending_decision: Some(d), ..x }),
        None => settled_from(x, b),
    }
}

/// The tokens of `races`, `per` from each stack, were revealed for `player`
/// to choose from; nothing else changed.
pub open spec fn tokens_revealed(a: Game, player: Faction, races: Seq<Race>, per: nat, b: Game) -> bool {
    &&& b.stack_orders() == stacks_after(a.stack_orders(), races, per)
    &&& b.pending_decision matches Some(PendingDecision::AllianceTokenChoice { player: p, revealed }) && p == player
        && revealed@ == revealed_for(a.stack_orders(), races, per)
    &&& b == (Game { alliance_stacks: b.alliance_stacks, pending_decision: b.pending_decision, ..a })
}

/// `b` is `a` after `player` takes up the Alliance reward `trigger`: a
/// matched Race is recorded and two of its tokens revealed; or the
/// three-Race reward is marked claimed and one token revealed from each of
/// the first three Races shown.
pub open spec fn trigger_taken(a: Game, player: Faction, trigger: AllianceTrigger, b: Game) -> bool {
    match trigger {
        AllianceTrigger::MatchingRace(race) => exists|m: Game| {
            &&& #[trigger] m.player_of(player).matched_races@ == a.player_of(player).matched_races@.push(race)
            &&& m == a.with_player(
                player,
                crate::types::PlayerState { matched_races: m.player_of(player).matched_races, ..a.player_of(player) },
            )
            &&& tokens_revealed(m, player, seq![race], 2, b)
        },
        AllianceTrigger::ThreeDifferentRaces => {
            let m = a.with_player(
                player,
                crate::types::PlayerState { claimed_three_race_alliance: true, ..a.player_of(player) },
            );
            let races = m.races_of(player);
            if races.len() >= 3 {
                tokens_revealed(m, player, races.subrange(0, 3), 1, b)
            } else {
                b == m
            }
        },
    }
}

/// At most `limit` of `amount`.
pub open spec fn up_to(amount: u8, limit: u8) -> u8 {
    if amount <= limit {
        amount
    } else {
        limit
    }
}

/// The Ent maneuvers still owed after one of `remaining` is chosen.
pub open spec fn maneuvers_left(player: Faction, remaining: u8) -> Seq<Effect> {
    if remaining > 1 {
        seq![Effect::ResolveEntManeuvers { player, remaining: (remaining - 1) as u8 }]
    } else {
        seq![]
    }
}

/// One Unit of `player` placed in `region` when its supply holds one.
pub open spec fn placed_if_supplied(a: Game, player: Faction, region: Region, x: Game) -> bool {
    if a.player_of(player).units_in_supply > 0 {
        placed(a, player, region, 1, x)
    } else {
        x == a
    }
}

/// One Unit of `player` moved from `from` to `to` when the regions are
/// connected and `from` holds one.
pub open spec fn moved_if_possible(a: Game, player: Faction, from: Region, to: Region, x: Game) -> bool {
    if crate::types::connected(from, to) && super::region_units(a.map@[crate::types::region_index(from)], player)
        > 0 {
        moved(a, player, from, to, x)
    } else {
        x == a
    }
}

/// One Unit of `enemy` removed from `region` when it holds one.
pub open spec fn removed_if_present(a: Game, enemy: Faction, region: Region, x: Game) -> bool {
    if super::region_units(a.map@[crate::types::region_index(region)], enemy) > 0 {
        unit_removed(a, enemy, region, x)
    } else {
        x == a
    }
}

/// `b` is `a` with `card` added on top of `f`'s tableau.
pub open spec fn tableau_gained(a: Game, f: Faction, card: ChapterCard, b: Game) -> bool {
    &&& b.player_of(f).tableau@ == a.player_of(f).tableau@.push(card)
    &&& b == a.with_player(f, crate::types::PlayerState { tableau: b.player_of(f).tableau, ..a.player_of(f) })
}

/// `b` is `a` with the first copy of `card` taken out of `f`'s tableau.
pub open spec fn tableau_lost(a: Game, f: Faction, card: ChapterCard, b: Game) -> bool {
    let t = a.player_of(f).tableau@;
    &&& b.player_of(f).tableau@ == t.remove(super::chapters::first_index(t, card))
    &&& b == a.with_player(f, crate::types::PlayerState { tableau: b.player_of(f).tableau, ..a.player_of(f) })
}

/// The coins a discard brings `player`: the Chapter number times the best
/// discard multiplier among its tokens (one without), at most 255.
pub open spec fn discard_income(a: Game, player: Faction) -> u8 {
    crate::helpers::capped(a.current_chapter as nat * multiplier_or_one(best_multiplier(a.held(player)))) as u8
}

/// The stack orders once `token` is back on top of its Race's stack.
pub open spec fn token_returned(orders: Seq<Seq<u8>>, token: AllianceToken) -> Seq<Seq<u8>> {
    let i = crate::types::race_index(token.race);
    orders.update(i, orders[i].push(token.id))
}

/// The stack orders once each of `tokens`, in order, is back on top of its
/// Race's stack.
pub open spec fn tokens_returned(orders: Seq<Seq<u8>>, tokens: Seq<AllianceToken>) -> Seq<Seq<u8>>
    decreases tokens.len(),
{
    if tokens.len() == 0 {
        orders
    } else {
        token_returned(tokens_returned(orders, tokens.drop_last()), tokens.last())
    }
}

/// `y` is `a` with the revealed tokens other than `token` back on top of
/// their stacks in the order revealed, and no decision pending.
pub open spec fn tokens_back(a: Game, token: AllianceToken, y: Game) -> bool {
    let revealed = a.pending_decision->0->AllianceTokenChoice_revealed@;
    let others = revealed.remove(super::chapters::first_index(revealed, token));
    &&& y.stack_orders() == tokens_returned(a.stack_orders(), others)
    &&& y == (Game { alliance_stacks: y.alliance_stacks, pending_decision: None, ..a })
}

/// `x` is `a` with `token` added to `player`'s tokens.
pub open spec fn token_added(a: Game, player: Faction, token: AllianceToken, x: Game) -> bool {
    &&& x.player_of(player).alliance_tokens@ == a.player_of(player).alliance_tokens@.push(token)
    &&& x == a.with_player(
        player,
        crate::types::PlayerState { alliance_tokens: x.player_of(player).alliance_tokens, ..a.player_of(player) },
    )
}

/// After `player` took `token` (reaching `x`): six Race symbols win at once;
/// otherwise, the game not being over, the token resolves first and
/// automatic resolution runs.
pub open spec fn token_settled(x: Game, player: Faction, token: AllianceToken, b: Game) -> bool {
    if super::effects::race_symbols(x, player) >= 6 {
        b == (Game { winner: Some(player), victory_type: Some(crate::types::VictoryType::RaceSupport), ..x })
    } else if x.winner is Some {
        b == x
    } else {
        exists|q: Game| {
            &&& #[trigger] queued_first(x, seq![Effect::ResolveAllianceToken { player, token }], q)
            &&& settled_from(q, b)
        }
    }
}

/// `b` is `a` with `front` queued before everything else.
pub open spec fn queued_first(a: Game, front: Seq<Effect>, b: Game) -> bool {
    b.effect_queue@ == front + a.effect_queue@ && b == (Game { effect_queue: b.effect_queue, ..a })
}

impl Game {
    /// Clears the pending decision, returning it. A card waiting to be played
    /// or discarded, and tokens revealed for a choice, stay pending: only
    /// their own answers settle them.
    pub fn take_decision(&mut self) -> (r: Option<PendingDecision>)
        requires
            old(self).wf(),
        ensures
            final(self).wf(),
            holds_components(old(self).pending_decision) ==> r is None && *final(self) == *old(self),
            !holds_components(old(self).pending_decision) ==> r == old(self).pending_decision && *final(self)
                == (Game { pending_decision: None, ..*old(self) }),
    {
        if matches!(self.pending_decision, Some(PendingDecision::CardDisposition { .. }))
            || matches!(self.pending_decision, Some(PendingDecision::AllianceTokenChoice { .. })) {
            return None;
        }
        let ghost a = *self;
        let d = self.pending_decision.take();
        proof {
            Game::lemma_structure(a);
            Game::lemma_structure_update(a, *self);
        }
        d
    }

    /// Takes the card waiting to be played or discarded into hand, if there is
    /// one; the state is then well formed but for that card.
    pub fn take_selected_card(&mut self) -> (r: Option<ChapterCard>)
        requires
            old(self).wf(),
        ensures
            old(self).pending_decision matches Some(PendingDecision::CardDisposition { card }) ==> r == Some(card)
                && *final(self) == (Game { pending_decision: None, ..*old(self) }) && final(self).wf_holding(card),
            !(old(self).pending_decision matches Some(PendingDecision::CardDisposition { .. })) ==> r is None
                && *final(self) == *old(self),
    {
        let card = match self.pending_decision {
            Some(PendingDecision::CardDisposition { card }) => card,
            _ => { return None; },
        };
        let ghost a = *self;
        self.pending_decision = None;
        proof {
            Game::lemma_structure(a);
            broadcast use vstd::multiset::group_multiset_axioms;
            assert(self.located_cards().insert(card) =~= a.located_cards());
        }
        Some(card)
    }

    /// Discards the card just taken: it goes to its Chapter's discard pile and
    /// earns the discard income; the turn then ends.
    pub fn discard_selected_card(&mut self)
        requires
            old(self).wf(),
            answers(Action::DiscardSelectedCard, old(self).pending_decision),
        ensures
            final(self).wf(),
            discard_selected_card_done(*old(self), *final(self)),
    {
        let card = match self.take_selected_card() {
            Some(card) => card,
            None => { return; },
        };
        self.discard_card(card);
        let income = self.discard_income_for(self.active_player);
        self.gain_coins(self.active_player, income);
        self.queue_turn_completion();
        self.resolve_effects();
    }

    /// Discards one Grey card from the opponent's tableau.
    #[verifier::rlimit(80)]
    pub fn discard_opponent_grey_card(&mut self, card: ChapterCard)
        requires
            old(self).wf(),
            answers(Action::DiscardOpponentGreyCard { card }, old(self).pending_decision),
        ensures
            final(self).wf(),
            discard_opponent_grey_card_done(*old(self), card, *final(self)),
    {
        let player = match self.take_decision() {
            Some(PendingDecision::OpponentGreyCardDiscard { player }) => player,
            _ => { return; },
        };
        let opponent = player.other();
        let position = match crate::types::card_position(&self.player(opponent).tableau, card) {
            Some(p) => p,
            None => {
                self.resolve_effects();
                return;
            },
        };
        let ghost a = *self;
        proof {
            Game::lemma_structure(a);
            assert(card_dealt(card, a.chapters@.len())) by {
                assert(a.player_of(opponent).tableau@[position as int] == card);
            }
            super::chapters::lemma_first_index_is(a.player_of(opponent).tableau@, card, position as int);
        }
        let ghost before = self.player_of(opponent).tableau@;
        self.player_mut(opponent).tableau.remove(position);
        proof {
            broadcast use {vstd::multiset::group_multiset_axioms, vstd::seq_lib::group_to_multiset_ensures};
            assert(self.player_of(opponent).tableau@ == before.remove(position as int));
            assert(self.player_of(opponent).tableau@.to_multiset() =~= before.to_multiset().remove(card));
            assert(before.to_multiset().count(card) > 0) by {
                assert(before.contains(card));
            }
            assert(self.located_cards().insert(card) =~= a.located_cards());
            assert(self.structure_core()) by {
                let n = self.chapters@.len();
                let t = self.player_of(opponent).tableau@;
                assert forall|m: int| 0 <= m < t.len() implies card_dealt(#[trigger] t[m], n) by {
                    if m < position {
                        assert(t[m] == before[m]);
                    } else {
                        assert(t[m] == before[m + 1]);
                    }
                }
            }
        }
        let ghost r = *self;
        proof {
            assert(tableau_lost(a, opponent, card, r));
        }
        self.discard_card(card);
        proof {
            assert(discarded_into(r, card, *self));
        }
        self.resolve_effects();
    }

    /// Plays a card from the discard piles without paying for it.
    #[verifier::rlimit(80)]
    pub fn play_discarded_card_for_free(&mut self, card: ChapterCard)
        requires
            old(self).wf(),
            answers(Action::PlayDiscardedCardForFree { card }, old(self).pending_decision),
        ensures
            final(self).wf(),
            play_discarded_card_for_free_done(*old(self), card, *final(self)),
    {
        let player = match self.take_decision() {
            Some(PendingDecision::DiscardedCardFreePlay { player }) => player,
            _ => { return; },
        };
        let ghost a = *self;
        proof {
            Game::lemma_structure(a);
        }
        let ghost piles = self.chapters@;
        if !self.remove_discarded_card(card) {
            self.resolve_effects();
            return;
        }
        proof {
            super::chapters::lemma_card_in_discards(a, card);
            super::chapters::lemma_first_holder(a.chapters@, card);
        }
        let ghost b = *self;
        self.player_mut(player).tableau.push(card);
        proof {
            broadcast use {vstd::multiset::group_multiset_axioms, vstd::seq_lib::group_to_multiset_ensures};
            assert(self.player_of(player).tableau@ == b.player_of(player).tableau@.push(card));
            assert(self.located_cards() =~= b.located_cards().insert(card));
            assert(self.structure_wf()) by {
                reveal(Game::structure_wf);
            }
        }
        let ghost t = *self;
        proof {
            assert(taken_from_discards(a, card, b));
            assert(tableau_gained(b, player, card, t));
        }
        let mut front: Vec<Effect> = Vec::new();
        front.push(Effect::ResolvePlayedCard { player, card, used_chain: false });
        self.push_front_all(front);
        proof {
            assert(front@ =~= seq![Effect::ResolvePlayedCard { player, card, used_chain: false }]);
            assert(queued_first(t, seq![Effect::ResolvePlayedCard { player, card, used_chain: false }], *self));
        }
        self.resolve_effects();
    }

    /// Resolves the chosen Alliance trigger; the Race check runs again after
    /// the token is taken.
    #[verifier::rlimit(40)]
    pub fn resolve_alliance_trigger(&mut self, trigger: AllianceTrigger)
        requires
            old(self).wf(),
            answers(Action::ResolveAllianceTrigger { trigger }, old(self).pending_decision),
        ensures
            final(self).wf(),
            resolve_alliance_trigger_done(*old(self), trigger, *final(self)),
    {
        let player = match self.take_decision() {
            Some(PendingDecision::AllianceTriggerChoice { player, .. }) => player,
            _ => { return; },
        };
        let ghost cleared_state = *self;
        let mut front: Vec<Effect> = Vec::new();
        front.push(Effect::ResolveRaceAllianceTriggers { player });
        self.push_front_all(front);
        let ghost q = *self;
        proof {
            assert(front@ =~= seq![Effect::ResolveRaceAllianceTriggers { player }]);
            assert(queued_first(cleared_state, seq![Effect::ResolveRaceAllianceTriggers { player }], q));
        }
        match trigger {
            AllianceTrigger::MatchingRace(race) => {
                let ghost a = *self;
                self.player_mut(player).matched_races.push(race);
                proof {
                    Game::lemma_structure_kept(a, *self);
                }
                let ghost m = *self;
                let races = vec![race];
                proof {
                    assert(races@ =~= seq![race]);
                }
                self.reveal_alliance_tokens(player, &races, 2);
                proof {
                    assert(m.player_of(player).matched_races@ == q.player_of(player).matched_races@.push(race));
                    assert(tokens_revealed(m, player, seq![race], 2, *self));
                }
            },
            AllianceTrigger::ThreeDifferentRaces => {
                let ghost a = *self;
                self.player_mut(player).claimed_three_race_alliance = true;
                proof {
                    Game::lemma_structure_kept(a, *self);
                }
                let races = self.player_races(player);
                if races.len() >= 3 {
                    let first = vec![races[0], races[1], races[2]];
                    proof {
                        assert(first@ =~= races@.subrange(0, 3));
                    }
                    self.reveal_alliance_tokens(player, &first, 1);
                }
            },
        }
    }

    /// Reveals two tokens of the chosen Race.
    pub fn choose_alliance_race(&mut self, race: Race)
        requires
            old(self).wf(),
            answers(Action::ChooseAllianceRace { race }, old(self).pending_decision),
        ensures
            final(self).wf(),
            choose_alliance_race_done(*old(self), race, *final(self)),
    {
        let player = match self.take_decision() {
            Some(PendingDecision::AllianceRaceChoice { player }) => player,
            _ => { return; },
        };
        let races = vec![race];
        proof {
            assert(races@ =~= seq![race]);
        }
        self.reveal_alliance_tokens(player, &races, 2);
    }

    /// Takes one revealed token; the others go back on top of their stacks in
    /// the order revealed. The Race check runs before the token resolves. A
    /// token that was not revealed changes nothing.
    #[verifier::rlimit(100)]
    pub fn take_alliance_token(&mut self, token: AllianceToken)
        requires
            old(self).wf(),
            answers(Action::TakeAllianceToken { token }, old(self).pending_decision),
        ensures
            final(self).wf(),
            take_alliance_token_done(*old(self), token, *final(self)),
    {
        let ghost a = *self;
        let (player, revealed) = match self.pending_decision.take() {
            Some(PendingDecision::AllianceTokenChoice { player, revealed }) => (player, revealed),
            other => {
                self.pending_decision = other;
                return;
            },
        };
        let position = match token_position(&revealed, token) {
            Some(p) => p,
            None => {
                self.pending_decision = Some(PendingDecision::AllianceTokenChoice { player, revealed });
                return;
            },
        };
        let ghost hand = revealed@.to_multiset();
        let ghost revealed0 = revealed@;
        proof {
            broadcast use {vstd::multiset::group_multiset_axioms, vstd::seq_lib::group_to_multiset_ensures};
            Game::lemma_structure(a);
            assert(self.located_tokens().add(hand) =~= a.located_tokens());
            assert(self.structure_core() && self.cards_kept()) by {
                assert(super::selected_card(self.pending_decision) =~= super::selected_card(a.pending_decision));
                assert(self.located_cards() =~= a.located_cards());
            }
            assert(revealed@.contains(token)) by {
                assert(revealed@[position as int] == token);
            }
            assert(hand.count(token) > 0);
            lemma_printed_tokens_count(6, token);
            assert(self.located_tokens().add(hand).count(token) == super::printed_tokens().count(token));
            assert(valid_token(token)) by {
                assert(valid_token(revealed@[position as int]));
            }
        }
        let mut others = revealed;
        others.remove(position);
        let ghost rest = others@;
        proof {
            broadcast use {vstd::multiset::group_multiset_axioms, vstd::seq_lib::group_to_multiset_ensures};
            assert(rest.to_multiset().insert(token) =~= hand);
            assert(rest.subrange(0, rest.len() as int) =~= rest);
            assert forall|k: int| 0 <= k < rest.len() implies valid_token(#[trigger] rest[k]) by {
                if k < position {
                    assert(rest[k] == revealed0[k]);
                } else {
                    assert(rest[k] == revealed0[k + 1]);
                }
            }
        }
        let mut i: usize = 0;
        while i < others.len()
            invariant
                i <= others@.len(),
                others@ == rest,
                forall|k: int| 0 <= k < rest.len() ==> valid_token(#[trigger] rest[k]),
                self.wf_holding_tokens(rest.subrange(i as int, rest.len() as int).to_multiset().insert(token)),
                self.pending_decision is None,
                self.fellowship.alliance_tokens == a.fellowship.alliance_tokens,
                self.sauron.alliance_tokens == a.sauron.alliance_tokens,
                self.chapters@.len() == a.chapters@.len(),
                self.stack_orders() == tokens_returned(a.stack_orders(), rest.subrange(0, i as int)),
                *self == (Game { alliance_stacks: self.alliance_stacks, pending_decision: None, ..a }),
            decreases others.len() - i,
        {
            let unchosen = others[i];
            let ghost held = rest.subrange(i as int, rest.len() as int).to_multiset().insert(token);
            proof {
                broadcast use {vstd::multiset::group_multiset_axioms, vstd::seq_lib::group_to_multiset_ensures};
                let tail = rest.subrange(i as int, rest.len() as int);
                assert(tail =~= seq![unchosen] + rest.subrange(i + 1, rest.len() as int));
                vstd::seq_lib::lemma_multiset_commutative(seq![unchosen], rest.subrange(i + 1, rest.len() as int));
                assert(seq![unchosen].to_multiset() =~= Multiset::singleton(unchosen)) by {
                    assert(seq![unchosen] =~= Seq::<AllianceToken>::empty().push(unchosen));
                }
                assert(held.remove(unchosen) =~= rest.subrange(i + 1, rest.len() as int).to_multiset().insert(token));
                assert(held.count(unchosen) > 0);
            }
            self.return_token(unchosen, Ghost(held));
            i = i + 1;
            proof {
                assert(rest.subrange(0, i as int).drop_last() =~= rest.subrange(0, i - 1));
            }
        }
        proof {
            broadcast use {vstd::multiset::group_multiset_axioms, vstd::seq_lib::group_to_multiset_ensures};
            assert(rest.subrange(rest.len() as int, rest.len() as int) =~= Seq::<AllianceToken>::empty());
        }
        let ghost y = *self;
        proof {
            assert(rest.subrange(0, rest.len() as int) =~= rest);
            assert(tokens_back(a, token, y));
            assert(rest.subrange(rest.len() as int, rest.len() as int) =~= Seq::<AllianceToken>::empty());
        }
        self.keep_token(player, token);
    }

    /// The chosen token joins `player`'s; the Race check runs, then the
    /// token resolves.
    #[verifier::rlimit(100)]
    fn keep_token(&mut self, player: Faction, token: AllianceToken)
        requires
            old(self).wf_holding_tokens(Seq::<AllianceToken>::empty().to_multiset().insert(token)),
            old(self).pending_decision is None,
            valid_token(token),
        ensures
            final(self).wf(),
            exists|x: Game| #[trigger] token_added(*old(self), player, token, x) && token_settled(x, player, token, *final(self)),
    {
        let ghost rest = Seq::<AllianceToken>::empty();
        let ghost b = *self;
        self.player_mut(player).alliance_tokens.push(token);
        proof {
            broadcast use {vstd::multiset::group_multiset_axioms, vstd::seq_lib::group_to_multiset_ensures};
            assert(Seq::<AllianceToken>::empty().to_multiset() =~= Multiset::<AllianceToken>::empty());
            assert(self.player_of(player).alliance_tokens@ == b.player_of(player).alliance_tokens@.push(token));
            match player {
                Faction::Fellowship => {
                    assert(self.fellowship.alliance_tokens@.to_multiset() =~= b.fellowship.alliance_tokens@.to_multiset().insert(token));
                    assert(self.sauron == b.sauron);
                },
                Faction::Sauron => {
                    assert(self.sauron.alliance_tokens@.to_multiset() =~= b.sauron.alliance_tokens@.to_multiset().insert(token));
                    assert(self.fellowship == b.fellowship);
                },
            }
            assert(self.alliance_stacks == b.alliance_stacks);
            assert(self.pending_decision == b.pending_decision);
            let ob = super::order_tokens(b.alliance_stacks@.map_values(|st: AllianceStack| st.token_order@), 6);
            assert(super::order_tokens(self.alliance_stacks@.map_values(|st: AllianceStack| st.token_order@), 6) == ob);
            let fa = self.fellowship.alliance_tokens@.to_multiset();
            let sa = self.sauron.alliance_tokens@.to_multiset();
            let fb = b.fellowship.alliance_tokens@.to_multiset();
            let sb = b.sauron.alliance_tokens@.to_multiset();
            let rv = super::revealed_tokens(self.pending_decision);
            assert(self.located_tokens() == ob.add(fa).add(sa).add(rv));
            assert(b.located_tokens() == ob.add(fb).add(sb).add(rv));
            assert(fa.add(sa) =~= fb.add(sb).insert(token));
            assert(self.located_tokens() =~= b.located_tokens().insert(token));
            let emptied = rest;
            assert(emptied.to_multiset() =~= Multiset::<AllianceToken>::empty());
            assert(b.located_tokens().add(emptied.to_multiset().insert(token)) == super::printed_tokens());
            assert(b.located_tokens().insert(token) =~= super::printed_tokens());
            assert(self.located_cards() == b.located_cards());
            assert(self.structure_core()) by {
                let t = self.player_of(player).alliance_tokens@;
                assert forall|m: int| 0 <= m < t.len() implies valid_token(#[trigger] t[m]) by {
                    if m < t.len() - 1 {
                        assert(t[m] == b.player_of(player).alliance_tokens@[m]);
                    }
                }
            }
            assert(self.structure_wf()) by {
                reveal(Game::structure_wf);
            }
        }
        let ghost x = *self;
        proof {
            assert(token_added(b, player, token, x));
        }
        self.check_race_victory(player);
        if self.winner.is_none() {
            let mut front: Vec<Effect> = Vec::new();
            front.push(Effect::ResolveAllianceToken { player, token });
            self.push_front_all(front);
            proof {
                assert(front@ =~= seq![Effect::ResolveAllianceToken { player, token }]);
                assert(queued_first(x, seq![Effect::ResolveAllianceToken { player, token }], *self));
            }
            self.resolve_effects();
        }
    }

    /// Puts a token held in hand back on top of its Race's stack.
    fn return_token(&mut self, token: AllianceToken, Ghost(hand): Ghost<Multiset<AllianceToken>>)
        requires
            old(self).wf_holding_tokens(hand),
            hand.count(token) > 0,
            valid_token(token),
        ensures
            final(self).wf_holding_tokens(hand.remove(token)),
            final(self).stack_orders() == token_returned(old(self).stack_orders(), token),
            *final(self) == (Game { alliance_stacks: final(self).alliance_stacks, ..*old(self) }),
    {
        let ghost a = *self;
        let i = token.race.index();
        let mut stack = self.alliance_stacks.remove(i);
        let ghost order0 = stack.token_order@;
        stack.token_order.push(token.id);
        self.alliance_stacks.insert(i, stack);
        proof {
            broadcast use {vstd::multiset::group_multiset_axioms, vstd::seq_lib::group_to_multiset_ensures};
            assert(self.alliance_stacks@ =~= a.alliance_stacks@.update(i as int, stack));
            let orders_a = a.alliance_stacks@.map_values(|st: AllianceStack| st.token_order@);
            let orders = self.alliance_stacks@.map_values(|st: AllianceStack| st.token_order@);
            assert(orders =~= orders_a.update(i as int, order0.push(token.id)));
            lemma_order_tokens_update(orders_a, 6, i as int, order0.push(token.id));
            let f = |id: u8| AllianceToken { race: crate::types::race_at(i as int), id };
            assert(order0.push(token.id).map_values(f) =~= order0.map_values(f).push(f(token.id)));
            assert(f(token.id) == token);
            assert(race_tokens(i as int, order0.push(token.id)) =~= race_tokens(i as int, order0).insert(token));
            assert forall|x: AllianceToken| #[trigger] super::order_tokens(orders, 6).count(x)
                == super::order_tokens(orders_a, 6).insert(token).count(x) by {
                assert(super::order_tokens(orders, 6).add(race_tokens(i as int, order0)).count(x)
                    == super::order_tokens(orders_a, 6).add(race_tokens(i as int, order0.push(token.id))).count(x));
            }
            assert(self.located_tokens() =~= a.located_tokens().insert(token));
            assert(self.located_tokens().add(hand.remove(token)) =~= a.located_tokens().add(hand));
            assert(self.structure_core()) by {
                assert forall|j: int, k: int|
                    0 <= j < 6 && 0 <= k < self.alliance_stacks@[j].token_order@.len() implies 1
                        <= #[trigger] self.alliance_stacks@[j].token_order@[k] <= 3 by {
                    if j == i && k < order0.len() {
                        assert(self.alliance_stacks@[j].token_order@[k] == order0[k]);
                    }
                }
            }
            assert(self.located_cards() == a.located_cards());
        }
    }

    /// Carries out the chosen Ent maneuver; any further maneuvers are queued.
    pub fn choose_ent_maneuver(&mut self, maneuver: EntManeuver)
        requires
            old(self).wf(),
            answers(Action::ChooseEntManeuver { maneuver }, old(self).pending_decision),
        ensures
            final(self).wf(),
            choose_ent_maneuver_done(*old(self), maneuver, *final(self)),
    {
        let (player, remaining) = match self.take_decision() {
            Some(PendingDecision::EntManeuverChoice { player, remaining }) => (player, remaining),
            _ => { return; },
        };
        let ghost a = *self;
        if remaining > 1 {
            let mut front: Vec<Effect> = Vec::new();
            front.push(Effect::ResolveEntManeuvers { player, remaining: remaining - 1 });
            self.push_front_all(front);
            proof {
                assert(front@ =~= seq![Effect::ResolveEntManeuvers { player, remaining: (remaining - 1) as u8 }]);
            }
        } else {
            proof {
                assert(a.effect_queue@ =~= seq![] + a.effect_queue@);
            }
        }
        let ghost q = *self;
        proof {
            assert(queued_first(a, maneuvers_left(player, remaining), q));
        }
        match maneuver {
            EntManeuver::OpponentLosesCoin => {
                self.lose_coins(player.other(), 1);
                let ghost y = *self;
                self.resolve_effects();
                proof {
                    assert(y == coins_moved(q, spec_other(player), -lost(q, spec_other(player), 1)));
                    assert(settled_from(y, *self));
                }
            },
            EntManeuver::MoveUnit => {
                self.set_decision(PendingDecision::CardUnitMovement { player, remaining: 1 });
            },
            EntManeuver::RemoveEnemyUnit => {
                self.set_decision(PendingDecision::CardEnemyUnitRemoval { player, remaining: 1 });
            },
        }
    }

    /// Sets a pending decision that names no card or token.
    pub fn set_decision(&mut self, d: PendingDecision)
        requires
            old(self).wf(),
            old(self).pending_decision is None,
            !(d is CardDisposition),
            !(d is AllianceTokenChoice),
            decision_wf(Some(d), old(self).chapters@.len()),
        ensures
            final(self).wf(),
            *final(self) == (Game { pending_decision: Some(d), ..*old(self) }),
    {
        let ghost a = *self;
        self.pending_decision = Some(d);
        proof {
            Game::lemma_structure(a);
            Game::lemma_structure_update(a, *self);
        }
    }

    /// Places one Unit from an Alliance token; further placements follow while
    /// Units remain.
    pub fn place_alliance_units(&mut self, region: Region)
        requires
            old(self).wf(),
            answers(Action::PlaceAllianceUnits { region }, old(self).pending_decision),
        ensures
            final(self).wf(),
            place_alliance_units_done(*old(self), region, *final(self)),
    {
        let (player, remaining) = match self.take_decision() {
            Some(PendingDecision::AllianceUnitPlacement { player, remaining }) => (player, remaining),
            _ => { return; },
        };
        let ghost a = *self;
        if self.player(player).units_in_supply > 0 {
            self.place_units_in_region(player, region, 1);
        }
        let ghost x = *self;
        proof {
            assert(placed_if_supplied(a, player, region, x));
        }
        if self.winner.is_none() && remaining > 1 && self.player(player).units_in_supply > 0 {
            self.set_decision(PendingDecision::AllianceUnitPlacement { player, remaining: remaining - 1 });
        } else {
            self.resolve_effects();
        }
    }

    /// Places the quest bonus's Unit.
    pub fn place_quest_bonus_unit(&mut self, region: Region)
        requires
            old(self).wf(),
            answers(Action::PlaceQuestBonusUnit { region }, old(self).pending_decision),
        ensures
            final(self).wf(),
            place_quest_bonus_unit_done(*old(self), region, *final(self)),
    {
        let player = match self.take_decision() {
            Some(PendingDecision::QuestBonusUnitPlacement { player }) => player,
            _ => { return; },
        };
        if self.player(player).units_in_supply > 0 {
            self.place_units_in_region(player, region, 1);
        }
        self.resolve_effects();
    }

    /// Deploys a Red card's Units (as many as the supply holds) in `region`.
    pub fn place_card_units(&mut self, region: Region)
        requires
            old(self).wf(),
            answers(Action::PlaceCardUnits { region }, old(self).pending_decision),
        ensures
            final(self).wf(),
            place_card_units_done(*old(self), region, *final(self)),
    {
        let (player, amount) = match self.take_decision() {
            Some(PendingDecision::CardUnitPlacement { player, amount, .. }) => (player, amount),
            _ => { return; },
        };
        let ghost a = *self;
        let supply = self.player(player).units_in_supply;
        let count = if amount <= supply { amount } else { supply };
        self.place_units_in_region(player, region, count);
        let ghost x = *self;
        self.resolve_effects();
        proof {
            assert(a == cleared(*old(self)));
            assert(count == up_to(amount, a.player_of(player).units_in_supply));
            assert(placed(a, player, region, count as int, x) && settled_from(x, *self));
        }
    }

    /// Ends a Unit placement that has no Unit to place.
    pub fn resolve_empty_card_unit_placement(&mut self)
        requires
            old(self).wf(),
            answers(Action::ResolveEmptyCardUnitPlacement, old(self).pending_decision),
        ensures
            final(self).wf(),
            resolve_empty_card_unit_placement_done(*old(self), *final(self)),
    {
        self.take_decision();
        self.resolve_effects();
    }

    /// Moves one Unit for a maneuver; further moves follow while owed.
    pub fn move_card_unit(&mut self, from: Region, to: Region)
        requires
            old(self).wf(),
            answers(Action::MoveCardUnit { from, to }, old(self).pending_decision),
        ensures
            final(self).wf(),
            move_card_unit_done(*old(self), from, to, *final(self)),
    {
        let (player, remaining) = match self.take_decision() {
            Some(PendingDecision::CardUnitMovement { player, remaining }) => (player, remaining),
            _ => { return; },
        };
        let ghost a = *self;
        if from.is_connected_to(to) && self.region_unit_count(player, from) > 0 {
            self.move_unit(player, from, to);
        }
        let ghost x = *self;
        proof {
            assert(moved_if_possible(a, player, from, to, x));
        }
        if self.winner.is_none() && remaining > 1 {
            self.set_decision(PendingDecision::CardUnitMovement { player, remaining: remaining - 1 });
        } else {
            self.resolve_effects();
        }
    }

    /// Removes one enemy Unit for a maneuver; further removals follow while owed.
    pub fn remove_card_enemy_unit(&mut self, region: Region)
        requires
            old(self).wf(),
            answers(Action::RemoveCardEnemyUnit { region }, old(self).pending_decision),
        ensures
            final(self).wf(),
            remove_card_enemy_unit_done(*old(self), region, *final(self)),
    {
        let (player, remaining) = match self.take_decision() {
            Some(PendingDecision::CardEnemyUnitRemoval { player, remaining }) => (player, remaining),
            _ => { return; },
        };
        let opponent = player.other();
        let ghost a = *self;
        if self.region_unit_count(opponent, region) > 0 {
            self.remove_unit(opponent, region);
        }
        let ghost x = *self;
        proof {
            assert(removed_if_present(a, spec_other(player), region, x));
        }
        if self.winner.is_none() && remaining > 1 {
            self.set_decision(PendingDecision::CardEnemyUnitRemoval { player, remaining: remaining - 1 });
        } else {
            self.resolve_effects();
        }
    }

    /// Ends a maneuver that has nothing to move or remove.
    pub fn resolve_unavailable_maneuver(&mut self)
        requires
            old(self).wf(),
            answers(Action::ResolveUnavailableManeuver, old(self).pending_decision),
        ensures
            final(self).wf(),
            resolve_unavailable_maneuver_done(*old(self), *final(self)),
    {
        self.take_decision();
        self.resolve_effects();
    }

    /// Removes the chosen enemy Fortress.
    pub fn remove_quest_bonus_fortress(&mut self, region: Region)
        requires
            old(self).wf(),
            answers(Action::RemoveQuestBonusFortress { region }, old(self).pending_decision),
        ensures
            final(self).wf(),
            remove_quest_bonus_fortress_done(*old(self), region, *final(self)),
    {
        if self.take_decision().is_none() {
            return;
        }
        proof {
            crate::types::lemma_region_index(region);
        }
        if self.map[region.index()].fortress.is_some() {
            self.remove_fortress(region);
        }
        self.resolve_effects();
    }

    /// Declines an optional bonus.
    pub fn skip_quest_bonus(&mut self)
        requires
            old(self).wf(),
            answers(Action::SkipQuestBonus, old(self).pending_decision),
        ensures
            final(self).wf(),
            skip_quest_bonus_done(*old(self), *final(self)),
    {
        self.take_decision();
        self.resolve_effects();
    }

    /// Accepts a coin or an extra turn from the quest track.
    pub fn accept_quest_bonus(&mut self)
        requires
            old(self).wf(),
            answers(Action::AcceptQuestBonus, old(self).pending_decision),
        ensures
            final(self).wf(),
            accept_quest_bonus_done(*old(self), *final(self)),
    {
        match self.take_decision() {
            Some(PendingDecision::QuestBonusChoice { player, effect }) => {
                match effect {
                    QuestBonusEffect::GainCoin => self.gain_coins(player, 1),
                    QuestBonusEffect::TakeExtraTurn => self.grant_extra_turn(),
                    _ => {},
                }
            },
            _ => { return; },
        }
        self.resolve_effects();
    }
}

/// The position of the first copy of `token` in `tokens`.
fn token_position(tokens: &Vec<AllianceToken>, token: AllianceToken) -> (r: Option<usize>)
    ensures
        r matches Some(p) ==> p < tokens@.len() && tokens@[p as int] == token
            && p == super::chapters::first_index(tokens@, token),
        r is None ==> !tokens@.contains(token),
{
    let mut i: usize = 0;
    while i < tokens.len()
        invariant
            i <= tokens@.len(),
            forall|k: int| 0 <= k < i ==> tokens@[k] != token,
        decreases tokens.len() - i,
    {
        if tokens[i] == token {
            proof {
                super::chapters::lemma_first_index_is(tokens@, token, i as int);
            }
            return Some(i);
        }
        i = i + 1;
    }
    None
}

/// The selected card went onto its discard pile; the tableaus are unchanged.
pub open spec fn discard_selected_card_done(a: Game, b: Game) -> bool {
    &&& a.pending_decision matches Some(PendingDecision::CardDisposition { card }) ==> {
        let p = a.active_player;
        &&& card_discarded(a, card, b)
        &&& exists|d: Game| {
            &&& #[trigger] discarded_into(cleared(a), card, d)
            &&& exists|y: Game| {
                &&& #[trigger] turn_queued(coins_moved(d, p, gained(d, discard_income(a, p)) as int), y)
                &&& settled_from(y, b)
            }
        }
    }
}

/// The chosen Grey card left the opponent's tableau for its discard pile; an absent card only ends the decision.
pub open spec fn discard_opponent_grey_card_done(a: Game, card: ChapterCard, b: Game) -> bool {
    &&& grey_discard_goes_ahead(a, card) ==> {
        let opponent = spec_other(a.pending_decision->0->OpponentGreyCardDiscard_player);
        let t = a.player_of(opponent).tableau@;
        &&& exists|r: Game| {
            &&& #[trigger] tableau_lost(cleared(a), opponent, card, r)
            &&& exists|d: Game| #[trigger] discarded_into(r, card, d) && settled_from(d, b)
        }
        &&& b.player_of(opponent).tableau@ == t.remove(super::chapters::first_index(t, card))
        &&& b.player_of(spec_other(opponent)).tableau == a.player_of(spec_other(opponent)).tableau
        &&& b.chapters@[card.chapter - 1].discarded@ == a.chapters@[card.chapter - 1].discarded@.push(card)
    }
    &&& !grey_discard_goes_ahead(a, card) ==> super::holdings_kept(a, b)
    &&& !grey_discard_goes_ahead(a, card) && a.pending_decision is Some ==> settled_from(cleared(a), b)
}

/// The chosen discarded card left its pile for the player's tableau; an absent card only ends the decision.
pub open spec fn play_discarded_card_for_free_done(a: Game, card: ChapterCard, b: Game) -> bool {
    &&& free_play_goes_ahead(a, card) ==> {
        let p = a.pending_decision->0->DiscardedCardFreePlay_player;
        &&& exists|r: Game| {
            &&& #[trigger] taken_from_discards(cleared(a), card, r)
            &&& exists|t: Game| {
                &&& #[trigger] tableau_gained(r, p, card, t)
                &&& exists|q: Game| {
                    &&& #[trigger] queued_first(t, seq![Effect::ResolvePlayedCard { player: p, card, used_chain: false }], q)
                    &&& settled_from(q, b)
                }
            }
        }
        &&& b.player_of(p).tableau@ == a.player_of(p).tableau@.push(card)
        &&& b.player_of(spec_other(p)).tableau == a.player_of(spec_other(p)).tableau
        &&& ({
            let h = super::chapters::first_holder(a.chapters@, card);
            let pile = a.chapters@[h].discarded@;
            &&& b.chapters@[h].discarded@ == pile.remove(super::chapters::first_index(pile, card))
            &&& forall|i: int| 0 <= i < a.chapters@.len() && i != h
                ==> #[trigger] b.chapters@[i].discarded == a.chapters@[i].discarded
        })
    }
    &&& !free_play_goes_ahead(a, card) ==> super::holdings_kept(a, b)
    &&& !free_play_goes_ahead(a, card) && a.pending_decision is Some ==> settled_from(cleared(a), b)
}

/// The chosen reward revealed its tokens, with the Race check queued to run again.
pub open spec fn resolve_alliance_trigger_done(a: Game, trigger: AllianceTrigger, b: Game) -> bool {
    &&& a.pending_decision matches Some(PendingDecision::AllianceTriggerChoice { player, .. }) ==> {
        let a = cleared(a);
        exists|q: Game| {
            &&& #[trigger] queued_first(a, seq![Effect::ResolveRaceAllianceTriggers { player }], q)
            &&& trigger_taken(q, player, trigger, b)
        }
    }
}

/// Two tokens of the chosen Race were revealed for the choosing player.
pub open spec fn choose_alliance_race_done(a: Game, race: Race, b: Game) -> bool {
    &&& a.pending_decision matches Some(PendingDecision::AllianceRaceChoice { player }) ==> tokens_revealed(
        cleared(a),
        player,
        seq![race],
        2,
        b,
    )
}

/// The chosen revealed token went to the choosing player.
pub open spec fn take_alliance_token_done(a: Game, token: AllianceToken, b: Game) -> bool {
    &&& token_choice_goes_ahead(a, token) ==> {
        let p = a.pending_decision->0->AllianceTokenChoice_player;
        &&& b.player_of(p).alliance_tokens@ == a.player_of(p).alliance_tokens@.push(token)
        &&& b.player_of(spec_other(p)).alliance_tokens == a.player_of(
            spec_other(p),
        ).alliance_tokens
        &&& exists|y: Game| {
            &&& #[trigger] tokens_back(a, token, y)
            &&& exists|x: Game| #[trigger] token_added(y, p, token, x) && token_settled(x, p, token, b)
        }
    }
    &&& !token_choice_goes_ahead(a, token) ==> b == a
}

/// The chosen Ent maneuver was carried out or asked for, the others queued.
pub open spec fn choose_ent_maneuver_done(a: Game, maneuver: EntManeuver, b: Game) -> bool {
    &&& a.pending_decision matches Some(PendingDecision::EntManeuverChoice { player, remaining }) ==> {
        let a = cleared(a);
        exists|q: Game| #[trigger] queued_first(a, maneuvers_left(player, remaining), q) && match maneuver {
            EntManeuver::OpponentLosesCoin => settled_from(
                coins_moved(q, spec_other(player), -lost(q, spec_other(player), 1)),
                b,
            ),
            EntManeuver::MoveUnit => b == (Game {
                pending_decision: Some(PendingDecision::CardUnitMovement { player, remaining: 1 }),
                ..q
            }),
            EntManeuver::RemoveEnemyUnit => b == (Game {
                pending_decision: Some(PendingDecision::CardEnemyUnitRemoval { player, remaining: 1 }),
                ..q
            }),
        }
    }
}

/// One Wizard Unit was placed; another placement is asked for while owed.
pub open spec fn place_alliance_units_done(a: Game, region: Region, b: Game) -> bool {
    &&& a.pending_decision matches Some(PendingDecision::AllianceUnitPlacement { player, remaining }) ==> {
        let a = cleared(a);
        exists|x: Game| {
            &&& #[trigger] placed_if_supplied(a, player, region, x)
            &&& then_ask_or_settle(
                x,
                if x.winner is None && remaining > 1 && x.player_of(player).units_in_supply > 0 {
                    Some(PendingDecision::AllianceUnitPlacement { player, remaining: (remaining - 1) as u8 })
                } else {
                    None
                },
                b,
            )
        }
    }
}

/// The quest bonus's Unit was placed when the supply held one.
pub open spec fn place_quest_bonus_unit_done(a: Game, region: Region, b: Game) -> bool {
    &&& a.pending_decision matches Some(PendingDecision::QuestBonusUnitPlacement { player }) ==> {
        let a = cleared(a);
        if a.player_of(player).units_in_supply > 0 {
            exists|x: Game| #[trigger] placed(a, player, region, 1, x) && settled_from(x, b)
        } else {
            settled_from(a, b)
        }
    }
}

/// The Red card's Units, as many as the supply holds, were placed.
pub open spec fn place_card_units_done(a: Game, region: Region, b: Game) -> bool {
    &&& a.pending_decision matches Some(PendingDecision::CardUnitPlacement { player, amount, .. }) ==> {
        let a = cleared(a);
        exists|x: Game| #[trigger] placed(a, player, region, up_to(amount, a.player_of(player).units_in_supply) as int, x)
            && settled_from(x, b)
    }
}

/// The placement ended with nothing placed.
pub open spec fn resolve_empty_card_unit_placement_done(a: Game, b: Game) -> bool {
    &&& settled_from(cleared(a), b)
}

/// One Unit moved over a connection; another move is asked for while owed.
pub open spec fn move_card_unit_done(a: Game, from: Region, to: Region, b: Game) -> bool {
    &&& a.pending_decision matches Some(PendingDecision::CardUnitMovement { player, remaining }) ==> {
        let a = cleared(a);
        exists|x: Game| {
            &&& #[trigger] moved_if_possible(a, player, from, to, x)
            &&& then_ask_or_settle(
                x,
                if x.winner is None && remaining > 1 {
                    Some(PendingDecision::CardUnitMovement { player, remaining: (remaining - 1) as u8 })
                } else {
                    None
                },
                b,
            )
        }
    }
}

/// One enemy Unit went back to its supply; another removal is asked for while owed.
pub open spec fn remove_card_enemy_unit_done(a: Game, region: Region, b: Game) -> bool {
    &&& a.pending_decision matches Some(PendingDecision::CardEnemyUnitRemoval { player, remaining }) ==> {
        let a = cleared(a);
        exists|x: Game| {
            &&& #[trigger] removed_if_present(a, spec_other(player), region, x)
            &&& then_ask_or_settle(
                x,
                if x.winner is None && remaining > 1 {
                    Some(PendingDecision::CardEnemyUnitRemoval { player, remaining: (remaining - 1) as u8 })
                } else {
                    None
                },
                b,
            )
        }
    }
}

/// The maneuver ended with nothing done.
pub open spec fn resolve_unavailable_maneuver_done(a: Game, b: Game) -> bool {
    &&& settled_from(cleared(a), b)
}

/// The Fortress in the chosen region went back to its owner.
pub open spec fn remove_quest_bonus_fortress_done(a: Game, region: Region, b: Game) -> bool {
    &&& ({
        let a = cleared(a);
        if a.map@[crate::types::region_index(region)].fortress is Some {
            exists|x: Game| #[trigger] fortress_removed(a, region, x) && x.wf() && settled_from(x, b)
        } else {
            settled_from(a, b)
        }
    })
}

/// The bonus was declined.
pub open spec fn skip_quest_bonus_done(a: Game, b: Game) -> bool {
    &&& settled_from(cleared(a), b)
}

/// The coin or the extra turn of the bonus was taken.
pub open spec fn accept_quest_bonus_done(a: Game, b: Game) -> bool {
    &&& a.pending_decision matches Some(PendingDecision::QuestBonusChoice { player, effect }) ==> {
        let a = cleared(a);
        settled_from(
            match effect {
                QuestBonusEffect::GainCoin => coins_moved(a, player, gained(a, 1) as int),
                QuestBonusEffect::TakeExtraTurn => Game {
                    extra_turns: crate::helpers::capped((a.extra_turns + 1) as nat) as u8,
                    ..a
                },
                _ => a,
            },
            b,
        )
    }
}

} // verus!
