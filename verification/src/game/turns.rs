//! The two turn actions: taking a Landmark, and playing the card just taken.

use vstd::prelude::*;

use crate::types::{spec_other, Action, ChapterCard, Faction, PendingDecision};

use super::actions::answers;

use super::{card_dealt, Effect, Game};

verus! {

impl Game {
    /// Takes the available Landmark `id`, paying its normal price.
    pub fn take_landmark(&mut self, id: &str)
        requires
            old(self).wf(),
            old(self).pending_decision is None,
        ensures
            final(self).wf(),
            take_landmark_done(*old(self), id@, *final(self)),
    {
        self.take_landmark_with_payment(id, false);
    }

    /// Takes the available Landmark `id`, one missing Skill coming from the
    /// any-Skill token.
    pub fn take_landmark_using_any_skill(&mut self, id: &str)
        requires
            old(self).wf(),
            old(self).pending_decision is None,
        ensures
            final(self).wf(),
            take_landmark_using_any_skill_done(*old(self), id@, *final(self)),
    {
        self.take_landmark_with_payment(id, true);
    }

    /// Takes a Landmark: the player pays, the tile leaves the offer, its
    /// effects resolve and the turn ends. An unaffordable or unavailable tile
    /// changes nothing.
    pub fn take_landmark_with_payment(&mut self, id: &str, using_any_skill: bool)
        requires
            old(self).wf(),
            old(self).pending_decision is None,
        ensures
            final(self).wf(),
            landmark_goes_ahead(*old(self), id@, using_any_skill) ==> landmark_taken(*old(self), id@, *final(self))
                && landmark_paid(*old(self), id@, using_any_skill, *final(self)),
            !landmark_goes_ahead(*old(self), id@, using_any_skill) ==> *final(self) == *old(self),
    {
        let payment = match self.landmark_payment_with_any_skill(id, using_any_skill) {
            Some(p) => p,
            None => { return; },
        };
        let landmark = match self.catalogue.landmark_index(id) {
            Some(i) => i,
            None => { return; },
        };
        let position = match offered_position(&self.landmarks.available, id) {
            Some(p) => p,
            None => { return; },
        };
        let ghost a = *self;
        proof {
            Game::lemma_structure(a);
            crate::catalog::lemma_landmark_position(a.catalogue.landmarks@, id@);
            lemma_offer_position(a.landmarks.available@, id@);
        }
        let tile = self.landmarks.available.remove(position);
        let player = self.active_player;
        let p = self.player_mut(player);
        if using_any_skill {
            p.used_any_skill_this_turn = true;
        }
        p.coins = p.coins - payment;
        p.landmarks.push(tile);
        self.coin_reserve = self.coin_reserve + payment;
        proof {
            broadcast use {vstd::multiset::group_multiset_axioms, vstd::seq_lib::group_to_multiset_ensures};
            assert(self.landmarks.available@ == a.landmarks.available@.remove(position as int));
            assert(a.landmarks.available@[position as int] == tile);
            assert(a.landmarks.available@.to_multiset().count(tile) > 0) by {
                assert(a.landmarks.available@.contains(tile));
            }
            assert(self.player_of(player).landmarks@ == a.player_of(player).landmarks@.push(tile));
            assert(self.located_landmarks() =~= a.located_landmarks());
            assert(self.structure_wf()) by {
                reveal(Game::structure_wf);
            }
        }
        self.effect_queue.push_back(Effect::ResolveLandmark { player, landmark });
        proof {
            let b = *self;
            assert(b.structure_wf()) by {
                Game::lemma_structure(a);
                reveal(Game::structure_wf);
                assert forall|i: int| 0 <= i < b.effect_queue@.len() implies super::effect_wf(
                    #[trigger] b.effect_queue@[i], b.chapters@.len()) by {
                    if i < a.effect_queue@.len() {
                        assert(b.effect_queue@[i] == a.effect_queue@[i]);
                    }
                }
            }
        }
        self.queue_turn_completion();
        proof {
            let x = *self;
            assert(x.effect_queue@ =~= a.effect_queue@.push(
                Effect::ResolveLandmark { player, landmark },
            ) + super::chapters::turn_completion(player));
            assert(landmark_paid_and_queued(a, id@, using_any_skill, x));
        }
        self.resolve_effects();
    }

    /// Plays the card just taken, through its chain symbol when the tableau
    /// shows one, otherwise paying for it.
    pub fn play_selected_card(&mut self)
        requires
            old(self).wf(),
            answers(Action::PlaySelectedCard, old(self).pending_decision),
        ensures
            final(self).wf(),
            play_selected_card_done(*old(self), *final(self)),
    {
        let card = match self.pending_decision {
            Some(PendingDecision::CardDisposition { card }) => card,
            _ => { return; },
        };
        proof {
            Game::lemma_structure(*self);
        }
        let chained = self.uses_chain(self.active_player, card);
        self.play_selected_card_with_payment(false, chained);
    }

    /// Plays the card just taken, paying for it even though a chain symbol
    /// would make it free.
    pub fn play_selected_card_normally(&mut self)
        requires
            old(self).wf(),
            answers(Action::PlaySelectedCardNormally, old(self).pending_decision),
        ensures
            final(self).wf(),
            play_selected_card_normally_done(*old(self), *final(self)),
    {
        self.play_selected_card_with_payment(false, false);
    }

    /// Plays the card just taken, one missing Skill coming from the any-Skill token.
    pub fn play_selected_card_using_any_skill(&mut self)
        requires
            old(self).wf(),
            answers(Action::PlaySelectedCardUsingAnySkill, old(self).pending_decision),
        ensures
            final(self).wf(),
            play_selected_card_using_any_skill_done(*old(self), *final(self)),
    {
        self.play_selected_card_with_payment(true, false);
    }

    /// Pays for the card just taken (nothing through a chain), adds it to the
    /// tableau, resolves it and ends the turn. An unaffordable card changes
    /// nothing.
    pub fn play_selected_card_with_payment(&mut self, using_any_skill: bool, use_chain: bool)
        requires
            old(self).wf(),
            old(self).pending_decision matches Some(PendingDecision::CardDisposition { .. }),
        ensures
            final(self).wf(),
            play_goes_ahead(*old(self), using_any_skill, use_chain) ==> card_played(*old(self), *final(self))
                && play_paid(*old(self), using_any_skill, use_chain, *final(self)),
            !play_goes_ahead(*old(self), using_any_skill, use_chain) ==> *final(self) == *old(self),
    {
        let card = match self.pending_decision {
            Some(PendingDecision::CardDisposition { card }) => card,
            _ => { return; },
        };
        proof {
            Game::lemma_structure(*self);
        }
        let payment = if use_chain {
            Some(0u8)
        } else if using_any_skill {
            self.payment_for_using_any_skill(card)
        } else {
            self.normal_payment_for(card)
        };
        let payment = match payment {
            Some(p) => p,
            None => { return; },
        };
        if payment > self.player(self.active_player).coins {
            return;
        }
        let ghost held = *self;
        self.take_selected_card();
        let ghost a = *self;
        proof {
            assert(a.wf_holding(card));
        }
        let player = self.active_player;
        let p = self.player_mut(player);
        p.coins = p.coins - payment;
        p.tableau.push(card);
        if using_any_skill {
            p.used_any_skill_this_turn = true;
        }
        self.coin_reserve = self.coin_reserve + payment;
        self.effect_queue.push_back(Effect::ResolvePlayedCard { player, card, used_chain: use_chain });
        proof {
            let b = *self;
            broadcast use {vstd::multiset::group_multiset_axioms, vstd::seq_lib::group_to_multiset_ensures};
            assert(b.player_of(player).tableau@ == a.player_of(player).tableau@.push(card));
            assert(b.located_cards() =~= a.located_cards().insert(card));
            assert(b.structure_wf()) by {
                reveal(Game::structure_wf);
                assert forall|i: int| 0 <= i < b.effect_queue@.len() implies super::effect_wf(
                    #[trigger] b.effect_queue@[i], b.chapters@.len()) by {
                    if i < a.effect_queue@.len() {
                        assert(b.effect_queue@[i] == a.effect_queue@[i]);
                    }
                }
            }
        }
        self.queue_turn_completion();
        let ghost x = *self;
        proof {
            assert(x.effect_queue@ =~= held.effect_queue@.push(
                Effect::ResolvePlayedCard { player, card, used_chain: use_chain },
            ) + super::chapters::turn_completion(player));
            assert(paid_and_queued(held, payment, using_any_skill, use_chain, x));
        }
        self.resolve_effects();
    }
}

/// The position of Landmark `id` in the offer.
fn offered_position(available: &Vec<String>, id: &str) -> (r: Option<usize>)
    ensures
        r matches Some(p) ==> p == offer_position(available@, id@),
        r is None ==> offer_position(available@, id@) < 0,
{
    let mut i: usize = 0;
    while i < available.len()
        invariant
            i <= available@.len(),
            forall|k: int| 0 <= k < i ==> (#[trigger] available@[k])@ != id@,
        decreases available.len() - i,
    {
        if crate::text::same_text(available[i].as_str(), id) {
            proof {
                lemma_offer_position_at(available@, id@, i as int);
            }
            return Some(i);
        }
        i = i + 1;
    }
    proof {
        lemma_offer_position_none(available@, id@);
    }
    None
}

/// The position of the first offered tile with ID `id`, or -1.
pub open spec fn offer_position(offer: Seq<String>, id: Seq<char>) -> int
    decreases offer.len(),
{
    if offer.len() == 0 {
        -1
    } else if offer_position(offer.drop_last(), id) >= 0 {
        offer_position(offer.drop_last(), id)
    } else if offer.last()@ == id {
        offer.len() - 1
    } else {
        -1
    }
}

proof fn lemma_offer_position_at(offer: Seq<String>, id: Seq<char>, i: int)
    requires
        0 <= i < offer.len(),
        offer[i]@ == id,
        forall|k: int| 0 <= k < i ==> (#[trigger] offer[k])@ != id,
    ensures
        offer_position(offer, id) == i,
    decreases offer.len(),
{
    if i < offer.len() - 1 {
        lemma_offer_position_at(offer.drop_last(), id, i);
    } else {
        lemma_offer_position_none(offer.drop_last(), id);
    }
}

proof fn lemma_offer_position_none(offer: Seq<String>, id: Seq<char>)
    requires
        forall|k: int| 0 <= k < offer.len() ==> (#[trigger] offer[k])@ != id,
    ensures
        offer_position(offer, id) < 0,
    decreases offer.len(),
{
    if offer.len() > 0 {
        lemma_offer_position_none(offer.drop_last(), id);
    }
}

pub proof fn lemma_offer_position(offer: Seq<String>, id: Seq<char>)
    ensures
        offer_position(offer, id) >= -1,
        offer_position(offer, id) >= 0 ==> offer_position(offer, id) < offer.len() && offer[offer_position(
            offer,
            id,
        )]@ == id,
    decreases offer.len(),
{
    if offer.len() > 0 {
        lemma_offer_position(offer.drop_last(), id);
    }
}

/// The price of playing `card`: nothing through its chain symbol, otherwise
/// the price with or without the any-Skill token.
pub open spec fn play_price(g: Game, card: ChapterCard, using_any_skill: bool, use_chain: bool) -> Option<u8> {
    if use_chain {
        Some(0u8)
    } else if using_any_skill {
        g.card_payment(card, true)
    } else {
        g.normal_payment(card)
    }
}

/// Whether playing the selected card at that price goes ahead: a card is
/// selected and the active player can pay its price.
pub open spec fn play_goes_ahead(g: Game, using_any_skill: bool, use_chain: bool) -> bool {
    g.pending_decision matches Some(PendingDecision::CardDisposition { card }) && play_price(
        g,
        card,
        using_any_skill,
        use_chain,
    ) matches Some(price) && price <= g.player_of(g.active_player).coins
}

/// `x` is `a` once the active player has paid `price` coins into the reserve
/// for the card awaiting play, added it to its tableau (using the any-Skill
/// token when `using_any_skill`), and queued its resolution and the end of
/// the turn.
pub open spec fn paid_and_queued(a: Game, price: u8, using_any_skill: bool, use_chain: bool, x: Game) -> bool {
    let p = a.active_player;
    let card = a.pending_decision->0->CardDisposition_card;
    let before = a.player_of(p);
    &&& x.player_of(p).tableau@ == before.tableau@.push(card)
    &&& x.player_of(p).coins == before.coins - price
    &&& x.player_of(p).used_any_skill_this_turn == (before.used_any_skill_this_turn || using_any_skill)
    &&& x.coin_reserve == a.coin_reserve + price
    &&& x.effect_queue@ == a.effect_queue@.push(
        Effect::ResolvePlayedCard { player: p, card, used_chain: use_chain },
    ) + super::chapters::turn_completion(p)
    &&& x == (Game {
        pending_decision: None,
        coin_reserve: x.coin_reserve,
        effect_queue: x.effect_queue,
        ..a.with_player(
            p,
            crate::types::PlayerState {
                coins: x.player_of(p).coins,
                tableau: x.player_of(p).tableau,
                used_any_skill_this_turn: x.player_of(p).used_any_skill_this_turn,
                ..before
            },
        )
    })
}

/// The card awaiting play was paid for at its price and added to the
/// tableau, its resolution and the end of the turn queued, and automatic
/// resolution ran from there.
pub open spec fn play_paid(a: Game, using_any_skill: bool, use_chain: bool, b: Game) -> bool {
    let card = a.pending_decision->0->CardDisposition_card;
    let price = play_price(a, card, using_any_skill, use_chain)->0;
    exists|x: Game| #[trigger] paid_and_queued(a, price, using_any_skill, use_chain, x) && super::effects::settled_from(x, b)
}

/// `x` is `a` once the active player has paid the price of the offered
/// Landmark `id` into the reserve (using the any-Skill token when
/// `using_any_skill`), moved the tile from the offer to its own, and queued
/// the Landmark's resolution and the end of the turn.
pub open spec fn landmark_paid_and_queued(a: Game, id: Seq<char>, using_any_skill: bool, x: Game) -> bool {
    let p = a.active_player;
    let before = a.player_of(p);
    let position = offer_position(a.landmarks.available@, id);
    let price = a.landmark_payment_spec(id, using_any_skill)->0;
    let landmark = crate::catalog::landmark_position(a.catalogue.landmarks@, id);
    &&& x.landmarks.available@ == a.landmarks.available@.remove(position)
    &&& x.player_of(p).landmarks@ == before.landmarks@.push(a.landmarks.available@[position])
    &&& x.player_of(p).coins == before.coins - price
    &&& x.player_of(p).used_any_skill_this_turn == (before.used_any_skill_this_turn || using_any_skill)
    &&& x.coin_reserve == a.coin_reserve + price
    &&& x.effect_queue@ == a.effect_queue@.push(
        Effect::ResolveLandmark { player: p, landmark: landmark as usize },
    ) + super::chapters::turn_completion(p)
    &&& x == (Game {
        landmarks: crate::types::LandmarkState { available: x.landmarks.available, ..a.landmarks },
        coin_reserve: x.coin_reserve,
        effect_queue: x.effect_queue,
        ..a.with_player(
            p,
            crate::types::PlayerState {
                coins: x.player_of(p).coins,
                landmarks: x.player_of(p).landmarks,
                used_any_skill_this_turn: x.player_of(p).used_any_skill_this_turn,
                ..before
            },
        )
    })
}

/// The offered Landmark `id` was paid for and taken, its resolution and the
/// end of the turn queued, and automatic resolution ran from there.
pub open spec fn landmark_paid(a: Game, id: Seq<char>, using_any_skill: bool, b: Game) -> bool {
    exists|x: Game| #[trigger] landmark_paid_and_queued(a, id, using_any_skill, x) && super::effects::settled_from(x, b)
}

/// After a card was played: the active player's tableau gained it, the other
/// tableau and every discard pile are as they were.
pub open spec fn card_played(a: Game, b: Game) -> bool {
    let p = a.active_player;
    let card = a.pending_decision->0->CardDisposition_card;
    &&& b.player_of(p).tableau@ == a.player_of(p).tableau@.push(card)
    &&& b.player_of(spec_other(p)).tableau == a.player_of(spec_other(p)).tableau
    &&& a.chapters@.len() <= b.chapters@.len()
    &&& forall|i: int| 0 <= i < a.chapters@.len() ==> (#[trigger] b.chapters@[i]).discarded == a.chapters@[i].discarded
}

/// Whether taking Landmark `id` goes ahead: it is offered and the active
/// player can pay for it.
pub open spec fn landmark_goes_ahead(g: Game, id: Seq<char>, using_any_skill: bool) -> bool {
    g.landmark_payment_spec(id, using_any_skill) is Some && offer_position(g.landmarks.available@, id) >= 0
}

/// After Landmark `id` was taken: the active player holds the tile that was
/// offered, and every tableau is as it was.
pub open spec fn landmark_taken(a: Game, id: Seq<char>, b: Game) -> bool {
    let p = a.active_player;
    &&& b.player_of(p).landmarks@ == a.player_of(p).landmarks@.push(
        a.landmarks.available@[offer_position(a.landmarks.available@, id)],
    )
    &&& b.player_of(spec_other(p)).landmarks == a.player_of(spec_other(p)).landmarks
    &&& b.fellowship.tableau == a.fellowship.tableau
    &&& b.sauron.tableau == a.sauron.tableau
}

/// The Landmark went to the active player when offered and affordable.
pub open spec fn take_landmark_done(a: Game, id: Seq<char>, b: Game) -> bool {
    &&& landmark_goes_ahead(a, id, false) ==> landmark_taken(a, id, b) && landmark_paid(a, id, false, b)
    &&& !landmark_goes_ahead(a, id, false) ==> b == a
}

/// The Landmark went to the active player, using the any-Skill token, when offered and affordable.
pub open spec fn take_landmark_using_any_skill_done(a: Game, id: Seq<char>, b: Game) -> bool {
    &&& landmark_goes_ahead(a, id, true) ==> landmark_taken(a, id, b) && landmark_paid(a, id, true, b)
    &&& !landmark_goes_ahead(a, id, true) ==> b == a
}

/// The selected card was played, through its chain when open, when affordable.
pub open spec fn play_selected_card_done(a: Game, b: Game) -> bool {
    &&& ({
        let chained = a.pending_decision matches Some(PendingDecision::CardDisposition { card })
            && a.chain_open(a.active_player, card);
        &&& play_goes_ahead(a, false, chained) ==> card_played(a, b) && play_paid(a, false, chained, b)
        &&& !play_goes_ahead(a, false, chained) ==> b == a
    })
}

/// The selected card was played at its normal price when affordable.
pub open spec fn play_selected_card_normally_done(a: Game, b: Game) -> bool {
    &&& play_goes_ahead(a, false, false) ==> card_played(a, b) && play_paid(a, false, false, b)
    &&& !play_goes_ahead(a, false, false) ==> b == a
}

/// The selected card was played with the any-Skill token when affordable.
pub open spec fn play_selected_card_using_any_skill_done(a: Game, b: Game) -> bool {
    &&& play_goes_ahead(a, true, false) ==> card_played(a, b) && play_paid(a, true, false, b)
    &&& !play_goes_ahead(a, true, false) ==> b == a
}

} // verus!
