//! Laws of scoring, the quest track, token rewards and the public state text.

use vstd::prelude::*;

use crate::alliance_schema::{AllianceEffect, PersistentEffect};
use crate::card_schema::CardColor;
use crate::text::decimal;
use crate::types::{Faction, RegionState, VictoryType};

use super::board::{bonus_queue, quest_moved};
use super::chapters::{presence_count, territory_compared};
use super::payments::card_triggers;
use super::render::state_text;
use super::{Effect, Game};

verus! {

/// The regions of `map` where `f` has a Unit or a Fortress.
pub open spec fn held_regions(map: Seq<RegionState>, f: Faction) -> Seq<RegionState> {
    map.filter(
        |r: RegionState|
            r.fortress == Some(f) || match f {
                Faction::Fellowship => r.fellowship_units > 0,
                Faction::Sauron => r.sauron_units > 0,
            },
    )
}

/// A faction's presence is the number of regions where it has a Unit or a
/// Fortress: each such region counts once, whatever stands there, so the
/// count never exceeds the number of regions.
pub proof fn law_presence_counts_each_region_once(map: Seq<RegionState>, f: Faction)
    ensures
        presence_count(map, f) == held_regions(map, f).len(),
        presence_count(map, f) <= map.len(),
    decreases map.len(),
{
    reveal_with_fuel(Seq::filter, 1);
    if map.len() > 0 {
        law_presence_counts_each_region_once(map.drop_last(), f);
    }
}

/// The final territorial comparison: more regions held (by Units or a
/// Fortress, one per region) wins; equal counts are a shared victory.
pub proof fn law_final_comparison_counts_regions(a: Game, b: Game)
    requires
        territory_compared(a, b),
    ensures
        ({
            let f = held_regions(a.map@, Faction::Fellowship).len();
            let s = held_regions(a.map@, Faction::Sauron).len();
            &&& f > s ==> b.winner == Some(Faction::Fellowship) && b.victory_type == Some(
                VictoryType::TerritorialComparison,
            )
            &&& f < s ==> b.winner == Some(Faction::Sauron) && b.victory_type == Some(
                VictoryType::TerritorialComparison,
            )
            &&& f == s ==> b.shared_territory_victory && b.victory_type == Some(
                VictoryType::SharedTerritorialComparison,
            )
        }),
{
    law_presence_counts_each_region_once(a.map@, Faction::Fellowship);
    law_presence_counts_each_region_once(a.map@, Faction::Sauron);
}

proof fn lemma_crossed_bonus_queued(
    bs: Seq<crate::types::QuestBonus>,
    of: int,
    nf: int,
    os: int,
    ns: int,
    player: Faction,
    i: int,
)
    requires
        0 <= i < bs.len(),
        !bs[i].claimed,
        (of < bs[i].position <= nf) || (os < bs[i].position <= ns),
    ensures
        bonus_queue(bs, of, nf, os, ns, player).contains(
            Effect::ResolveQuestBonus { player, effect: bs[i].effect },
        ),
    decreases bs.len(),
{
    let e = Effect::ResolveQuestBonus { player, effect: bs[i].effect };
    let rest = bonus_queue(bs.drop_last(), of, nf, os, ns, player);
    if i < bs.len() - 1 {
        lemma_crossed_bonus_queued(bs.drop_last(), of, nf, os, ns, player, i);
        let k = choose|k: int| 0 <= k < rest.len() && rest[k] == e;
        assert(bonus_queue(bs, of, nf, os, ns, player)[k] == e);
    } else {
        let q = bonus_queue(bs, of, nf, os, ns, player);
        assert(q[rest.len() as int] == e);
    }
}

/// The bonuses a move crosses: unclaimed, on a space that either marker
/// passed or reached.
pub open spec fn crossed_bonuses(
    bs: Seq<crate::types::QuestBonus>,
    of: int,
    nf: int,
    os: int,
    ns: int,
) -> Seq<crate::types::QuestBonus> {
    bs.filter(
        |b: crate::types::QuestBonus| !b.claimed && ((of < b.position <= nf) || (os < b.position <= ns)),
    )
}

proof fn lemma_bonus_queue_follows_track(
    bs: Seq<crate::types::QuestBonus>,
    of: int,
    nf: int,
    os: int,
    ns: int,
    player: Faction,
)
    ensures
        bonus_queue(bs, of, nf, os, ns, player) == crossed_bonuses(bs, of, nf, os, ns).map_values(
            |b: crate::types::QuestBonus| Effect::ResolveQuestBonus { player, effect: b.effect },
        ),
    decreases bs.len(),
{
    reveal_with_fuel(Seq::filter, 1);
    if bs.len() > 0 {
        lemma_bonus_queue_follows_track(bs.drop_last(), of, nf, os, ns, player);
        let f = |b: crate::types::QuestBonus| Effect::ResolveQuestBonus { player, effect: b.effect };
        let c = crossed_bonuses(bs.drop_last(), of, nf, os, ns);
        assert(c.push(bs.last()).map_values(f) =~= c.map_values(f).push(f(bs.last())));
        assert(bonus_queue(bs, of, nf, os, ns, player) =~= crossed_bonuses(bs, of, nf, os, ns).map_values(f));
    }
}

/// A quest move that does not end the game moves the markers as the rules
/// say (Frodo and Sam carry the Nazgul along, up to space 30; the Nazgul
/// alone stops at Frodo and Sam), and every unclaimed bonus that either
/// marker passed or reached is claimed and queued for the player who moved,
/// in track order, ahead of what was waiting; no other bonus changes.
pub proof fn law_quest_moves_claim_crossed_bonuses(a: Game, player: Faction, spaces: int, b: Game, i: int)
    requires
        quest_moved(a, player, spaces, b),
        spaces >= 0,
        b.quest.fellowship_position != 30,
        b.quest.sauron_position < b.quest.fellowship_position,
        0 <= i < a.quest.bonuses@.len(),
    ensures
        ({
            let of = a.quest.fellowship_position as int;
            let os = a.quest.sauron_position as int;
            let nf = b.quest.fellowship_position as int;
            let ns = b.quest.sauron_position as int;
            let bonus = a.quest.bonuses@[i];
            let crossed = !bonus.claimed && ((of < bonus.position <= nf) || (os < bonus.position <= ns));
            &&& player == Faction::Fellowship ==> nf == (if of + spaces <= 30 { of + spaces } else { 30 })
                && ns == (if os + spaces <= 30 { os + spaces } else { 30 })
            &&& player == Faction::Sauron ==> nf == of && ns == (if os + spaces <= of { os + spaces } else { of })
            &&& b.quest.bonuses@.len() == a.quest.bonuses@.len()
            &&& b.quest.bonuses@[i].position == bonus.position
            &&& b.quest.bonuses@[i].effect == bonus.effect
            &&& b.quest.bonuses@[i].claimed == (bonus.claimed || crossed)
            &&& crossed ==> b.effect_queue@.contains(
                Effect::ResolveQuestBonus { player, effect: bonus.effect },
            )
            &&& b.effect_queue@ == crossed_bonuses(a.quest.bonuses@, of, nf, os, ns).map_values(
                |x: crate::types::QuestBonus| Effect::ResolveQuestBonus { player, effect: x.effect },
            ) + a.effect_queue@
        }),
{
    lemma_bonus_queue_follows_track(
        a.quest.bonuses@,
        a.quest.fellowship_position as int,
        b.quest.fellowship_position as int,
        a.quest.sauron_position as int,
        b.quest.sauron_position as int,
        player,
    );
    let of = a.quest.fellowship_position as int;
    let os = a.quest.sauron_position as int;
    let nf = b.quest.fellowship_position as int;
    let ns = b.quest.sauron_position as int;
    let bonus = a.quest.bonuses@[i];
    if !bonus.claimed && ((of < bonus.position <= nf) || (os < bonus.position <= ns)) {
        lemma_crossed_bonus_queued(a.quest.bonuses@, of, nf, os, ns, player, i);
        let q = bonus_queue(a.quest.bonuses@, of, nf, os, ns, player);
        let e = Effect::ResolveQuestBonus { player, effect: bonus.effect };
        let k = choose|k: int| 0 <= k < q.len() && q[k] == e;
        assert(b.effect_queue@[k] == e);
    }
}

/// Frodo and Sam reaching space 30 win the game for the Fellowship; the
/// Nazgul reaching or passing them otherwise wins it for Sauron; any other
/// move leaves the game undecided as it was.
pub proof fn law_quest_victories(a: Game, player: Faction, spaces: int, b: Game)
    requires
        quest_moved(a, player, spaces, b),
    ensures
        b.quest.fellowship_position == 30 ==> b.winner == Some(Faction::Fellowship) && b.victory_type == Some(
            VictoryType::Quest,
        ),
        b.quest.fellowship_position != 30 && b.quest.sauron_position >= b.quest.fellowship_position ==> b.winner
            == Some(Faction::Sauron) && b.victory_type == Some(VictoryType::Quest),
        b.quest.fellowship_position != 30 && b.quest.sauron_position < b.quest.fellowship_position ==> b.winner
            == a.winner && b.victory_type == a.victory_type,
{
}

/// With a card played without a chain symbol, every effect the tokens
/// trigger is the reward of an `OnCardPlayed` effect for that card's color,
/// and every such reward is triggered: rewards for chained cards stay out.
pub proof fn law_unchained_play_triggers_color_rewards_only(ps: Seq<PersistentEffect>, color: CardColor)
    ensures
        forall|j: int| 0 <= j < card_triggers(ps, color, false).len() ==> exists|k: int|
            0 <= k < ps.len() && ps[k] == (PersistentEffect::OnCardPlayed {
                color,
                effect: #[trigger] card_triggers(ps, color, false)[j],
            }),
        forall|k: int|
            0 <= k < ps.len() && (#[trigger] ps[k] is OnCardPlayed) && ps[k]->OnCardPlayed_color
                == color ==> card_triggers(ps, color, false).contains(ps[k]->OnCardPlayed_effect),
    decreases ps.len(),
{
    if ps.len() > 0 {
        let rest = ps.drop_last();
        law_unchained_play_triggers_color_rewards_only(rest, color);
        let r = card_triggers(rest, color, false);
        let all = card_triggers(ps, color, false);
        assert forall|j: int| 0 <= j < all.len() implies exists|k: int|
            0 <= k < ps.len() && ps[k] == (PersistentEffect::OnCardPlayed {
                color,
                effect: #[trigger] all[j],
            }) by {
            if j < r.len() {
                assert(all[j] == r[j]);
                let k = choose|k: int| 0 <= k < rest.len() && rest[k] == (PersistentEffect::OnCardPlayed {
                    color,
                    effect: r[j],
                });
                assert(ps[k] == rest[k]);
            } else {
                assert(ps[ps.len() - 1] == ps.last());
            }
        }
        assert forall|k: int|
            0 <= k < ps.len() && (#[trigger] ps[k] is OnCardPlayed) && ps[k]->OnCardPlayed_color
                == color implies all.contains(ps[k]->OnCardPlayed_effect) by {
            let e = ps[k]->OnCardPlayed_effect;
            if k < ps.len() - 1 {
                assert(rest[k] == ps[k]);
                let j = choose|j: int| 0 <= j < r.len() && r[j] == e;
                assert(all[j] == e);
            } else {
                assert(all[r.len() as int] == e);
            }
        }
    }
}

/// With a card played through a chain symbol, every reward of an
/// `OnChainedCardPlayed` effect is triggered as well.
pub proof fn law_chained_play_triggers_chain_rewards(ps: Seq<PersistentEffect>, color: CardColor)
    ensures
        forall|k: int|
            0 <= k < ps.len() && (#[trigger] ps[k] is OnChainedCardPlayed) ==> card_triggers(ps, color, true).contains(
                ps[k]->OnChainedCardPlayed_effect,
            ),
    decreases ps.len(),
{
    if ps.len() > 0 {
        let rest = ps.drop_last();
        law_chained_play_triggers_chain_rewards(rest, color);
        let r = card_triggers(rest, color, true);
        let all = card_triggers(ps, color, true);
        assert forall|k: int|
            0 <= k < ps.len() && (#[trigger] ps[k] is OnChainedCardPlayed) implies all.contains(
                ps[k]->OnChainedCardPlayed_effect,
            ) by {
            let e = ps[k]->OnChainedCardPlayed_effect;
            if k < ps.len() - 1 {
                assert(rest[k] == ps[k]);
                let j = choose|j: int| 0 <= j < r.len() && r[j] == e;
                assert(all[j] == e);
            } else {
                assert(all[r.len() as int] == e);
            }
        }
    }
}

/// Whether `p` rewards the play of a card of `color` (`chained` when it was
/// played through a chain symbol).
pub open spec fn rewards_play(p: PersistentEffect, color: CardColor, chained: bool) -> bool {
    (p is OnCardPlayed && p->OnCardPlayed_color == color) || (chained && p is OnChainedCardPlayed)
}

/// The triggered effects of a play are exactly as many as the token effects
/// that reward it: an `OnCardPlayed` effect of the card's color, or, for a
/// card played through a chain symbol only, an `OnChainedCardPlayed` effect.
pub proof fn law_triggered_effects_count_the_rewards(ps: Seq<PersistentEffect>, color: CardColor, chained: bool)
    ensures
        card_triggers(ps, color, chained).len() == ps.filter(
            |p: PersistentEffect| rewards_play(p, color, chained),
        ).len(),
        forall|j: int| 0 <= j < card_triggers(ps, color, chained).len() ==> exists|k: int|
            0 <= k < ps.len() && rewards_play(ps[k], color, chained) && #[trigger] card_triggers(ps, color, chained)[j]
                == match ps[k] {
                PersistentEffect::OnCardPlayed { effect, .. } => effect,
                PersistentEffect::OnChainedCardPlayed { effect } => effect,
                _ => AllianceEffect::TakeExtraTurn,
            },
    decreases ps.len(),
{
    reveal_with_fuel(Seq::filter, 1);
    if ps.len() > 0 {
        let rest = ps.drop_last();
        law_triggered_effects_count_the_rewards(rest, color, chained);
        let r = card_triggers(rest, color, chained);
        let all = card_triggers(ps, color, chained);
        assert forall|j: int| 0 <= j < all.len() implies exists|k: int|
            0 <= k < ps.len() && rewards_play(ps[k], color, chained) && #[trigger] all[j] == match ps[k] {
                PersistentEffect::OnCardPlayed { effect, .. } => effect,
                PersistentEffect::OnChainedCardPlayed { effect } => effect,
                _ => AllianceEffect::TakeExtraTurn,
            } by {
            if j < r.len() {
                assert(all[j] == r[j]);
                let k = choose|k: int|
                    0 <= k < rest.len() && rewards_play(rest[k], color, chained) && r[j] == match rest[k] {
                        PersistentEffect::OnCardPlayed { effect, .. } => effect,
                        PersistentEffect::OnChainedCardPlayed { effect } => effect,
                        _ => AllianceEffect::TakeExtraTurn,
                    };
                assert(ps[k] == rest[k]);
            } else {
                assert(ps[ps.len() - 1] == ps.last());
            }
        }
    }
}

/// The coin line of the public state.
pub open spec fn coin_line(g: Game) -> Seq<char> {
    "\ncoins: Fellowship="@ + decimal(g.fellowship.coins as nat) + ", Sauron="@ + decimal(g.sauron.coins as nat)
        + ", reserve="@ + decimal(g.coin_reserve as nat)
}

proof fn lemma_prefix_subrange(x: Seq<char>, y: Seq<char>, i: int, j: int)
    requires
        0 <= i <= j <= x.len(),
    ensures
        (x + y).subrange(i, j) == x.subrange(i, j),
{
    assert((x + y).subrange(i, j) =~= x.subrange(i, j));
}

/// The public state shows each faction's own coins, and the reserve, on its
/// coin line.
pub proof fn law_state_shows_each_factions_coins(g: Game)
    ensures
        exists|i: int|
            0 <= i && i + coin_line(g).len() <= state_text(g).len() && #[trigger] state_text(g).subrange(
                i,
                i + coin_line(g).len(),
            ) == coin_line(g),
{
    let head = super::render::head_text(g);
    let players = "\nplayers: Fellowship="@ + super::render::quest_character_text(g.fellowship.quest_character)
        + ", Sauron="@ + super::render::quest_character_text(g.sauron.quest_character);
    let economy = super::render::economy_text(g);
    let line = coin_line(g);
    assert(economy =~= players + line);
    let i: int = (head.len() + players.len()) as int;
    let j: int = i + line.len();
    let x1 = head + economy;
    assert(x1.subrange(i, j) =~= line);
    let x2 = x1 + super::render::holdings_text(g);
    lemma_prefix_subrange(x1, super::render::holdings_text(g), i, j);
    let x3 = x2 + super::render::track_text(g);
    lemma_prefix_subrange(x2, super::render::track_text(g), i, j);
    let x4 = x3 + super::render::offers_text(g);
    lemma_prefix_subrange(x3, super::render::offers_text(g), i, j);
    let x5 = x4 + super::render::board_text(g);
    lemma_prefix_subrange(x4, super::render::board_text(g), i, j);
    lemma_prefix_subrange(x5, super::render::pending_text(g), i, j);
    assert(state_text(g) == x5 + super::render::pending_text(g));
    assert(state_text(g).subrange(i, j) == line);
}

/// The quest line of the public state: the Nazgul's space, then that of
/// Frodo and Sam.
pub open spec fn quest_line(g: Game) -> Seq<char> {
    "\nquest: Nazgul="@ + decimal(g.quest.sauron_position as nat) + ", Frodo_and_Sam="@ + decimal(
        g.quest.fellowship_position as nat,
    )
}

/// The supply line of the public state.
pub open spec fn supply_line(g: Game) -> Seq<char> {
    "\nunits_in_supply: Fellowship="@ + decimal(g.fellowship.units_in_supply as nat) + ", Sauron="@ + decimal(
        g.sauron.units_in_supply as nat,
    )
}

/// The public state shows where each quest marker stands.
pub proof fn law_state_shows_quest_markers(g: Game)
    ensures
        exists|i: int|
            0 <= i && i + quest_line(g).len() <= state_text(g).len() && #[trigger] state_text(g).subrange(
                i,
                i + quest_line(g).len(),
            ) == quest_line(g),
{
    let head = super::render::head_text(g);
    let economy = super::render::economy_text(g);
    let holdings = super::render::holdings_text(g);
    let track = super::render::track_text(g);
    let x1 = head + economy;
    let x2 = x1 + holdings;
    let x3 = x2 + track;
    let x4 = x3 + super::render::offers_text(g);
    let x5 = x4 + super::render::board_text(g);
    assert(state_text(g) == x5 + super::render::pending_text(g));
    // the quest line opens the track text
    let q = quest_line(g);
    let bonuses = "\nquest_bonuses: "@ + super::render::joined(
        g.quest.bonuses@.map_values(|b: crate::types::QuestBonus| super::render::bonus_text(b)),
        ", "@,
    );
    assert(track =~= q + bonuses);
    let i: int = x2.len() as int;
    let j: int = i + q.len();
    assert(x3.subrange(i, j) =~= q);
    lemma_prefix_subrange(x3, super::render::offers_text(g), i, j);
    lemma_prefix_subrange(x4, super::render::board_text(g), i, j);
    lemma_prefix_subrange(x5, super::render::pending_text(g), i, j);
    assert(state_text(g).subrange(i, j) == q);
}

/// The public state shows each faction's own Units in supply.
pub proof fn law_state_shows_unit_supplies(g: Game)
    ensures
        exists|i: int|
            0 <= i && i + supply_line(g).len() <= state_text(g).len() && #[trigger] state_text(g).subrange(
                i,
                i + supply_line(g).len(),
            ) == supply_line(g),
{
    let head = super::render::head_text(g);
    let economy = super::render::economy_text(g);
    let holdings = super::render::holdings_text(g);
    let track = super::render::track_text(g);
    let x1 = head + economy;
    let x2 = x1 + holdings;
    let x3 = x2 + track;
    let x4 = x3 + super::render::offers_text(g);
    let x5 = x4 + super::render::board_text(g);
    assert(state_text(g) == x5 + super::render::pending_text(g));
    // the supply line closes the holdings text
    let u = supply_line(g);
    let before = "\ntableaus: Fellowship=["@ + super::render::tableau_text(g, g.fellowship) + "], Sauron=["@
        + super::render::tableau_text(g, g.sauron) + "]\nalliance_tokens: Fellowship=["@ + super::render::tokens_text(
        g,
        g.fellowship,
    ) + "], Sauron=["@ + super::render::tokens_text(g, g.sauron) + "]"@;
    reveal_strlit("]\nunits_in_supply: Fellowship=");
    reveal_strlit("]");
    reveal_strlit("\nunits_in_supply: Fellowship=");
    assert("]\nunits_in_supply: Fellowship="@ =~= "]"@ + "\nunits_in_supply: Fellowship="@);
    assert(holdings =~= before + u);
    let k: int = (x1.len() + before.len()) as int;
    let l: int = k + u.len();
    assert(x2.subrange(k, l) =~= u);
    lemma_prefix_subrange(x2, track, k, l);
    lemma_prefix_subrange(x3, super::render::offers_text(g), k, l);
    lemma_prefix_subrange(x4, super::render::board_text(g), k, l);
    lemma_prefix_subrange(x5, super::render::pending_text(g), k, l);
    assert(state_text(g).subrange(k, l) == u);
}

} // verus!
