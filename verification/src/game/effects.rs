//! Automatic resolution of the effect queue.

use vstd::prelude::*;

use crate::alliance_schema::AllianceEffect;
use crate::card_schema::CardColor;
use crate::catalog::valid_token;
use crate::helpers::capped;
use crate::landmark_schema::LandmarkEffect;
use crate::types::{
    race_index, spec_other, AllianceToken, AllianceTrigger, Faction, PendingDecision,
    QuestBonusEffect, Race, Region,
};

use super::board::{coins_moved, fortress_placed, gained, lost, quest_moved};
use super::chapters::{cards_revealed, chapter_transitioned};
use super::choices::{queued_first, tokens_revealed, trigger_taken};
use super::payments::{card_def, card_triggers, extra_red, landmark_triggers, token_def};
use super::{
    count_rank, decision_wf, effect_rank, effect_wf, lemma_order_tokens_update, order_tokens,
    race_tokens, Effect, Game,
};

verus! {

pub proof fn lemma_count_rank_concat(p: Seq<Effect>, q: Seq<Effect>, r: int)
    ensures
        count_rank(p + q, r) == count_rank(p, r) + count_rank(q, r),
    decreases q.len(),
{
    if q.len() == 0 {
        assert(p + q =~= p);
    } else {
        assert((p + q).drop_last() =~= p + q.drop_last());
        assert((p + q).last() == q.last());
        lemma_count_rank_concat(p, q.drop_last(), r);
    }
}

proof fn lemma_count_rank_lower(p: Seq<Effect>, r: int)
    requires
        forall|i: int| 0 <= i < p.len() ==> effect_rank(#[trigger] p[i]) < r,
    ensures
        forall|k: int| k >= r ==> count_rank(p, k) == 0,
    decreases p.len(),
{
    if p.len() > 0 {
        lemma_count_rank_lower(p.drop_last(), r);
        assert(effect_rank(p[p.len() - 1]) < r);
        assert forall|k: int| k >= r implies count_rank(p, k) == 0 by {
            assert(count_rank(p, k) == count_rank(p.drop_last(), k) + if effect_rank(p.last()) == k {
                1nat
            } else {
                0nat
            });
        }
    }
}

proof fn lemma_single_rank(e: Effect, r: int)
    ensures
        count_rank(seq![e], r) == if effect_rank(e) == r { 1nat } else { 0nat },
{
    assert(seq![e].drop_last() =~= Seq::<Effect>::empty());
    assert(seq![e].last() == e);
    assert(count_rank(Seq::<Effect>::empty(), r) == 0);
}

/// Replacing a queued effect by effects of lower rank shrinks the queue's
/// measure: its counts of ranks 2, 1 and 0, compared in that order.
proof fn lemma_queue_shrinks(e: Effect, pushed: Seq<Effect>, q: Seq<Effect>)
    requires
        forall|i: int| 0 <= i < pushed.len() ==> effect_rank(#[trigger] pushed[i]) < effect_rank(e),
    ensures
        decreases_to!(count_rank(seq![e] + q, 2), count_rank(seq![e] + q, 1), count_rank(seq![e] + q, 0)
            => count_rank(pushed + q, 2), count_rank(pushed + q, 1), count_rank(pushed + q, 0)),
{
    lemma_count_rank_lower(pushed, effect_rank(e));
    lemma_count_rank_concat(seq![e], q, 2);
    lemma_count_rank_concat(seq![e], q, 1);
    lemma_count_rank_concat(seq![e], q, 0);
    lemma_count_rank_concat(pushed, q, 2);
    lemma_count_rank_concat(pushed, q, 1);
    lemma_count_rank_concat(pushed, q, 0);
    lemma_single_rank(e, 2);
    lemma_single_rank(e, 1);
    lemma_single_rank(e, 0);
    assert(0 <= effect_rank(e) <= 2);
    if effect_rank(e) == 0 {
        assert(pushed.len() == 0 ==> pushed + q =~= q);
        if pushed.len() > 0 {
            assert(effect_rank(pushed[0]) < 0);
        }
    }
}

/// The tokens revealed from the top (the end) of a stack: at most `k`.
pub open spec fn popped(order: Seq<u8>, k: nat) -> Seq<u8>
    decreases k,
{
    if k == 0 || order.len() == 0 {
        seq![]
    } else {
        seq![order.last()] + popped(order.drop_last(), (k - 1) as nat)
    }
}

/// A stack after at most `k` tokens were taken from its top.
pub open spec fn kept(order: Seq<u8>, k: nat) -> Seq<u8>
    decreases k,
{
    if k == 0 || order.len() == 0 {
        order
    } else {
        kept(order.drop_last(), (k - 1) as nat)
    }
}

/// The tokens revealed for `races`, race by race, `per_race` from each stack.
pub open spec fn revealed_for(stacks: Seq<Seq<u8>>, races: Seq<Race>, per_race: nat) -> Seq<AllianceToken>
    decreases races.len(),
{
    if races.len() == 0 {
        seq![]
    } else {
        let rest = revealed_for(stacks, races.drop_last(), per_race);
        let race = races.last();
        let order = stacks_after(stacks, races.drop_last(), per_race)[race_index(race)];
        rest + popped(order, per_race).map_values(|id: u8| AllianceToken { race, id })
    }
}

/// The stacks after tokens were revealed for `races`.
pub open spec fn stacks_after(stacks: Seq<Seq<u8>>, races: Seq<Race>, per_race: nat) -> Seq<Seq<u8>>
    decreases races.len(),
{
    if races.len() == 0 {
        stacks
    } else {
        let before = stacks_after(stacks, races.drop_last(), per_race);
        let i = race_index(races.last());
        before.update(i, kept(before[i], per_race))
    }
}

proof fn lemma_popped_kept(order: Seq<u8>, k: nat)
    ensures
        kept(order, k).len() + popped(order, k).len() == order.len(),
        forall|j: int| 0 <= j < popped(order, k).len() ==> order.contains(#[trigger] popped(order, k)[j]),
        forall|j: int| 0 <= j < kept(order, k).len() ==> order.contains(#[trigger] kept(order, k)[j]),
        kept(order, k) == order.subrange(0, kept(order, k).len() as int),
    decreases k,
{
    if k > 0 && order.len() > 0 {
        let rest = order.drop_last();
        lemma_popped_kept(rest, (k - 1) as nat);
        assert forall|j: int| 0 <= j < popped(order, k).len() implies order.contains(#[trigger] popped(order, k)[j]) by {
            if j == 0 {
                assert(order[order.len() - 1] == order.last());
            } else {
                let x = popped(rest, (k - 1) as nat)[j - 1];
                assert(rest.contains(x));
                let m = choose|m: int| 0 <= m < rest.len() && rest[m] == x;
                assert(order[m] == x);
            }
        }
        assert forall|j: int| 0 <= j < kept(order, k).len() implies order.contains(#[trigger] kept(order, k)[j]) by {
            let x = kept(rest, (k - 1) as nat)[j];
            assert(rest.contains(x));
            let m = choose|m: int| 0 <= m < rest.len() && rest[m] == x;
            assert(order[m] == x);
        }
        assert(kept(order, k) =~= order.subrange(0, kept(order, k).len() as int));
    } else {
        assert(order.subrange(0, order.len() as int) =~= order);
    }
}

/// Taking tokens from the top of a stack splits its tokens between what
/// stays and what is revealed.
proof fn lemma_pop_tokens(i: int, order: Seq<u8>, k: nat)
    ensures
        race_tokens(i, kept(order, k)).add(
            popped(order, k).map_values(|id: u8| AllianceToken { race: crate::types::race_at(i), id }).to_multiset(),
        ) =~= race_tokens(i, order),
    decreases k,
{
    broadcast use {vstd::multiset::group_multiset_axioms, vstd::seq_lib::group_to_multiset_ensures};
    let f = |id: u8| AllianceToken { race: crate::types::race_at(i), id };
    if k == 0 || order.len() == 0 {
        assert(popped(order, k).map_values(f) =~= Seq::<AllianceToken>::empty());
    } else {
        let rest = order.drop_last();
        lemma_pop_tokens(i, rest, (k - 1) as nat);
        assert(order.map_values(f) =~= rest.map_values(f).push(f(order.last())));
        let p = popped(rest, (k - 1) as nat);
        assert(popped(order, k).map_values(f) =~= seq![f(order.last())] + p.map_values(f));
        vstd::seq_lib::lemma_multiset_commutative(seq![f(order.last())], p.map_values(f));
        assert(seq![f(order.last())] =~= Seq::<AllianceToken>::empty().push(f(order.last())));
    }
}

/// Revealing tokens for `races` splits the stacks' tokens between what stays
/// and what is revealed.
proof fn lemma_reveal_tokens(orders: Seq<Seq<u8>>, races: Seq<Race>, per: nat)
    requires
        orders.len() == 6,
    ensures
        stacks_after(orders, races, per).len() == 6,
        order_tokens(stacks_after(orders, races, per), 6).add(revealed_for(orders, races, per).to_multiset())
            =~= order_tokens(orders, 6),
    decreases races.len(),
{
    broadcast use {vstd::multiset::group_multiset_axioms, vstd::seq_lib::group_to_multiset_ensures};
    if races.len() == 0 {
        assert(revealed_for(orders, races, per) =~= Seq::<AllianceToken>::empty());
    } else {
        let front = races.drop_last();
        lemma_reveal_tokens(orders, front, per);
        let before = stacks_after(orders, front, per);
        let race = races.last();
        let i = race_index(race);
        assert(crate::types::race_at(i) == race);
        let o = before[i];
        lemma_pop_tokens(i, o, per);
        lemma_order_tokens_update(before, 6, i, kept(o, per));
        let shown = popped(o, per).map_values(|id: u8| AllianceToken { race, id });
        let rest = revealed_for(orders, front, per);
        vstd::seq_lib::lemma_multiset_commutative(rest, shown);
        let after = before.update(i, kept(o, per));
        assert forall|x: AllianceToken| #[trigger] order_tokens(after, 6).add((rest + shown).to_multiset()).count(x)
            == order_tokens(orders, 6).count(x) by {
            assert(order_tokens(after, 6).add(race_tokens(i, o)).count(x) == order_tokens(before, 6).add(
                race_tokens(i, kept(o, per)),
            ).count(x));
            assert(order_tokens(before, 6).add(rest.to_multiset()).count(x) == order_tokens(orders, 6).count(x));
            assert(race_tokens(i, kept(o, per)).add(shown.to_multiset()).count(x) == race_tokens(i, o).count(x));
        }
    }
}

/// What automatic resolution from `x` reaches: the queued effects resolved
/// one by one, in order, until the state waits for a decision, is over or
/// has nothing left to resolve; `x` itself when it already waits or is over.
/// Every holding of `x` is kept.
pub open spec fn settled_from(x: Game, y: Game) -> bool {
    &&& super::holdings_kept(x, y)
    &&& y.pending_decision is Some || y.spec_is_over() || y.effect_queue@.len() == 0
    &&& x.pending_decision is Some || x.spec_is_over() ==> y == x
    &&& exists|trace: Seq<Game>| #[trigger] resolution_trace(trace, x, y)
}

impl Game {
    /// The token stacks, race by race.
    pub open spec fn stack_orders(&self) -> Seq<Seq<u8>> {
        self.alliance_stacks@.map_values(|s: crate::types::AllianceStack| s.token_order@)
    }

    /// Pushes `effects` to the front of the queue, keeping their order.
    pub fn push_front_all(&mut self, effects: Vec<Effect>)
        requires
            old(self).wf(),
            forall|i: int| 0 <= i < effects@.len() ==> effect_wf(#[trigger] effects@[i], old(self).chapters@.len()),
        ensures
            final(self).wf(),
            final(self).effect_queue@ == effects@ + old(self).effect_queue@,
            *final(self) == (Game { effect_queue: final(self).effect_queue, ..*old(self) }),
    {
        let ghost a = *self;
        let ghost all = effects@;
        let mut effects = effects;
        while effects.len() > 0
            invariant
                self.effect_queue@ == all.subrange(effects@.len() as int, all.len() as int) + a.effect_queue@,
                effects@ == all.subrange(0, effects@.len() as int),
                effects@.len() <= all.len(),
                *self == (Game { effect_queue: self.effect_queue, ..a }),
            decreases effects@.len(),
        {
            let e = effects.pop().unwrap();
            self.effect_queue.push_front(e);
            proof {
                assert(all.subrange(effects@.len() as int, all.len() as int) =~= seq![e] + all.subrange(
                    effects@.len() as int + 1,
                    all.len() as int,
                ));
                assert(effects@ =~= all.subrange(0, effects@.len() as int));
            }
        }
        proof {
            assert(all.subrange(0, all.len() as int) =~= all);
            Game::lemma_structure(a);
            assert forall|i: int| 0 <= i < self.effect_queue@.len() implies effect_wf(
                #[trigger] self.effect_queue@[i], self.chapters@.len()) by {
                if i < all.len() {
                    assert(self.effect_queue@[i] == all[i]);
                } else {
                    assert(self.effect_queue@[i] == a.effect_queue@[i - all.len()]);
                }
            }
            Game::lemma_structure_update(a, *self);
        }
    }

    /// Reveals up to `per_race` tokens from the top of each listed Race's
    /// stack; `player` must now take one of them.
    pub fn reveal_alliance_tokens(&mut self, player: Faction, races: &Vec<Race>, per_race: usize)
        requires
            old(self).wf(),
            old(self).pending_decision is None,
        ensures
            final(self).wf(),
            final(self).stack_orders() == stacks_after(old(self).stack_orders(), races@, per_race as nat),
            final(self).pending_decision matches Some(PendingDecision::AllianceTokenChoice { player: p, revealed })
                && p == player && revealed@ == revealed_for(old(self).stack_orders(), races@, per_race as nat),
            *final(self) == (Game {
                alliance_stacks: final(self).alliance_stacks,
                pending_decision: final(self).pending_decision,
                ..*old(self)
            }),
    {
        let ghost a = *self;
        proof {
            Game::lemma_structure(a);
        }
        let mut revealed: Vec<AllianceToken> = Vec::new();
        let mut r: usize = 0;
        while r < races.len()
            invariant
                r <= races@.len(),
                self.alliance_stacks@.len() == 6,
                forall|i: int| 0 <= i < 6 ==> (#[trigger] self.alliance_stacks@[i]).race == a.alliance_stacks@[i].race,
                self.stack_orders() == stacks_after(a.stack_orders(), races@.subrange(0, r as int), per_race as nat),
                revealed@ == revealed_for(a.stack_orders(), races@.subrange(0, r as int), per_race as nat),
                *self == (Game { alliance_stacks: self.alliance_stacks, ..a }),
            decreases races.len() - r,
        {
            let race = races[r];
            let i = race.index();
            proof {
                assert(races@.subrange(0, r + 1).drop_last() =~= races@.subrange(0, r as int));
                assert(races@.subrange(0, r + 1).last() == race);
            }
            let ghost orders0 = self.stack_orders();
            let mut stack = self.alliance_stacks.remove(i);
            pop_tokens(&mut stack.token_order, race, per_race, &mut revealed);
            self.alliance_stacks.insert(i, stack);
            proof {
                assert(self.stack_orders() =~= orders0.update(i as int, kept(orders0[i as int], per_race as nat)));
                assert(forall|j: int| 0 <= j < 6 ==> (#[trigger] self.alliance_stacks@[j]).race == a.alliance_stacks@[j].race) by {
                    assert forall|j: int| 0 <= j < 6 implies (#[trigger] self.alliance_stacks@[j]).race == a.alliance_stacks@[j].race by {
                        if j != i {
                        }
                    }
                }
            }
            r = r + 1;
        }
        proof {
            assert(races@.subrange(0, races@.len() as int) =~= races@);
        }
        let ghost before = *self;
        let ghost shown_seq = revealed@;
        self.pending_decision = Some(PendingDecision::AllianceTokenChoice { player, revealed });
        proof {
            broadcast use vstd::multiset::group_multiset_axioms;
            Game::lemma_structure(a);
            lemma_reveal_tokens(a.stack_orders(), races@, per_race as nat);
            assert(self.stack_orders() =~= self.alliance_stacks@.map_values(|s: crate::types::AllianceStack| s.token_order@));
            let kept_tokens = order_tokens(self.stack_orders(), 6);
            let shown = shown_seq.to_multiset();
            assert(kept_tokens.add(shown) == order_tokens(a.stack_orders(), 6));
            assert(super::revealed_tokens(a.pending_decision) =~= vstd::multiset::Multiset::<AllianceToken>::empty());
            assert(self.located_tokens() =~= a.located_tokens());
            assert(self.located_cards() =~= a.located_cards());
            assert(self.structure_wf()) by {
                Game::lemma_structure(a);
                lemma_revealed_valid(a.stack_orders(), races@, per_race as nat);
                reveal(Game::structure_wf);
                assert forall|i: int, k: int|
                    0 <= i < 6 && 0 <= k < self.alliance_stacks@[i].token_order@.len() implies 1
                        <= #[trigger] self.alliance_stacks@[i].token_order@[k] <= 3 by {
                    lemma_stacks_after_valid(a.stack_orders(), races@, per_race as nat, i, k);
                }
            }
        }
    }
}

/// Every stack holds token numbers 1 to 3.
pub open spec fn orders_valid(orders: Seq<Seq<u8>>) -> bool {
    orders.len() == 6 && forall|i: int, k: int|
        0 <= i < 6 && 0 <= k < orders[i].len() ==> 1 <= #[trigger] orders[i][k] <= 3
}

proof fn lemma_stacks_after_valid(orders: Seq<Seq<u8>>, races: Seq<Race>, per: nat, i: int, k: int)
    requires
        orders_valid(orders),
        0 <= i < 6,
        0 <= k < stacks_after(orders, races, per)[i].len(),
    ensures
        1 <= stacks_after(orders, races, per)[i][k] <= 3,
        orders_valid(stacks_after(orders, races, per)),
    decreases races.len(),
{
    lemma_stacks_after_all_valid(orders, races, per);
}

proof fn lemma_stacks_after_all_valid(orders: Seq<Seq<u8>>, races: Seq<Race>, per: nat)
    requires
        orders_valid(orders),
    ensures
        orders_valid(stacks_after(orders, races, per)),
    decreases races.len(),
{
    if races.len() > 0 {
        lemma_stacks_after_all_valid(orders, races.drop_last(), per);
        let before = stacks_after(orders, races.drop_last(), per);
        let i = race_index(races.last());
        lemma_popped_kept(before[i], per);
        let after = before.update(i, kept(before[i], per));
        assert forall|j: int, k: int| 0 <= j < 6 && 0 <= k < after[j].len() implies 1 <= #[trigger] after[j][k]
            <= 3 by {
            if j == i {
                let x = kept(before[i], per)[k];
                assert(before[i].contains(x));
                let m = choose|m: int| 0 <= m < before[i].len() && before[i][m] == x;
                assert(1 <= before[i][m] <= 3);
            }
        }
    }
}

proof fn lemma_revealed_valid(orders: Seq<Seq<u8>>, races: Seq<Race>, per: nat)
    requires
        orders_valid(orders),
    ensures
        forall|j: int| 0 <= j < revealed_for(orders, races, per).len() ==> valid_token(
            #[trigger] revealed_for(orders, races, per)[j],
        ),
    decreases races.len(),
{
    if races.len() > 0 {
        lemma_revealed_valid(orders, races.drop_last(), per);
        lemma_stacks_after_all_valid(orders, races.drop_last(), per);
        let race = races.last();
        let before = stacks_after(orders, races.drop_last(), per);
        let order = before[race_index(race)];
        lemma_popped_kept(order, per);
        let rest = revealed_for(orders, races.drop_last(), per);
        let new = popped(order, per).map_values(|id: u8| AllianceToken { race, id });
        assert forall|j: int| 0 <= j < (rest + new).len() implies valid_token(#[trigger] (rest + new)[j]) by {
            if j >= rest.len() {
                let x = popped(order, per)[j - rest.len()];
                assert(order.contains(x));
                let m = choose|m: int| 0 <= m < order.len() && order[m] == x;
                assert(1 <= order[m] <= 3);
            }
        }
    }
}

/// Takes up to `k` tokens from the top (the end) of `order`, revealing them
/// as tokens of `race` in the order taken.
fn pop_tokens(order: &mut Vec<u8>, race: Race, k: usize, out: &mut Vec<AllianceToken>)
    ensures
        final(order)@ == kept(old(order)@, k as nat),
        final(out)@ == old(out)@ + popped(old(order)@, k as nat).map_values(|id: u8| AllianceToken { race, id }),
{
    let ghost order0 = order@;
    let ghost out0 = out@;
    let mut t: usize = 0;
    while t < k && order.len() > 0
        invariant
            t <= k,
            kept(order@, (k - t) as nat) == kept(order0, k as nat),
            out@ + popped(order@, (k - t) as nat).map_values(|id: u8| AllianceToken { race, id }) == out0
                + popped(order0, k as nat).map_values(|id: u8| AllianceToken { race, id }),
        decreases k - t,
    {
        let ghost before = order@;
        let ghost out_before = out@;
        let id = order.pop().unwrap();
        out.push(AllianceToken { race, id });
        proof {
            assert(before.drop_last() =~= order@);
            let m = (k - t) as nat;
            assert(popped(before, m) == seq![id] + popped(order@, (m - 1) as nat));
            assert(out@ + popped(order@, (m - 1) as nat).map_values(|id: u8| AllianceToken { race, id })
                =~= out_before + popped(before, m).map_values(|id: u8| AllianceToken { race, id }));
        }
        t = t + 1;
    }
    proof {
        let m = (k - t) as nat;
        assert(popped(order@, m) =~= Seq::<u8>::empty());
        assert(out@ + popped(order@, m).map_values(|id: u8| AllianceToken { race, id }) =~= out@);
    }
}


/// `after` is `before` with effects of rank below `rank` in front.
pub open spec fn pushed_below(rank: int, before: Seq<Effect>, after: Seq<Effect>) -> bool {
    &&& after.len() >= before.len()
    &&& after.subrange(after.len() - before.len(), after.len() as int) == before
    &&& forall|i: int| 0 <= i < after.len() - before.len() ==> effect_rank(#[trigger] after[i]) < rank
}

proof fn lemma_pushed_none(rank: int, q: Seq<Effect>)
    ensures
        pushed_below(rank, q, q),
{
    assert(q.subrange(0, q.len() as int) =~= q);
}

proof fn lemma_pushed_front(rank: int, p: Seq<Effect>, q: Seq<Effect>)
    requires
        forall|i: int| 0 <= i < p.len() ==> effect_rank(#[trigger] p[i]) < rank,
    ensures
        pushed_below(rank, q, p + q),
{
    assert((p + q).subrange(p.len() as int, (p + q).len() as int) =~= q);
    assert forall|i: int| 0 <= i < p.len() implies effect_rank(#[trigger] (p + q)[i]) < rank by {
        assert((p + q)[i] == p[i]);
    }
}

proof fn lemma_pushed_trans(rank: int, a: Seq<Effect>, b: Seq<Effect>, c: Seq<Effect>)
    requires
        pushed_below(rank, a, b),
        pushed_below(rank, b, c),
    ensures
        pushed_below(rank, a, c),
{
    let pb = b.len() - a.len();
    let pc = c.len() - b.len();
    let bp = b.subrange(0, pb);
    let cp = c.subrange(0, pc);
    assert(b =~= bp + a);
    assert(c =~= cp + b);
    let all = cp + bp;
    assert(c =~= all + a);
    assert forall|i: int| 0 <= i < all.len() implies effect_rank(#[trigger] all[i]) < rank by {
        if i < pc {
            assert(all[i] == c[i]);
        } else {
            assert(all[i] == b[i - pc]);
        }
    }
    lemma_pushed_front(rank, all, a);
}

proof fn lemma_bonus_ranks(bs: Seq<crate::types::QuestBonus>, of: int, nf: int, os: int, ns: int, player: Faction)
    ensures
        forall|j: int| 0 <= j < super::board::bonus_queue(bs, of, nf, os, ns, player).len() ==> effect_rank(
            #[trigger] super::board::bonus_queue(bs, of, nf, os, ns, player)[j],
        ) == 0,
    decreases bs.len(),
{
    if bs.len() > 0 {
        lemma_bonus_ranks(bs.drop_last(), of, nf, os, ns, player);
        let rest = super::board::bonus_queue(bs.drop_last(), of, nf, os, ns, player);
        let all = super::board::bonus_queue(bs, of, nf, os, ns, player);
        assert forall|j: int| 0 <= j < all.len() implies effect_rank(#[trigger] all[j]) == 0 by {
            if j < rest.len() {
                assert(all[j] == rest[j]);
            }
        }
    }
}

/// A quest advance only queues bonuses, which are of rank 0.
proof fn lemma_quest_pushes(a: Game, player: Faction, spaces: int, b: Game)
    requires
        super::board::quest_moved(a, player, spaces, b),
    ensures
        pushed_below(1, a.effect_queue@, b.effect_queue@),
{
    let of = a.quest.fellowship_position as int;
    let os = a.quest.sauron_position as int;
    let (nf, ns) = super::board::quest_advanced(of, os, player, spaces);
    if nf != 30 && ns < nf {
        lemma_bonus_ranks(a.quest.bonuses@, of, nf, os, ns, player);
        lemma_pushed_front(1, super::board::bonus_queue(a.quest.bonuses@, of, nf, os, ns, player), a.effect_queue@);
    } else {
        lemma_pushed_none(1, a.effect_queue@);
    }
}

/// Whether `cards` holds a Grey card.
pub open spec fn has_grey(cat: crate::catalog::Catalogue, cards: Seq<crate::types::ChapterCard>) -> bool {
    exists|i: int| 0 <= i < cards.len() && #[trigger] card_def(cat, cards[i]).color == CardColor::Grey
}

/// Converts catalogue regions to board regions.
fn board_regions(regions: &Vec<crate::card_schema::Region>) -> (r: Vec<Region>)
    ensures
        r@ == regions@.map_values(|x: crate::card_schema::Region| crate::types::spec_region_from_schema(x)),
{
    let mut out: Vec<Region> = Vec::new();
    let mut i: usize = 0;
    while i < regions.len()
        invariant
            i <= regions@.len(),
            out@ == regions@.subrange(0, i as int).map_values(
                |x: crate::card_schema::Region| crate::types::spec_region_from_schema(x),
            ),
        decreases regions.len() - i,
    {
        out.push(Region::from_schema(regions[i]));
        i = i + 1;
        proof {
            assert(out@ =~= regions@.subrange(0, i as int).map_values(
                |x: crate::card_schema::Region| crate::types::spec_region_from_schema(x),
            ));
        }
    }
    proof {
        assert(regions@.subrange(0, regions@.len() as int) =~= regions@);
    }
    out
}

/// What a printed card or Landmark effect asks of the engine.
enum Step {
    Gain(u8),
    Advance(u8),
    Place(u8, Vec<Region>),
    Move(u8),
    Remove(u8),
    OpponentLoses(u8),
    Fortress(Region),
    GreyDiscard,
    FreePlay,
    RaceTokens,
    Nothing,
}

/// `b` is `a` with `d` awaiting an answer; nothing else changed.
pub open spec fn asks(a: Game, d: PendingDecision, b: Game) -> bool {
    b == Game { pending_decision: Some(d), ..a }
}

/// `b` is `a` asking `player` to place `amount` Units among `regions`.
pub open spec fn asks_placement(a: Game, player: Faction, amount: int, regions: Seq<Region>, b: Game) -> bool {
    &&& b.pending_decision matches Some(PendingDecision::CardUnitPlacement { player: p, amount: n, regions: r })
        && p == player && n == amount && r@ == regions
    &&& b == Game { pending_decision: b.pending_decision, ..a }
}

/// `b` is `a` after `player` gains up to `amount` coins from the reserve.
pub open spec fn coins_gained(a: Game, player: Faction, amount: u8, b: Game) -> bool {
    b == coins_moved(a, player, gained(a, amount) as int)
}

/// `b` is `a` after `player`'s opponent loses up to `amount` coins.
pub open spec fn opponent_lost(a: Game, player: Faction, amount: u8, b: Game) -> bool {
    b == coins_moved(a, spec_other(player), -lost(a, spec_other(player), amount))
}

/// `b` is `a` asking `player` to discard a Grey card of the opponent's, when
/// the opponent holds one; otherwise nothing changes.
pub open spec fn grey_discard_asked(a: Game, player: Faction, b: Game) -> bool {
    if has_grey(*a.catalogue, a.player_of(spec_other(player)).tableau@) {
        asks(a, PendingDecision::OpponentGreyCardDiscard { player }, b)
    } else {
        b == a
    }
}

/// `b` is `a` with one more turn owed to the active player (at most 255).
pub open spec fn extra_turn_granted(a: Game, b: Game) -> bool {
    &&& b.extra_turns == capped((a.extra_turns + 1) as nat)
    &&& b == Game { extra_turns: b.extra_turns, ..a }
}

/// The board regions of a printed list of regions.
pub open spec fn board_regions_of(regions: Seq<crate::card_schema::Region>) -> Seq<Region> {
    regions.map_values(|x: crate::card_schema::Region| crate::types::spec_region_from_schema(x))
}

/// What a printed card effect, played by `player`, does to the game. Unit
/// placements grow by the extra red Units `player`'s tokens grant.
pub open spec fn card_effect_done(a: Game, player: Faction, e: crate::card_schema::Effect, b: Game) -> bool {
    match e {
        crate::card_schema::Effect::GainCoins { amount } => coins_gained(a, player, amount, b),
        crate::card_schema::Effect::AdvanceQuest { spaces } => quest_moved(a, player, spaces as int, b),
        crate::card_schema::Effect::PlaceUnits { amount, regions, .. } => asks_placement(
            a,
            player,
            capped((amount + capped(extra_red(a.held(player)))) as nat) as int,
            board_regions_of(regions@),
            b,
        ),
        crate::card_schema::Effect::MoveUnits { amount } => asks(
            a,
            PendingDecision::CardUnitMovement { player, remaining: amount },
            b,
        ),
        crate::card_schema::Effect::RemoveEnemyUnits { amount } => asks(
            a,
            PendingDecision::CardEnemyUnitRemoval { player, remaining: amount },
            b,
        ),
        crate::card_schema::Effect::OpponentLosesCoins { amount } => opponent_lost(a, player, amount, b),
    }
}

/// What a printed Landmark effect, for `player`, does to the game.
pub open spec fn landmark_effect_done(a: Game, player: Faction, e: LandmarkEffect, b: Game) -> bool {
    match e {
        LandmarkEffect::PlaceFortress { location } => fortress_placed(
            a,
            player,
            crate::types::spec_region_from_schema(location),
            b,
        ),
        LandmarkEffect::PlaceUnits { amount, regions, .. } => asks_placement(
            a,
            player,
            amount as int,
            board_regions_of(regions@),
            b,
        ),
        LandmarkEffect::GainCoins { amount } => coins_gained(a, player, amount, b),
        LandmarkEffect::MoveUnits { amount } => asks(
            a,
            PendingDecision::CardUnitMovement { player, remaining: amount },
            b,
        ),
        LandmarkEffect::AdvanceQuest { spaces } => quest_moved(a, player, spaces as int, b),
        LandmarkEffect::TwoOfAnyOneRaceTokens => asks(a, PendingDecision::AllianceRaceChoice { player }, b),
        LandmarkEffect::DiscardOneGreyCardFromOpponent => grey_discard_asked(a, player, b),
        LandmarkEffect::PlayOneCardFromDiscardForFree => asks(
            a,
            PendingDecision::DiscardedCardFreePlay { player },
            b,
        ),
    }
}

/// What an immediate Alliance effect, for `player`, does to the game.
pub open spec fn alliance_effect_done(a: Game, player: Faction, e: AllianceEffect, b: Game) -> bool {
    match e {
        AllianceEffect::GainCoins { amount } => coins_gained(a, player, amount, b),
        AllianceEffect::AdvanceQuest { spaces } => quest_moved(a, player, spaces as int, b),
        AllianceEffect::PlaceUnitsAnywhere { amount } => asks(
            a,
            PendingDecision::AllianceUnitPlacement { player, remaining: amount },
            b,
        ),
        AllianceEffect::MoveUnits { amount } => asks(
            a,
            PendingDecision::CardUnitMovement { player, remaining: amount },
            b,
        ),
        AllianceEffect::RemoveEnemyUnits { amount } => asks(
            a,
            PendingDecision::CardEnemyUnitRemoval { player, remaining: amount },
            b,
        ),
        AllianceEffect::OpponentLosesCoins { amount } => opponent_lost(a, player, amount, b),
        AllianceEffect::TakeExtraTurn => extra_turn_granted(a, b),
        AllianceEffect::RemoveEnemyFortress => asks(
            a,
            PendingDecision::QuestBonusFortressRemoval { player, optional: false },
            b,
        ),
        AllianceEffect::PlayDiscardedCardForFree => asks(
            a,
            PendingDecision::DiscardedCardFreePlay { player },
            b,
        ),
        AllianceEffect::ChooseManeuvers { times } => queued_first(
            a,
            seq![Effect::ResolveEntManeuvers { player, remaining: times }],
            b,
        ),
    }
}

/// The `index`th printed effect of `card`, played by `player`; past the
/// last one, nothing.
pub open spec fn card_effect_resolved(a: Game, player: Faction, card: crate::types::ChapterCard, index: int, b: Game) -> bool {
    let effects = card_def(*a.catalogue, card).effects@;
    if 0 <= index < effects.len() {
        card_effect_done(a, player, effects[index], b)
    } else {
        b == a
    }
}

/// The `index`th printed effect of the Landmark at `landmark`, for
/// `player`; past the last one, nothing.
pub open spec fn landmark_effect_resolved(a: Game, player: Faction, landmark: int, index: int, b: Game) -> bool {
    let effects = a.catalogue.landmarks@[landmark].effects@;
    if 0 <= index < effects.len() {
        landmark_effect_done(a, player, effects[index], b)
    } else {
        b == a
    }
}

/// Each of `effects`, resolved for `player` as an immediate Alliance effect.
pub open spec fn alliance_effects_of(player: Faction, effects: Seq<AllianceEffect>) -> Seq<Effect> {
    effects.map_values(|e: AllianceEffect| Effect::ResolveAllianceEffect { player, effect: e })
}

/// What a played card schedules: its printed effects in order, then for a
/// Green card the Race check, then the effects its player's tokens trigger.
pub open spec fn played_card_queue(a: Game, player: Faction, card: crate::types::ChapterCard, used_chain: bool) -> Seq<Effect> {
    let def = card_def(*a.catalogue, card);
    Seq::new(def.effects@.len(), |i: int| Effect::ResolveCardEffect { player, card, index: i as usize })
        + (if def.color == CardColor::Green {
        seq![Effect::ResolveRaceAllianceTriggers { player }]
    } else {
        seq![]
    }) + alliance_effects_of(player, card_triggers(a.held(player), def.color, used_chain))
}

/// What a taken Landmark schedules: its printed effects in order, then the
/// effects its player's tokens trigger.
pub open spec fn landmark_queue(a: Game, player: Faction, landmark: int) -> Seq<Effect> {
    Seq::new(
        a.catalogue.landmarks@[landmark].effects@.len(),
        |i: int| Effect::ResolveLandmarkEffect { player, landmark: landmark as usize, index: i as usize },
    ) + alliance_effects_of(player, landmark_triggers(a.held(player)))
}

/// A taken Landmark: its effects are queued first, and one more turn is owed
/// when its player's Landmarks grant one.
pub open spec fn landmark_resolved(a: Game, player: Faction, landmark: int, b: Game) -> bool {
    &&& b.effect_queue@ == landmark_queue(a, player, landmark) + a.effect_queue@
    &&& b.extra_turns == if a.player_of(player).landmark_grants_extra_turn {
        capped((a.extra_turns + 1) as nat) as int
    } else {
        a.extra_turns as int
    }
    &&& b == Game { effect_queue: b.effect_queue, extra_turns: b.extra_turns, ..a }
}

/// The Race symbols `player` shows, the Eagle token counting as one more.
pub open spec fn race_symbols(a: Game, player: Faction) -> int {
    a.races_of(player).len() + if a.held(player).contains(crate::alliance_schema::PersistentEffect::EagleRaceSymbol) {
        1int
    } else {
        0int
    }
}

/// The Race check after a Green card: six Race symbols win at once; with
/// the game not over, a single open Alliance reward is taken up at once and
/// several are offered to `player` as a choice.
pub open spec fn race_triggers_resolved(a: Game, player: Faction, b: Game) -> bool {
    let triggers = a.alliance_triggers(player);
    if race_symbols(a, player) >= 6 {
        b == Game { winner: Some(player), victory_type: Some(crate::types::VictoryType::RaceSupport), ..a }
    } else if a.winner is Some {
        b == a
    } else if triggers.len() == 1 {
        trigger_taken(a, player, triggers[0], b)
    } else if triggers.len() > 1 {
        &&& b.pending_decision matches Some(PendingDecision::AllianceTriggerChoice { player: p, triggers: t })
            && p == player && t@ == triggers
        &&& b == Game { pending_decision: b.pending_decision, ..a }
    } else {
        b == a
    }
}

/// `b` is `a` after `player`'s turn ends: the turn counter advances (it
/// stops at its maximum), `player` recovers the any-Skill token, and play
/// passes to the opponent unless an extra turn is owed, which is used up.
pub open spec fn turn_completed(a: Game, player: Faction, b: Game) -> bool {
    let recovered = a.with_player(
        player,
        crate::types::PlayerState { used_any_skill_this_turn: false, ..a.player_of(player) },
    );
    &&& b.turn == if a.turn < u32::MAX { a.turn + 1 } else { a.turn as int }
    &&& if a.extra_turns > 0 {
        b.extra_turns == a.extra_turns - 1 && b.active_player == a.active_player
    } else {
        b.extra_turns == 0 && b.active_player == spec_other(a.active_player)
    }
    &&& b == Game { turn: b.turn, extra_turns: b.extra_turns, active_player: b.active_player, ..recovered }
}

/// The decision a quest bonus of `player` asks for.
pub open spec fn quest_bonus_decision(player: Faction, effect: QuestBonusEffect) -> PendingDecision {
    match effect {
        QuestBonusEffect::GainCoin | QuestBonusEffect::TakeExtraTurn => PendingDecision::QuestBonusChoice {
            player,
            effect,
        },
        QuestBonusEffect::PlaceUnit => PendingDecision::QuestBonusUnitPlacement { player },
        QuestBonusEffect::RemoveEnemyFortress => PendingDecision::QuestBonusFortressRemoval {
            player,
            optional: true,
        },
    }
}

/// What resolving the queued effect `e` does to the game.
pub open spec fn one_resolved(a: Game, e: Effect, b: Game) -> bool {
    match e {
        Effect::ResolvePlayedCard { player, card, used_chain } => queued_first(
            a,
            played_card_queue(a, player, card, used_chain),
            b,
        ),
        Effect::ResolveLandmark { player, landmark } => landmark_resolved(a, player, landmark as int, b),
        Effect::ResolveLandmarkEffect { player, landmark, index } => landmark_effect_resolved(
            a,
            player,
            landmark as int,
            index as int,
            b,
        ),
        Effect::ResolveCardEffect { player, card, index } => card_effect_resolved(a, player, card, index as int, b),
        Effect::ResolveAllianceToken { player, token } => queued_first(
            a,
            alliance_effects_of(player, token_def(*a.catalogue, token).immediate@),
            b,
        ),
        Effect::ResolveAllianceEffect { player, effect } => alliance_effect_done(a, player, effect, b),
        Effect::ResolveRaceAllianceTriggers { player } => race_triggers_resolved(a, player, b),
        Effect::ResolveEntManeuvers { player, remaining } => asks(
            a,
            PendingDecision::EntManeuverChoice { player, remaining },
            b,
        ),
        Effect::ResolveQuestBonus { player, effect } => asks(a, quest_bonus_decision(player, effect), b),
        Effect::TransitionChapterIfComplete => chapter_transitioned(a, b),
        Effect::CheckImmediateVictoryConditions | Effect::CheckPostRevealEffects => b == a,
        Effect::RevealNewlyAvailableCards => cards_revealed(a, b),
        Effect::CompleteTurn { player } => turn_completed(a, player, b),
    }
}

/// `p` is `a` with its first queued effect taken off the queue and recorded.
pub open spec fn unqueued(a: Game, p: Game) -> bool {
    &&& p.effect_queue@ == a.effect_queue@.drop_first()
    &&& p.resolution_events@ == a.resolution_events@.push(a.event_of(a.effect_queue@[0]))
    &&& p == Game { effect_queue: p.effect_queue, resolution_events: p.resolution_events, ..a }
}

/// `b` follows from `a` by one step of automatic resolution: the first
/// queued effect is taken off the queue, recorded, and resolved.
pub open spec fn resolution_step(a: Game, b: Game) -> bool {
    &&& a.effect_queue@.len() > 0
    &&& exists|p: Game| #[trigger] unqueued(a, p) && one_resolved(p, a.effect_queue@[0], b)
}

/// `trace` runs from `a` to `b` by steps of automatic resolution, each taken
/// while no decision was pending, the game was not over and an effect was
/// queued.
pub open spec fn resolution_trace(trace: Seq<Game>, a: Game, b: Game) -> bool {
    &&& trace.len() >= 1
    &&& trace[0] == a
    &&& trace.last() == b
    &&& forall|i: int| 0 <= i < trace.len() - 1 ==> {
        &&& (#[trigger] trace[i]).pending_decision is None
        &&& !trace[i].spec_is_over()
        &&& resolution_step(trace[i], trace[i + 1])
    }
}

/// A resolution trace extends by one more step.
proof fn lemma_trace_extend(trace: Seq<Game>, a: Game, before: Game, after: Game)
    requires
        resolution_trace(trace, a, before),
        before.pending_decision is None,
        !before.spec_is_over(),
        resolution_step(before, after),
    ensures
        resolution_trace(trace.push(after), a, after),
{
    let t = trace.push(after);
    assert forall|i: int| 0 <= i < t.len() - 1 implies {
        &&& (#[trigger] t[i]).pending_decision is None
        &&& !t[i].spec_is_over()
        &&& resolution_step(t[i], t[i + 1])
    } by {
        if i < trace.len() - 1 {
            assert(t[i] == trace[i] && t[i + 1] == trace[i + 1]);
        } else {
            assert(t[i] == before && t[i + 1] == after);
        }
    }
}

/// What one step asked for by a printed effect does.
spec fn step_done(a: Game, player: Faction, step: Step, b: Game) -> bool {
    match step {
        Step::Gain(n) => coins_gained(a, player, n, b),
        Step::Advance(n) => quest_moved(a, player, n as int, b),
        Step::Place(n, rs) => asks_placement(a, player, n as int, rs@, b),
        Step::Move(n) => asks(a, PendingDecision::CardUnitMovement { player, remaining: n }, b),
        Step::Remove(n) => asks(a, PendingDecision::CardEnemyUnitRemoval { player, remaining: n }, b),
        Step::OpponentLoses(n) => opponent_lost(a, player, n, b),
        Step::Fortress(r) => fortress_placed(a, player, r, b),
        Step::GreyDiscard => grey_discard_asked(a, player, b),
        Step::FreePlay => asks(a, PendingDecision::DiscardedCardFreePlay { player }, b),
        Step::RaceTokens => asks(a, PendingDecision::AllianceRaceChoice { player }, b),
        Step::Nothing => b == a,
    }
}

impl Game {
    /// Sets the pending decision; nothing else changes.
    fn decide(&mut self, d: PendingDecision)
        requires
            old(self).wf(),
            old(self).pending_decision is None,
            !(d is CardDisposition),
            !(d is AllianceTokenChoice),
            decision_wf(Some(d), old(self).chapters@.len()),
        ensures
            final(self).wf(),
            *final(self) == (Game { pending_decision: Some(d), ..*old(self) }),
    {
        let ghost a = *self;
        self.pending_decision = Some(d);
        proof {
            Game::lemma_structure(a);
            Game::lemma_structure_update(a, *self);
        }
    }

    /// Whether `f`'s tableau holds a Grey card.
    pub fn has_grey_card(&self, f: Faction) -> (r: bool)
        requires
            self.wf(),
        ensures
            r == has_grey(*self.catalogue, self.player_of(f).tableau@),
    {
        proof {
            Game::lemma_structure(*self);
        }
        let tableau = &self.player(f).tableau;
        let mut i: usize = 0;
        while i < tableau.len()
            invariant
                i <= tableau@.len(),
                self.catalogue.wf(),
                *tableau == self.player_of(f).tableau,
                forall|k: int| 0 <= k < tableau@.len() ==> super::card_dealt(#[trigger] tableau@[k], self.chapters@.len()),
                forall|k: int| 0 <= k < i ==> #[trigger] card_def(*self.catalogue, tableau@[k]).color != CardColor::Grey,
            decreases tableau.len() - i,
        {
            proof {
                assert(super::card_dealt(tableau@[i as int], self.chapters@.len()));
            }
            if self.catalogue.card_definition(tableau[i]).color == CardColor::Grey {
                proof {
                    assert(card_def(*self.catalogue, tableau@[i as int]).color == CardColor::Grey);
                }
                return true;
            }
            i = i + 1;
        }
        false
    }

    /// Carries out one step asked for by a printed effect of `player`.
    fn run_step(&mut self, player: Faction, step: Step)
        requires
            old(self).wf(),
            old(self).pending_decision is None,
        ensures
            step_done(*old(self), player, step, *final(self)),
            super::holdings_kept(*old(self), *final(self)),
            final(self).wf(),
            pushed_below(1, old(self).effect_queue@, final(self).effect_queue@),
    {
        let ghost a = *self;
        match step {
            Step::Gain(amount) => {
                self.gain_coins(player, amount);
                proof { lemma_pushed_none(1, a.effect_queue@); }
            },
            Step::Advance(spaces) => {
                self.advance_quest(player, spaces);
                proof { lemma_quest_pushes(a, player, spaces as int, *self); }
            },
            Step::Place(amount, regions) => {
                self.decide(PendingDecision::CardUnitPlacement { player, amount, regions });
                proof { lemma_pushed_none(1, a.effect_queue@); }
            },
            Step::Move(amount) => {
                self.decide(PendingDecision::CardUnitMovement { player, remaining: amount });
                proof { lemma_pushed_none(1, a.effect_queue@); }
            },
            Step::Remove(amount) => {
                self.decide(PendingDecision::CardEnemyUnitRemoval { player, remaining: amount });
                proof { lemma_pushed_none(1, a.effect_queue@); }
            },
            Step::OpponentLoses(amount) => {
                self.lose_coins(player.other(), amount);
                proof { lemma_pushed_none(1, a.effect_queue@); }
            },
            Step::Fortress(region) => {
                self.place_fortress(player, region);
                proof { lemma_pushed_none(1, a.effect_queue@); }
            },
            Step::GreyDiscard => {
                if self.has_grey_card(player.other()) {
                    self.decide(PendingDecision::OpponentGreyCardDiscard { player });
                }
                proof { lemma_pushed_none(1, a.effect_queue@); }
            },
            Step::FreePlay => {
                self.decide(PendingDecision::DiscardedCardFreePlay { player });
                proof { lemma_pushed_none(1, a.effect_queue@); }
            },
            Step::RaceTokens => {
                self.decide(PendingDecision::AllianceRaceChoice { player });
                proof { lemma_pushed_none(1, a.effect_queue@); }
            },
            Step::Nothing => {
                proof { lemma_pushed_none(1, a.effect_queue@); }
            },
        }
    }

    /// Resolves the `index`th printed effect of `card`, played by `player`.
    fn resolve_card_effect(&mut self, player: Faction, card: crate::types::ChapterCard, index: usize)
        requires
            old(self).wf(),
            old(self).pending_decision is None,
            super::card_dealt(card, old(self).chapters@.len()),
        ensures
            card_effect_resolved(*old(self), player, card, index as int, *final(self)),
            super::holdings_kept(*old(self), *final(self)),
            final(self).wf(),
            pushed_below(1, old(self).effect_queue@, final(self).effect_queue@),
    {
        proof {
            Game::lemma_structure(*self);
        }
        let step = {
            let def = self.catalogue.card_definition(card);
            if index < def.effects.len() {
                match &def.effects[index] {
                    crate::card_schema::Effect::GainCoins { amount } => Step::Gain(*amount),
                    crate::card_schema::Effect::AdvanceQuest { spaces } => Step::Advance(*spaces),
                    crate::card_schema::Effect::PlaceUnits { amount, regions, .. } => Step::Place(
                        *amount,
                        board_regions(regions),
                    ),
                    crate::card_schema::Effect::MoveUnits { amount } => Step::Move(*amount),
                    crate::card_schema::Effect::RemoveEnemyUnits { amount } => Step::Remove(*amount),
                    crate::card_schema::Effect::OpponentLosesCoins { amount } => Step::OpponentLoses(*amount),
                }
            } else {
                Step::Nothing
            }
        };
        let step = match step {
            Step::Place(amount, regions) => {
                let extra = self.additional_red_units(player);
                let total = amount as u16 + extra as u16;
                Step::Place(if total > 255 { 255 } else { total as u8 }, regions)
            },
            other => other,
        };
        self.run_step(player, step);
    }

    /// Resolves the `index`th printed effect of the Landmark at `landmark`.
    fn resolve_landmark_effect(&mut self, player: Faction, landmark: usize, index: usize)
        requires
            old(self).wf(),
            old(self).pending_decision is None,
            landmark < 7,
        ensures
            landmark_effect_resolved(*old(self), player, landmark as int, index as int, *final(self)),
            super::holdings_kept(*old(self), *final(self)),
            final(self).wf(),
            pushed_below(1, old(self).effect_queue@, final(self).effect_queue@),
    {
        proof {
            Game::lemma_structure(*self);
        }
        let step = {
            let def = &self.catalogue.landmarks[landmark];
            if index < def.effects.len() {
                match &def.effects[index] {
                    LandmarkEffect::PlaceFortress { location } => Step::Fortress(Region::from_schema(*location)),
                    LandmarkEffect::GainCoins { amount } => Step::Gain(*amount),
                    LandmarkEffect::AdvanceQuest { spaces } => Step::Advance(*spaces),
                    LandmarkEffect::PlaceUnits { amount, regions, .. } => Step::Place(*amount, board_regions(regions)),
                    LandmarkEffect::MoveUnits { amount } => Step::Move(*amount),
                    LandmarkEffect::DiscardOneGreyCardFromOpponent => Step::GreyDiscard,
                    LandmarkEffect::PlayOneCardFromDiscardForFree => Step::FreePlay,
                    LandmarkEffect::TwoOfAnyOneRaceTokens => Step::RaceTokens,
                }
            } else {
                Step::Nothing
            }
        };
        self.run_step(player, step);
    }

    /// Resolves one immediate Alliance effect for `player`.
    fn resolve_alliance_effect(&mut self, player: Faction, effect: AllianceEffect)
        requires
            old(self).wf(),
            old(self).pending_decision is None,
        ensures
            alliance_effect_done(*old(self), player, effect, *final(self)),
            super::holdings_kept(*old(self), *final(self)),
            final(self).wf(),
            pushed_below(1, old(self).effect_queue@, final(self).effect_queue@),
    {
        let ghost a = *self;
        match effect {
            AllianceEffect::GainCoins { amount } => self.run_step(player, Step::Gain(amount)),
            AllianceEffect::AdvanceQuest { spaces } => self.run_step(player, Step::Advance(spaces)),
            AllianceEffect::PlaceUnitsAnywhere { amount } => {
                self.decide(PendingDecision::AllianceUnitPlacement { player, remaining: amount });
                proof { lemma_pushed_none(1, a.effect_queue@); }
            },
            AllianceEffect::MoveUnits { amount } => self.run_step(player, Step::Move(amount)),
            AllianceEffect::RemoveEnemyUnits { amount } => self.run_step(player, Step::Remove(amount)),
            AllianceEffect::OpponentLosesCoins { amount } => self.run_step(player, Step::OpponentLoses(amount)),
            AllianceEffect::TakeExtraTurn => {
                self.grant_extra_turn();
                proof { lemma_pushed_none(1, a.effect_queue@); }
            },
            AllianceEffect::RemoveEnemyFortress => {
                self.decide(PendingDecision::QuestBonusFortressRemoval { player, optional: false });
                proof { lemma_pushed_none(1, a.effect_queue@); }
            },
            AllianceEffect::PlayDiscardedCardForFree => self.run_step(player, Step::FreePlay),
            AllianceEffect::ChooseManeuvers { times } => {
                let mut v: Vec<Effect> = Vec::new();
                v.push(Effect::ResolveEntManeuvers { player, remaining: times });
                self.push_front_all(v);
                proof { lemma_pushed_front(1, v@, a.effect_queue@); }
            },
        }
    }

    /// One more turn for the active player (the count stops at 255).
    pub fn grant_extra_turn(&mut self)
        requires
            old(self).wf(),
        ensures
            final(self).wf(),
            final(self).extra_turns == capped((old(self).extra_turns + 1) as nat),
            *final(self) == (Game { extra_turns: final(self).extra_turns, ..*old(self) }),
    {
        let ghost a = *self;
        if self.extra_turns < 255 {
            self.extra_turns = self.extra_turns + 1;
        }
        proof {
            Game::lemma_structure_kept(a, *self);
        }
    }
}

proof fn lemma_matching_kinds(g: Game, p: crate::types::PlayerState, n: int)
    ensures
        forall|j: int| 0 <= j < super::board::matching_triggers(g, p, n).len() ==> (
        #[trigger] super::board::matching_triggers(g, p, n)[j]) is MatchingRace,
    decreases n,
{
    if n > 0 {
        lemma_matching_kinds(g, p, n - 1);
        let rest = super::board::matching_triggers(g, p, n - 1);
        let all = super::board::matching_triggers(g, p, n);
        assert forall|j: int| 0 <= j < all.len() implies (#[trigger] all[j]) is MatchingRace by {
            if j < rest.len() {
                assert(all[j] == rest[j]);
            }
        }
    }
}

impl Game {
    /// A played card: its printed effects first, then the Race check for a
    /// Green card, then the effects its owner's tokens trigger.
    fn resolve_played_card(&mut self, player: Faction, card: crate::types::ChapterCard, used_chain: bool)
        requires
            old(self).wf(),
            super::card_dealt(card, old(self).chapters@.len()),
        ensures
            queued_first(*old(self), played_card_queue(*old(self), player, card, used_chain), *final(self)),
            super::holdings_kept(*old(self), *final(self)),
            final(self).wf(),
            pushed_below(2, old(self).effect_queue@, final(self).effect_queue@),
    {
        let ghost a = *self;
        proof {
            Game::lemma_structure(a);
        }
        let (color, count) = {
            let def = self.catalogue.card_definition(card);
            (def.color, def.effects.len())
        };
        let triggered = self.triggered_card_effects(player, color, used_chain);
        let ghost cards = Seq::new(count as nat, |j: int| Effect::ResolveCardEffect { player, card, index: j as usize });
        let mut pushed: Vec<Effect> = Vec::new();
        let mut i: usize = 0;
        while i < count
            invariant
                i <= count,
                super::card_dealt(card, a.chapters@.len()),
                pushed@ == cards.subrange(0, i as int),
                cards == Seq::new(count as nat, |j: int| Effect::ResolveCardEffect { player, card, index: j as usize }),
                forall|k: int| 0 <= k < pushed@.len() ==> effect_rank(#[trigger] pushed@[k]) < 2 && effect_wf(
                    pushed@[k],
                    a.chapters@.len(),
                ),
            decreases count - i,
        {
            proof {
                assert(cards[i as int] == Effect::ResolveCardEffect { player, card, index: i });
            }
            pushed.push(Effect::ResolveCardEffect { player, card, index: i });
            i = i + 1;
            proof {
                assert(pushed@ =~= cards.subrange(0, i as int));
            }
        }
        if color == CardColor::Green {
            pushed.push(Effect::ResolveRaceAllianceTriggers { player });
        }
        let ghost head = pushed@;
        proof {
            assert(head =~= cards + if color == CardColor::Green {
                seq![Effect::ResolveRaceAllianceTriggers { player }]
            } else {
                seq![]
            });
        }
        let mut k: usize = 0;
        while k < triggered.len()
            invariant
                k <= triggered@.len(),
                pushed@ == head + alliance_effects_of(player, triggered@.subrange(0, k as int)),
                forall|j: int| 0 <= j < pushed@.len() ==> effect_rank(#[trigger] pushed@[j]) < 2 && effect_wf(
                    pushed@[j],
                    a.chapters@.len(),
                ),
            decreases triggered.len() - k,
        {
            pushed.push(Effect::ResolveAllianceEffect { player, effect: triggered[k] });
            k = k + 1;
            proof {
                assert(alliance_effects_of(player, triggered@.subrange(0, k as int)) =~= alliance_effects_of(
                    player,
                    triggered@.subrange(0, k - 1),
                ).push(Effect::ResolveAllianceEffect { player, effect: triggered@[k - 1] }));
            }
        }
        let ghost p = pushed@;
        proof {
            assert(triggered@.subrange(0, triggered@.len() as int) =~= triggered@);
            assert(p =~= played_card_queue(a, player, card, used_chain));
        }
        self.push_front_all(pushed);
        proof {
            lemma_pushed_front(2, p, a.effect_queue@);
        }
    }

    /// A taken Landmark: its printed effects, then the effects its owner's
    /// tokens trigger; a Landmark may also grant another turn.
    fn resolve_landmark(&mut self, player: Faction, landmark: usize)
        requires
            old(self).wf(),
            landmark < 7,
        ensures
            landmark_resolved(*old(self), player, landmark as int, *final(self)),
            super::holdings_kept(*old(self), *final(self)),
            final(self).wf(),
            pushed_below(2, old(self).effect_queue@, final(self).effect_queue@),
    {
        let ghost a = *self;
        proof {
            Game::lemma_structure(a);
        }
        let count = self.catalogue.landmarks[landmark].effects.len();
        let triggered = self.landmark_triggered_effects(player);
        let ghost printed = Seq::new(
            count as nat,
            |j: int| Effect::ResolveLandmarkEffect { player, landmark, index: j as usize },
        );
        let mut pushed: Vec<Effect> = Vec::new();
        let mut i: usize = 0;
        while i < count
            invariant
                i <= count,
                landmark < 7,
                pushed@ == printed.subrange(0, i as int),
                printed == Seq::new(
                    count as nat,
                    |j: int| Effect::ResolveLandmarkEffect { player, landmark, index: j as usize },
                ),
                forall|k: int| 0 <= k < pushed@.len() ==> effect_rank(#[trigger] pushed@[k]) < 2 && effect_wf(
                    pushed@[k],
                    a.chapters@.len(),
                ),
            decreases count - i,
        {
            proof {
                assert(printed[i as int] == Effect::ResolveLandmarkEffect { player, landmark, index: i });
            }
            pushed.push(Effect::ResolveLandmarkEffect { player, landmark, index: i });
            i = i + 1;
            proof {
                assert(pushed@ =~= printed.subrange(0, i as int));
            }
        }
        let ghost head = pushed@;
        let mut k: usize = 0;
        while k < triggered.len()
            invariant
                k <= triggered@.len(),
                pushed@ == head + alliance_effects_of(player, triggered@.subrange(0, k as int)),
                forall|j: int| 0 <= j < pushed@.len() ==> effect_rank(#[trigger] pushed@[j]) < 2 && effect_wf(
                    pushed@[j],
                    a.chapters@.len(),
                ),
            decreases triggered.len() - k,
        {
            pushed.push(Effect::ResolveAllianceEffect { player, effect: triggered[k] });
            k = k + 1;
            proof {
                assert(alliance_effects_of(player, triggered@.subrange(0, k as int)) =~= alliance_effects_of(
                    player,
                    triggered@.subrange(0, k - 1),
                ).push(Effect::ResolveAllianceEffect { player, effect: triggered@[k - 1] }));
            }
        }
        let ghost p = pushed@;
        proof {
            assert(triggered@.subrange(0, triggered@.len() as int) =~= triggered@);
            assert(printed.subrange(0, count as int) =~= printed);
            assert(p =~= landmark_queue(a, player, landmark as int));
        }
        self.push_front_all(pushed);
        if self.player(player).landmark_grants_extra_turn {
            self.grant_extra_turn();
        }
        proof {
            lemma_pushed_front(2, p, a.effect_queue@);
        }
    }

    /// An Alliance token just taken: its immediate effects.
    fn resolve_alliance_token(&mut self, player: Faction, token: AllianceToken)
        requires
            old(self).wf(),
            valid_token(token),
        ensures
            queued_first(
                *old(self),
                alliance_effects_of(player, token_def(*old(self).catalogue, token).immediate@),
                *final(self),
            ),
            super::holdings_kept(*old(self), *final(self)),
            final(self).wf(),
            pushed_below(2, old(self).effect_queue@, final(self).effect_queue@),
    {
        let ghost a = *self;
        proof {
            Game::lemma_structure(a);
        }
        let mut pushed: Vec<Effect> = Vec::new();
        {
            let def = self.catalogue.alliance_token_definition(token);
            let mut i: usize = 0;
            while i < def.immediate.len()
                invariant
                    i <= def.immediate@.len(),
                    pushed@ == alliance_effects_of(player, def.immediate@.subrange(0, i as int)),
                    forall|j: int| 0 <= j < pushed@.len() ==> effect_rank(#[trigger] pushed@[j]) < 2 && effect_wf(
                        pushed@[j],
                        a.chapters@.len(),
                    ),
                decreases def.immediate.len() - i,
            {
                pushed.push(Effect::ResolveAllianceEffect { player, effect: def.immediate[i] });
                i = i + 1;
                proof {
                    assert(alliance_effects_of(player, def.immediate@.subrange(0, i as int)) =~= alliance_effects_of(
                        player,
                        def.immediate@.subrange(0, i - 1),
                    ).push(Effect::ResolveAllianceEffect { player, effect: def.immediate@[i - 1] }));
                }
            }
            proof {
                assert(def.immediate@.subrange(0, def.immediate@.len() as int) =~= def.immediate@);
            }
        }
        let ghost p = pushed@;
        self.push_front_all(pushed);
        proof {
            lemma_pushed_front(2, p, a.effect_queue@);
        }
    }

    /// After a Green card: a Race victory, or the Alliance triggers now open.
    /// A single trigger resolves at once; several are offered as a choice.
    #[verifier::rlimit(60)]
    fn resolve_race_alliance_triggers(&mut self, player: Faction)
        requires
            old(self).wf(),
            old(self).pending_decision is None,
        ensures
            race_triggers_resolved(*old(self), player, *final(self)),
            super::holdings_kept(*old(self), *final(self)),
            final(self).wf(),
            final(self).effect_queue == old(self).effect_queue,
    {
        self.check_race_victory(player);
        if self.winner.is_some() {
            return;
        }
        let triggers = self.pending_alliance_triggers(player);
        if triggers.len() == 1 {
            let trigger = triggers[0];
            proof {
                lemma_matching_kinds(*self, self.player_of(player), 6);
            }
            match trigger {
                AllianceTrigger::MatchingRace(race) => {
                    let ghost a = *self;
                    self.player_mut(player).matched_races.push(race);
                    proof {
                        Game::lemma_structure_kept(a, *self);
                    }
                    let ghost m = *self;
                    let races = vec![race];
                    proof {
                        assert(races@ =~= seq![race]);
                    }
                    self.reveal_alliance_tokens(player, &races, 2);
                    proof {
                        assert(m.player_of(player).matched_races@ == a.player_of(player).matched_races@.push(race));
                        assert(tokens_revealed(m, player, seq![race], 2, *self));
                    }
                },
                AllianceTrigger::ThreeDifferentRaces => {
                    let ghost a = *self;
                    proof {
                        assert(super::board::matching_triggers(*self, self.player_of(player), 6).len() == 0) by {
                            let m = super::board::matching_triggers(*self, self.player_of(player), 6);
                            if m.len() > 0 {
                                assert(triggers@[0] == m[0]);
                            }
                        }
                    }
                    self.player_mut(player).claimed_three_race_alliance = true;
                    proof {
                        Game::lemma_structure_kept(a, *self);
                    }
                    let races = self.player_races(player);
                    let first = vec![races[0], races[1], races[2]];
                    proof {
                        assert(first@ =~= races@.subrange(0, 3));
                    }
                    self.reveal_alliance_tokens(player, &first, 1);
                },
            }
        } else if triggers.len() > 1 {
            self.decide(PendingDecision::AllianceTriggerChoice { player, triggers });
        }
    }

    /// Ends a turn: the turn counter advances (stopping at its maximum), the
    /// any-Skill token recovers, and play passes unless an extra turn is owed.
    pub fn complete_turn(&mut self, player: Faction)
        requires
            old(self).wf(),
        ensures
            super::holdings_kept(*old(self), *final(self)),
            final(self).wf(),
            final(self).turn == if old(self).turn < u32::MAX { old(self).turn + 1 } else { old(self).turn as int },
            final(self).player_of(player).used_any_skill_this_turn == false,
            old(self).extra_turns > 0 ==> final(self).extra_turns == old(self).extra_turns - 1
                && final(self).active_player == old(self).active_player,
            old(self).extra_turns == 0 ==> final(self).extra_turns == 0 && final(self).active_player
                == spec_other(old(self).active_player),
            final(self).effect_queue == old(self).effect_queue,
            turn_completed(*old(self), player, *final(self)),
    {
        let ghost a = *self;
        if self.turn < u32::MAX {
            self.turn = self.turn + 1;
        }
        self.player_mut(player).used_any_skill_this_turn = false;
        if self.extra_turns > 0 {
            self.extra_turns = self.extra_turns - 1;
        } else {
            self.active_player = self.active_player.other();
        }
        proof {
            Game::lemma_structure_kept(a, *self);
        }
    }

    /// Resolves one queued effect.
    fn resolve_one(&mut self, effect: Effect)
        requires
            old(self).wf(),
            old(self).pending_decision is None,
            effect_wf(effect, old(self).chapters@.len()),
        ensures
            one_resolved(*old(self), effect, *final(self)),
            super::holdings_kept(*old(self), *final(self)),
            final(self).wf(),
            pushed_below(effect_rank(effect), old(self).effect_queue@, final(self).effect_queue@),
    {
        let ghost a = *self;
        match effect {
            Effect::ResolvePlayedCard { player, card, used_chain } => {
                self.resolve_played_card(player, card, used_chain);
            },
            Effect::ResolveLandmark { player, landmark } => {
                self.resolve_landmark(player, landmark);
            },
            Effect::ResolveLandmarkEffect { player, landmark, index } => {
                self.resolve_landmark_effect(player, landmark, index);
            },
            Effect::ResolveCardEffect { player, card, index } => {
                self.resolve_card_effect(player, card, index);
            },
            Effect::ResolveAllianceToken { player, token } => {
                self.resolve_alliance_token(player, token);
            },
            Effect::ResolveAllianceEffect { player, effect } => {
                self.resolve_alliance_effect(player, effect);
            },
            Effect::ResolveRaceAllianceTriggers { player } => {
                self.resolve_race_alliance_triggers(player);
                proof { lemma_pushed_none(0, a.effect_queue@); }
            },
            Effect::ResolveEntManeuvers { player, remaining } => {
                self.decide(PendingDecision::EntManeuverChoice { player, remaining });
                proof { lemma_pushed_none(0, a.effect_queue@); }
            },
            Effect::ResolveQuestBonus { player, effect } => {
                match effect {
                    QuestBonusEffect::GainCoin | QuestBonusEffect::TakeExtraTurn => {
                        self.decide(PendingDecision::QuestBonusChoice { player, effect });
                    },
                    QuestBonusEffect::PlaceUnit => {
                        self.decide(PendingDecision::QuestBonusUnitPlacement { player });
                    },
                    QuestBonusEffect::RemoveEnemyFortress => {
                        self.decide(PendingDecision::QuestBonusFortressRemoval { player, optional: true });
                    },
                }
                proof { lemma_pushed_none(0, a.effect_queue@); }
            },
            Effect::TransitionChapterIfComplete => {
                self.transition_chapter_if_complete();
                proof { lemma_pushed_none(0, a.effect_queue@); }
            },
            Effect::CheckImmediateVictoryConditions | Effect::CheckPostRevealEffects => {
                proof { lemma_pushed_none(0, a.effect_queue@); }
            },
            Effect::RevealNewlyAvailableCards => {
                self.reveal_newly_available_cards();
                proof { lemma_pushed_none(0, a.effect_queue@); }
            },
            Effect::CompleteTurn { player } => {
                self.complete_turn(player);
                proof { lemma_pushed_none(0, a.effect_queue@); }
            },
        }
    }

    /// Runs automatic effects until a choice is needed, the game is over or
    /// the queue is empty. Every step keeps the invariant, and the queue's
    /// measure shrinks at each step, so resolution always ends.
    pub fn resolve_effects(&mut self)
        requires
            old(self).wf(),
        ensures
            settled_from(*old(self), *final(self)),
            super::holdings_kept(*old(self), *final(self)),
            final(self).wf(),
            final(self).pending_decision is Some || final(self).spec_is_over() || final(self).effect_queue@.len() == 0,
            old(self).pending_decision is Some || old(self).spec_is_over() ==> *final(self) == *old(self),
    {
        let ghost a = *self;
        let ghost mut trace: Seq<Game> = seq![a];
        loop
            invariant
                self.wf(),
                super::holdings_kept(a, *self),
                a.pending_decision is Some || a.spec_is_over() ==> *self == a,
                resolution_trace(trace, a, *self),
            ensures
                self.wf(),
                super::holdings_kept(a, *self),
                self.pending_decision is Some || self.spec_is_over() || self.effect_queue@.len() == 0,
                a.pending_decision is Some || a.spec_is_over() ==> *self == a,
                resolution_trace(trace, a, *self),
            decreases count_rank(self.effect_queue@, 2), count_rank(self.effect_queue@, 1), count_rank(self.effect_queue@, 0),
        {
            if self.pending_decision.is_some() || self.is_over() || self.effect_queue.len() == 0 {
                break;
            }
            let ghost before = *self;
            let effect = self.effect_queue.pop_front().unwrap();
            proof {
                assert(before.effect_queue@ =~= seq![effect] + self.effect_queue@);
                Game::lemma_structure(before);
                assert(effect_wf(effect, before.chapters@.len())) by {
                    assert(before.effect_queue@[0] == effect);
                }
                assert forall|i: int| 0 <= i < self.effect_queue@.len() implies effect_wf(
                    #[trigger] self.effect_queue@[i], self.chapters@.len()) by {
                    assert(self.effect_queue@[i] == before.effect_queue@[i + 1]);
                }
                Game::lemma_structure_update(before, *self);
            }
            let ghost q = self.effect_queue@;
            let event = self.event_for(&effect);
            let ghost popped = *self;
            self.resolution_events.push(event);
            proof {
                Game::lemma_structure_kept(popped, *self);
            }
            let ghost taken = *self;
            self.resolve_one(effect);
            proof {
                let after = self.effect_queue@;
                let pushed = after.subrange(0, after.len() - q.len());
                assert(after =~= pushed + q);
                assert forall|i: int| 0 <= i < pushed.len() implies effect_rank(#[trigger] pushed[i]) < effect_rank(effect) by {
                    assert(pushed[i] == after[i]);
                }
                lemma_queue_shrinks(effect, pushed, q);
                assert(before.effect_queue@[0] == effect);
                assert(unqueued(before, taken));
                lemma_trace_extend(trace, a, before, *self);
                trace = trace.push(*self);
            }
        }
        proof {
            assert(resolution_trace(trace, a, *self));
        }
    }
}

impl Game {
    /// The record of resolving `effect`.
    pub open spec fn event_of(&self, effect: Effect) -> super::ResolutionEvent {
        match effect {
            Effect::ResolvePlayedCard { player, card, .. } => super::ResolutionEvent::PlayedCard { player, card },
            Effect::ResolveLandmark { player, landmark } => super::ResolutionEvent::Landmark {
                player,
                id: self.catalogue.landmarks@[landmark as int].id,
            },
            Effect::ResolveLandmarkEffect { player, .. } => super::ResolutionEvent::LandmarkEffect { player },
            Effect::ResolveRaceAllianceTriggers { player } => super::ResolutionEvent::RaceAllianceTriggers { player },
            Effect::ResolveAllianceToken { player, token } => super::ResolutionEvent::AllianceToken { player, token },
            Effect::ResolveAllianceEffect { player, .. } => super::ResolutionEvent::AllianceEffect { player },
            Effect::ResolveEntManeuvers { player, remaining } => super::ResolutionEvent::EntManeuvers { player, remaining },
            Effect::ResolveCardEffect { player, .. } => super::ResolutionEvent::CardEffect { player },
            Effect::ResolveQuestBonus { player, effect } => super::ResolutionEvent::QuestBonus { player, effect },
            Effect::CheckImmediateVictoryConditions => super::ResolutionEvent::CheckImmediateVictoryConditions,
            Effect::RevealNewlyAvailableCards => super::ResolutionEvent::RevealNewlyAvailableCards,
            Effect::CheckPostRevealEffects => super::ResolutionEvent::CheckPostRevealEffects,
            Effect::TransitionChapterIfComplete => super::ResolutionEvent::TransitionChapterIfComplete,
            Effect::CompleteTurn { player } => super::ResolutionEvent::CompleteTurn { player },
        }
    }

    /// The record of resolving `effect`.
    fn event_for(&self, effect: &Effect) -> (r: super::ResolutionEvent)
        ensures
            (match *effect {
                Effect::ResolveLandmark { landmark, .. } => landmark < self.catalogue.landmarks@.len(),
                _ => true,
            }) ==> r == self.event_of(*effect),
    {
        match effect {
            Effect::ResolvePlayedCard { player, card, .. } => super::ResolutionEvent::PlayedCard { player: *player, card: *card },
            Effect::ResolveLandmark { player, landmark } => {
                let id = if *landmark < self.catalogue.landmarks.len() {
                    self.catalogue.landmarks[*landmark].id.clone()
                } else {
                    String::new()
                };
                super::ResolutionEvent::Landmark { player: *player, id }
            },
            Effect::ResolveLandmarkEffect { player, .. } => super::ResolutionEvent::LandmarkEffect { player: *player },
            Effect::ResolveRaceAllianceTriggers { player } => super::ResolutionEvent::RaceAllianceTriggers { player: *player },
            Effect::ResolveAllianceToken { player, token } => super::ResolutionEvent::AllianceToken { player: *player, token: *token },
            Effect::ResolveAllianceEffect { player, .. } => super::ResolutionEvent::AllianceEffect { player: *player },
            Effect::ResolveEntManeuvers { player, remaining } => super::ResolutionEvent::EntManeuvers { player: *player, remaining: *remaining },
            Effect::ResolveCardEffect { player, .. } => super::ResolutionEvent::CardEffect { player: *player },
            Effect::ResolveQuestBonus { player, effect } => super::ResolutionEvent::QuestBonus { player: *player, effect: *effect },
            Effect::CheckImmediateVictoryConditions => super::ResolutionEvent::CheckImmediateVictoryConditions,
            Effect::RevealNewlyAvailableCards => super::ResolutionEvent::RevealNewlyAvailableCards,
            Effect::CheckPostRevealEffects => super::ResolutionEvent::CheckPostRevealEffects,
            Effect::TransitionChapterIfComplete => super::ResolutionEvent::TransitionChapterIfComplete,
            Effect::CompleteTurn { player } => super::ResolutionEvent::CompleteTurn { player: *player },
        }
    }
}
} // verus!
