//! Coins, Units, Fortresses, the quest track, the Chapter display and the
//! end-of-game comparisons.

use vstd::prelude::*;

use crate::alliance_schema::PersistentEffect;
use crate::catalog::Catalogue;
use crate::helpers::printed_quest_bonuses;
use crate::types::{
    adjacent, all_regions, race_at, race_index, region_at, region_index, spec_other,
    spec_race_to_schema, Action, AllianceTrigger, ChapterCard, Faction, PlayerState, QuestBonus,
    QuestBonusEffect, Race, Region, RegionState, VictoryType,
};

use super::payments::card_def;
use super::{effect_wf, fortresses_on_map, present, region_units, units_on_map, Effect, Game};

verus! {

/// Which faction, if either, is present in every region; the Fellowship is
/// checked first.
pub open spec fn dominates(map: Seq<RegionState>, f: Faction) -> bool {
    forall|i: int| 0 <= i < map.len() ==> present(#[trigger] map[i], f)
}

/// The outcome after a map-domination check.
pub open spec fn domination_outcome(
    map: Seq<RegionState>,
    winner: Option<Faction>,
    victory: Option<VictoryType>,
) -> (Option<Faction>, Option<VictoryType>) {
    if dominates(map, Faction::Fellowship) {
        (Some(Faction::Fellowship), Some(VictoryType::Conquest))
    } else if dominates(map, Faction::Sauron) {
        (Some(Faction::Sauron), Some(VictoryType::Conquest))
    } else {
        (winner, victory)
    }
}

/// A region after the pairwise conflict: as many Units of each side as the
/// smaller side has leave, and the Fortress stays.
pub open spec fn after_conflict(r: RegionState) -> RegionState {
    let removed = if r.fellowship_units <= r.sauron_units {
        r.fellowship_units
    } else {
        r.sauron_units
    };
    RegionState {
        fellowship_units: (r.fellowship_units - removed) as u8,
        sauron_units: (r.sauron_units - removed) as u8,
        ..r
    }
}

pub open spec fn conflict_losses(r: RegionState) -> nat {
    if r.fellowship_units <= r.sauron_units {
        r.fellowship_units as nat
    } else {
        r.sauron_units as nat
    }
}

/// `r` with `amount` more Units of `f`.
pub open spec fn with_units(r: RegionState, f: Faction, amount: int) -> RegionState {
    match f {
        Faction::Fellowship => RegionState { fellowship_units: (r.fellowship_units + amount) as u8, ..r },
        Faction::Sauron => RegionState { sauron_units: (r.sauron_units + amount) as u8, ..r },
    }
}

pub proof fn lemma_units_on_map_update(map: Seq<RegionState>, i: int, r: RegionState, f: Faction)
    requires
        0 <= i < map.len(),
    ensures
        units_on_map(map.update(i, r), f) == units_on_map(map, f) - region_units(map[i], f)
            + region_units(r, f),
        fortresses_on_map(map.update(i, r), f) == fortresses_on_map(map, f) - (if map[i].fortress
            == Some(f) { 1int } else { 0int }) + (if r.fortress == Some(f) { 1int } else { 0int }),
    decreases map.len(),
{
    if i < map.len() - 1 {
        assert(map.update(i, r).drop_last() =~= map.drop_last().update(i, r));
        lemma_units_on_map_update(map.drop_last(), i, r, f);
    } else {
        assert(map.update(i, r).drop_last() =~= map.drop_last());
    }
}

pub proof fn lemma_units_on_map_bound(map: Seq<RegionState>, i: int, f: Faction)
    requires
        0 <= i < map.len(),
    ensures
        region_units(map[i], f) <= units_on_map(map, f),
    decreases map.len(),
{
    if i < map.len() - 1 {
        lemma_units_on_map_bound(map.drop_last(), i, f);
    }
}

/// The frame of a board operation: only the map, the supplies and the outcome change.
pub open spec fn board_frame(a: Game, b: Game) -> bool {
    &&& b.fellowship == crate::types::PlayerState {
        units_in_supply: b.fellowship.units_in_supply,
        fortresses_in_supply: b.fellowship.fortresses_in_supply,
        ..a.fellowship
    }
    &&& b.sauron == crate::types::PlayerState {
        units_in_supply: b.sauron.units_in_supply,
        fortresses_in_supply: b.sauron.fortresses_in_supply,
        ..a.sauron
    }
    &&& b == Game {
        map: b.map,
        fellowship: b.fellowship,
        sauron: b.sauron,
        winner: b.winner,
        victory_type: b.victory_type,
        ..a
    }
}

/// How many coins a gain of `amount` takes: no more than the reserve holds.
pub open spec fn gained(g: Game, amount: u8) -> nat {
    if amount <= g.coin_reserve { amount as nat } else { g.coin_reserve as nat }
}

/// How many coins a loss of `amount` takes: no more than the player holds.
pub open spec fn lost(g: Game, f: Faction, amount: u8) -> int {
    if amount <= g.player_of(f).coins { amount as int } else { g.player_of(f).coins as int }
}

/// `g` with `delta` coins moved from the reserve to player `f` (a negative
/// `delta` moves coins back).
pub open spec fn coins_moved(g: Game, f: Faction, delta: int) -> Game {
    g.with_player(f, PlayerState { coins: (g.player_of(f).coins + delta) as u8, ..g.player_of(f) })
        .with_reserve((g.coin_reserve - delta) as u8)
}

impl Game {
    /// Moves up to `amount` coins from the reserve to `player`.
    pub fn gain_coins(&mut self, player: Faction, amount: u8)
        requires
            old(self).wf(),
        ensures
            final(self).wf(),
            *final(self) == coins_moved(*old(self), player, gained(*old(self), amount) as int),
    {
        let ghost a = *self;
        let taken = if amount <= self.coin_reserve { amount } else { self.coin_reserve };
        self.coin_reserve = self.coin_reserve - taken;
        let p = self.player_mut(player);
        p.coins = p.coins + taken;
        proof {
            Game::lemma_structure_kept(a, *self);
        }
    }

    /// Moves up to `amount` of `player`'s coins back to the reserve.
    pub fn lose_coins(&mut self, player: Faction, amount: u8)
        requires
            old(self).wf(),
        ensures
            final(self).wf(),
            *final(self) == coins_moved(*old(self), player, -lost(*old(self), player, amount)),
    {
        let have = self.player(player).coins;
        let lost = if amount <= have { amount } else { have };
        let ghost a = *self;
        let p = self.player_mut(player);
        p.coins = p.coins - lost;
        self.coin_reserve = self.coin_reserve + lost;
        proof {
            Game::lemma_structure_kept(a, *self);
        }
    }

    pub open spec fn with_reserve(self, reserve: u8) -> Game {
        Game { coin_reserve: reserve, ..self }
    }

    /// How many Units `faction` has in `region`.
    pub fn region_unit_count(&self, faction: Faction, region: Region) -> (r: u8)
        requires
            self.board_wf(),
        ensures
            r == region_units(self.map@[region_index(region)], faction),
    {
        let state = self.map[region.index()];
        match faction {
            Faction::Fellowship => state.fellowship_units,
            Faction::Sauron => state.sauron_units,
        }
    }

    /// Whether `faction` has a Fortress or a Unit in `region`.
    pub fn has_presence(&self, faction: Faction, region: Region) -> (r: bool)
        requires
            self.board_wf(),
        ensures
            r == present(self.map@[region_index(region)], faction),
    {
        let state = self.map[region.index()];
        state.fortress == Some(faction) || match faction {
            Faction::Fellowship => state.fellowship_units > 0,
            Faction::Sauron => state.sauron_units > 0,
        }
    }

    /// Records a victory.
    pub fn record_victory(&mut self, winner: Faction, victory_type: VictoryType)
        ensures
            *final(self) == (Game { winner: Some(winner), victory_type: Some(victory_type), ..*old(self) }),
    {
        self.winner = Some(winner);
        self.victory_type = Some(victory_type);
    }

    /// Presence in all seven regions is an immediate Conquest victory.
    pub fn check_map_domination(&mut self)
        requires
            old(self).board_wf(),
        ensures
            (final(self).winner, final(self).victory_type) == domination_outcome(
                old(self).map@,
                old(self).winner,
                old(self).victory_type,
            ),
            *final(self) == (Game {
                winner: final(self).winner,
                victory_type: final(self).victory_type,
                ..*old(self)
            }),
    {
        if self.present_everywhere(Faction::Fellowship) {
            self.record_victory(Faction::Fellowship, VictoryType::Conquest);
        } else if self.present_everywhere(Faction::Sauron) {
            self.record_victory(Faction::Sauron, VictoryType::Conquest);
        }
    }

    fn present_everywhere(&self, faction: Faction) -> (r: bool)
        requires
            self.board_wf(),
        ensures
            r == dominates(self.map@, faction),
    {
        let mut i: usize = 0;
        while i < 7
            invariant
                i <= 7,
                self.board_wf(),
                forall|k: int| 0 <= k < i ==> present(#[trigger] self.map@[k], faction),
            decreases 7 - i,
        {
            let region = crate::types::region_at_index(i);
            if !self.has_presence(faction, region) {
                return false;
            }
            i = i + 1;
        }
        true
    }

    /// Removes Units pairwise until at most one side remains in `region`;
    /// removed Units return to their supplies. Fortresses are untouched.
    pub fn resolve_conflict(&mut self, region: Region)
        requires
            old(self).map@.len() == 7,
            old(self).map@[region_index(region)].region == region,
            old(self).fellowship.units_in_supply + conflict_losses(old(self).map@[region_index(region)]) <= 255,
            old(self).sauron.units_in_supply + conflict_losses(old(self).map@[region_index(region)]) <= 255,
        ensures
            final(self).map@ == old(self).map@.update(
                region_index(region),
                after_conflict(old(self).map@[region_index(region)]),
            ),
            final(self).fellowship.units_in_supply == old(self).fellowship.units_in_supply
                + conflict_losses(old(self).map@[region_index(region)]),
            final(self).sauron.units_in_supply == old(self).sauron.units_in_supply
                + conflict_losses(old(self).map@[region_index(region)]),
            board_frame(*old(self), *final(self)),
            final(self).winner == old(self).winner,
            final(self).victory_type == old(self).victory_type,
            final(self).fellowship.fortresses_in_supply == old(self).fellowship.fortresses_in_supply,
            final(self).sauron.fortresses_in_supply == old(self).sauron.fortresses_in_supply,
    {
        let i = region.index();
        let mut state = self.map[i];
        let removed = if state.fellowship_units <= state.sauron_units {
            state.fellowship_units
        } else {
            state.sauron_units
        };
        state.fellowship_units = state.fellowship_units - removed;
        state.sauron_units = state.sauron_units - removed;
        self.map.set(i, state);
        self.fellowship.units_in_supply = self.fellowship.units_in_supply + removed;
        self.sauron.units_in_supply = self.sauron.units_in_supply + removed;
    }
}


/// The outcome of placing `amount` Units of `player` in `region` and resolving
/// the conflict there (before any Conquest check).
pub open spec fn placement_region(a: Game, player: Faction, region: Region, amount: int) -> RegionState {
    after_conflict(with_units(a.map@[region_index(region)], player, amount))
}

/// The board after a region changed to `r`, with the Units lost in the
/// conflict returned to both supplies and a Conquest check made.
pub open spec fn region_settled(a: Game, b: Game, region: Region, before: RegionState, r: RegionState) -> bool {
    &&& b.map@ == a.map@.update(region_index(region), r)
    &&& r == after_conflict(before)
    &&& b.fellowship.fortresses_in_supply == a.fellowship.fortresses_in_supply
    &&& b.sauron.fortresses_in_supply == a.sauron.fortresses_in_supply
    &&& (b.winner, b.victory_type) == domination_outcome(b.map@, a.winner, a.victory_type)
    &&& board_frame(a, b)
}

/// The state after `player` placed `amount` Units in `region`.
pub open spec fn placed(a: Game, player: Faction, region: Region, amount: int, b: Game) -> bool {
    let before = with_units(a.map@[region_index(region)], player, amount);
    let losses = conflict_losses(before);
    &&& region_settled(a, b, region, before, after_conflict(before))
    &&& b.player_of(player).units_in_supply == a.player_of(player).units_in_supply - amount + losses
    &&& b.player_of(spec_other(player)).units_in_supply == a.player_of(spec_other(player)).units_in_supply
        + losses
}

/// A board operation that keeps the conflict rule and the component counts
/// keeps every part of the invariant.
proof fn lemma_board_step_wf(a: Game, b: Game)
    requires
        a.wf(),
        board_frame(a, b),
        b.board_wf(),
        b.conserved(),
    ensures
        b.wf(),
{
    Game::lemma_structure_kept(a, b);
}

impl Game {
    /// Places `amount` Units of `player` in `region`, resolves the conflict
    /// there and checks for a Conquest victory. Fortresses neither prevent
    /// placement nor take part in a conflict.
    pub fn place_units_in_region(&mut self, player: Faction, region: Region, amount: u8)
        requires
            old(self).wf(),
            amount <= old(self).player_of(player).units_in_supply,
        ensures
            final(self).wf(),
            placed(*old(self), player, region, amount as int, *final(self)),
    {
        let ghost a = *self;
        let i = region.index();
        proof {
            crate::types::lemma_region_index(region);
        }
        let mut state = self.map[i];
        proof {
            lemma_units_on_map_bound(a.map@, i as int, Faction::Fellowship);
            lemma_units_on_map_bound(a.map@, i as int, Faction::Sauron);
        }
        match player {
            Faction::Fellowship => state.fellowship_units = state.fellowship_units + amount,
            Faction::Sauron => state.sauron_units = state.sauron_units + amount,
        }
        proof {
            assert(state == with_units(a.map@[i as int], player, amount as int));
            lemma_units_on_map_update(a.map@, i as int, state, Faction::Fellowship);
            lemma_units_on_map_update(a.map@, i as int, state, Faction::Sauron);
        }
        self.map.set(i, state);
        let p = self.player_mut(player);
        p.units_in_supply = p.units_in_supply - amount;
        proof {
            lemma_units_on_map_bound(self.map@, i as int, Faction::Fellowship);
            lemma_units_on_map_bound(self.map@, i as int, Faction::Sauron);
        }
        let ghost mid = *self;
        self.resolve_conflict(region);
        proof {
            lemma_units_on_map_update(mid.map@, i as int, after_conflict(state), Faction::Fellowship);
            lemma_units_on_map_update(mid.map@, i as int, after_conflict(state), Faction::Sauron);
            assert(self.map@ =~= a.map@.update(i as int, after_conflict(state)));
        }
        self.check_map_domination();
        proof {
            assert(self.board_wf());
            lemma_board_step_wf(a, *self);
        }
    }
}

/// The state after one Unit of `player` moved from `from` to `to`, where a
/// conflict is then resolved.
pub open spec fn moved(a: Game, player: Faction, from: Region, to: Region, b: Game) -> bool {
    let m1 = a.map@.update(region_index(from), with_units(a.map@[region_index(from)], player, -1));
    let before = with_units(m1[region_index(to)], player, 1);
    let losses = conflict_losses(before);
    &&& b.map@ == m1.update(region_index(to), after_conflict(before))
    &&& b.fellowship.units_in_supply == a.fellowship.units_in_supply + losses
    &&& b.sauron.units_in_supply == a.sauron.units_in_supply + losses
    &&& b.fellowship.fortresses_in_supply == a.fellowship.fortresses_in_supply
    &&& b.sauron.fortresses_in_supply == a.sauron.fortresses_in_supply
    &&& (b.winner, b.victory_type) == domination_outcome(b.map@, a.winner, a.victory_type)
    &&& board_frame(a, b)
}

/// The state after one Unit of `owner` was removed from `region` to its supply.
pub open spec fn unit_removed(a: Game, owner: Faction, region: Region, b: Game) -> bool {
    &&& b.map@ == a.map@.update(region_index(region), with_units(a.map@[region_index(region)], owner, -1))
    &&& b.player_of(owner).units_in_supply == a.player_of(owner).units_in_supply + 1
    &&& b.player_of(spec_other(owner)).units_in_supply == a.player_of(spec_other(owner)).units_in_supply
    &&& b.fellowship.fortresses_in_supply == a.fellowship.fortresses_in_supply
    &&& b.sauron.fortresses_in_supply == a.sauron.fortresses_in_supply
    &&& (b.winner, b.victory_type) == domination_outcome(b.map@, a.winner, a.victory_type)
    &&& board_frame(a, b)
}

/// The state after the Fortress in `region` went back to its owner's supply.
pub open spec fn fortress_removed(a: Game, region: Region, b: Game) -> bool {
    let i = region_index(region);
    let owner = a.map@[i].fortress->0;
    &&& b.map@ == a.map@.update(i, with_fortress(a.map@[i], None))
    &&& b.player_of(owner).fortresses_in_supply == a.player_of(owner).fortresses_in_supply + 1
    &&& b.player_of(spec_other(owner)).fortresses_in_supply == a.player_of(spec_other(owner)).fortresses_in_supply
    &&& b.fellowship.units_in_supply == a.fellowship.units_in_supply
    &&& b.sauron.units_in_supply == a.sauron.units_in_supply
    &&& b.winner == a.winner
    &&& b.victory_type == a.victory_type
    &&& board_frame(a, b)
}

/// `r` with its Fortress set to `owner`.
pub open spec fn with_fortress(r: RegionState, owner: Option<Faction>) -> RegionState {
    RegionState { fortress: owner, ..r }
}

/// `b` is `a` after a Fortress of `player` is placed in `region`: from the
/// supply, on a region without one, checking for a Conquest victory; with no
/// Fortress in supply or one already there, nothing changes.
pub open spec fn fortress_placed(a: Game, player: Faction, region: Region, b: Game) -> bool {
    let i = region_index(region);
    if a.player_of(player).fortresses_in_supply > 0 && a.map@[i].fortress is None {
        &&& b.map@ == a.map@.update(i, with_fortress(a.map@[i], Some(player)))
        &&& b.player_of(player).fortresses_in_supply
            == a.player_of(player).fortresses_in_supply - 1
        &&& b.player_of(spec_other(player)).fortresses_in_supply
            == a.player_of(spec_other(player)).fortresses_in_supply
        &&& b.fellowship.units_in_supply == a.fellowship.units_in_supply
        &&& b.sauron.units_in_supply == a.sauron.units_in_supply
        &&& (b.winner, b.victory_type) == domination_outcome(
            b.map@,
            a.winner,
            a.victory_type,
        )
        &&& board_frame(a, b)
    } else {
        b == a
    }
}

impl Game {
    /// Moves one Unit over a printed map connection and resolves a conflict in
    /// the destination. Fortresses have no move operation.
    pub fn move_unit(&mut self, player: Faction, from: Region, to: Region)
        requires
            old(self).wf(),
            crate::types::connected(from, to),
            region_units(old(self).map@[region_index(from)], player) > 0,
        ensures
            final(self).wf(),
            moved(*old(self), player, from, to, *final(self)),
    {
        let ghost a = *self;
        self.lift_unit(player, from);
        let ghost c = *self;
        self.place_units_in_region(player, to, 1);
        proof {
            lemma_move_composes(a, c, *self, player, from, to);
        }
    }

    /// Returns one Unit of `owner` in `region` to its supply, without any
    /// check of the board.
    #[verifier::rlimit(100)]
    fn lift_unit(&mut self, owner: Faction, region: Region)
        requires
            old(self).wf(),
            region_units(old(self).map@[region_index(region)], owner) > 0,
        ensures
            final(self).wf(),
            final(self).map@ == old(self).map@.update(
                region_index(region),
                with_units(old(self).map@[region_index(region)], owner, -1),
            ),
            final(self).player_of(owner).units_in_supply == old(self).player_of(owner).units_in_supply + 1,
            final(self).player_of(spec_other(owner)).units_in_supply
                == old(self).player_of(spec_other(owner)).units_in_supply,
            final(self).fellowship.fortresses_in_supply == old(self).fellowship.fortresses_in_supply,
            final(self).sauron.fortresses_in_supply == old(self).sauron.fortresses_in_supply,
            final(self).winner == old(self).winner,
            final(self).victory_type == old(self).victory_type,
            board_frame(*old(self), *final(self)),
    {
        let ghost a = *self;
        let i = region.index();
        proof {
            crate::types::lemma_region_index(region);
        }
        let mut state = self.map[i];
        match owner {
            Faction::Fellowship => state.fellowship_units = state.fellowship_units - 1,
            Faction::Sauron => state.sauron_units = state.sauron_units - 1,
        }
        proof {
            assert(state == with_units(a.map@[i as int], owner, -1));
            lemma_units_on_map_update(a.map@, i as int, state, Faction::Fellowship);
            lemma_units_on_map_update(a.map@, i as int, state, Faction::Sauron);
        }
        self.map.set(i, state);
        proof {
            assert forall|k: int| 0 <= k < 7 implies !((#[trigger] self.map@[k]).fellowship_units > 0
                && self.map@[k].sauron_units > 0) by {
                if k != i {
                    assert(self.map@[k] == a.map@[k]);
                }
            }
        }
        let p = self.player_mut(owner);
        p.units_in_supply = p.units_in_supply + 1;
        proof {
            assert(self.board_wf());
            lemma_board_step_wf(a, *self);
        }
    }

    /// Returns one Unit of `owner` in `region` to its supply and checks for a
    /// Conquest victory.
    pub fn remove_unit(&mut self, owner: Faction, region: Region)
        requires
            old(self).wf(),
            region_units(old(self).map@[region_index(region)], owner) > 0,
        ensures
            final(self).wf(),
            unit_removed(*old(self), owner, region, *final(self)),
    {
        let ghost a = *self;
        self.lift_unit(owner, region);
        self.check_map_domination();
        proof {
            lemma_board_step_wf(a, *self);
        }
    }

    /// Places a Fortress of `player` in `region` from its supply and checks for
    /// a Conquest victory. A region holds one Fortress at most: with no
    /// Fortress left in supply, or a Fortress already there, nothing changes.
    #[verifier::rlimit(100)]
    pub fn place_fortress(&mut self, player: Faction, region: Region)
        requires
            old(self).wf(),
        ensures
            final(self).wf(),
            fortress_placed(*old(self), player, region, *final(self)),
    {
        let ghost a = *self;
        let i = region.index();
        proof {
            crate::types::lemma_region_index(region);
        }
        let mut state = self.map[i];
        if self.player(player).fortresses_in_supply == 0 || state.fortress.is_some() {
            return;
        }
        state.fortress = Some(player);
        proof {
            lemma_units_on_map_update(a.map@, i as int, state, Faction::Fellowship);
            lemma_units_on_map_update(a.map@, i as int, state, Faction::Sauron);
        }
        self.map.set(i, state);
        let p = self.player_mut(player);
        p.fortresses_in_supply = p.fortresses_in_supply - 1;
        self.check_map_domination();
        proof {
            assert(self.board_wf());
            lemma_board_step_wf(a, *self);
        }
    }

    /// Returns the Fortress in `region` to its owner's supply.
    #[verifier::rlimit(100)]
    pub fn remove_fortress(&mut self, region: Region)
        requires
            old(self).wf(),
            old(self).map@[region_index(region)].fortress is Some,
        ensures
            final(self).wf(),
            fortress_removed(*old(self), region, *final(self)),
    {
        let ghost a = *self;
        let i = region.index();
        proof {
            crate::types::lemma_region_index(region);
        }
        let mut state = self.map[i];
        let owner = match state.fortress {
            Some(f) => f,
            None => { return; },
        };
        state.fortress = None;
        proof {
            lemma_units_on_map_update(a.map@, i as int, state, Faction::Fellowship);
            lemma_units_on_map_update(a.map@, i as int, state, Faction::Sauron);
            lemma_fortress_bound(a.map@, i as int, owner);
        }
        self.map.set(i, state);
        let p = self.player_mut(owner);
        p.fortresses_in_supply = p.fortresses_in_supply + 1;
        proof {
            assert(self.board_wf());
            lemma_board_step_wf(a, *self);
        }
    }
}

proof fn lemma_fortress_bound(map: Seq<RegionState>, i: int, f: Faction)
    requires
        0 <= i < map.len(),
        map[i].fortress == Some(f),
    ensures
        fortresses_on_map(map, f) >= 1,
    decreases map.len(),
{
    if i < map.len() - 1 {
        lemma_fortress_bound(map.drop_last(), i, f);
    }
}

/// The two quest markers after `player` advanced `spaces`: Frodo and Sam move
/// toward Mount Doom at 30 and the Nazgul follow, keeping their distance; the
/// Nazgul alone never pass Frodo and Sam.
pub open spec fn quest_advanced(f: int, s: int, player: Faction, spaces: int) -> (int, int) {
    match player {
        Faction::Fellowship => (
            if f + spaces <= 30 { f + spaces } else { 30 },
            if s + spaces <= 30 { s + spaces } else { 30 },
        ),
        Faction::Sauron => (f, if s + spaces <= f { s + spaces } else { f }),
    }
}

/// Whether a marker's move claims this bonus: it is unclaimed and one of the
/// markers passes or reaches its space.
pub open spec fn crosses(b: QuestBonus, of: int, nf: int, os: int, ns: int) -> bool {
    !b.claimed && ((of < b.position <= nf) || (os < b.position <= ns))
}

/// The bonuses after a move, with every crossed one claimed.
pub open spec fn claimed_after(bs: Seq<QuestBonus>, of: int, nf: int, os: int, ns: int) -> Seq<QuestBonus> {
    bs.map_values(|b: QuestBonus| QuestBonus { claimed: b.claimed || crosses(b, of, nf, os, ns), ..b })
}

/// The crossed bonuses, in track order, as effects for the moving player.
pub open spec fn bonus_queue(
    bs: Seq<QuestBonus>,
    of: int,
    nf: int,
    os: int,
    ns: int,
    player: Faction,
) -> Seq<Effect>
    decreases bs.len(),
{
    if bs.len() == 0 {
        seq![]
    } else {
        bonus_queue(bs.drop_last(), of, nf, os, ns, player) + if crosses(bs.last(), of, nf, os, ns) {
            seq![Effect::ResolveQuestBonus { player, effect: bs.last().effect }]
        } else {
            seq![]
        }
    }
}

/// The state after an advance of `player` on the quest track.
pub open spec fn quest_moved(a: Game, player: Faction, spaces: int, b: Game) -> bool {
    let of = a.quest.fellowship_position as int;
    let os = a.quest.sauron_position as int;
    let (nf, ns) = quest_advanced(of, os, player, spaces);
    &&& b.quest.fellowship_position == nf
    &&& b.quest.sauron_position == ns
    &&& nf == 30 ==> {
        &&& b.winner == Some(Faction::Fellowship)
        &&& b.victory_type == Some(VictoryType::Quest)
        &&& b.quest.bonuses == a.quest.bonuses
        &&& b.effect_queue == a.effect_queue
    }
    &&& nf != 30 && ns >= nf ==> {
        &&& b.winner == Some(Faction::Sauron)
        &&& b.victory_type == Some(VictoryType::Quest)
        &&& b.quest.bonuses == a.quest.bonuses
        &&& b.effect_queue == a.effect_queue
    }
    &&& nf != 30 && ns < nf ==> {
        &&& b.winner == a.winner
        &&& b.victory_type == a.victory_type
        &&& b.quest.bonuses@ == claimed_after(a.quest.bonuses@, of, nf, os, ns)
        &&& b.effect_queue@ == bonus_queue(a.quest.bonuses@, of, nf, os, ns, player) + a.effect_queue@
    }
    &&& b == (Game {
        quest: b.quest,
        winner: b.winner,
        victory_type: b.victory_type,
        effect_queue: b.effect_queue,
        ..a
    })
}

impl Game {
    /// Moves `player`'s quest marker. Frodo and Sam reaching 30 win at once; the
    /// Nazgul catching them wins for Sauron. Otherwise every bonus either
    /// marker passes is claimed and queued first, in track order.
    pub fn advance_quest(&mut self, player: Faction, spaces: u8)
        requires
            old(self).wf(),
        ensures
            final(self).wf(),
            quest_moved(*old(self), player, spaces as int, *final(self)),
    {
        let ghost a = *self;
        proof {
            reveal(Game::structure_wf);
        }
        let old_f = self.quest.fellowship_position;
        let old_s = self.quest.sauron_position;
        let (new_f, new_s): (u8, u8) = match player {
            Faction::Fellowship => {
                let f = old_f as u16 + spaces as u16;
                let s = old_s as u16 + spaces as u16;
                (if f <= 30 { f as u8 } else { 30 }, if s <= 30 { s as u8 } else { 30 })
            },
            Faction::Sauron => {
                let s = old_s as u16 + spaces as u16;
                (old_f, if s <= old_f as u16 { s as u8 } else { old_f })
            },
        };
        self.quest.fellowship_position = new_f;
        self.quest.sauron_position = new_s;
        if new_f == 30 {
            self.record_victory(Faction::Fellowship, VictoryType::Quest);
            proof {
                assert(self.structure_wf()) by {
                    reveal(Game::structure_wf);
                }
            }
            return;
        }
        if new_s >= new_f {
            self.record_victory(Faction::Sauron, VictoryType::Quest);
            proof {
                assert(self.structure_wf()) by {
                    reveal(Game::structure_wf);
                }
            }
            return;
        }
        let ghost bs = a.quest.bonuses@;
        let ghost (of, nf, os, ns) = (old_f as int, new_f as int, old_s as int, new_s as int);
        let mut crossed: Vec<QuestBonusEffect> = Vec::new();
        let ghost start = *self;
        let mut i: usize = 0;
        while i < self.quest.bonuses.len()
            invariant
                i <= self.quest.bonuses@.len(),
                self.quest.bonuses@.len() == bs.len(),
                forall|k: int| 0 <= k < i ==> #[trigger] self.quest.bonuses@[k] == claimed_after(bs, of, nf, os, ns)[k],
                forall|k: int| i <= k < bs.len() ==> #[trigger] self.quest.bonuses@[k] == bs[k],
                crossed@.map_values(|e: QuestBonusEffect| Effect::ResolveQuestBonus { player, effect: e })
                    == bonus_queue(bs.subrange(0, i as int), of, nf, os, ns, player),
                old_f == of,
                new_f == nf,
                *self == (Game { quest: self.quest, ..start }),
                self.quest.fellowship_position == start.quest.fellowship_position,
                self.quest.sauron_position == start.quest.sauron_position,
                old_s == os,
                new_s == ns,
            decreases self.quest.bonuses.len() - i,
        {
            let mut bonus = self.quest.bonuses[i];
            proof {
                assert(bs.subrange(0, i + 1).drop_last() =~= bs.subrange(0, i as int));
            }
            if !bonus.claimed && ((old_f < bonus.position && bonus.position <= new_f) || (old_s
                < bonus.position && bonus.position <= new_s)) {
                bonus.claimed = true;
                crossed.push(bonus.effect);
            }
            self.quest.bonuses.set(i, bonus);
            i = i + 1;
            proof {
                assert(crossed@.map_values(|e: QuestBonusEffect| Effect::ResolveQuestBonus { player, effect: e })
                    =~= bonus_queue(bs.subrange(0, i as int), of, nf, os, ns, player));
            }
        }
        proof {
            assert(bs.subrange(0, bs.len() as int) =~= bs);
            assert(self.quest.bonuses@ =~= claimed_after(bs, of, nf, os, ns));
        }
        let ghost q0 = self.effect_queue@;
        let ghost mid = *self;
        let ghost queued = crossed@.map_values(|e: QuestBonusEffect| Effect::ResolveQuestBonus { player, effect: e });
        let mut k: usize = crossed.len();
        while k > 0
            invariant
                k <= crossed@.len(),
                queued == crossed@.map_values(|e: QuestBonusEffect| Effect::ResolveQuestBonus { player, effect: e }),
                self.effect_queue@ == queued.subrange(k as int, crossed@.len() as int) + q0,
                *self == (Game { effect_queue: self.effect_queue, ..mid }),
            decreases k,
        {
            k = k - 1;
            self.effect_queue.push_front(Effect::ResolveQuestBonus { player, effect: crossed[k] });
            proof {
                assert(queued.subrange(k as int, crossed@.len() as int) =~= seq![queued[k as int]]
                    + queued.subrange(k + 1, crossed@.len() as int));
            }
        }
        proof {
            assert(queued.subrange(0, crossed@.len() as int) =~= queued);
            assert(queued == bonus_queue(bs, of, nf, os, ns, player));
            assert(self.structure_wf()) by {
                reveal(Game::structure_wf);
                assert forall|j: int| 0 <= j < 8 implies (#[trigger] self.quest.bonuses@[j]).position
                    == printed_quest_bonuses()[j].position by {
                    assert(self.quest.bonuses@[j] == claimed_after(bs, of, nf, os, ns)[j]);
                }
                assert forall|j: int| 0 <= j < self.effect_queue@.len() implies effect_wf(
                    #[trigger] self.effect_queue@[j], self.chapters@.len()) by {
                    if j < crossed@.len() {
                        assert(self.effect_queue@[j] == queued[j]);
                        lemma_bonus_queue_kinds(bs, of, nf, os, ns, player, j);
                    } else {
                        assert(self.effect_queue@[j] == q0[j - crossed@.len()]);
                    }
                }
            }
        }
    }
}

proof fn lemma_bonus_queue_kinds(
    bs: Seq<QuestBonus>,
    of: int,
    nf: int,
    os: int,
    ns: int,
    player: Faction,
    j: int,
)
    requires
        0 <= j < bonus_queue(bs, of, nf, os, ns, player).len(),
    ensures
        bonus_queue(bs, of, nf, os, ns, player)[j] is ResolveQuestBonus,
    decreases bs.len(),
{
    if bs.len() > 0 {
        if j < bonus_queue(bs.drop_last(), of, nf, os, ns, player).len() {
            lemma_bonus_queue_kinds(bs.drop_last(), of, nf, os, ns, player, j);
        }
    }
}

/// A lift from `from` followed by a placement in `to` is a move.
#[verifier::spinoff_prover]
proof fn lemma_move_composes(a: Game, c: Game, b: Game, player: Faction, from: Region, to: Region)
    requires
        c.map@ == a.map@.update(region_index(from), with_units(a.map@[region_index(from)], player, -1)),
        c.player_of(player).units_in_supply == a.player_of(player).units_in_supply + 1,
        c.player_of(spec_other(player)).units_in_supply == a.player_of(spec_other(player)).units_in_supply,
        c.fellowship.fortresses_in_supply == a.fellowship.fortresses_in_supply,
        c.sauron.fortresses_in_supply == a.sauron.fortresses_in_supply,
        c.winner == a.winner,
        c.victory_type == a.victory_type,
        board_frame(a, c),
        placed(c, player, to, 1, b),
    ensures
        moved(a, player, from, to, b),
{
    match player {
        Faction::Fellowship => {},
        Faction::Sauron => {},
    }
}

/// Whether `card` prints the Race symbol `race`.
pub open spec fn provides_race(cat: Catalogue, card: ChapterCard, race: Race) -> bool {
    card_def(cat, card).provides.race == Some(spec_race_to_schema(race))
}

/// How many cards of `tableau` print the Race symbol `race`.
pub open spec fn race_count(cat: Catalogue, tableau: Seq<ChapterCard>, race: Race) -> nat
    decreases tableau.len(),
{
    if tableau.len() == 0 {
        0
    } else {
        race_count(cat, tableau.drop_last(), race) + if provides_race(cat, tableau.last(), race) {
            1nat
        } else {
            0nat
        }
    }
}

/// The Races, among the first `n` in `RACES` order, that `tableau` shows.
pub open spec fn races_held(cat: Catalogue, tableau: Seq<ChapterCard>, n: int) -> Seq<Race>
    decreases n,
{
    if n <= 0 {
        seq![]
    } else {
        races_held(cat, tableau, n - 1) + if race_count(cat, tableau, race_at(n - 1)) > 0 {
            seq![race_at(n - 1)]
        } else {
            seq![]
        }
    }
}

/// The matching-Race Alliance triggers open to a player, among the first `n`
/// Races: two symbols of the Race, not matched before, tokens left.
pub open spec fn matching_triggers(g: Game, p: PlayerState, n: int) -> Seq<AllianceTrigger>
    decreases n,
{
    if n <= 0 {
        seq![]
    } else {
        let race = race_at(n - 1);
        matching_triggers(g, p, n - 1) + if race_count(*g.catalogue, p.tableau@, race) >= 2
            && !p.matched_races@.contains(race) && g.alliance_stacks@[n - 1].token_order@.len() > 0 {
            seq![AllianceTrigger::MatchingRace(race)]
        } else {
            seq![]
        }
    }
}

/// Moves of one Unit of `player` along every printed connection, from the
/// first `n` regions in board order.
pub open spec fn unit_moves(map: Seq<RegionState>, player: Faction, n: int) -> Seq<Action>
    decreases n,
{
    if n <= 0 {
        seq![]
    } else {
        let from = region_at(n - 1);
        unit_moves(map, player, n - 1) + if region_units(map[n - 1], player) > 0 {
            adjacent(from).map_values(|to: Region| Action::MoveCardUnit { from, to })
        } else {
            seq![]
        }
    }
}

impl Game {
    /// The Races `player`'s tableau shows, in `RACES` order.
    pub open spec fn races_of(&self, player: Faction) -> Seq<Race> {
        races_held(*self.catalogue, self.player_of(player).tableau@, 6)
    }

    /// The Alliance triggers open to `player`: a matching pair of a Race, then
    /// three different Races when one of the first three shown has tokens left.
    pub open spec fn alliance_triggers(&self, player: Faction) -> Seq<AllianceTrigger> {
        let p = self.player_of(player);
        let races = self.races_of(player);
        matching_triggers(*self, p, 6) + if races.len() >= 3 && !p.claimed_three_race_alliance && (
        self.stack_has_tokens(races[0]) || self.stack_has_tokens(races[1]) || self.stack_has_tokens(
            races[2],
        )) {
            seq![AllianceTrigger::ThreeDifferentRaces]
        } else {
            seq![]
        }
    }

    pub open spec fn stack_has_tokens(&self, race: Race) -> bool {
        self.alliance_stacks@[race_index(race)].token_order@.len() > 0
    }

    /// How many cards of `player`'s tableau print `race`.
    fn race_total(&self, player: Faction, race: Race) -> (r: usize)
        requires
            self.wf(),
        ensures
            r == race_count(*self.catalogue, self.player_of(player).tableau@, race),
    {
        proof {
            Game::lemma_structure(*self);
        }
        let tableau = &self.player(player).tableau;
        let mut count: usize = 0;
        let mut i: usize = 0;
        while i < tableau.len()
            invariant
                i <= tableau@.len(),
                self.catalogue.wf(),
                *tableau == self.player_of(player).tableau,
                forall|k: int| 0 <= k < tableau@.len() ==> super::card_dealt(#[trigger] tableau@[k], self.chapters@.len()),
                count == race_count(*self.catalogue, tableau@.subrange(0, i as int), race),
                count <= i,
            decreases tableau.len() - i,
        {
            proof {
                assert(tableau@.subrange(0, i + 1).drop_last() =~= tableau@.subrange(0, i as int));
                assert(super::card_dealt(tableau@[i as int], self.chapters@.len()));
            }
            let def = self.catalogue.card_definition(tableau[i]);
            if def.provides.race == Some(race.to_schema()) {
                count = count + 1;
            }
            i = i + 1;
        }
        proof {
            assert(tableau@.subrange(0, tableau@.len() as int) =~= tableau@);
        }
        count
    }

    /// The Races `player`'s tableau shows, in `RACES` order.
    pub fn player_races(&self, player: Faction) -> (r: Vec<Race>)
        requires
            self.wf(),
        ensures
            r@ == self.races_of(player),
    {
        let mut races: Vec<Race> = Vec::new();
        let mut i: usize = 0;
        while i < 6
            invariant
                i <= 6,
                self.wf(),
                races@ == races_held(*self.catalogue, self.player_of(player).tableau@, i as int),
            decreases 6 - i,
        {
            let race = crate::types::race_at_index(i);
            if self.race_total(player, race) > 0 {
                races.push(race);
            }
            i = i + 1;
        }
        races
    }

    /// Whether `race`'s Alliance stack still holds tokens.
    pub fn alliance_stack_has_tokens(&self, race: Race) -> (r: bool)
        requires
            self.wf(),
        ensures
            r == self.stack_has_tokens(race),
    {
        proof {
            Game::lemma_structure(*self);
        }
        self.alliance_stacks[race.index()].token_order.len() > 0
    }

    /// The Alliance triggers open to `player`.
    pub fn pending_alliance_triggers(&self, player: Faction) -> (r: Vec<AllianceTrigger>)
        requires
            self.wf(),
        ensures
            r@ == self.alliance_triggers(player),
    {
        let mut triggers: Vec<AllianceTrigger> = Vec::new();
        let mut i: usize = 0;
        proof {
            Game::lemma_structure(*self);
        }
        while i < 6
            invariant
                i <= 6,
                self.wf(),
                self.alliance_stacks@.len() == 6,
                triggers@ == matching_triggers(*self, self.player_of(player), i as int),
            decreases 6 - i,
        {
            let race = crate::types::race_at_index(i);
            let p = self.player(player);
            let count = self.race_total(player, race);
            if count >= 2 && !race_listed(&p.matched_races, race) && self.alliance_stacks[i].token_order.len() > 0 {
                triggers.push(AllianceTrigger::MatchingRace(race));
            }
            i = i + 1;
        }
        let races = self.player_races(player);
        if races.len() >= 3 && !self.player(player).claimed_three_race_alliance && (
        self.alliance_stack_has_tokens(races[0]) || self.alliance_stack_has_tokens(races[1])
            || self.alliance_stack_has_tokens(races[2])) {
            triggers.push(AllianceTrigger::ThreeDifferentRaces);
        }
        proof {
            assert(triggers@ =~= self.alliance_triggers(player));
        }
        triggers
    }

    /// Six different Race symbols (the Eagle token adds one) win the game.
    pub fn check_race_victory(&mut self, player: Faction)
        requires
            old(self).wf(),
        ensures
            final(self).wf(),
            old(self).races_of(player).len() + (if old(self).held(player).contains(
                PersistentEffect::EagleRaceSymbol,
            ) {
                1int
            } else {
                0int
            }) >= 6 ==> *final(self) == (Game {
                winner: Some(player),
                victory_type: Some(VictoryType::RaceSupport),
                ..*old(self)
            }),
            old(self).races_of(player).len() + (if old(self).held(player).contains(
                PersistentEffect::EagleRaceSymbol,
            ) {
                1int
            } else {
                0int
            }) < 6 ==> *final(self) == *old(self),
    {
        let ghost a = *self;
        let races = self.player_races(player);
        let eagle = self.has_persistent(player, PersistentEffect::EagleRaceSymbol);
        proof {
            lemma_races_len(*self, player, 6);
        }
        let count = races.len() + if eagle { 1 } else { 0 };
        if count >= 6 {
            self.record_victory(player, VictoryType::RaceSupport);
            proof {
                Game::lemma_structure_kept(a, *self);
            }
        }
    }

    /// Every move of one Unit of `player` along a printed connection, from the
    /// regions in board order.
    pub fn legal_unit_moves(&self, player: Faction) -> (r: Vec<Action>)
        requires
            self.wf(),
        ensures
            r@ == unit_moves(self.map@, player, 7),
    {
        let mut moves: Vec<Action> = Vec::new();
        let mut i: usize = 0;
        while i < 7
            invariant
                i <= 7,
                self.wf(),
                moves@ == unit_moves(self.map@, player, i as int),
            decreases 7 - i,
        {
            let from = crate::types::region_at_index(i);
            proof {
                crate::types::lemma_region_index(from);
            }
            if self.region_unit_count(player, from) > 0 {
                let destinations = self.permitted_movement_destinations(player, from);
                let ghost before = moves@;
                let mut k: usize = 0;
                while k < destinations.len()
                    invariant
                        k <= destinations@.len(),
                        destinations@ == adjacent(from),
                        moves@ == before + destinations@.subrange(0, k as int).map_values(
                            |to: Region| Action::MoveCardUnit { from, to },
                        ),
                    decreases destinations.len() - k,
                {
                    moves.push(Action::MoveCardUnit { from, to: destinations[k] });
                    k = k + 1;
                    proof {
                        assert(moves@ =~= before + destinations@.subrange(0, k as int).map_values(
                            |to: Region| Action::MoveCardUnit { from, to },
                        ));
                    }
                }
                proof {
                    assert(destinations@.subrange(0, destinations@.len() as int) =~= destinations@);
                }
            }
            i = i + 1;
        }
        moves
    }

    /// Where a Unit may move from `from`: along every printed connection.
    pub fn permitted_movement_destinations(&self, player: Faction, from: Region) -> (r: Vec<Region>)
        ensures
            r@ == adjacent(from),
    {
        from.adjacent_to()
    }

    /// Where a Red card may deploy: its printed regions, or every region for a
    /// player whose token permits deployment anywhere.
    pub fn permitted_red_destinations(&self, player: Faction, printed: &Vec<Region>) -> (r: Vec<Region>)
        requires
            self.wf(),
        ensures
            r@ == if self.held(player).contains(PersistentEffect::RedDeploymentAnywhere) {
                all_regions()
            } else {
                printed@
            },
    {
        if self.has_persistent(player, PersistentEffect::RedDeploymentAnywhere) {
            let mut all: Vec<Region> = Vec::new();
            let mut i: usize = 0;
            while i < 7
                invariant
                    i <= 7,
                    all@ == all_regions().subrange(0, i as int),
                decreases 7 - i,
            {
                all.push(crate::types::region_at_index(i));
                i = i + 1;
                proof {
                    assert(all@ =~= all_regions().subrange(0, i as int));
                }
            }
            proof {
                assert(all_regions().subrange(0, 7) =~= all_regions());
            }
            all
        } else {
            let mut copy: Vec<Region> = Vec::new();
            let mut i: usize = 0;
            while i < printed.len()
                invariant
                    i <= printed@.len(),
                    copy@ == printed@.subrange(0, i as int),
                decreases printed.len() - i,
            {
                copy.push(printed[i]);
                i = i + 1;
                proof {
                    assert(copy@ =~= printed@.subrange(0, i as int));
                }
            }
            proof {
                assert(printed@.subrange(0, printed@.len() as int) =~= printed@);
            }
            copy
        }
    }
}

/// Whether `race` is listed in `races`.
pub fn race_listed(races: &Vec<Race>, race: Race) -> (r: bool)
    ensures
        r == races@.contains(race),
{
    let mut i: usize = 0;
    while i < races.len()
        invariant
            i <= races@.len(),
            forall|k: int| 0 <= k < i ==> races@[k] != race,
        decreases races.len() - i,
    {
        if races[i] == race {
            proof {
                assert(races@[i as int] == race);
            }
            return true;
        }
        i = i + 1;
    }
    false
}

proof fn lemma_races_len(g: Game, player: Faction, n: int)
    ensures
        races_held(*g.catalogue, g.player_of(player).tableau@, n).len() <= if n < 0 { 0 } else { n },
    decreases n,
{
    if n > 0 {
        lemma_races_len(g, player, n - 1);
    }
}
} // verus!
