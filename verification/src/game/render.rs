//! The public text view of a game. Face-down card identities and the order
//! of the Alliance stacks are never shown.

use vstd::prelude::*;

use crate::card_schema::{CardColor, Skill};
use crate::text::{decimal, push_decimal, push_str, string_of};
use crate::types::{
    card_label, faction_text, quest_bonus_effect_text, race_text, region_text, victory_type_text,
    AllianceToken, CardSlot, CardVisibility, ChapterCard, Faction, PendingDecision, PlayerState,
    QuestBonus, QuestCharacter, Region, RegionState,
};

use super::payments::{card_def, token_def};
use super::Game;

verus! {

/// `parts` joined with `sep` between neighbours.
pub open spec fn joined(parts: Seq<Seq<char>>, sep: Seq<char>) -> Seq<char>
    decreases parts.len(),
{
    if parts.len() == 0 {
        seq![]
    } else if parts.len() == 1 {
        parts[0]
    } else {
        joined(parts.drop_last(), sep) + sep + parts.last()
    }
}

pub open spec fn color_text(c: CardColor) -> Seq<char> {
    match c {
        CardColor::Grey => "Grey"@,
        CardColor::Yellow => "Yellow"@,
        CardColor::Blue => "Blue"@,
        CardColor::Green => "Green"@,
        CardColor::Red => "Red"@,
        CardColor::Purple => "Purple"@,
    }
}

pub open spec fn skill_text(s: Skill) -> Seq<char> {
    match s {
        Skill::Ruse => "Ruse"@,
        Skill::Strength => "Strength"@,
        Skill::Courage => "Courage"@,
        Skill::Knowledge => "Knowledge"@,
        Skill::Leadership => "Leadership"@,
    }
}

pub open spec fn quest_character_text(q: QuestCharacter) -> Seq<char> {
    match q {
        QuestCharacter::FrodoAndSam => "Frodo and Sam"@,
        QuestCharacter::Nazgul => "Nazgul"@,
    }
}

/// A list of Skills, such as `[Ruse 1, Courage 2]`.
pub open spec fn skills_text(skills: Seq<(Skill, u8)>) -> Seq<char> {
    "["@ + joined(skills.map_values(|p: (Skill, u8)| skill_text(p.0) + " "@ + decimal(p.1 as nat)), ", "@)
        + "]"@
}

/// A card in a tableau: its label and color.
pub open spec fn tableau_card_text(g: Game, card: ChapterCard) -> Seq<char> {
    card_label(card) + "("@ + color_text(card_def(*g.catalogue, card).color) + ")"@
}

pub open spec fn tableau_text(g: Game, p: PlayerState) -> Seq<char> {
    if p.tableau@.len() == 0 {
        "(none)"@
    } else {
        joined(p.tableau@.map_values(|c: ChapterCard| tableau_card_text(g, c)), ", "@)
    }
}

pub open spec fn tokens_text(g: Game, p: PlayerState) -> Seq<char> {
    if p.alliance_tokens@.len() == 0 {
        "(none)"@
    } else {
        joined(p.alliance_tokens@.map_values(|t: AllianceToken| token_def(*g.catalogue, t).name@), ", "@)
    }
}

pub open spec fn bonus_text(b: QuestBonus) -> Seq<char> {
    decimal(b.position as nat) + ": "@ + quest_bonus_effect_text(b.effect) + if b.claimed {
        " (claimed)"@
    } else {
        " (available)"@
    }
}

pub open spec fn region_line(r: RegionState) -> Seq<char> {
    "  "@ + region_text(r.region) + ": Fellowship units="@ + decimal(r.fellowship_units as nat)
        + ", Sauron units="@ + decimal(r.sauron_units as nat) + ", fortress="@ + match r.fortress {
        Some(f) => faction_text(f),
        None => "none"@,
    }
}

pub open spec fn stack_line(s: crate::types::AllianceStack) -> Seq<char> {
    "  "@ + race_text(s.race) + ": "@ + decimal(s.token_order@.len()) + " facedown"@
}

/// A display slot: a face-up card shows its label, color and cost; a
/// face-down card shows only its position.
pub open spec fn slot_line(g: Game, slot: CardSlot) -> Seq<char> {
    let place = "  row "@ + decimal(slot.row as nat) + ", column "@ + decimal(slot.column as nat) + ": "@;
    match slot.visibility {
        CardVisibility::FaceUp => {
            let d = card_def(*g.catalogue, slot.card);
            place + card_label(slot.card) + " — "@ + color_text(d.color) + "; cost: "@ + skills_text(
                d.cost.skills@,
            ) + " skills + "@ + decimal(d.cost.coins as nat) + " coins (face-up)"@
        },
        CardVisibility::FaceDown => place + "unknown (face-down)"@,
    }
}

pub open spec fn landmark_text(g: Game, id: String) -> Seq<char> {
    let i = crate::catalog::landmark_position(g.catalogue.landmarks@, id@);
    if i < 0 {
        id@
    } else {
        g.catalogue.landmarks@[i].name@ + ": region="@ + region_text(
            crate::types::spec_region_from_schema(g.catalogue.landmarks@[i].region),
        )
    }
}

pub open spec fn outcome_text(g: Game) -> Seq<char> {
    let victory = match g.victory_type {
        Some(v) => victory_type_text(v),
        None => seq![],
    };
    if g.shared_territory_victory {
        "shared victory ("@ + victory + ")"@
    } else if g.winner is Some {
        faction_text(g.winner->0) + " ("@ + victory + ")"@
    } else {
        "in progress"@
    }
}

pub open spec fn regions_list_text(regions: Seq<Region>) -> Seq<char> {
    "["@ + joined(regions.map_values(|r: Region| region_text(r)), ", "@) + "]"@
}

pub open spec fn revealed_text(tokens: Seq<AllianceToken>) -> Seq<char> {
    "["@ + joined(tokens.map_values(|t: AllianceToken| race_text(t.race) + " "@ + decimal(t.id as nat)), ", "@)
        + "]"@
}

pub open spec fn payment_text(p: Option<u8>) -> Seq<char> {
    match p {
        Some(c) => decimal(c as nat),
        None => "unaffordable"@,
    }
}

/// The line describing the pending decision, if any.
pub open spec fn pending_text(g: Game) -> Seq<char> {
    match g.pending_decision {
        None => seq![],
        Some(PendingDecision::CardDisposition { card }) => {
            let d = card_def(*g.catalogue, card);
            "\npending_card: "@ + card_label(card) + "; printed_cost="@ + skills_text(d.cost.skills@)
                + " skills + "@ + decimal(d.cost.coins as nat) + " coins; play_payment="@ + payment_text(
                g.card_payment(card, false),
            ) + " coins"@
        },
        Some(PendingDecision::QuestBonusUnitPlacement { .. }) => "\npending_quest_bonus: place 1 unit in any region"@,
        Some(PendingDecision::CardUnitPlacement { player, amount, regions }) => "\npending_red_deployment: place "@
            + decimal(amount as nat) + " unit(s) in one of "@ + regions_list_text(regions@)
            + "; units_available="@ + decimal(g.player_of(player).units_in_supply as nat),
        Some(PendingDecision::CardUnitMovement { remaining, .. }) => "\npending_maneuver: complete "@ + decimal(
            remaining as nat,
        ) + " movement(s)"@,
        Some(PendingDecision::CardEnemyUnitRemoval { remaining, .. }) => "\npending_maneuver: remove "@ + decimal(
            remaining as nat,
        ) + " enemy Unit(s)"@,
        Some(PendingDecision::QuestBonusFortressRemoval { .. }) => "\npending_quest_bonus: remove 1 enemy fortress"@,
        Some(PendingDecision::QuestBonusChoice { effect, .. }) => "\npending_quest_bonus: optionally "@
            + quest_bonus_effect_text(effect),
        Some(PendingDecision::OpponentGreyCardDiscard { .. }) => "\npending_landmark: discard 1 opponent Grey card"@,
        Some(PendingDecision::DiscardedCardFreePlay { .. }) => "\npending_landmark: play 1 discarded card for free"@,
        Some(PendingDecision::AllianceTriggerChoice { .. }) => "\npending_alliance: choose which Race-alliance reward to resolve"@,
        Some(PendingDecision::AllianceRaceChoice { .. }) => "\npending_alliance: choose a Race stack"@,
        Some(PendingDecision::AllianceTokenChoice { revealed, .. }) => "\npending_alliance: choose 1 revealed token from "@
            + revealed_text(revealed@),
        Some(PendingDecision::EntManeuverChoice { remaining, .. }) => "\npending_alliance: choose "@ + decimal(
            remaining as nat,
        ) + " Ent maneuver(s)"@,
        Some(PendingDecision::AllianceUnitPlacement { remaining, .. }) => "\npending_alliance: place "@ + decimal(
            remaining as nat,
        ) + " Wizard Unit(s)"@,
    }
}

/// The public state, line by line.
pub open spec fn state_text(g: Game) -> Seq<char> {
    head_text(g) + economy_text(g) + holdings_text(g) + track_text(g) + offers_text(g) + board_text(g)
        + pending_text(g)
}

pub open spec fn head_text(g: Game) -> Seq<char> {
    "game\nturn: "@ + decimal(g.turn as nat) + "\nactive_player: "@ + faction_text(g.active_player)
        + "\ncurrent_chapter: "@ + decimal(g.current_chapter as nat) + "\noutcome: "@ + outcome_text(g)
}

pub open spec fn economy_text(g: Game) -> Seq<char> {
    "\nplayers: Fellowship="@ + quest_character_text(g.fellowship.quest_character) + ", Sauron="@
        + quest_character_text(g.sauron.quest_character) + "\ncoins: Fellowship="@ + decimal(
        g.fellowship.coins as nat,
    ) + ", Sauron="@ + decimal(g.sauron.coins as nat) + ", reserve="@ + decimal(g.coin_reserve as nat)
}

pub open spec fn holdings_text(g: Game) -> Seq<char> {
    "\ntableaus: Fellowship=["@ + tableau_text(g, g.fellowship) + "], Sauron=["@ + tableau_text(
        g,
        g.sauron,
    ) + "]\nalliance_tokens: Fellowship=["@ + tokens_text(g, g.fellowship) + "], Sauron=["@ + tokens_text(
        g,
        g.sauron,
    ) + "]\nunits_in_supply: Fellowship="@ + decimal(g.fellowship.units_in_supply as nat) + ", Sauron="@
        + decimal(g.sauron.units_in_supply as nat)
}

pub open spec fn track_text(g: Game) -> Seq<char> {
    "\nquest: Nazgul="@ + decimal(g.quest.sauron_position as nat) + ", Frodo_and_Sam="@ + decimal(
        g.quest.fellowship_position as nat,
    ) + "\nquest_bonuses: "@ + joined(g.quest.bonuses@.map_values(|b: QuestBonus| bonus_text(b)), ", "@)
}

pub open spec fn offers_text(g: Game) -> Seq<char> {
    "\nlandmarks: available=\""@ + joined(
        g.landmarks.available@.map_values(|id: String| landmark_text(g, id)),
        " | "@,
    ) + "\", facedown_remaining="@ + decimal(g.landmarks.facedown_deck@.len()) + "\nalliance_stacks:\n"@
        + joined(g.alliance_stacks@.map_values(|st: crate::types::AllianceStack| stack_line(st)), "\n"@)
}

pub open spec fn board_text(g: Game) -> Seq<char> {
    "\nmap:\n"@ + joined(g.map@.map_values(|r: RegionState| region_line(r)), "\n"@) + "\nchapter_layout:\n"@
        + joined(g.current().layout@.map_values(|slot: CardSlot| slot_line(g, slot)), "\n"@)
}

proof fn lemma_joined_push(parts: Seq<Seq<char>>, x: Seq<char>, sep: Seq<char>)
    ensures
        joined(parts.push(x), sep) == if parts.len() == 0 { x } else { joined(parts, sep) + sep + x },
{
    assert(parts.push(x).drop_last() =~= parts);
}

/// Appends the `i`th part of a joined list: the separator first unless it is
/// the first part.
proof fn lemma_join_step<A>(items: Seq<A>, i: int, f: spec_fn(A) -> Seq<char>, sep: Seq<char>)
    requires
        0 <= i < items.len(),
    ensures
        joined(items.subrange(0, i + 1).map_values(f), sep) == if i == 0 {
            f(items[0])
        } else {
            joined(items.subrange(0, i).map_values(f), sep) + sep + f(items[i])
        },
{
    let next = items.subrange(0, i + 1).map_values(f);
    let prev = items.subrange(0, i).map_values(f);
    assert(next =~= prev.push(f(items[i])));
    lemma_joined_push(prev, f(items[i]), sep);
}

proof fn lemma_join_all<A>(items: Seq<A>, f: spec_fn(A) -> Seq<char>, sep: Seq<char>)
    ensures
        joined(items.subrange(0, items.len() as int).map_values(f), sep) == joined(items.map_values(f), sep),
{
    assert(items.subrange(0, items.len() as int) =~= items);
}

pub fn color_name(c: CardColor) -> (r: String)
    ensures
        r@ == color_text(c),
{
    match c {
        CardColor::Grey => string_of("Grey"),
        CardColor::Yellow => string_of("Yellow"),
        CardColor::Blue => string_of("Blue"),
        CardColor::Green => string_of("Green"),
        CardColor::Red => string_of("Red"),
        CardColor::Purple => string_of("Purple"),
    }
}

pub fn skill_name(s: Skill) -> (r: String)
    ensures
        r@ == skill_text(s),
{
    match s {
        Skill::Ruse => string_of("Ruse"),
        Skill::Strength => string_of("Strength"),
        Skill::Courage => string_of("Courage"),
        Skill::Knowledge => string_of("Knowledge"),
        Skill::Leadership => string_of("Leadership"),
    }
}

/// Appends a list of Skills.
pub fn push_skills(s: &mut String, skills: &Vec<(Skill, u8)>)
    ensures
        final(s)@ == old(s)@ + skills_text(skills@),
{
    let ghost f = |p: (Skill, u8)| skill_text(p.0) + " "@ + decimal(p.1 as nat);
    let ghost start = s@;
    push_str(s, "[");
    let ghost open = s@;
    let mut i: usize = 0;
    while i < skills.len()
        invariant
            i <= skills@.len(),
            f == (|p: (Skill, u8)| skill_text(p.0) + " "@ + decimal(p.1 as nat)),
            s@ == open + joined(skills@.subrange(0, i as int).map_values(f), ", "@),
        decreases skills.len() - i,
    {
        proof {
            lemma_join_step(skills@, i as int, f, ", "@);
        }
        if i > 0 {
            push_str(s, ", ");
        }
        let (skill, amount) = skills[i];
        push_str(s, skill_name(skill).as_str());
        push_str(s, " ");
        push_decimal(s, amount as u64);
        i = i + 1;
    }
    proof {
        lemma_join_all(skills@, f, ", "@);
    }
    push_str(s, "]");
    proof {
        assert(s@ =~= start + skills_text(skills@));
    }
}


impl Game {
    fn push_tableau(&self, s: &mut String, f: Faction)
        requires
            self.wf(),
        ensures
            final(s)@ == old(s)@ + tableau_text(*self, self.player_of(f)),
    {
        proof {
            Game::lemma_structure(*self);
        }
        let tableau = &self.player(f).tableau;
        if tableau.len() == 0 {
            push_str(s, "(none)");
            return;
        }
        let ghost g = *self;
        let ghost part = |c: ChapterCard| tableau_card_text(g, c);
        let ghost open = s@;
        let mut i: usize = 0;
        while i < tableau.len()
            invariant
                i <= tableau@.len(),
                g == *self,
                self.catalogue.wf(),
                *tableau == self.player_of(f).tableau,
                forall|k: int| 0 <= k < tableau@.len() ==> super::card_dealt(#[trigger] tableau@[k], self.chapters@.len()),
                part == (|c: ChapterCard| tableau_card_text(g, c)),
                s@ == open + joined(tableau@.subrange(0, i as int).map_values(part), ", "@),
            decreases tableau.len() - i,
        {
            proof {
                lemma_join_step(tableau@, i as int, part, ", "@);
                assert(super::card_dealt(tableau@[i as int], self.chapters@.len()));
            }
            if i > 0 {
                push_str(s, ", ");
            }
            let card = tableau[i];
            push_str(s, card.text().as_str());
            push_str(s, "(");
            push_str(s, color_name(self.catalogue.card_definition(card).color).as_str());
            push_str(s, ")");
            i = i + 1;
        }
        proof {
            lemma_join_all(tableau@, part, ", "@);
        }
    }

    fn push_tokens(&self, s: &mut String, f: Faction)
        requires
            self.wf(),
        ensures
            final(s)@ == old(s)@ + tokens_text(*self, self.player_of(f)),
    {
        proof {
            Game::lemma_structure(*self);
        }
        let tokens = &self.player(f).alliance_tokens;
        if tokens.len() == 0 {
            push_str(s, "(none)");
            return;
        }
        let ghost g = *self;
        let ghost part = |t: AllianceToken| token_def(*g.catalogue, t).name@;
        let ghost open = s@;
        let mut i: usize = 0;
        while i < tokens.len()
            invariant
                i <= tokens@.len(),
                g == *self,
                self.catalogue.wf(),
                *tokens == self.player_of(f).alliance_tokens,
                forall|k: int| 0 <= k < tokens@.len() ==> crate::catalog::valid_token(#[trigger] tokens@[k]),
                part == (|t: AllianceToken| token_def(*g.catalogue, t).name@),
                s@ == open + joined(tokens@.subrange(0, i as int).map_values(part), ", "@),
            decreases tokens.len() - i,
        {
            proof {
                lemma_join_step(tokens@, i as int, part, ", "@);
            }
            if i > 0 {
                push_str(s, ", ");
            }
            let def = self.catalogue.alliance_token_definition(tokens[i]);
            push_str(s, def.name.as_str());
            i = i + 1;
        }
        proof {
            lemma_join_all(tokens@, part, ", "@);
        }
    }

    fn push_bonuses(&self, s: &mut String)
        ensures
            final(s)@ == old(s)@ + joined(self.quest.bonuses@.map_values(|b: QuestBonus| bonus_text(b)), ", "@),
    {
        let bonuses = &self.quest.bonuses;
        let ghost part = |b: QuestBonus| bonus_text(b);
        let ghost open = s@;
        let mut i: usize = 0;
        while i < bonuses.len()
            invariant
                i <= bonuses@.len(),
                part == (|b: QuestBonus| bonus_text(b)),
                s@ == open + joined(bonuses@.subrange(0, i as int).map_values(part), ", "@),
            decreases bonuses.len() - i,
        {
            proof {
                lemma_join_step(bonuses@, i as int, part, ", "@);
            }
            if i > 0 {
                push_str(s, ", ");
            }
            push_bonus(s, bonuses[i]);
            i = i + 1;
        }
        proof {
            lemma_join_all(bonuses@, part, ", "@);
        }
    }

    fn push_landmarks(&self, s: &mut String)
        ensures
            final(s)@ == old(s)@ + joined(
                self.landmarks.available@.map_values(|id: String| landmark_text(*self, id)),
                " | "@,
            ),
    {
        let available = &self.landmarks.available;
        let ghost g = *self;
        let ghost part = |id: String| landmark_text(g, id);
        let ghost open = s@;
        let mut i: usize = 0;
        while i < available.len()
            invariant
                i <= available@.len(),
                g == *self,
                part == (|id: String| landmark_text(g, id)),
                s@ == open + joined(available@.subrange(0, i as int).map_values(part), " | "@),
            decreases available.len() - i,
        {
            proof {
                lemma_join_step(available@, i as int, part, " | "@);
                crate::catalog::lemma_landmark_position(self.catalogue.landmarks@, available@[i as int]@);
            }
            if i > 0 {
                push_str(s, " | ");
            }
            let id = available[i].as_str();
            match self.catalogue.landmark_index(id) {
                Some(k) => {
                    let def = &self.catalogue.landmarks[k];
                    push_str(s, def.name.as_str());
                    push_str(s, ": region=");
                    push_str(s, Region::from_schema(def.region).text().as_str());
                },
                None => push_str(s, id),
            }
            i = i + 1;
        }
        proof {
            lemma_join_all(available@, part, " | "@);
        }
    }

    fn push_stacks(&self, s: &mut String)
        ensures
            final(s)@ == old(s)@ + joined(
                self.alliance_stacks@.map_values(|st: crate::types::AllianceStack| stack_line(st)),
                "\n"@,
            ),
    {
        let stacks = &self.alliance_stacks;
        let ghost part = |st: crate::types::AllianceStack| stack_line(st);
        let ghost open = s@;
        let mut i: usize = 0;
        while i < stacks.len()
            invariant
                i <= stacks@.len(),
                part == (|st: crate::types::AllianceStack| stack_line(st)),
                s@ == open + joined(stacks@.subrange(0, i as int).map_values(part), "\n"@),
            decreases stacks.len() - i,
        {
            proof {
                lemma_join_step(stacks@, i as int, part, "\n"@);
            }
            if i > 0 {
                push_str(s, "\n");
            }
            push_str(s, "  ");
            push_str(s, stacks[i].race.text().as_str());
            push_str(s, ": ");
            push_decimal(s, stacks[i].token_order.len() as u64);
            push_str(s, " facedown");
            i = i + 1;
        }
        proof {
            lemma_join_all(stacks@, part, "\n"@);
        }
    }

    fn push_map(&self, s: &mut String)
        ensures
            final(s)@ == old(s)@ + joined(self.map@.map_values(|r: RegionState| region_line(r)), "\n"@),
    {
        let map = &self.map;
        let ghost part = |r: RegionState| region_line(r);
        let ghost open = s@;
        let mut i: usize = 0;
        while i < map.len()
            invariant
                i <= map@.len(),
                part == (|r: RegionState| region_line(r)),
                s@ == open + joined(map@.subrange(0, i as int).map_values(part), "\n"@),
            decreases map.len() - i,
        {
            proof {
                lemma_join_step(map@, i as int, part, "\n"@);
            }
            if i > 0 {
                push_str(s, "\n");
            }
            push_region_line(s, map[i]);
            i = i + 1;
        }
        proof {
            lemma_join_all(map@, part, "\n"@);
        }
    }

    fn push_layout(&self, s: &mut String)
        requires
            self.wf(),
        ensures
            final(s)@ == old(s)@ + joined(self.current().layout@.map_values(|slot: CardSlot| slot_line(*self, slot)), "\n"@),
    {
        proof {
            Game::lemma_structure(*self);
        }
        let layout = &self.chapters[self.current_chapter as usize - 1].layout;
        let ghost g = *self;
        let ghost part = |slot: CardSlot| slot_line(g, slot);
        let ghost open = s@;
        let mut i: usize = 0;
        while i < layout.len()
            invariant
                i <= layout@.len(),
                g == *self,
                self.catalogue.wf(),
                *layout == self.current().layout,
                super::chapter_wf(self.current(), self.chapters@.len()),
                part == (|slot: CardSlot| slot_line(g, slot)),
                s@ == open + joined(layout@.subrange(0, i as int).map_values(part), "\n"@),
            decreases layout.len() - i,
        {
            proof {
                lemma_join_step(layout@, i as int, part, "\n"@);
                assert(super::card_dealt(layout@[i as int].card, self.chapters@.len()));
            }
            if i > 0 {
                push_str(s, "\n");
            }
            self.push_slot(s, &layout[i]);
            i = i + 1;
        }
        proof {
            lemma_join_all(layout@, part, "\n"@);
        }
    }
}

impl Game {
    fn push_slot(&self, s: &mut String, slot: &CardSlot)
        requires
            self.catalogue.wf(),
            super::card_dealt(slot.card, self.chapters@.len()),
        ensures
            final(s)@ == old(s)@ + slot_line(*self, *slot),
    {
        let ghost start = s@;
        push_str(s, "  row ");
        push_decimal(s, slot.row as u64);
        push_str(s, ", column ");
        push_decimal(s, slot.column as u64);
        push_str(s, ": ");
        match slot.visibility {
            CardVisibility::FaceUp => {
                let d = self.catalogue.card_definition(slot.card);
                push_str(s, slot.card.text().as_str());
                push_str(s, " — ");
                push_str(s, color_name(d.color).as_str());
                push_str(s, "; cost: ");
                push_skills(s, &d.cost.skills);
                push_str(s, " skills + ");
                push_decimal(s, d.cost.coins as u64);
                push_str(s, " coins (face-up)");
            },
            CardVisibility::FaceDown => push_str(s, "unknown (face-down)"),
        }
        proof {
            assert(s@ =~= start + slot_line(*self, *slot));
        }
    }
}

fn push_bonus(s: &mut String, b: QuestBonus)
    ensures
        final(s)@ == old(s)@ + bonus_text(b),
{
    let ghost start = s@;
    push_decimal(s, b.position as u64);
    push_str(s, ": ");
    push_str(s, b.effect.text().as_str());
    if b.claimed {
        push_str(s, " (claimed)");
    } else {
        push_str(s, " (available)");
    }
    proof {
        assert(s@ =~= start + bonus_text(b));
    }
}

fn push_region_line(s: &mut String, r: RegionState)
    ensures
        final(s)@ == old(s)@ + region_line(r),
{
    let ghost start = s@;
    push_str(s, "  ");
    push_str(s, r.region.text().as_str());
    push_str(s, ": Fellowship units=");
    push_decimal(s, r.fellowship_units as u64);
    push_str(s, ", Sauron units=");
    push_decimal(s, r.sauron_units as u64);
    push_str(s, ", fortress=");
    match r.fortress {
        Some(f) => push_str(s, f.text().as_str()),
        None => push_str(s, "none"),
    }
    proof {
        assert(s@ =~= start + region_line(r));
    }
}

/// What an action does at once.
pub open spec fn result_text(a: crate::types::Action) -> Seq<char> {
    match a {
        crate::types::Action::TakeChapterCard { .. } => "the card leaves the display and must then be played or discarded"@,
        crate::types::Action::TakeLandmark { .. } => "pay the Landmark's price, resolve its effects and end the turn"@,
        crate::types::Action::TakeLandmarkUsingAnySkill { .. } => "pay the Landmark's price with one Skill from the token, resolve its effects and end the turn"@,
        crate::types::Action::PlaySelectedCard => "pay for the card, add it to the tableau, resolve its effects and end the turn"@,
        crate::types::Action::PlaySelectedCardNormally => "pay the full price instead of chaining, add the card to the tableau and end the turn"@,
        crate::types::Action::PlaySelectedCardUsingAnySkill => "pay with one Skill from the token, add the card to the tableau and end the turn"@,
        crate::types::Action::DiscardSelectedCard => "the card goes to the discard pile, the discard income is gained and the turn ends"@,
        crate::types::Action::PlaceCardUnits { .. } => "the Units enter the region and any conflict there resolves"@,
        crate::types::Action::ResolveEmptyCardUnitPlacement => "no Unit is placed and resolution continues"@,
        crate::types::Action::MoveCardUnit { .. } => "the Unit moves and any conflict at its destination resolves"@,
        crate::types::Action::RemoveCardEnemyUnit { .. } => "the enemy Unit returns to its supply"@,
        crate::types::Action::ResolveUnavailableManeuver => "the maneuver ends and resolution continues"@,
        crate::types::Action::PlaceQuestBonusUnit { .. } => "one Unit enters the region and any conflict there resolves"@,
        crate::types::Action::RemoveQuestBonusFortress { .. } => "the enemy Fortress returns to its supply"@,
        crate::types::Action::DiscardOpponentGreyCard { .. } => "the card leaves the opponent's tableau for the discard pile"@,
        crate::types::Action::PlayDiscardedCardForFree { .. } => "the card joins the tableau without payment and resolves"@,
        crate::types::Action::ResolveAllianceTrigger { .. } => "Alliance tokens are revealed for this reward"@,
        crate::types::Action::ChooseAllianceRace { .. } => "two tokens of that Race are revealed"@,
        crate::types::Action::TakeAllianceToken { .. } => "the token is kept and resolves; the others return to their stacks"@,
        crate::types::Action::ChooseEntManeuver { .. } => "the maneuver resolves"@,
        crate::types::Action::PlaceAllianceUnits { .. } => "one Unit enters the region and any conflict there resolves"@,
        crate::types::Action::AcceptQuestBonus => "the bonus applies"@,
        crate::types::Action::SkipQuestBonus => "the bonus is declined"@,
    }
}

pub fn result_line(a: &crate::types::Action) -> (r: String)
    ensures
        r@ == result_text(*a),
{
    match a {
        crate::types::Action::TakeChapterCard { .. } => string_of("the card leaves the display and must then be played or discarded"),
        crate::types::Action::TakeLandmark { .. } => string_of("pay the Landmark's price, resolve its effects and end the turn"),
        crate::types::Action::TakeLandmarkUsingAnySkill { .. } => string_of("pay the Landmark's price with one Skill from the token, resolve its effects and end the turn"),
        crate::types::Action::PlaySelectedCard => string_of("pay for the card, add it to the tableau, resolve its effects and end the turn"),
        crate::types::Action::PlaySelectedCardNormally => string_of("pay the full price instead of chaining, add the card to the tableau and end the turn"),
        crate::types::Action::PlaySelectedCardUsingAnySkill => string_of("pay with one Skill from the token, add the card to the tableau and end the turn"),
        crate::types::Action::DiscardSelectedCard => string_of("the card goes to the discard pile, the discard income is gained and the turn ends"),
        crate::types::Action::PlaceCardUnits { .. } => string_of("the Units enter the region and any conflict there resolves"),
        crate::types::Action::ResolveEmptyCardUnitPlacement => string_of("no Unit is placed and resolution continues"),
        crate::types::Action::MoveCardUnit { .. } => string_of("the Unit moves and any conflict at its destination resolves"),
        crate::types::Action::RemoveCardEnemyUnit { .. } => string_of("the enemy Unit returns to its supply"),
        crate::types::Action::ResolveUnavailableManeuver => string_of("the maneuver ends and resolution continues"),
        crate::types::Action::PlaceQuestBonusUnit { .. } => string_of("one Unit enters the region and any conflict there resolves"),
        crate::types::Action::RemoveQuestBonusFortress { .. } => string_of("the enemy Fortress returns to its supply"),
        crate::types::Action::DiscardOpponentGreyCard { .. } => string_of("the card leaves the opponent's tableau for the discard pile"),
        crate::types::Action::PlayDiscardedCardForFree { .. } => string_of("the card joins the tableau without payment and resolves"),
        crate::types::Action::ResolveAllianceTrigger { .. } => string_of("Alliance tokens are revealed for this reward"),
        crate::types::Action::ChooseAllianceRace { .. } => string_of("two tokens of that Race are revealed"),
        crate::types::Action::TakeAllianceToken { .. } => string_of("the token is kept and resolves; the others return to their stacks"),
        crate::types::Action::ChooseEntManeuver { .. } => string_of("the maneuver resolves"),
        crate::types::Action::PlaceAllianceUnits { .. } => string_of("one Unit enters the region and any conflict there resolves"),
        crate::types::Action::AcceptQuestBonus => string_of("the bonus applies"),
        crate::types::Action::SkipQuestBonus => string_of("the bonus is declined"),
    }
}

/// The numbered list of actions, one per line.
pub open spec fn actions_text(actions: Seq<crate::types::Action>) -> Seq<char> {
    joined(
        Seq::new(actions.len(), |i: int| decimal(i as nat) + ". "@ + crate::types::action_text(actions[i])),
        "\n"@,
    )
}

/// What a viewer sees: the state, then the actions open to it.
pub open spec fn observation_text(g: Game, viewer: Faction) -> Seq<char> {
    let actions = g.legal_for(viewer);
    "state for "@ + faction_text(viewer) + ":\n"@ + state_text(g) + "\nactions:\n"@ + if actions.len() == 0 {
        "(no legal actions)"@
    } else {
        actions_text(actions)
    }
}

impl Game {
    fn push_head(&self, s: &mut String)
        ensures
            final(s)@ == old(s)@ + head_text(*self),
    {
        let ghost start = s@;
        push_str(s, "game\nturn: ");
        push_decimal(s, self.turn as u64);
        push_str(s, "\nactive_player: ");
        push_str(s, self.active_player.text().as_str());
        push_str(s, "\ncurrent_chapter: ");
        push_decimal(s, self.current_chapter as u64);
        push_str(s, "\noutcome: ");
        let ghost before = s@;
        if self.shared_territory_victory {
            push_str(s, "shared victory (");
            match self.victory_type {
                Some(v) => push_str(s, v.text().as_str()),
                None => {},
            }
            push_str(s, ")");
        } else if self.winner.is_some() {
            push_str(s, self.winner.unwrap().text().as_str());
            push_str(s, " (");
            match self.victory_type {
                Some(v) => push_str(s, v.text().as_str()),
                None => {},
            }
            push_str(s, ")");
        } else {
            push_str(s, "in progress");
        }
        proof {
            assert(s@ =~= before + outcome_text(*self));
            assert(s@ =~= start + head_text(*self));
        }
    }

    fn push_economy(&self, s: &mut String)
        ensures
            final(s)@ == old(s)@ + economy_text(*self),
    {
        let ghost start = s@;
        push_str(s, "\nplayers: Fellowship=");
        push_str(s, self.fellowship.quest_character.text().as_str());
        push_str(s, ", Sauron=");
        push_str(s, self.sauron.quest_character.text().as_str());
        push_str(s, "\ncoins: Fellowship=");
        push_decimal(s, self.fellowship.coins as u64);
        push_str(s, ", Sauron=");
        push_decimal(s, self.sauron.coins as u64);
        push_str(s, ", reserve=");
        push_decimal(s, self.coin_reserve as u64);
        proof {
            assert(s@ =~= start + economy_text(*self));
        }
    }

    fn push_holdings(&self, s: &mut String)
        requires
            self.wf(),
        ensures
            final(s)@ == old(s)@ + holdings_text(*self),
    {
        let ghost start = s@;
        push_str(s, "\ntableaus: Fellowship=[");
        self.push_tableau(s, Faction::Fellowship);
        push_str(s, "], Sauron=[");
        self.push_tableau(s, Faction::Sauron);
        push_str(s, "]\nalliance_tokens: Fellowship=[");
        self.push_tokens(s, Faction::Fellowship);
        push_str(s, "], Sauron=[");
        self.push_tokens(s, Faction::Sauron);
        push_str(s, "]\nunits_in_supply: Fellowship=");
        push_decimal(s, self.fellowship.units_in_supply as u64);
        push_str(s, ", Sauron=");
        push_decimal(s, self.sauron.units_in_supply as u64);
        proof {
            assert(s@ =~= start + holdings_text(*self));
        }
    }

    fn push_track(&self, s: &mut String)
        ensures
            final(s)@ == old(s)@ + track_text(*self),
    {
        let ghost start = s@;
        push_str(s, "\nquest: Nazgul=");
        push_decimal(s, self.quest.sauron_position as u64);
        push_str(s, ", Frodo_and_Sam=");
        push_decimal(s, self.quest.fellowship_position as u64);
        push_str(s, "\nquest_bonuses: ");
        self.push_bonuses(s);
        proof {
            assert(s@ =~= start + track_text(*self));
        }
    }

    fn push_offers(&self, s: &mut String)
        ensures
            final(s)@ == old(s)@ + offers_text(*self),
    {
        let ghost start = s@;
        push_str(s, "\nlandmarks: available=\"");
        self.push_landmarks(s);
        push_str(s, "\", facedown_remaining=");
        push_decimal(s, self.landmarks.facedown_deck.len() as u64);
        push_str(s, "\nalliance_stacks:\n");
        self.push_stacks(s);
        proof {
            assert(s@ =~= start + offers_text(*self));
        }
    }

    fn push_board(&self, s: &mut String)
        requires
            self.wf(),
        ensures
            final(s)@ == old(s)@ + board_text(*self),
    {
        let ghost start = s@;
        push_str(s, "\nmap:\n");
        self.push_map(s);
        push_str(s, "\nchapter_layout:\n");
        self.push_layout(s);
        proof {
            assert(s@ =~= start + board_text(*self));
        }
    }

    fn push_pending(&self, s: &mut String)
        requires
            self.wf(),
        ensures
            final(s)@ == old(s)@ + pending_text(*self),
    {
        proof {
            Game::lemma_structure(*self);
        }
        let ghost start = s@;
        match &self.pending_decision {
            None => {},
            Some(PendingDecision::CardDisposition { card }) => {
                let d = self.catalogue.card_definition(*card);
                push_str(s, "\npending_card: ");
                push_str(s, card.text().as_str());
                push_str(s, "; printed_cost=");
                push_skills(s, &d.cost.skills);
                push_str(s, " skills + ");
                push_decimal(s, d.cost.coins as u64);
                push_str(s, " coins; play_payment=");
                match self.payment_for(*card) {
                    Some(c) => push_decimal(s, c as u64),
                    None => push_str(s, "unaffordable"),
                }
                push_str(s, " coins");
            },
            Some(PendingDecision::QuestBonusUnitPlacement { .. }) => push_str(s, "\npending_quest_bonus: place 1 unit in any region"),
            Some(PendingDecision::CardUnitPlacement { player, amount, regions }) => {
                push_str(s, "\npending_red_deployment: place ");
                push_decimal(s, *amount as u64);
                push_str(s, " unit(s) in one of ");
                push_regions(s, regions);
                push_str(s, "; units_available=");
                push_decimal(s, self.player(*player).units_in_supply as u64);
            },
            Some(PendingDecision::CardUnitMovement { remaining, .. }) => {
                push_str(s, "\npending_maneuver: complete ");
                push_decimal(s, *remaining as u64);
                push_str(s, " movement(s)");
            },
            Some(PendingDecision::CardEnemyUnitRemoval { remaining, .. }) => {
                push_str(s, "\npending_maneuver: remove ");
                push_decimal(s, *remaining as u64);
                push_str(s, " enemy Unit(s)");
            },
            Some(PendingDecision::QuestBonusFortressRemoval { .. }) => push_str(s, "\npending_quest_bonus: remove 1 enemy fortress"),
            Some(PendingDecision::QuestBonusChoice { effect, .. }) => {
                push_str(s, "\npending_quest_bonus: optionally ");
                push_str(s, effect.text().as_str());
            },
            Some(PendingDecision::OpponentGreyCardDiscard { .. }) => push_str(s, "\npending_landmark: discard 1 opponent Grey card"),
            Some(PendingDecision::DiscardedCardFreePlay { .. }) => push_str(s, "\npending_landmark: play 1 discarded card for free"),
            Some(PendingDecision::AllianceTriggerChoice { .. }) => push_str(s, "\npending_alliance: choose which Race-alliance reward to resolve"),
            Some(PendingDecision::AllianceRaceChoice { .. }) => push_str(s, "\npending_alliance: choose a Race stack"),
            Some(PendingDecision::AllianceTokenChoice { revealed, .. }) => {
                push_str(s, "\npending_alliance: choose 1 revealed token from ");
                push_revealed(s, revealed);
            },
            Some(PendingDecision::EntManeuverChoice { remaining, .. }) => {
                push_str(s, "\npending_alliance: choose ");
                push_decimal(s, *remaining as u64);
                push_str(s, " Ent maneuver(s)");
            },
            Some(PendingDecision::AllianceUnitPlacement { remaining, .. }) => {
                push_str(s, "\npending_alliance: place ");
                push_decimal(s, *remaining as u64);
                push_str(s, " Wizard Unit(s)");
            },
        }
        proof {
            assert(s@ =~= start + pending_text(*self));
        }
    }

    /// The public state. Face-down card identities and token order are withheld.
    pub fn render_state(&self) -> (r: String)
        requires
            self.wf(),
        ensures
            r@ == state_text(*self),
    {
        let mut s = String::new();
        let ghost empty = s@;
        proof {
            assert(empty =~= Seq::<char>::empty());
        }
        self.push_head(&mut s);
        self.push_economy(&mut s);
        self.push_holdings(&mut s);
        self.push_track(&mut s);
        self.push_offers(&mut s);
        self.push_board(&mut s);
        self.push_pending(&mut s);
        proof {
            assert(s@ =~= state_text(*self));
        }
        s
    }

    /// The state and the numbered actions of the player to act.
    pub fn render_observation(&self) -> (r: String)
        requires
            self.wf(),
        ensures
            r@ == observation_text(*self, self.active_player),
    {
        self.render_observation_for(self.active_player)
    }

    /// What `viewer` sees: the state, then its numbered legal actions.
    pub fn render_observation_for(&self, viewer: Faction) -> (r: String)
        requires
            self.wf(),
        ensures
            r@ == observation_text(*self, viewer),
    {
        let mut s = string_of("state for ");
        push_str(&mut s, viewer.text().as_str());
        push_str(&mut s, ":\n");
        push_str(&mut s, self.render_state().as_str());
        push_str(&mut s, "\nactions:\n");
        let actions = self.legal_actions_for(viewer);
        let ghost before = s@;
        if actions.len() == 0 {
            push_str(&mut s, "(no legal actions)");
        } else {
            push_actions(&mut s, &actions);
        }
        s
    }

    /// The action's text and its immediate result.
    pub fn describe_action(&self, action: &crate::types::Action) -> (r: String)
        ensures
            r@ == crate::types::action_text(*action) + ". Immediate result: "@ + result_text(*action) + "."@,
    {
        let mut s = action.text();
        push_str(&mut s, ". Immediate result: ");
        push_str(&mut s, result_line(action).as_str());
        push_str(&mut s, ".");
        s
    }
}

fn push_regions(s: &mut String, regions: &Vec<Region>)
    ensures
        final(s)@ == old(s)@ + regions_list_text(regions@),
{
    let ghost start = s@;
    let ghost part = |r: Region| region_text(r);
    push_str(s, "[");
    let ghost open = s@;
    let mut i: usize = 0;
    while i < regions.len()
        invariant
            i <= regions@.len(),
            part == (|r: Region| region_text(r)),
            s@ == open + joined(regions@.subrange(0, i as int).map_values(part), ", "@),
        decreases regions.len() - i,
    {
        proof {
            lemma_join_step(regions@, i as int, part, ", "@);
        }
        if i > 0 {
            push_str(s, ", ");
        }
        push_str(s, regions[i].text().as_str());
        i = i + 1;
    }
    proof {
        lemma_join_all(regions@, part, ", "@);
    }
    push_str(s, "]");
    proof {
        assert(s@ =~= start + regions_list_text(regions@));
    }
}

fn push_revealed(s: &mut String, tokens: &Vec<AllianceToken>)
    ensures
        final(s)@ == old(s)@ + revealed_text(tokens@),
{
    let ghost start = s@;
    let ghost part = |t: AllianceToken| race_text(t.race) + " "@ + decimal(t.id as nat);
    push_str(s, "[");
    let ghost open = s@;
    let mut i: usize = 0;
    while i < tokens.len()
        invariant
            i <= tokens@.len(),
            part == (|t: AllianceToken| race_text(t.race) + " "@ + decimal(t.id as nat)),
            s@ == open + joined(tokens@.subrange(0, i as int).map_values(part), ", "@),
        decreases tokens.len() - i,
    {
        proof {
            lemma_join_step(tokens@, i as int, part, ", "@);
        }
        if i > 0 {
            push_str(s, ", ");
        }
        push_str(s, tokens[i].race.text().as_str());
        push_str(s, " ");
        push_decimal(s, tokens[i].id as u64);
        i = i + 1;
    }
    proof {
        lemma_join_all(tokens@, part, ", "@);
    }
    push_str(s, "]");
    proof {
        assert(s@ =~= start + revealed_text(tokens@));
    }
}

fn push_actions(s: &mut String, actions: &Vec<crate::types::Action>)
    ensures
        final(s)@ == old(s)@ + actions_text(actions@),
{
    let ghost part = |i: int| decimal(i as nat) + ". "@ + crate::types::action_text(actions@[i]);
    let ghost idx = Seq::new(actions@.len(), |i: int| i);
    let ghost open = s@;
    let mut i: usize = 0;
    while i < actions.len()
        invariant
            i <= actions@.len(),
            idx == Seq::new(actions@.len(), |i: int| i),
            part == (|i: int| decimal(i as nat) + ". "@ + crate::types::action_text(actions@[i])),
            s@ == open + joined(idx.subrange(0, i as int).map_values(part), "\n"@),
        decreases actions.len() - i,
    {
        proof {
            lemma_join_step(idx, i as int, part, "\n"@);
        }
        if i > 0 {
            push_str(s, "\n");
        }
        push_decimal(s, i as u64);
        push_str(s, ". ");
        push_str(s, actions[i].text().as_str());
        i = i + 1;
    }
    proof {
        lemma_join_all(idx, part, "\n"@);
        assert(idx.map_values(part) =~= Seq::new(
            actions@.len(),
            |i: int| decimal(i as nat) + ". "@ + crate::types::action_text(actions@[i]),
        ));
    }
}
} // verus!
