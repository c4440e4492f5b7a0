//! Quest-track layout and the Skill-payment search.

use vstd::prelude::*;

use crate::card_schema::{skill_index, Skill};
use crate::types::{QuestBonus, QuestBonusEffect};

verus! {

/// The one-time bonuses printed on the quest track, in track order: a coin at
/// 3 and 18, a Unit at 6 and 21, an extra turn at 9 and 24, and a Fortress
/// removal at 12 and 27.
pub open spec fn printed_quest_bonuses() -> Seq<QuestBonus> {
    seq![
        QuestBonus { position: 3, effect: QuestBonusEffect::GainCoin, claimed: false },
        QuestBonus { position: 6, effect: QuestBonusEffect::PlaceUnit, claimed: false },
        QuestBonus { position: 9, effect: QuestBonusEffect::TakeExtraTurn, claimed: false },
        QuestBonus { position: 12, effect: QuestBonusEffect::RemoveEnemyFortress, claimed: false },
        QuestBonus { position: 18, effect: QuestBonusEffect::GainCoin, claimed: false },
        QuestBonus { position: 21, effect: QuestBonusEffect::PlaceUnit, claimed: false },
        QuestBonus { position: 24, effect: QuestBonusEffect::TakeExtraTurn, claimed: false },
        QuestBonus { position: 27, effect: QuestBonusEffect::RemoveEnemyFortress, claimed: false },
    ]
}

/// The unclaimed quest bonuses printed on the track.
pub fn quest_bonuses() -> (r: Vec<QuestBonus>)
    ensures
        r@ == printed_quest_bonuses(),
{
    let positions: [u8; 4] = [3, 6, 9, 12];
    let mut bonuses: Vec<QuestBonus> = Vec::new();
    let mut lap: u8 = 0;
    while lap < 2
        invariant
            lap <= 2,
            bonuses@ =~= printed_quest_bonuses().subrange(0, 4 * lap as int),
        decreases 2 - lap,
    {
        bonuses.push(QuestBonus { position: 3 + 15 * lap, effect: QuestBonusEffect::GainCoin, claimed: false });
        bonuses.push(QuestBonus { position: 6 + 15 * lap, effect: QuestBonusEffect::PlaceUnit, claimed: false });
        bonuses.push(QuestBonus { position: 9 + 15 * lap, effect: QuestBonusEffect::TakeExtraTurn, claimed: false });
        bonuses.push(QuestBonus {
            position: 12 + 15 * lap,
            effect: QuestBonusEffect::RemoveEnemyFortress,
            claimed: false,
        });
        lap = lap + 1;
    }
    bonuses
}

/// Skill totals are tracked per Skill and capped at 255, the largest amount a
/// single printed requirement can ask for; the cap never changes a shortfall.
pub open spec fn capped(n: nat) -> nat {
    if n > 255 { 255 } else { n }
}

/// `produced` with the Skills listed in `skills` added.
pub open spec fn add_skills(produced: Seq<nat>, skills: Seq<(Skill, u8)>) -> Seq<nat>
    decreases skills.len(),
{
    if skills.len() == 0 {
        produced
    } else {
        let before = add_skills(produced, skills.drop_last());
        let (skill, amount) = skills.last();
        before.update(skill_index(skill), capped(before[skill_index(skill)] + amount as nat))
    }
}

/// The Skills still missing when `produced` is set against `required`.
pub open spec fn shortfall(required: Seq<(Skill, u8)>, produced: Seq<nat>) -> nat
    decreases required.len(),
{
    if required.len() == 0 {
        0
    } else {
        let (skill, amount) = required.last();
        shortfall(required.drop_last(), produced) + if amount >= produced[skill_index(skill)] {
            (amount - produced[skill_index(skill)]) as nat
        } else {
            0
        }
    }
}

/// The least shortfall when each choice symbol from `index` on contributes
/// exactly one of its alternatives (a symbol without alternatives contributes
/// nothing).
pub open spec fn least_shortfall(
    required: Seq<(Skill, u8)>,
    produced: Seq<nat>,
    choices: Seq<Seq<Seq<(Skill, u8)>>>,
    index: int,
) -> nat
    decreases choices.len() - index, 1nat, 0nat,
{
    if index < 0 || index >= choices.len() {
        shortfall(required, produced)
    } else if choices[index].len() == 0 {
        least_shortfall(required, produced, choices, index + 1)
    } else {
        best_alternative(required, produced, choices, index, choices[index].len())
    }
}

/// The least shortfall over the first `k` alternatives of choice symbol `index`.
pub open spec fn best_alternative(
    required: Seq<(Skill, u8)>,
    produced: Seq<nat>,
    choices: Seq<Seq<Seq<(Skill, u8)>>>,
    index: int,
    k: nat,
) -> nat
    decreases choices.len() - index, 0nat, k,
{
    if index < 0 || index >= choices.len() || k == 0 || k > choices[index].len() {
        0
    } else {
        let with_last = least_shortfall(
            required,
            add_skills(produced, choices[index][k - 1]),
            choices,
            index + 1,
        );
        if k == 1 {
            with_last
        } else {
            let rest = best_alternative(required, produced, choices, index, (k - 1) as nat);
            if rest <= with_last { rest } else { with_last }
        }
    }
}

/// The choice symbols as plain sequences: for each symbol its alternatives,
/// each a list of Skills.
pub open spec fn nested_view(c: Seq<Vec<Vec<(Skill, u8)>>>) -> Seq<Seq<Seq<(Skill, u8)>>> {
    c.map_values(|alts: Vec<Vec<(Skill, u8)>>| alts@.map_values(|a: Vec<(Skill, u8)>| a@))
}

pub open spec fn skill_vector(p: [u32; 5]) -> Seq<nat> {
    p@.map_values(|x: u32| x as nat)
}

pub open spec fn bounded_vector(p: Seq<nat>) -> bool {
    p.len() == 5 && forall|i: int| 0 <= i < 5 ==> #[trigger] p[i] <= 255
}

pub proof fn lemma_add_skills_bounded(produced: Seq<nat>, skills: Seq<(Skill, u8)>)
    requires
        bounded_vector(produced),
    ensures
        bounded_vector(add_skills(produced, skills)),
    decreases skills.len(),
{
    if skills.len() > 0 {
        lemma_add_skills_bounded(produced, skills.drop_last());
    }
}

/// Adds a list of Skills to capped per-Skill totals.
pub fn add_skills_exec(produced: &mut [u32; 5], skills: &Vec<(Skill, u8)>)
    requires
        bounded_vector(skill_vector(*old(produced))),
    ensures
        skill_vector(*final(produced)) == add_skills(skill_vector(*old(produced)), skills@),
        bounded_vector(skill_vector(*final(produced))),
{
    let ghost start = skill_vector(*produced);
    let mut i: usize = 0;
    while i < skills.len()
        invariant
            i <= skills@.len(),
            bounded_vector(start),
            skill_vector(*produced) == add_skills(start, skills@.subrange(0, i as int)),
            bounded_vector(skill_vector(*produced)),
        decreases skills.len() - i,
    {
        let (skill, amount) = skills[i];
        let s = skill.index();
        assert(skill_vector(*produced)[s as int] == produced@[s as int] as nat);
        let total = produced[s] + amount as u32;
        let next = if total > 255 { 255 } else { total };
        proof {
            let prefix = skills@.subrange(0, i + 1);
            assert(prefix.drop_last() =~= skills@.subrange(0, i as int));
            assert(prefix.last() == (skill, amount));
        }
        produced[s] = next;
        proof {
            assert(skill_vector(*produced) =~= add_skills(start, skills@.subrange(0, i as int)).update(
                s as int,
                capped(add_skills(start, skills@.subrange(0, i as int))[s as int] + amount as nat),
            ));
        }
        i = i + 1;
    }
    assert(skills@.subrange(0, skills@.len() as int) =~= skills@);
}

fn shortfall_exec(required: &Vec<(Skill, u8)>, produced: &[u32; 5]) -> (r: u32)
    requires
        bounded_vector(skill_vector(*produced)),
    ensures
        r == capped(shortfall(required@, skill_vector(*produced))),
{
    let ghost p = skill_vector(*produced);
    let mut total: u32 = 0;
    let mut i: usize = 0;
    while i < required.len()
        invariant
            i <= required@.len(),
            p == skill_vector(*produced),
            bounded_vector(p),
            total == capped(shortfall(required@.subrange(0, i as int), p)),
        decreases required.len() - i,
    {
        let (skill, amount) = required[i];
        let have = produced[skill.index()];
        let term: u32 = if amount as u32 >= have { amount as u32 - have } else { 0 };
        proof {
            let prefix = required@.subrange(0, i + 1);
            assert(prefix.drop_last() =~= required@.subrange(0, i as int));
            assert(prefix.last() == (skill, amount));
        }
        let sum = total + term;
        total = if sum > 255 { 255 } else { sum };
        i = i + 1;
    }
    assert(required@.subrange(0, required@.len() as int) =~= required@);
    total
}

/// Each choice symbol is used once per payment and produces exactly one of its
/// alternatives. Choosing greedily can be wrong when several symbols satisfy
/// overlapping requirements, so this small exhaustive search returns the exact
/// least shortfall (capped at 255).
pub fn minimum_missing_skills(
    required: &Vec<(Skill, u8)>,
    fixed_production: [u32; 5],
    choice_symbols: &Vec<Vec<Vec<(Skill, u8)>>>,
) -> (r: u8)
    requires
        bounded_vector(skill_vector(fixed_production)),
    ensures
        r == capped(least_shortfall(required@, skill_vector(fixed_production), nested_view(choice_symbols@), 0)),
{
    let best = choose_from(required, fixed_production, choice_symbols, 0);
    best as u8
}

fn choose_from(
    required: &Vec<(Skill, u8)>,
    produced: [u32; 5],
    choices: &Vec<Vec<Vec<(Skill, u8)>>>,
    index: usize,
) -> (r: u32)
    requires
        bounded_vector(skill_vector(produced)),
        index <= choices@.len(),
    ensures
        r == capped(least_shortfall(required@, skill_vector(produced), nested_view(choices@), index as int)),
    decreases choices@.len() - index, 1nat, 0nat,
{
    if index == choices.len() {
        return shortfall_exec(required, &produced);
    }
    if choices[index].len() == 0 {
        return choose_from(required, produced, choices, index + 1);
    }
    best_of(required, produced, choices, index, choices[index].len())
}

fn best_of(
    required: &Vec<(Skill, u8)>,
    produced: [u32; 5],
    choices: &Vec<Vec<Vec<(Skill, u8)>>>,
    index: usize,
    k: usize,
) -> (r: u32)
    requires
        bounded_vector(skill_vector(produced)),
        index < choices@.len(),
        1 <= k <= choices@[index as int]@.len(),
    ensures
        r == capped(best_alternative(required@, skill_vector(produced), nested_view(choices@), index as int, k as nat)),
    decreases choices@.len() - index, 0nat, k,
{
    let n = choices.len();
    let mut next = produced;
    add_skills_exec(&mut next, &choices[index][k - 1]);
    let with_last = choose_from(required, next, choices, index + 1);
    if k == 1 {
        with_last
    } else {
        let rest = best_of(required, produced, choices, index, k - 1);
        if rest <= with_last { rest } else { with_last }
    }
}

} // verus!
