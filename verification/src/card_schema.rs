//! Data schema for language-independent printed card faces.

use vstd::prelude::*;

use crate::text::{
    decimal, digit_char, parse_unsigned, parse_unsigned_exec, push_decimal, push_str, string_of,
};

verus! {

#[derive(Debug, Clone, PartialEq, Eq)]
pub struct CardDefinition {
    pub id: String,
    pub chapter: u8,
    pub color: CardColor,
    pub cost: Cost,
    pub provides_chain: Option<String>,
    pub provides: Provides,
    pub effects: Vec<Effect>,
}

#[derive(Debug, Clone, Copy, PartialEq, Eq, Structural)]
pub enum CardColor {
    Grey,
    Yellow,
    Blue,
    Green,
    Red,
    Purple,
}

/// The mechanical role associated with a card's presentation color. Card
/// effects remain explicit data in `CardDefinition::effects`; callers should
/// not infer an individual card's effect from this family.
#[derive(Debug, Clone, Copy, PartialEq, Eq, Structural)]
pub enum CardFamily {
    PersistentSkills,
    ImmediateCoins,
    QuestMovement,
    RaceAlliance,
    UnitDeployment,
    Maneuver,
}

pub open spec fn spec_family(color: CardColor) -> CardFamily {
    match color {
        CardColor::Grey => CardFamily::PersistentSkills,
        CardColor::Yellow => CardFamily::ImmediateCoins,
        CardColor::Blue => CardFamily::QuestMovement,
        CardColor::Green => CardFamily::RaceAlliance,
        CardColor::Red => CardFamily::UnitDeployment,
        CardColor::Purple => CardFamily::Maneuver,
    }
}

impl CardColor {
    /// The card family that this color denotes.
    pub fn family(self) -> (r: CardFamily)
        ensures
            r == spec_family(self),
    {
        match self {
            CardColor::Grey => CardFamily::PersistentSkills,
            CardColor::Yellow => CardFamily::ImmediateCoins,
            CardColor::Blue => CardFamily::QuestMovement,
            CardColor::Green => CardFamily::RaceAlliance,
            CardColor::Red => CardFamily::UnitDeployment,
            CardColor::Purple => CardFamily::Maneuver,
        }
    }
}

pub open spec fn family_name(f: CardFamily) -> Seq<char> {
    match f {
        CardFamily::PersistentSkills => "PersistentSkills"@,
        CardFamily::ImmediateCoins => "ImmediateCoins"@,
        CardFamily::QuestMovement => "QuestMovement"@,
        CardFamily::RaceAlliance => "RaceAlliance"@,
        CardFamily::UnitDeployment => "UnitDeployment"@,
        CardFamily::Maneuver => "Maneuver"@,
    }
}

fn family_name_exec(f: CardFamily) -> (r: String)
    ensures
        r@ == family_name(f),
{
    match f {
        CardFamily::PersistentSkills => string_of("PersistentSkills"),
        CardFamily::ImmediateCoins => string_of("ImmediateCoins"),
        CardFamily::QuestMovement => string_of("QuestMovement"),
        CardFamily::RaceAlliance => string_of("RaceAlliance"),
        CardFamily::UnitDeployment => string_of("UnitDeployment"),
        CardFamily::Maneuver => string_of("Maneuver"),
    }
}

/// A printed cost. Skill requirements are listed as `(Skill, amount)` pairs.
#[derive(Debug, Clone, PartialEq, Eq, Default)]
pub struct Cost {
    pub coins: u8,
    pub skills: Vec<(Skill, u8)>,
    /// Possessing this symbol makes the entire card free.
    pub chain: Option<String>,
}

#[derive(Debug, Clone, PartialEq, Eq, Default)]
pub struct Provides {
    pub skills: Vec<(Skill, u8)>,
    /// Choose exactly one alternative when using this card's Skills that turn.
    pub skills_any_of: Vec<Vec<(Skill, u8)>>,
    pub race: Option<Race>,
}

#[derive(Debug, Clone, Copy, PartialEq, Eq, Structural)]
pub enum Skill {
    Ruse,
    Strength,
    Courage,
    Knowledge,
    Leadership,
}

/// A Skill list names each Skill at most once, in the printed Skill order.
pub open spec fn skills_in_order(s: Seq<(Skill, u8)>) -> bool {
    forall|i: int, j: int| 0 <= i < j < s.len() ==> skill_index(#[trigger] s[i].0) < skill_index(#[trigger] s[j].0)
}

/// The position of a Skill in the printed order.
pub open spec fn skill_index(s: Skill) -> int {
    match s {
        Skill::Ruse => 0,
        Skill::Strength => 1,
        Skill::Courage => 2,
        Skill::Knowledge => 3,
        Skill::Leadership => 4,
    }
}

impl Skill {
    /// The Skill's position in the printed order.
    pub fn index(self) -> (r: usize)
        ensures
            r == skill_index(self),
            r < 5,
    {
        match self {
            Skill::Ruse => 0,
            Skill::Strength => 1,
            Skill::Courage => 2,
            Skill::Knowledge => 3,
            Skill::Leadership => 4,
        }
    }
}

/// The total amount of Skill `s` listed in `skills`.
pub open spec fn skill_amount(skills: Seq<(Skill, u8)>, s: Skill) -> nat
    decreases skills.len(),
{
    if skills.len() == 0 {
        0
    } else {
        skill_amount(skills.drop_last(), s) + if skills.last().0 == s {
            skills.last().1 as nat
        } else {
            0
        }
    }
}

#[derive(Debug, Clone, Copy, PartialEq, Eq, Structural)]
pub enum Race {
    Elves,
    Ents,
    Hobbits,
    Humans,
    Dwarves,
    Wizards,
}

#[derive(Debug, Clone, PartialEq, Eq)]
pub enum Effect {
    GainCoins { amount: u8 },
    AdvanceQuest { spaces: u8 },
    PlaceUnits { amount: u8, regions: Vec<Region>, choose: u8 },
    MoveUnits { amount: u8 },
    RemoveEnemyUnits { amount: u8 },
    OpponentLosesCoins { amount: u8 },
}

#[derive(Debug, Clone, Copy, PartialEq, Eq, Structural)]
pub enum Region {
    Lindon,
    Arnor,
    Rhovanion,
    Enedwaith,
    Rohan,
    Gondor,
    Mordor,
}

/// The zero-padded two-digit rendering used in card IDs (`{:02}`).
pub open spec fn padded2(n: nat) -> Seq<char> {
    if n < 10 {
        seq!['0', digit_char(n)]
    } else {
        decimal(n)
    }
}

/// The stable ID of a Chapter card: `chapter{N}_card_{NN}`.
pub open spec fn stable_card_id(chapter: nat, number: nat) -> Seq<char> {
    "chapter"@ + decimal(chapter) + "_card_"@ + padded2(number)
}

/// Whether `pat` occurs in `s` starting at `i`.
pub open spec fn occurs_at(s: Seq<char>, pat: Seq<char>, i: int) -> bool {
    0 <= i && i + pat.len() <= s.len() && s.subrange(i, i + pat.len()) == pat
}

/// The start of the last occurrence of `pat` in `s`.
pub open spec fn last_occurrence(s: Seq<char>, pat: Seq<char>) -> Option<int> {
    if exists|i: int| occurs_at(s, pat, i) {
        Some(choose|i: int| occurs_at(s, pat, i) && forall|j: int| occurs_at(s, pat, j) ==> j <= i)
    } else {
        None
    }
}

/// The card number at the end of a card ID: the `u8` after its last `_card_`.
pub open spec fn spec_card_number(id: Seq<char>) -> Option<nat> {
    match last_occurrence(id, "_card_"@) {
        Some(i) => parse_unsigned(id.subrange(i + 6, id.len() as int), 255),
        None => None,
    }
}

pub open spec fn has_zero_amount(skills: Seq<(Skill, u8)>) -> bool {
    exists|i: int| 0 <= i < skills.len() && (#[trigger] skills[i]).1 == 0
}

/// The error, if any, that the effect list yields, checking effects in order.
pub open spec fn effects_error(effects: Seq<Effect>, id: Seq<char>) -> Option<Seq<char>>
    decreases effects.len(),
{
    if effects.len() == 0 {
        None
    } else {
        match effects_error(effects.drop_last(), id) {
            Some(e) => Some(e),
            None => effect_error(effects.last(), id),
        }
    }
}

pub open spec fn effect_error(effect: Effect, id: Seq<char>) -> Option<Seq<char>> {
    match effect {
        Effect::GainCoins { amount }
        | Effect::AdvanceQuest { spaces: amount }
        | Effect::MoveUnits { amount }
        | Effect::RemoveEnemyUnits { amount }
        | Effect::OpponentLosesCoins { amount } => if amount == 0 {
            Some(id + " has a zero-value effect"@)
        } else {
            None
        },
        Effect::PlaceUnits { amount, regions, choose } => if amount == 0 || regions.len() != 2
            || choose != 1 {
            Some(id + " has an invalid Unit choice"@)
        } else {
            None
        },
    }
}

/// The first empty or zero-valued choice alternative, if any.
pub open spec fn choices_error(choices: Seq<Vec<(Skill, u8)>>, id: Seq<char>) -> Option<
    Seq<char>,
>
    decreases choices.len(),
{
    if choices.len() == 0 {
        None
    } else {
        match choices_error(choices.drop_last(), id) {
            Some(e) => Some(e),
            None => if choices.last()@.len() == 0 {
                Some(id + " has an empty choice Skill"@)
            } else if has_zero_amount(choices.last()@) {
                Some(id + " has a zero-value Skill"@)
            } else {
                None
            },
        }
    }
}

/// Whether the family role of a card agrees with its data.
pub open spec fn family_shape_invalid(d: CardDefinition) -> bool {
    let has_skills = d.provides.skills@.len() != 0 || d.provides.skills_any_of@.len() != 0;
    let effects = d.effects@;
    match spec_family(d.color) {
        CardFamily::PersistentSkills => !has_skills || d.provides.race is Some || effects.len()
            != 0,
        CardFamily::ImmediateCoins => has_skills || d.provides.race is Some || effects.len() == 0
            || !(forall|i: int| 0 <= i < effects.len() ==> (#[trigger] effects[i]) is GainCoins),
        CardFamily::QuestMovement => has_skills || d.provides.race is Some || effects.len() == 0
            || !(forall|i: int| 0 <= i < effects.len() ==> (#[trigger] effects[i]) is AdvanceQuest),
        CardFamily::RaceAlliance => has_skills || d.provides.race is None || effects.len() != 0,
        CardFamily::UnitDeployment => has_skills || d.provides.race is Some || effects.len() == 0
            || !(forall|i: int| 0 <= i < effects.len() ==> (#[trigger] effects[i]) is PlaceUnits),
        CardFamily::Maneuver => d.chapter != 3 || has_skills || d.provides.race is Some
            || effects.len() == 0 || !(forall|i: int|
            0 <= i < effects.len() ==> {
                let e = #[trigger] effects[i];
                e is MoveUnits || e is RemoveEnemyUnits || e is OpponentLosesCoins
            }),
    }
}

pub open spec fn family_error(d: CardDefinition) -> Seq<char> {
    d.id@ + " has data incompatible with its "@ + family_name(spec_family(d.color))
        + " card family"@
}

/// The first problem that `validate` reports for `d`, if any.
pub open spec fn validation_error(d: CardDefinition) -> Option<Seq<char>> {
    let id = d.id@;
    if !(1 <= d.chapter <= 3) {
        Some(id + " has an invalid Chapter"@)
    } else if spec_card_number(id) is None {
        Some(id + " does not end in a card number"@)
    } else if id != stable_card_id(d.chapter as nat, spec_card_number(id).unwrap()) {
        Some(id + " is not a stable Chapter-card ID"@)
    } else if has_zero_amount(d.cost.skills@) || has_zero_amount(d.provides.skills@) {
        Some(id + " has a zero-value Skill"@)
    } else if choices_error(d.provides.skills_any_of@, id) is Some {
        choices_error(d.provides.skills_any_of@, id)
    } else if effects_error(d.effects@, id) is Some {
        effects_error(d.effects@, id)
    } else if family_shape_invalid(d) {
        Some(family_error(d))
    } else {
        None
    }
}

/// The Skill-list check: an error naming `id` when some listed amount is zero.
pub fn validate_skills(skills: &Vec<(Skill, u8)>, id: &str) -> (r: Result<(), String>)
    ensures
        r is Ok <==> !has_zero_amount(skills@),
        r matches Err(e) ==> e@ == id@ + " has a zero-value Skill"@,
{
    let mut i: usize = 0;
    while i < skills.len()
        invariant
            i <= skills.len(),
            forall|k: int| 0 <= k < i ==> (#[trigger] skills@[k]).1 != 0,
        decreases skills.len() - i,
    {
        if skills[i].1 == 0 {
            let mut e = string_of(id);
            push_str(&mut e, " has a zero-value Skill");
            return Err(e);
        }
        i = i + 1;
    }
    Ok(())
}

/// The card number at the end of an ID: the `u8` after its last `_card_`.
pub fn card_number(id: &str) -> (r: Result<u8, String>)
    ensures
        r matches Ok(n) ==> spec_card_number(id@) == Some(n as nat),
        r is Err ==> spec_card_number(id@) is None,
        r matches Err(e) ==> e@ == id@ + " does not end in a card number"@,
{
    proof {
        reveal_strlit("_card_");
    }
    let n = id.unicode_len();
    let mut found: Option<usize> = None;
    let mut i: usize = n;
    // scan candidate start positions from the end
    while i > 0 && found.is_none()
        invariant
            n == id@.len(),
            i <= n,
            "_card_"@.len() == 6,
            found matches Some(p) ==> occurs_at(id@, "_card_"@, p as int) && forall|j: int|
                occurs_at(id@, "_card_"@, j) ==> j <= p,
            found is None ==> forall|j: int| i <= j && occurs_at(id@, "_card_"@, j) ==> false,
        decreases i,
    {
        i = i - 1;
        if n >= 6 && i <= n - 6 && matches_at(id, "_card_", i) {
            found = Some(i);
        }
    }
    match found {
        None => {
            proof {
                assert(!exists|j: int| occurs_at(id@, "_card_"@, j));
            }
            let mut e = string_of(id);
            push_str(&mut e, " does not end in a card number");
            Err(e)
        },
        Some(p) => {
            proof {
                let c = choose|j: int|
                    occurs_at(id@, "_card_"@, j) && forall|k: int|
                        occurs_at(id@, "_card_"@, k) ==> k <= j;
                assert(occurs_at(id@, "_card_"@, p as int));
                assert(c == p);
            }
            let suffix = id.substring_char(p + 6, n);
            match parse_unsigned_exec(suffix, 255) {
                Some(v) => Ok(v as u8),
                None => {
                    let mut e = string_of(id);
                    push_str(&mut e, " does not end in a card number");
                    Err(e)
                },
            }
        },
    }
}

/// Whether `pat` occurs in `s` starting at character `i`.
fn matches_at(s: &str, pat: &str, i: usize) -> (r: bool)
    requires
        i + pat@.len() <= s@.len(),
    ensures
        r == occurs_at(s@, pat@, i as int),
{
    let m = pat.unicode_len();
    let n = s.unicode_len();
    let mut k: usize = 0;
    while k < m
        invariant
            m == pat@.len(),
            n == s@.len(),
            i + m <= s@.len(),
            k <= m,
            forall|j: int| 0 <= j < k ==> s@[i + j] == pat@[j],
        decreases m - k,
    {
        if s.get_char(i + k) != pat.get_char(k) {
            proof {
                assert(s@.subrange(i as int, i + m)[k as int] != pat@[k as int]);
            }
            return false;
        }
        k = k + 1;
    }
    assert(s@.subrange(i as int, i + m) =~= pat@);
    true
}

/// Appends the stable card ID `chapter{N}_card_{NN}`.
pub fn push_stable_card_id(s: &mut String, chapter: u8, number: u8)
    ensures
        final(s)@ == old(s)@ + stable_card_id(chapter as nat, number as nat),
{
    push_str(s, "chapter");
    push_decimal(s, chapter as u64);
    push_str(s, "_card_");
    if number < 10 {
        s.push('0');
        push_decimal(s, number as u64);
        proof {
            assert(decimal(number as nat) == seq![digit_char(number as nat)]);
        }
    } else {
        push_decimal(s, number as u64);
    }
    proof {
        assert(s@ =~= old(s)@ + stable_card_id(chapter as nat, number as nat));
    }
}

fn all_effects_are(effects: &Vec<Effect>, kind: u8) -> (r: bool)
    requires
        kind < 4,
    ensures
        r == (forall|i: int| 0 <= i < effects@.len() ==> effect_has_kind(#[trigger] effects@[i], kind)),
{
    let mut i: usize = 0;
    while i < effects.len()
        invariant
            i <= effects.len(),
            kind < 4,
            forall|k: int| 0 <= k < i ==> effect_has_kind(#[trigger] effects@[k], kind),
        decreases effects.len() - i,
    {
        let ok = match &effects[i] {
            Effect::GainCoins { .. } => kind == 0,
            Effect::AdvanceQuest { .. } => kind == 1,
            Effect::PlaceUnits { .. } => kind == 2,
            Effect::MoveUnits { .. } | Effect::RemoveEnemyUnits { .. } | Effect::OpponentLosesCoins {
                ..
            } => kind == 3,
        };
        if !ok {
            return false;
        }
        i = i + 1;
    }
    true
}

/// Effect kinds checked by the family rules: 0 coins, 1 quest, 2 Units, 3 maneuvers.
pub open spec fn effect_has_kind(e: Effect, kind: u8) -> bool {
    if kind == 0 {
        e is GainCoins
    } else if kind == 1 {
        e is AdvanceQuest
    } else if kind == 2 {
        e is PlaceUnits
    } else {
        e is MoveUnits || e is RemoveEnemyUnits || e is OpponentLosesCoins
    }
}

fn effect_check(effect: &Effect, id: &str) -> (r: Option<String>)
    ensures
        r is Some <==> effect_error(*effect, id@) is Some,
        r matches Some(e) ==> effect_error(*effect, id@) == Some(e@),
{
    match effect {
        Effect::GainCoins { amount }
        | Effect::AdvanceQuest { spaces: amount }
        | Effect::MoveUnits { amount }
        | Effect::RemoveEnemyUnits { amount }
        | Effect::OpponentLosesCoins { amount } => {
            if *amount == 0 {
                let mut e = string_of(id);
                push_str(&mut e, " has a zero-value effect");
                Some(e)
            } else {
                None
            }
        },
        Effect::PlaceUnits { amount, regions, choose } => {
            if *amount == 0 || regions.len() != 2 || *choose != 1 {
                let mut e = string_of(id);
                push_str(&mut e, " has an invalid Unit choice");
                Some(e)
            } else {
                None
            }
        },
    }
}

impl CardDefinition {
    /// Checks an individual card record: its Chapter, stable ID, Skill amounts,
    /// choice alternatives, effect values and family shape, reporting the first
    /// problem found.
    pub fn validate(&self) -> (r: Result<(), String>)
        ensures
            r is Ok <==> validation_error(*self) is None,
            r matches Err(e) ==> validation_error(*self) == Some(e@),
    {
        let id = self.id.as_str();
        if !(1 <= self.chapter && self.chapter <= 3) {
            let mut e = string_of(id);
            push_str(&mut e, " has an invalid Chapter");
            return Err(e);
        }
        let number = match card_number(id) {
            Ok(n) => n,
            Err(e) => {
                return Err(e);
            },
        };
        let mut expected = String::new();
        push_stable_card_id(&mut expected, self.chapter, number);
        if !(self.id == expected) {
            let mut e = string_of(id);
            push_str(&mut e, " is not a stable Chapter-card ID");
            return Err(e);
        }
        match validate_skills(&self.cost.skills, id) {
            Err(e) => {
                return Err(e);
            },
            Ok(()) => {},
        }
        match validate_skills(&self.provides.skills, id) {
            Err(e) => {
                return Err(e);
            },
            Ok(()) => {},
        }
        match check_choices(&self.provides.skills_any_of, id) {
            Some(e) => {
                return Err(e);
            },
            None => {},
        }
        match check_effects(&self.effects, id) {
            Some(e) => {
                return Err(e);
            },
            None => {},
        }
        self.validate_family()
    }

    /// Reject catalogue data that would blur a card's family role. This is a
    /// data validation boundary, not the game-effect resolver: every concrete
    /// effect is still represented independently in `effects`.
    pub fn validate_family(&self) -> (r: Result<(), String>)
        ensures
            r is Ok <==> !family_shape_invalid(*self),
            r matches Err(e) ==> e@ == family_error(*self),
    {
        let has_skills = self.provides.skills.len() != 0 || self.provides.skills_any_of.len() != 0;
        let has_race = self.provides.race.is_some();
        let no_effects = self.effects.len() == 0;
        let family = self.color.family();
        let invalid = match family {
            CardFamily::PersistentSkills => !has_skills || has_race || !no_effects,
            CardFamily::ImmediateCoins => has_skills || has_race || no_effects
                || !all_effects_are(&self.effects, 0),
            CardFamily::QuestMovement => has_skills || has_race || no_effects
                || !all_effects_are(&self.effects, 1),
            CardFamily::RaceAlliance => has_skills || !has_race || !no_effects,
            CardFamily::UnitDeployment => has_skills || has_race || no_effects
                || !all_effects_are(&self.effects, 2),
            CardFamily::Maneuver => self.chapter != 3 || has_skills || has_race || no_effects
                || !all_effects_are(&self.effects, 3),
        };
        if invalid {
            let mut e = string_of(self.id.as_str());
            push_str(&mut e, " has data incompatible with its ");
            let name = family_name_exec(family);
            push_str(&mut e, name.as_str());
            push_str(&mut e, " card family");
            Err(e)
        } else {
            Ok(())
        }
    }
}

fn check_choices(choices: &Vec<Vec<(Skill, u8)>>, id: &str) -> (r: Option<String>)
    ensures
        r is Some <==> choices_error(choices@, id@) is Some,
        r matches Some(e) ==> choices_error(choices@, id@) == Some(e@),
{
    let mut i: usize = 0;
    while i < choices.len()
        invariant
            i <= choices@.len(),
            choices_error(choices@.subrange(0, i as int), id@) is None,
        decreases choices.len() - i,
    {
        proof {
            assert(choices@.subrange(0, i + 1).drop_last() =~= choices@.subrange(0, i as int));
        }
        if choices[i].len() == 0 {
            let mut e = string_of(id);
            push_str(&mut e, " has an empty choice Skill");
            proof {
                lemma_choices_error_prefix(choices@, id@, i + 1);
            }
            return Some(e);
        }
        match validate_skills(&choices[i], id) {
            Err(e) => {
                proof {
                    lemma_choices_error_prefix(choices@, id@, i + 1);
                }
                return Some(e);
            },
            Ok(()) => {},
        }
        i = i + 1;
    }
    assert(choices@.subrange(0, choices@.len() as int) =~= choices@);
    None
}

fn check_effects(effects: &Vec<Effect>, id: &str) -> (r: Option<String>)
    ensures
        r is Some <==> effects_error(effects@, id@) is Some,
        r matches Some(e) ==> effects_error(effects@, id@) == Some(e@),
{
    let mut k: usize = 0;
    while k < effects.len()
        invariant
            k <= effects@.len(),
            effects_error(effects@.subrange(0, k as int), id@) is None,
        decreases effects.len() - k,
    {
        proof {
            assert(effects@.subrange(0, k + 1).drop_last() =~= effects@.subrange(0, k as int));
        }
        match effect_check(&effects[k], id) {
            Some(e) => {
                proof {
                    lemma_effects_error_prefix(effects@, id@, k + 1);
                }
                return Some(e);
            },
            None => {},
        }
        k = k + 1;
    }
    assert(effects@.subrange(0, effects@.len() as int) =~= effects@);
    None
}

proof fn lemma_choices_error_prefix(choices: Seq<Vec<(Skill, u8)>>, id: Seq<char>, k: int)
    requires
        0 < k <= choices.len(),
        choices_error(choices.subrange(0, k), id) is Some,
    ensures
        choices_error(choices, id) == choices_error(choices.subrange(0, k), id),
    decreases choices.len() - k,
{
    if k < choices.len() {
        assert(choices.subrange(0, k + 1).drop_last() =~= choices.subrange(0, k));
        lemma_choices_error_prefix(choices, id, k + 1);
    } else {
        assert(choices.subrange(0, k) =~= choices);
    }
}

proof fn lemma_effects_error_prefix(effects: Seq<Effect>, id: Seq<char>, k: int)
    requires
        0 < k <= effects.len(),
        effects_error(effects.subrange(0, k), id) is Some,
    ensures
        effects_error(effects, id) == effects_error(effects.subrange(0, k), id),
    decreases effects.len() - k,
{
    if k < effects.len() {
        assert(effects.subrange(0, k + 1).drop_last() =~= effects.subrange(0, k));
        lemma_effects_error_prefix(effects, id, k + 1);
    } else {
        assert(effects.subrange(0, k) =~= effects);
    }
}

} // verus!
