//! What a faction is shown depends only on public information.

use vstd::prelude::*;

use crate::types::{
    AllianceStack, CardSlot, CardVisibility, ChapterCard, ChapterState, Faction, LandmarkState,
    PlayerState,
};

use super::actions::{landmark_takes, race_choices};
use super::render::{
    board_text, economy_text, head_text, holdings_text, landmark_text, observation_text,
    offers_text, pending_text, slot_line, stack_line, state_text, tableau_card_text, tableau_text,
    tokens_text, track_text,
};
use super::{all_discarded, available_ids, slot_absent, slot_available, Game};

verus! {

/// Two displays that agree slot by slot on everything but the identity of
/// face-down cards.
pub open spec fn same_public_layout(a: Seq<CardSlot>, b: Seq<CardSlot>) -> bool {
    &&& a.len() == b.len()
    &&& forall|i: int| 0 <= i < a.len() ==> {
        &&& (#[trigger] b[i]) == CardSlot { card: b[i].card, ..a[i] }
        &&& a[i].visibility == CardVisibility::FaceUp ==> a[i].card == b[i].card
    }
}

/// Two rows of Alliance stacks with the same Races and the same heights, in
/// whatever order their tokens lie.
pub open spec fn same_public_stacks(a: Seq<AllianceStack>, b: Seq<AllianceStack>) -> bool {
    &&& a.len() == b.len()
    &&& forall|i: int| 0 <= i < a.len() ==> {
        &&& (#[trigger] b[i]).race == a[i].race
        &&& b[i].token_order@.len() == a[i].token_order@.len()
    }
}

/// Two states that differ at most in face-down components: which cards lie
/// face down in the current display, which Landmarks lie in the face-down
/// deck (not how many), and in what order each Alliance stack holds its tokens.
pub open spec fn same_public_state(a: Game, b: Game) -> bool {
    let c = a.current_chapter - 1;
    &&& 1 <= a.current_chapter <= a.chapters@.len()
    &&& b == Game {
        chapters: b.chapters,
        alliance_stacks: b.alliance_stacks,
        landmarks: LandmarkState { facedown_deck: b.landmarks.facedown_deck, ..a.landmarks },
        ..a
    }
    &&& b.landmarks.facedown_deck@.len() == a.landmarks.facedown_deck@.len()
    &&& b.chapters@.len() == a.chapters@.len()
    &&& forall|i: int| 0 <= i < a.chapters@.len() && i != c ==> #[trigger] b.chapters@[i] == a.chapters@[i]
    &&& b.chapters@[c] == ChapterState { layout: b.chapters@[c].layout, ..a.chapters@[c] }
    &&& same_public_layout(a.chapters@[c].layout@, b.chapters@[c].layout@)
    &&& same_public_stacks(a.alliance_stacks@, b.alliance_stacks@)
}

proof fn lemma_available_ids_public(a: Seq<CardSlot>, b: Seq<CardSlot>, n: int)
    requires
        same_public_layout(a, b),
        n <= a.len(),
    ensures
        available_ids(a, n) == available_ids(b, n),
    decreases n,
{
    if n > 0 {
        lemma_available_ids_public(a, b, n - 1);
        assert forall|id: usize| slot_absent(a, id) == slot_absent(b, id) by {
            if slot_absent(a, id) {
                assert forall|k: int| 0 <= k < b.len() implies (#[trigger] b[k]).id != id by {
                    assert(a[k].id != id);
                }
            }
            if slot_absent(b, id) {
                assert forall|k: int| 0 <= k < a.len() implies (#[trigger] a[k]).id != id by {
                    assert(b[k].id != id);
                }
            }
        }
        let sa = a[n - 1];
        let sb = b[n - 1];
        assert(sb.covering_slots == sa.covering_slots && sb.visibility == sa.visibility && sb.id == sa.id);
        assert(slot_available(a, sa) == slot_available(b, sb));
    }
}

proof fn lemma_all_discarded_public(a: Seq<ChapterState>, b: Seq<ChapterState>)
    requires
        a.len() == b.len(),
        forall|i: int| 0 <= i < a.len() ==> (#[trigger] b[i]).discarded == a[i].discarded,
    ensures
        all_discarded(a) == all_discarded(b),
    decreases a.len(),
{
    if a.len() > 0 {
        lemma_all_discarded_public(a.drop_last(), b.drop_last());
    }
}

proof fn lemma_landmark_takes_public(a: Game, b: Game, n: int, using_any_skill: bool)
    requires
        same_public_state(a, b),
        n <= a.landmarks.available@.len(),
    ensures
        landmark_takes(a, n, using_any_skill) == landmark_takes(b, n, using_any_skill),
    decreases n,
{
    if n > 0 {
        lemma_landmark_takes_public(a, b, n - 1, using_any_skill);
        let id = a.landmarks.available@[n - 1];
        assert(a.landmark_payment_spec(id@, using_any_skill) == b.landmark_payment_spec(id@, using_any_skill));
    }
}

proof fn lemma_race_choices_public(a: Seq<AllianceStack>, b: Seq<AllianceStack>, n: int)
    requires
        same_public_stacks(a, b),
        n <= a.len(),
    ensures
        race_choices(a, n) == race_choices(b, n),
    decreases n,
{
    if n > 0 {
        lemma_race_choices_public(a, b, n - 1);
        assert(b[n - 1].race == a[n - 1].race);
    }
}

proof fn lemma_legal_public(a: Game, b: Game)
    requires
        same_public_state(a, b),
        a.alliance_stacks@.len() >= 6,
    ensures
        a.legal() == b.legal(),
{
    let c = a.current_chapter - 1;
    assert(a.current() == a.chapters@[c]);
    assert(b.current() == b.chapters@[c]);
    lemma_available_ids_public(a.current().layout@, b.current().layout@, a.current().layout@.len() as int);
    lemma_landmark_takes_public(a, b, a.landmarks.available@.len() as int, false);
    lemma_landmark_takes_public(a, b, a.landmarks.available@.len() as int, true);
    lemma_race_choices_public(a.alliance_stacks@, b.alliance_stacks@, 6);
    assert forall|i: int| 0 <= i < a.chapters@.len() implies (#[trigger] b.chapters@[i]).discarded
        == a.chapters@[i].discarded by {
        if i != c {
            assert(b.chapters@[i] == a.chapters@[i]);
        }
    }
    lemma_all_discarded_public(a.chapters@, b.chapters@);
    match a.pending_decision {
        None => {},
        Some(d) => {
            assert(a.decision_actions(d) == b.decision_actions(d));
        },
    }
}

proof fn lemma_holdings_public(a: Game, b: Game, p: PlayerState)
    requires
        a.catalogue == b.catalogue,
    ensures
        tableau_text(a, p) == tableau_text(b, p),
        tokens_text(a, p) == tokens_text(b, p),
{
    assert(p.tableau@.map_values(|c: ChapterCard| tableau_card_text(a, c)) =~= p.tableau@.map_values(
        |c: ChapterCard| tableau_card_text(b, c),
    ));
}

proof fn lemma_board_public(a: Game, b: Game)
    requires
        same_public_state(a, b),
    ensures
        board_text(a) == board_text(b),
{
    let c = a.current_chapter - 1;
    let la = a.current().layout@;
    let lb = b.current().layout@;
    assert(a.current() == a.chapters@[c]);
    assert(b.current() == b.chapters@[c]);
    assert(la.map_values(|slot: CardSlot| slot_line(a, slot)) =~= lb.map_values(|slot: CardSlot| slot_line(b, slot)))
        by {
        assert forall|i: int| 0 <= i < la.len() implies slot_line(a, la[i]) == slot_line(b, lb[i]) by {
            assert(lb[i] == CardSlot { card: lb[i].card, ..la[i] });
        }
    }
}

proof fn lemma_offers_public(a: Game, b: Game)
    requires
        same_public_state(a, b),
    ensures
        offers_text(a) == offers_text(b),
{
    let sa = a.alliance_stacks@;
    let sb = b.alliance_stacks@;
    assert(sa.map_values(|st: AllianceStack| stack_line(st)) =~= sb.map_values(|st: AllianceStack| stack_line(st)))
        by {
        assert forall|i: int| 0 <= i < sa.len() implies stack_line(sa[i]) == stack_line(sb[i]) by {
            assert(sb[i].race == sa[i].race);
        }
    }
    let offered = a.landmarks.available@;
    assert(b.landmarks.available@ == offered);
    assert(offered.map_values(|id: String| landmark_text(a, id)) =~= offered.map_values(
        |id: String| landmark_text(b, id),
    ));
}

proof fn lemma_state_public(a: Game, b: Game)
    requires
        same_public_state(a, b),
    ensures
        state_text(a) == state_text(b),
{
    lemma_board_public(a, b);
    lemma_offers_public(a, b);
    lemma_holdings_public(a, b, a.fellowship);
    lemma_holdings_public(a, b, a.sauron);
    assert(head_text(a) == head_text(b));
    assert(economy_text(a) == economy_text(b));
    assert(holdings_text(a) == holdings_text(b));
    assert(track_text(a) == track_text(b));
    assert(pending_text(a) == pending_text(b));
}

/// What each faction is shown never depends on a face-down component: two
/// states that differ only in face-down cards of the display, in which
/// Landmarks make up the face-down deck, or in the order of the tokens in
/// each Alliance stack give every viewer the same observation.
#[verifier::rlimit(40)]
pub proof fn law_observation_hides_facedown_components(a: Game, b: Game, viewer: Faction)
    requires
        same_public_state(a, b),
        a.alliance_stacks@.len() >= 6,
    ensures
        observation_text(a, viewer) == observation_text(b, viewer),
{
    lemma_legal_public(a, b);
    assert(a.legal_for(viewer) == b.legal_for(viewer));
    lemma_state_public(a, b);
}

} // verus!
