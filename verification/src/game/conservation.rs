//! Where the physical components are: every state that play reaches keeps
//! each of them in exactly one place.

use vstd::prelude::*;

use crate::catalog::spec_chapter_cards;
use crate::types::{AllianceToken, ChapterCard};

use super::{dealt_cards, lemma_printed_tokens_count, printed_landmark_ids, Game};

verus! {

/// A printed card of one of the first `n` Chapters.
pub open spec fn dealt(card: ChapterCard, n: nat) -> bool {
    1 <= card.chapter <= n && 1 <= card.number <= 23 && card.copy == 0
}

proof fn lemma_chapter_cards_count(chapter: u8, card: ChapterCard)
    ensures
        spec_chapter_cards(chapter).to_multiset().count(card) == if card.chapter == chapter && 1 <= card.number
            <= 23 && card.copy == 0 {
            1nat
        } else {
            0nat
        },
{
    broadcast use {vstd::multiset::group_multiset_axioms, vstd::seq_lib::group_to_multiset_ensures};
    let s = spec_chapter_cards(chapter);
    assert(s.no_duplicates()) by {
        assert forall|i: int, j: int| 0 <= i < s.len() && 0 <= j < s.len() && i != j implies s[i] != s[j] by {
            assert(s[i].number == (i + 1) as u8);
            assert(s[j].number == (j + 1) as u8);
        }
    }
    s.lemma_multiset_has_no_duplicates();
    if card.chapter == chapter && 1 <= card.number <= 23 && card.copy == 0 {
        assert(s[card.number - 1] == card);
        assert(s.contains(card));
    } else {
        assert(!s.contains(card));
    }
}

proof fn lemma_dealt_count(n: nat, card: ChapterCard)
    requires
        n <= 3,
    ensures
        dealt_cards(n).count(card) == if dealt(card, n) { 1nat } else { 0nat },
    decreases n,
{
    broadcast use vstd::multiset::group_multiset_axioms;
    if n > 0 {
        lemma_dealt_count((n - 1) as nat, card);
        lemma_chapter_cards_count(n as u8, card);
    }
}

/// Every card of every dealt Chapter lies in exactly one place: a display, a
/// discard pile, a tableau, or the hand of the player deciding what to do
/// with it; no other card lies anywhere.
pub proof fn law_every_card_in_one_place(g: Game, card: ChapterCard)
    requires
        g.wf(),
    ensures
        g.located_cards().count(card) == if dealt(card, g.chapters@.len()) { 1nat } else { 0nat },
{
    Game::lemma_structure(g);
    lemma_dealt_count(g.chapters@.len(), card);
}

/// Every printed Landmark tile lies in exactly one place: on offer, in the
/// face-down deck, or with one of the players.
pub proof fn law_every_landmark_in_one_place(g: Game)
    requires
        g.wf(),
    ensures
        g.located_landmarks() == printed_landmark_ids(*g.catalogue).to_multiset(),
{
    Game::lemma_structure(g);
}

/// Every printed Alliance token (numbers 1 to 3 of each Race) lies in exactly
/// one place: in its Race's stack, with one of the players, or among the
/// tokens revealed for a choice; no other token lies anywhere.
pub proof fn law_every_token_in_one_place(g: Game, token: AllianceToken)
    requires
        g.wf(),
    ensures
        g.located_tokens().count(token) == if 1 <= token.id <= 3 { 1nat } else { 0nat },
{
    Game::lemma_structure(g);
    lemma_printed_tokens_count(6, token);
}

} // verus!
