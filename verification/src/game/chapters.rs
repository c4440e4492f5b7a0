//! The Chapter display: taking, revealing and discarding cards, and moving
//! on to the next Chapter.

use vstd::prelude::*;

use crate::catalog::setup_chapter;
use crate::types::{
    slot_cards, CardSlot, CardVisibility, ChapterCard, ChapterState, Faction, PendingDecision, Region,
    RegionState, VictoryType,
};

use super::{
    all_discarded, available_ids, card_dealt, chapter_held, chapter_wf, chapters_held,
    dealt_cards, lemma_chapters_held_push, lemma_chapters_held_update, present, slot_absent, slot_available,
    Effect, Game,
};

verus! {

/// Whether none of the slots covering `slot` is still in the display.
pub open spec fn covers_cleared(layout: Seq<CardSlot>, slot: CardSlot) -> bool {
    forall|c: int| 0 <= c < slot.covering_slots@.len() ==> slot_absent(layout, #[trigger] slot.covering_slots@[c])
}

/// A slot after the reveal step: a face-down card whose covering cards have
/// all been taken turns face up.
pub open spec fn slot_revealed(layout: Seq<CardSlot>, slot: CardSlot) -> CardSlot {
    if slot.visibility == CardVisibility::FaceDown && covers_cleared(layout, slot) {
        CardSlot { visibility: CardVisibility::FaceUp, ..slot }
    } else {
        slot
    }
}

/// The position of the first slot with the given ID.
pub open spec fn slot_position(layout: Seq<CardSlot>, id: usize) -> int
    decreases layout.len(),
{
    if layout.len() == 0 {
        -1
    } else if slot_position(layout.drop_last(), id) >= 0 {
        slot_position(layout.drop_last(), id)
    } else if layout.last().id == id {
        layout.len() - 1
    } else {
        -1
    }
}

pub proof fn lemma_slot_position(layout: Seq<CardSlot>, id: usize)
    ensures
        slot_position(layout, id) >= 0 ==> {
            &&& slot_position(layout, id) < layout.len()
            &&& layout[slot_position(layout, id)].id == id
        },
        slot_position(layout, id) < 0 ==> slot_absent(layout, id),
        slot_position(layout, id) >= 0 || slot_position(layout, id) == -1,
    decreases layout.len(),
{
    if layout.len() > 0 {
        lemma_slot_position(layout.drop_last(), id);
        if slot_position(layout.drop_last(), id) < 0 {
            assert forall|k: int| 0 <= k < layout.len() implies (#[trigger] layout[k]).id != id
                || layout.last().id == id by {
                if k < layout.len() - 1 {
                    assert(layout[k] == layout.drop_last()[k]);
                }
            }
        }
    }
}

/// The Effects that finish a turn, queued after the turn's own effects.
pub open spec fn turn_completion(player: Faction) -> Seq<Effect> {
    seq![
        Effect::CheckImmediateVictoryConditions,
        Effect::RevealNewlyAvailableCards,
        Effect::TransitionChapterIfComplete,
        Effect::CheckPostRevealEffects,
        Effect::CompleteTurn { player },
    ]
}

/// `b` is `a` with the end of the active player's turn queued last.
pub open spec fn turn_queued(a: Game, b: Game) -> bool {
    &&& b.effect_queue@ == a.effect_queue@ + turn_completion(a.active_player)
    &&& b == (Game { effect_queue: b.effect_queue, ..a })
}

/// `b` is `a` with `card` on top of its Chapter's discard pile.
pub open spec fn discarded_into(a: Game, card: ChapterCard, b: Game) -> bool {
    let c = card.chapter - 1;
    &&& b.chapters@.len() == a.chapters@.len()
    &&& forall|i: int| 0 <= i < a.chapters@.len() && i != c ==> #[trigger] b.chapters@[i] == a.chapters@[i]
    &&& b.chapters@[c].chapter == a.chapters@[c].chapter
    &&& b.chapters@[c].layout == a.chapters@[c].layout
    &&& b.chapters@[c].discarded@ == a.chapters@[c].discarded@.push(card)
    &&& b == (Game { chapters: b.chapters, ..a })
}

/// `b` is `a` with the first copy of `card` taken from the first discard
/// pile that holds it.
pub open spec fn taken_from_discards(a: Game, card: ChapterCard, b: Game) -> bool {
    let h = first_holder(a.chapters@, card);
    let pile = a.chapters@[h].discarded@;
    &&& b.chapters@.len() == a.chapters@.len()
    &&& forall|i: int| 0 <= i < a.chapters@.len() && i != h ==> #[trigger] b.chapters@[i] == a.chapters@[i]
    &&& b.chapters@[h].chapter == a.chapters@[h].chapter
    &&& b.chapters@[h].layout == a.chapters@[h].layout
    &&& b.chapters@[h].discarded@ == pile.remove(first_index(pile, card))
    &&& b == (Game { chapters: b.chapters, ..a })
}

/// How many regions `f` is present in.
pub open spec fn presence_count(map: Seq<RegionState>, f: Faction) -> nat
    decreases map.len(),
{
    if map.len() == 0 {
        0
    } else {
        presence_count(map.drop_last(), f) + if present(map.last(), f) { 1nat } else { 0nat }
    }
}

impl Game {
    /// The Chapter being played.
    pub fn current_chapter_state(&self) -> (r: &ChapterState)
        requires
            self.wf(),
        ensures
            *r == self.current(),
    {
        proof {
            reveal(Game::structure_wf);
        }
        &self.chapters[self.current_chapter as usize - 1]
    }

    /// Whether the card in `slot` can be taken: it lies face up and none of its
    /// covering cards remains in the current display.
    pub fn card_is_available(&self, slot: &CardSlot) -> (r: bool)
        requires
            self.wf(),
        ensures
            r == slot_available(self.current().layout@, *slot),
    {
        proof {
            reveal(Game::structure_wf);
        }
        let layout = &self.chapters[self.current_chapter as usize - 1].layout;
        slot.visibility == CardVisibility::FaceUp && covering_cleared(layout, slot)
    }

    /// Slot IDs for the only Chapter cards the active player may take, in
    /// display order.
    pub fn available_chapter_slot_ids(&self) -> (r: Vec<usize>)
        requires
            self.wf(),
        ensures
            r@ == available_ids(self.current().layout@, self.current().layout@.len() as int),
    {
        proof {
            reveal(Game::structure_wf);
        }
        let layout = &self.chapters[self.current_chapter as usize - 1].layout;
        let mut ids: Vec<usize> = Vec::new();
        let mut i: usize = 0;
        while i < layout.len()
            invariant
                i <= layout@.len(),
                self.wf(),
                *layout == self.current().layout,
                ids@ == available_ids(layout@, i as int),
            decreases layout.len() - i,
        {
            if self.card_is_available(&layout[i]) {
                ids.push(layout[i].id);
            }
            i = i + 1;
        }
        ids
    }

    /// Every discarded card, Chapter by Chapter: effects that pick a discarded
    /// card treat the piles as one.
    pub fn discarded_cards(&self) -> (r: Vec<ChapterCard>)
        ensures
            r@ == all_discarded(self.chapters@),
    {
        let mut cards: Vec<ChapterCard> = Vec::new();
        let mut i: usize = 0;
        while i < self.chapters.len()
            invariant
                i <= self.chapters@.len(),
                cards@ == all_discarded(self.chapters@.subrange(0, i as int)),
            decreases self.chapters.len() - i,
        {
            let pile = &self.chapters[i].discarded;
            let ghost before = cards@;
            let mut k: usize = 0;
            while k < pile.len()
                invariant
                    k <= pile@.len(),
                    cards@ == before + pile@.subrange(0, k as int),
                decreases pile.len() - k,
            {
                cards.push(pile[k]);
                k = k + 1;
                proof {
                    assert(cards@ =~= before + pile@.subrange(0, k as int));
                }
            }
            proof {
                assert(pile@.subrange(0, pile@.len() as int) =~= pile@);
                assert(self.chapters@.subrange(0, i + 1).drop_last() =~= self.chapters@.subrange(0, i as int));
            }
            i = i + 1;
        }
        proof {
            assert(self.chapters@.subrange(0, self.chapters@.len() as int) =~= self.chapters@);
        }
        cards
    }

    /// Puts `card`, held in hand, on the discard pile of its own Chapter.
    pub fn discard_card(&mut self, card: ChapterCard)
        requires
            old(self).wf_holding(card),
        ensures
            final(self).wf(),
            discarded_into(*old(self), card, *final(self)),
    {
        let ghost a = *self;
        let index = card.chapter as usize - 1;
        let mut chapter = self.chapters.remove(index);
        chapter.discarded.push(card);
        self.chapters.insert(index, chapter);
        proof {
            assert(self.chapters@ =~= a.chapters@.update(index as int, chapter));
            broadcast use {vstd::multiset::group_multiset_axioms, vstd::seq_lib::group_to_multiset_ensures};
            let before = a.chapters@[index as int];
            assert(slot_cards(chapter.layout@) + chapter.discarded@ =~= (slot_cards(before.layout@)
                + before.discarded@).push(card));
            assert(chapter_held(chapter) =~= chapter_held(before).insert(card));
            lemma_chapters_held_update(a.chapters@, index as int, chapter);
            assert forall|x: ChapterCard| #[trigger] chapters_held(self.chapters@).count(x)
                == chapters_held(a.chapters@).insert(card).count(x) by {
                assert(chapters_held(self.chapters@).add(chapter_held(before)).count(x)
                    == chapters_held(a.chapters@).add(chapter_held(chapter)).count(x));
            }
            assert(chapters_held(self.chapters@) =~= chapters_held(a.chapters@).insert(card));
            assert(self.located_cards() =~= a.located_cards().insert(card));
            assert(self.structure_wf()) by {
                reveal(Game::structure_wf);
                let n = self.chapters@.len();
                assert forall|i: int| 0 <= i < n implies chapter_wf(#[trigger] self.chapters@[i], n) by {
                    if i != index {
                        assert(self.chapters@[i] == a.chapters@[i]);
                    } else {
                        assert(chapter_wf(a.chapters@[i], n));
                    }
                }
            }
        }
    }
}

/// Whether none of `slot`'s covering slots is still in `layout`.
fn covering_cleared(layout: &Vec<CardSlot>, slot: &CardSlot) -> (r: bool)
    ensures
        r == covers_cleared(layout@, *slot),
{
    let mut c: usize = 0;
    while c < slot.covering_slots.len()
        invariant
            c <= slot.covering_slots@.len(),
            forall|j: int| 0 <= j < c ==> slot_absent(layout@, #[trigger] slot.covering_slots@[j]),
        decreases slot.covering_slots.len() - c,
    {
        let id = slot.covering_slots[c];
        let mut k: usize = 0;
        while k < layout.len()
            invariant
                k <= layout@.len(),
                c < slot.covering_slots@.len(),
                id == slot.covering_slots@[c as int],
                forall|j: int| 0 <= j < k ==> (#[trigger] layout@[j]).id != id,
            decreases layout.len() - k,
        {
            if layout[k].id == id {
                proof {
                    assert(!slot_absent(layout@, slot.covering_slots@[c as int])) by {
                        assert(layout@[k as int].id == id);
                    }
                }
                return false;
            }
            k = k + 1;
        }
        c = c + 1;
    }
    true
}


/// The position of the first `x` in `s`, or -1.
pub open spec fn first_index<T>(s: Seq<T>, x: T) -> int
    decreases s.len(),
{
    if s.len() == 0 {
        -1
    } else if first_index(s.drop_last(), x) >= 0 {
        first_index(s.drop_last(), x)
    } else if s.last() == x {
        s.len() - 1
    } else {
        -1
    }
}

pub proof fn lemma_first_index<T>(s: Seq<T>, x: T)
    ensures
        first_index(s, x) >= 0 ==> first_index(s, x) < s.len() && s[first_index(s, x)] == x,
        first_index(s, x) < 0 ==> !s.contains(x),
        first_index(s, x) >= -1,
    decreases s.len(),
{
    if s.len() > 0 {
        lemma_first_index(s.drop_last(), x);
        if first_index(s.drop_last(), x) < 0 && s.last() != x {
            assert forall|k: int| 0 <= k < s.len() implies s[k] != x by {
                if k < s.len() - 1 {
                    assert(s[k] == s.drop_last()[k]);
                }
            }
        }
    }
}

/// The first Chapter whose discard pile holds `card`, or -1.
pub open spec fn first_holder(chapters: Seq<ChapterState>, card: ChapterCard) -> int
    decreases chapters.len(),
{
    if chapters.len() == 0 {
        -1
    } else if first_holder(chapters.drop_last(), card) >= 0 {
        first_holder(chapters.drop_last(), card)
    } else if chapters.last().discarded@.contains(card) {
        chapters.len() - 1
    } else {
        -1
    }
}

pub proof fn lemma_first_holder(chapters: Seq<ChapterState>, card: ChapterCard)
    ensures
        first_holder(chapters, card) >= 0 ==> first_holder(chapters, card) < chapters.len()
            && chapters[first_holder(chapters, card)].discarded@.contains(card),
        first_holder(chapters, card) < 0 ==> !all_discarded(chapters).contains(card),
        first_holder(chapters, card) >= 0 ==> all_discarded(chapters).contains(card),
    decreases chapters.len(),
{
    if chapters.len() > 0 {
        lemma_first_holder(chapters.drop_last(), card);
        let rest = all_discarded(chapters.drop_last());
        let last = chapters.last().discarded@;
        assert(all_discarded(chapters) == rest + last);
        if first_holder(chapters.drop_last(), card) >= 0 {
            let k = choose|k: int| 0 <= k < rest.len() && rest[k] == card;
            assert((rest + last)[k] == card);
        } else if last.contains(card) {
            let k = choose|k: int| 0 <= k < last.len() && last[k] == card;
            assert((rest + last)[rest.len() + k] == card);
        } else {
            assert forall|k: int| 0 <= k < (rest + last).len() implies (rest + last)[k] != card by {
                if k < rest.len() {
                    assert((rest + last)[k] == rest[k]);
                } else {
                    assert((rest + last)[k] == last[k - rest.len()]);
                }
            }
        }
    }
}

/// The landmark offer refilled to three tiles from the top of the face-down
/// deck (its last element), as long as tiles remain.
pub open spec fn refill(available: Seq<String>, deck: Seq<String>) -> (Seq<String>, Seq<String>)
    decreases deck.len(),
{
    if available.len() >= 3 || deck.len() == 0 {
        (available, deck)
    } else {
        refill(available.push(deck.last()), deck.drop_last())
    }
}

/// The card in slot `slot_id` left the current display and waits to be
/// played or discarded; nothing else changed.
pub open spec fn card_taken(a: Game, slot_id: usize, b: Game) -> bool {
    let layout = a.current().layout@;
    let pos = slot_position(layout, slot_id);
    let c = a.current_chapter - 1;
    &&& b.chapters@.len() == a.chapters@.len()
    &&& forall|i: int| 0 <= i < a.chapters@.len() && i != c ==> #[trigger] b.chapters@[i] == a.chapters@[i]
    &&& b.current().chapter == a.current().chapter
    &&& b.current().discarded == a.current().discarded
    &&& b.current().layout@ == layout.remove(pos)
    &&& b.pending_decision == Some(PendingDecision::CardDisposition { card: layout[pos].card })
    &&& b == (Game { chapters: b.chapters, pending_decision: b.pending_decision, ..a })
}

impl Game {
    /// Removes one copy of `card` from the discard piles: from the first
    /// Chapter that holds it, its first occurrence. Returns whether a copy was
    /// there.
    pub fn remove_discarded_card(&mut self, card: ChapterCard) -> (r: bool)
        requires
            old(self).wf(),
        ensures
            !r ==> final(self).wf(),
            r ==> final(self).wf_holding(card),
            r == all_discarded(old(self).chapters@).contains(card),
            !r ==> *final(self) == *old(self),
            r ==> taken_from_discards(*old(self), card, *final(self)),
    {
        let ghost a = *self;
        proof {
            lemma_first_holder(a.chapters@, card);
        }
        let mut i: usize = 0;
        while i < self.chapters.len()
            invariant
                i <= self.chapters@.len(),
                *self == a,
                a == *old(self),
                a.wf(),
                forall|j: int| 0 <= j < i ==> !(#[trigger] self.chapters@[j]).discarded@.contains(card),
                first_holder(a.chapters@, card) < 0 || first_holder(a.chapters@, card) >= i,
            decreases self.chapters.len() - i,
        {
            let pile = &self.chapters[i].discarded;
            let mut k: usize = 0;
            while k < pile.len() && pile[k] != card
                invariant
                    k <= pile@.len(),
                    forall|j: int| 0 <= j < k ==> pile@[j] != card,
                decreases pile.len() - k,
            {
                k = k + 1;
            }
            if k < pile.len() {
                proof {
                    lemma_first_holder_at(a.chapters@, card, i as int);
                    lemma_first_holder(a.chapters@, card);
                    lemma_first_index(pile@, card);
                    lemma_first_index_is(pile@, card, k as int);
                }
                let mut chapter = self.chapters.remove(i);
                let ghost old_pile = chapter.discarded@;
                assert(old_pile == a.chapters@[i as int].discarded@);
                chapter.discarded.remove(k);
                self.chapters.insert(i, chapter);
                proof {
                    assert(chapter.discarded@ == old_pile.remove(k as int));
                    assert(self.chapters@ =~= a.chapters@.update(i as int, chapter));
                    broadcast use {vstd::multiset::group_multiset_axioms, vstd::seq_lib::group_to_multiset_ensures};
                    let before = a.chapters@[i as int];
                    let slots = slot_cards(before.layout@);
                    assert(slot_cards(chapter.layout@) + chapter.discarded@ =~= (slots + old_pile).remove(
                        slots.len() + k,
                    ));
                    assert((slots + old_pile)[slots.len() + k] == card);
                    assert(chapter_held(chapter) =~= chapter_held(before).remove(card));
                    assert(chapter_held(before).count(card) > 0) by {
                        assert((slots + old_pile).contains(card));
                    }
                    lemma_chapters_held_update(a.chapters@, i as int, chapter);
                    assert forall|x: ChapterCard| #[trigger] chapters_held(self.chapters@).insert(card).count(x)
                        == chapters_held(a.chapters@).count(x) by {
                        assert(chapters_held(self.chapters@).add(chapter_held(before)).count(x)
                            == chapters_held(a.chapters@).add(chapter_held(chapter)).count(x));
                    }
                    assert(chapters_held(self.chapters@).insert(card) =~= chapters_held(a.chapters@));
                    assert(self.located_cards().insert(card) =~= a.located_cards());
                    Game::lemma_structure(a);
                    assert(self.structure_core()) by {
                        let n = self.chapters@.len();
                        assert forall|j: int| 0 <= j < n implies chapter_wf(#[trigger] self.chapters@[j], n) by {
                            if j != i {
                                assert(self.chapters@[j] == a.chapters@[j]);
                            } else {
                                assert(chapter_wf(a.chapters@[j], n));
                                assert forall|m: int| 0 <= m < chapter.discarded@.len() implies card_dealt(
                                    #[trigger] chapter.discarded@[m], n) by {
                                    if m < k {
                                        assert(chapter.discarded@[m] == old_pile[m]);
                                    } else {
                                        assert(chapter.discarded@[m] == old_pile[m + 1]);
                                    }
                                }
                            }
                        }
                    }
                    assert(card_dealt(card, a.chapters@.len())) by {
                        assert(chapter_wf(a.chapters@[i as int], a.chapters@.len()));
                        assert(old_pile[k as int] == card);
                    }
                }
                return true;
            }
            proof {
                assert(!pile@.contains(card));
                lemma_first_holder(a.chapters@, card);
            }
            i = i + 1;
        }
        proof {
            lemma_first_holder(a.chapters@, card);
        }
        false
    }

    /// Takes the card in slot `slot_id` out of the current display; its owner
    /// must now play or discard it.
    pub fn take_chapter_card(&mut self, slot_id: usize)
        requires
            old(self).wf(),
            old(self).pending_decision is None,
            slot_position(old(self).current().layout@, slot_id) >= 0,
        ensures
            final(self).wf(),
            card_taken(*old(self), slot_id, *final(self)),
    {
        let ghost a = *self;
        proof {
            reveal(Game::structure_wf);
            lemma_slot_position(a.current().layout@, slot_id);
        }
        let c = self.current_chapter as usize - 1;
        let mut chapter = self.chapters.remove(c);
        let ghost layout = chapter.layout@;
        let mut pos: usize = 0;
        while pos < chapter.layout.len() && chapter.layout[pos].id != slot_id
            invariant
                pos <= slot_position(layout, slot_id),
                slot_position(layout, slot_id) < layout.len(),
                chapter.layout@ == layout,
            decreases chapter.layout.len() - pos,
        {
            proof {
                lemma_slot_position_first(layout, slot_id, pos as int);
            }
            pos = pos + 1;
        }
        proof {
            lemma_slot_position_first(layout, slot_id, pos as int);
        }
        let slot = chapter.layout.remove(pos);
        let card = slot.card;
        self.chapters.insert(c, chapter);
        self.pending_decision = Some(PendingDecision::CardDisposition { card });
        proof {
            assert(self.chapters@ =~= a.chapters@.update(c as int, chapter));
            broadcast use {vstd::multiset::group_multiset_axioms, vstd::seq_lib::group_to_multiset_ensures};
            let before = a.chapters@[c as int];
            let cards = slot_cards(layout) + before.discarded@;
            assert(slot_cards(chapter.layout@) + chapter.discarded@ =~= cards.remove(pos as int));
            assert(cards[pos as int] == card);
            assert(chapter_held(chapter) =~= chapter_held(before).remove(card));
            assert(chapter_held(before).count(card) > 0) by {
                assert(cards.contains(card));
            }
            lemma_chapters_held_update(a.chapters@, c as int, chapter);
            assert forall|x: ChapterCard| #[trigger] chapters_held(self.chapters@).insert(card).count(x)
                == chapters_held(a.chapters@).count(x) by {
                assert(chapters_held(self.chapters@).add(chapter_held(before)).count(x)
                    == chapters_held(a.chapters@).add(chapter_held(chapter)).count(x));
            }
            assert(chapters_held(self.chapters@).insert(card) =~= chapters_held(a.chapters@));
            assert(self.located_cards() =~= a.located_cards());
            assert(self.structure_wf()) by {
                reveal(Game::structure_wf);
                let n = self.chapters@.len();
                assert(chapter_wf(a.chapters@[c as int], n));
                assert(card_dealt(layout[pos as int].card, n));
                assert forall|j: int| 0 <= j < n implies chapter_wf(#[trigger] self.chapters@[j], n) by {
                    if j != c {
                        assert(self.chapters@[j] == a.chapters@[j]);
                    } else {
                        assert forall|m: int| 0 <= m < chapter.layout@.len() implies card_dealt(
                            #[trigger] chapter.layout@[m].card, n) by {
                            if m < pos {
                                assert(chapter.layout@[m] == layout[m]);
                            } else {
                                assert(chapter.layout@[m] == layout[m + 1]);
                            }
                        }
                    }
                }
            }
        }
    }

    /// Queues the Effects that end the active player's turn.
    pub fn queue_turn_completion(&mut self)
        requires
            old(self).wf(),
        ensures
            final(self).wf(),
            turn_queued(*old(self), *final(self)),
    {
        let ghost a = *self;
        self.effect_queue.push_back(Effect::CheckImmediateVictoryConditions);
        self.effect_queue.push_back(Effect::RevealNewlyAvailableCards);
        self.effect_queue.push_back(Effect::TransitionChapterIfComplete);
        self.effect_queue.push_back(Effect::CheckPostRevealEffects);
        self.effect_queue.push_back(Effect::CompleteTurn { player: self.active_player });
        proof {
            assert(self.effect_queue@ =~= a.effect_queue@ + turn_completion(a.active_player));
            assert(self.structure_wf()) by {
                reveal(Game::structure_wf);
                assert forall|j: int| 0 <= j < self.effect_queue@.len() implies super::effect_wf(
                    #[trigger] self.effect_queue@[j], self.chapters@.len()) by {
                    if j < a.effect_queue@.len() {
                        assert(self.effect_queue@[j] == a.effect_queue@[j]);
                    }
                }
            }
        }
    }
}

proof fn lemma_first_holder_at(chapters: Seq<ChapterState>, card: ChapterCard, i: int)
    requires
        0 <= i < chapters.len(),
        chapters[i].discarded@.contains(card),
        forall|j: int| 0 <= j < i ==> !(#[trigger] chapters[j]).discarded@.contains(card),
    ensures
        first_holder(chapters, card) == i,
    decreases chapters.len(),
{
    if i < chapters.len() - 1 {
        lemma_first_holder_at(chapters.drop_last(), card, i);
    } else {
        lemma_first_holder_none(chapters.drop_last(), card);
    }
}

proof fn lemma_first_holder_none(chapters: Seq<ChapterState>, card: ChapterCard)
    requires
        forall|j: int| 0 <= j < chapters.len() ==> !(#[trigger] chapters[j]).discarded@.contains(card),
    ensures
        first_holder(chapters, card) == -1,
    decreases chapters.len(),
{
    if chapters.len() > 0 {
        lemma_first_holder_none(chapters.drop_last(), card);
    }
}

pub proof fn lemma_first_index_is<T>(s: Seq<T>, x: T, k: int)
    requires
        0 <= k < s.len(),
        s[k] == x,
        forall|j: int| 0 <= j < k ==> s[j] != x,
    ensures
        first_index(s, x) == k,
    decreases s.len(),
{
    if k < s.len() - 1 {
        lemma_first_index_is(s.drop_last(), x, k);
    } else {
        lemma_first_index_none(s.drop_last(), x);
    }
}

proof fn lemma_first_index_none<T>(s: Seq<T>, x: T)
    requires
        forall|j: int| 0 <= j < s.len() ==> s[j] != x,
    ensures
        first_index(s, x) == -1,
    decreases s.len(),
{
    if s.len() > 0 {
        lemma_first_index_none(s.drop_last(), x);
    }
}

/// Before the first slot with an ID, no slot has that ID.
proof fn lemma_slot_position_first(layout: Seq<CardSlot>, id: usize, pos: int)
    requires
        0 <= pos <= slot_position(layout, id),
        slot_position(layout, id) < layout.len(),
    ensures
        pos < slot_position(layout, id) ==> layout[pos].id != id,
        pos == slot_position(layout, id) ==> layout[pos].id == id,
    decreases layout.len(),
{
    lemma_slot_position(layout, id);
    if layout.len() > 0 && slot_position(layout.drop_last(), id) >= 0 {
        lemma_slot_position(layout.drop_last(), id);
        lemma_slot_position_first(layout.drop_last(), id, pos);
    } else if layout.len() > 0 {
        lemma_slot_position(layout.drop_last(), id);
        if pos < layout.len() - 1 {
            assert(layout[pos] == layout.drop_last()[pos]);
        }
    }
}

/// Slots with the same IDs in the same order are equally absent.
proof fn lemma_same_ids_cleared(a: Seq<CardSlot>, b: Seq<CardSlot>, slot: CardSlot)
    requires
        a.len() == b.len(),
        forall|k: int| 0 <= k < a.len() ==> (#[trigger] a[k]).id == b[k].id,
    ensures
        covers_cleared(a, slot) == covers_cleared(b, slot),
{
    assert forall|id: usize| slot_absent(a, id) == slot_absent(b, id) by {
        if !slot_absent(a, id) {
            let k = choose|k: int| 0 <= k < a.len() && (#[trigger] a[k]).id == id;
            assert(b[k].id == id);
        }
        if !slot_absent(b, id) {
            let k = choose|k: int| 0 <= k < b.len() && (#[trigger] b[k]).id == id;
            assert(a[k].id == id);
        }
    }
}

/// `b` is `a` with every face-down card of the current display whose
/// covering cards have all been taken turned face up; nothing else changed.
pub open spec fn cards_revealed(a: Game, b: Game) -> bool {
    let layout = a.current().layout@;
    let c = a.current_chapter - 1;
    &&& b.chapters@.len() == a.chapters@.len()
    &&& forall|i: int| 0 <= i < a.chapters@.len() && i != c
        ==> #[trigger] b.chapters@[i] == a.chapters@[i]
    &&& b.current().chapter == a.current().chapter
    &&& b.current().discarded == a.current().discarded
    &&& b.current().layout@ == layout.map_values(
        |slot: CardSlot| slot_revealed(layout, slot),
    )
    &&& b == (Game { chapters: b.chapters, ..a })
}

/// `b` is `a` after the check for a finished Chapter: while cards remain
/// nothing changes; after the third Chapter the final territorial comparison
/// decides the game; otherwise the next Chapter is dealt and the Landmark
/// offer refilled.
pub open spec fn chapter_transitioned(a: Game, b: Game) -> bool {
    &&& a.current().layout@.len() > 0 ==> b == a
    &&& a.current().layout@.len() == 0 && a.current_chapter == 3 ==> territory_compared(a, b)
    &&& a.current().layout@.len() == 0 && a.current_chapter < 3 ==> {
        let next = b.chapters@.last();
        let (available, deck) = refill(a.landmarks.available@, a.landmarks.facedown_deck@);
        &&& b.current_chapter == a.current_chapter + 1
        &&& b.chapters@.drop_last() == a.chapters@
        &&& next.chapter == b.current_chapter
        &&& next.layout@.len() == 20
        &&& next.discarded@.len() == 3
        &&& (crate::types::slot_cards(next.layout@) + next.discarded@).to_multiset()
            == crate::catalog::spec_chapter_cards(b.current_chapter).to_multiset()
        &&& crate::types::slot_cards(next.layout@) + next.discarded@ == crate::catalog::spec_deal(
            b.current_chapter,
            a.rng.0,
        )
        &&& forall|k: int| 0 <= k < 20 ==> {
            let slot = #[trigger] next.layout@[k];
            &&& slot.id == k
            &&& (slot.row, slot.column, slot.visibility) == crate::catalog::layout_positions(b.current_chapter)[k]
            &&& slot.covering_slots@ == crate::catalog::covering_below(
                crate::catalog::layout_positions(b.current_chapter),
                k,
                20,
            )
        }
        &&& b.rng.0 == crate::catalog::rng_advanced(a.rng.0, 22)
        &&& b.landmarks.available@ == available
        &&& b.landmarks.facedown_deck@ == deck
        &&& b == (Game {
            current_chapter: b.current_chapter,
            chapters: b.chapters,
            rng: b.rng,
            landmarks: b.landmarks,
            ..a
        })
    }
}

/// `b` is `a` after the final territorial comparison: more regions held
/// (units or Fortress) win; a tie is a shared victory. Nothing else changes.
pub open spec fn territory_compared(a: Game, b: Game) -> bool {
    let f = presence_count(a.map@, Faction::Fellowship);
    let s = presence_count(a.map@, Faction::Sauron);
    &&& f > s ==> b.winner == Some(Faction::Fellowship)
        && b.victory_type == Some(VictoryType::TerritorialComparison)
        && b.shared_territory_victory == a.shared_territory_victory
    &&& f < s ==> b.winner == Some(Faction::Sauron)
        && b.victory_type == Some(VictoryType::TerritorialComparison)
        && b.shared_territory_victory == a.shared_territory_victory
    &&& f == s ==> b.winner == a.winner
        && b.victory_type == Some(VictoryType::SharedTerritorialComparison)
        && b.shared_territory_victory
    &&& b == (Game {
        winner: b.winner,
        victory_type: b.victory_type,
        shared_territory_victory: b.shared_territory_victory,
        ..a
    })
}

impl Game {
    /// Turns face up every face-down card in the current display whose
    /// covering cards have all been taken.
    pub fn reveal_newly_available_cards(&mut self)
        requires
            old(self).wf(),
        ensures
            super::holdings_kept(*old(self), *final(self)),
            final(self).wf(),
            cards_revealed(*old(self), *final(self)),
    {
        let ghost a = *self;
        proof {
            reveal(Game::structure_wf);
        }
        let c = self.current_chapter as usize - 1;
        let mut chapter = self.chapters.remove(c);
        let ghost chapter0 = chapter;
        let ghost layout = chapter.layout@;
        let mut i: usize = 0;
        while i < chapter.layout.len()
            invariant
                i <= chapter.layout@.len(),
                chapter.layout@.len() == layout.len(),
                chapter.chapter == chapter0.chapter,
                chapter.discarded == chapter0.discarded,
                forall|k: int| 0 <= k < layout.len() ==> (#[trigger] chapter.layout@[k]).id == layout[k].id,
                forall|k: int| 0 <= k < i ==> #[trigger] chapter.layout@[k] == slot_revealed(layout, layout[k]),
                forall|k: int| i <= k < layout.len() ==> #[trigger] chapter.layout@[k] == layout[k],
            decreases chapter.layout.len() - i,
        {
            proof {
                lemma_same_ids_cleared(chapter.layout@, layout, chapter.layout@[i as int]);
            }
            let flip = chapter.layout[i].visibility == CardVisibility::FaceDown && covering_cleared(
                &chapter.layout,
                &chapter.layout[i],
            );
            if flip {
                let mut slot = chapter.layout.remove(i);
                slot.visibility = CardVisibility::FaceUp;
                chapter.layout.insert(i, slot);
            }
            proof {
                assert(chapter.layout@[i as int] == slot_revealed(layout, layout[i as int]));
            }
            i = i + 1;
        }
        self.chapters.insert(c, chapter);
        proof {
            assert(chapter.layout@ =~= layout.map_values(|slot: CardSlot| slot_revealed(layout, slot)));
            assert(self.chapters@ =~= a.chapters@.update(c as int, chapter));
            let before = a.chapters@[c as int];
            assert(slot_cards(chapter.layout@) =~= slot_cards(layout));
            assert(chapter_held(chapter) == chapter_held(before));
            lemma_chapters_held_update(a.chapters@, c as int, chapter);
            assert(chapters_held(self.chapters@) =~= chapters_held(a.chapters@)) by {
                broadcast use vstd::multiset::group_multiset_axioms;
                assert forall|x: ChapterCard| #[trigger] chapters_held(self.chapters@).count(x)
                    == chapters_held(a.chapters@).count(x) by {
                    assert(chapters_held(self.chapters@).add(chapter_held(before)).count(x)
                        == chapters_held(a.chapters@).add(chapter_held(chapter)).count(x));
                }
            }
            assert(self.located_cards() == a.located_cards());
            assert(self.structure_wf()) by {
                reveal(Game::structure_wf);
                let n = self.chapters@.len();
                assert forall|j: int| 0 <= j < n implies chapter_wf(#[trigger] self.chapters@[j], n) by {
                    if j != c {
                        assert(self.chapters@[j] == a.chapters@[j]);
                    } else {
                        assert(chapter_wf(a.chapters@[j], n));
                        assert forall|m: int| 0 <= m < chapter.layout@.len() implies card_dealt(
                            #[trigger] chapter.layout@[m].card, n) by {
                            assert(chapter.layout@[m].card == layout[m].card);
                        }
                    }
                }
            }
        }
    }

    /// Counts the regions where each faction is present; more regions wins,
    /// and a tie is a shared victory.
    pub fn resolve_final_territorial_comparison(&mut self)
        requires
            old(self).wf(),
        ensures
            super::holdings_kept(*old(self), *final(self)),
            final(self).wf(),
            territory_compared(*old(self), *final(self)),
    {
        let ghost a = *self;
        let fellowship = self.presence_total(Faction::Fellowship);
        let sauron = self.presence_total(Faction::Sauron);
        if fellowship > sauron {
            self.record_victory(Faction::Fellowship, VictoryType::TerritorialComparison);
        } else if fellowship < sauron {
            self.record_victory(Faction::Sauron, VictoryType::TerritorialComparison);
        } else {
            self.shared_territory_victory = true;
            self.victory_type = Some(VictoryType::SharedTerritorialComparison);
        }
        proof {
            assert(self.structure_wf()) by {
                reveal(Game::structure_wf);
            }
        }
    }

    /// How many regions `faction` is present in.
    fn presence_total(&self, faction: Faction) -> (r: u8)
        requires
            self.board_wf(),
        ensures
            r == presence_count(self.map@, faction),
    {
        let mut count: u8 = 0;
        let mut i: usize = 0;
        while i < 7
            invariant
                i <= 7,
                self.board_wf(),
                count == presence_count(self.map@.subrange(0, i as int), faction),
                count <= i,
            decreases 7 - i,
        {
            let region = crate::types::region_at_index(i);
            proof {
                assert(self.map@.subrange(0, i + 1).drop_last() =~= self.map@.subrange(0, i as int));
                assert(self.map@[i as int].region == region);
                crate::types::lemma_region_index(region);
            }
            if self.has_presence(faction, region) {
                count = count + 1;
            }
            i = i + 1;
        }
        proof {
            assert(self.map@.subrange(0, 7) =~= self.map@);
        }
        count
    }

    /// After the last card of a Chapter is taken, the next Chapter is dealt
    /// and the Landmark offer refilled; after the third, the game ends in the
    /// final territorial comparison.
    pub fn transition_chapter_if_complete(&mut self)
        requires
            old(self).wf(),
        ensures
            super::holdings_kept(*old(self), *final(self)),
            final(self).wf(),
            final(self).effect_queue == old(self).effect_queue,
            chapter_transitioned(*old(self), *final(self)),
    {
        let ghost a = *self;
        proof {
            reveal(Game::structure_wf);
        }
        if self.chapters[self.current_chapter as usize - 1].layout.len() > 0 {
            return;
        }
        if self.current_chapter == 3 {
            self.resolve_final_territorial_comparison();
            return;
        }
        self.current_chapter = self.current_chapter + 1;
        let next = setup_chapter(self.current_chapter, &mut self.rng);
        proof {
            super::lemma_dealt_chapter(next, self.current_chapter);
        }
        let ghost c0 = self.chapters@;
        self.chapters.push(next);
        proof {
            assert(self.chapters@.drop_last() =~= c0);
        }
        let ghost dealt = *self;
        while self.landmarks.available.len() < 3 && self.landmarks.facedown_deck.len() > 0
            invariant
                refill(self.landmarks.available@, self.landmarks.facedown_deck@) == refill(
                    a.landmarks.available@,
                    a.landmarks.facedown_deck@,
                ),
                *self == (Game { landmarks: self.landmarks, ..dealt }),
                self.landmarks.available@.to_multiset().add(self.landmarks.facedown_deck@.to_multiset())
                    == a.landmarks.available@.to_multiset().add(a.landmarks.facedown_deck@.to_multiset()),
            decreases self.landmarks.facedown_deck@.len(),
        {
            let ghost offer = self.landmarks.available@;
            let ghost deck = self.landmarks.facedown_deck@;
            let landmark = self.landmarks.facedown_deck.pop().unwrap();
            self.landmarks.available.push(landmark);
            proof {
                broadcast use {vstd::multiset::group_multiset_axioms, vstd::seq_lib::group_to_multiset_ensures};
                assert(deck =~= self.landmarks.facedown_deck@.push(landmark));
                assert(self.landmarks.available@ == offer.push(landmark));
                assert(self.landmarks.available@.to_multiset().add(self.landmarks.facedown_deck@.to_multiset())
                    =~= offer.to_multiset().add(deck.to_multiset()));
            }
        }
        proof {
            let n = self.chapters@.len();
            assert(n == a.chapters@.len() + 1);
            lemma_chapters_held_push(c0, next);
            assert(chapter_held(next) == crate::catalog::spec_chapter_cards(n as u8).to_multiset());
            assert(dealt_cards(n) == dealt_cards((n - 1) as nat).add(chapter_held(next)));
            assert(self.located_cards() =~= a.located_cards().add(chapter_held(next))) by {
                broadcast use vstd::multiset::group_multiset_axioms;
            }
            assert(self.located_landmarks() =~= a.located_landmarks()) by {
                broadcast use vstd::multiset::group_multiset_axioms;
            }
            assert(self.structure_wf()) by {
                reveal(Game::structure_wf);
                assert forall|j: int| 0 <= j < n implies chapter_wf(#[trigger] self.chapters@[j], n) by {
                    if j < n - 1 {
                        assert(self.chapters@[j] == a.chapters@[j]);
                        assert(chapter_wf(a.chapters@[j], (n - 1) as nat));
                        let ch = a.chapters@[j];
                        assert forall|m: int| 0 <= m < ch.layout@.len() implies card_dealt(#[trigger] ch.layout@[m].card, n) by {
                            assert(card_dealt(ch.layout@[m].card, (n - 1) as nat));
                        }
                        assert forall|m: int| 0 <= m < ch.discarded@.len() implies card_dealt(#[trigger] ch.discarded@[m], n) by {
                            assert(card_dealt(ch.discarded@[m], (n - 1) as nat));
                        }
                    }
                }
                let f = self.fellowship;
                let sa = self.sauron;
                assert forall|m: int| 0 <= m < f.tableau@.len() implies card_dealt(#[trigger] f.tableau@[m], n) by {
                    assert(card_dealt(f.tableau@[m], (n - 1) as nat));
                }
                assert forall|m: int| 0 <= m < sa.tableau@.len() implies card_dealt(#[trigger] sa.tableau@[m], n) by {
                    assert(card_dealt(sa.tableau@[m], (n - 1) as nat));
                }
                assert forall|m: int| 0 <= m < self.effect_queue@.len() implies super::effect_wf(#[trigger] self.effect_queue@[m], n) by {
                    assert(super::effect_wf(self.effect_queue@[m], (n - 1) as nat));
                }
            }
        }
    }
}

/// A card on a discard pile of a well-formed state was dealt.
pub proof fn lemma_card_in_discards(g: Game, card: ChapterCard)
    requires
        g.wf(),
        all_discarded(g.chapters@).contains(card),
    ensures
        card_dealt(card, g.chapters@.len()),
{
    Game::lemma_structure(g);
    lemma_discards_dealt(g.chapters@, g.chapters@.len(), card);
}

proof fn lemma_discards_dealt(chapters: Seq<ChapterState>, n: nat, card: ChapterCard)
    requires
        forall|i: int| 0 <= i < chapters.len() ==> chapter_wf(#[trigger] chapters[i], n),
        all_discarded(chapters).contains(card),
    ensures
        card_dealt(card, n),
    decreases chapters.len(),
{
    if chapters.len() > 0 {
        let rest = all_discarded(chapters.drop_last());
        let last = chapters.last().discarded@;
        assert(all_discarded(chapters) == rest + last);
        let k = choose|k: int| 0 <= k < (rest + last).len() && (rest + last)[k] == card;
        if k < rest.len() {
            assert(rest[k] == card);
            assert forall|i: int| 0 <= i < chapters.drop_last().len() implies chapter_wf(
                #[trigger] chapters.drop_last()[i], n) by {
                assert(chapters.drop_last()[i] == chapters[i]);
            }
            lemma_discards_dealt(chapters.drop_last(), n, card);
        } else {
            assert(last[k - rest.len()] == card);
            assert(chapter_wf(chapters[chapters.len() - 1], n));
        }
    }
}

/// A slot with the ID is in the display, so its first position is known.
pub proof fn lemma_slot_found(layout: Seq<CardSlot>, id: usize, k: int)
    requires
        0 <= k < layout.len(),
        layout[k].id == id,
    ensures
        slot_position(layout, id) >= 0,
{
    lemma_slot_position(layout, id);
    if slot_position(layout, id) < 0 {
        assert(!slot_absent(layout, id));
    }
}
} // verus!
