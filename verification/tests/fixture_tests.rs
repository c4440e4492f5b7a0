use duel_for_middle_earth_rules::game::ResolutionEvent;
use duel_for_middle_earth_rules::{
    Action, CardSlot, CardVisibility, ChapterCard, Faction, Game, GameError, PendingDecision,
};

fn card(chapter: u8, number: u8) -> ChapterCard {
    ChapterCard {
        chapter,
        number,
        copy: 0,
    }
}

/// A fresh game whose current chapter display holds `cards`, face up and
/// uncovered, in slot order.
fn with_display(active: Faction, cards: &[ChapterCard]) -> Game {
    let mut game = Game::new(0);
    game.active_player = active;
    let chapter = game.current_chapter as usize - 1;
    game.chapters[chapter].layout = cards
        .iter()
        .enumerate()
        .map(|(id, card)| CardSlot {
            id,
            row: 0,
            column: id as u8,
            card: *card,
            visibility: CardVisibility::FaceUp,
            covering_slots: Vec::new(),
        })
        .collect();
    game
}

fn assert_illegal_action_unchanged(game: &mut Game, action: Action) {
    let before = game.clone();
    assert_eq!(
        game.run_action(action.clone()),
        Err(GameError::IllegalAction(action))
    );
    assert_eq!(*game, before);
}

#[test]
fn fixture_runs_actions_resolves_choices_and_records_events() {
    let mut game = with_display(Faction::Sauron, &[card(1, 9)]);

    game.run_action(Action::TakeChapterCard { slot_id: 0 })
        .unwrap();
    assert!(matches!(
        game.pending_decision,
        Some(PendingDecision::CardDisposition { .. })
    ));
    game.resolve_choice(Action::PlaySelectedCard).unwrap();

    assert_eq!(game.sauron.coins, 4);
    assert_eq!(
        game.resolution_events,
        vec![
            ResolutionEvent::PlayedCard {
                player: Faction::Sauron,
                card: card(1, 9),
            },
            ResolutionEvent::CardEffect {
                player: Faction::Sauron,
            },
            ResolutionEvent::CheckImmediateVictoryConditions,
            ResolutionEvent::RevealNewlyAvailableCards,
            ResolutionEvent::TransitionChapterIfComplete,
            ResolutionEvent::CheckPostRevealEffects,
            ResolutionEvent::CompleteTurn {
                player: Faction::Sauron,
            },
        ]
    );
}

#[test]
fn fixture_asserts_illegal_actions_leave_state_unchanged() {
    let mut game = with_display(Faction::Sauron, &[card(1, 9)]);
    assert_illegal_action_unchanged(&mut game, Action::TakeChapterCard { slot_id: 99 });
}
