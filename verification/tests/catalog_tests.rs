use std::collections::BTreeSet;

use duel_for_middle_earth_rules::catalog::{setup_chapter, Catalogue, DeterministicRng};
use duel_for_middle_earth_rules::{ChapterCard, CARDS_IN_LAYOUT, CARDS_PER_CHAPTER, RACES, REGIONS};

#[test]
fn chapter_two_and_three_layouts_have_printed_row_shapes_and_unique_cards() {
    let mut rng = DeterministicRng::new(7);
    for (chapter, rows) in [(2, vec![6, 5, 4, 3, 2]), (3, vec![2, 3, 4, 2, 4, 3, 2])] {
        let state = setup_chapter(chapter, &mut rng);
        assert_eq!(
            (0..rows.len())
                .map(|row| state
                    .layout
                    .iter()
                    .filter(|slot| slot.row == row as u8)
                    .count())
                .collect::<Vec<_>>(),
            rows
        );
        assert_eq!(state.layout.len(), CARDS_IN_LAYOUT);
        assert_eq!(state.discarded.len(), CARDS_PER_CHAPTER - CARDS_IN_LAYOUT);
        let cards = state
            .layout
            .iter()
            .map(|slot| slot.card.text())
            .chain(state.discarded.iter().map(|card| card.text()))
            .collect::<BTreeSet<_>>();
        assert_eq!(cards.len(), CARDS_PER_CHAPTER);
        assert!(
            cards
                .iter()
                .all(|card| card.starts_with(&format!("C{chapter}-")))
        );
    }
}

#[test]
fn catalogue_json_has_complete_unique_landmarks_and_alliance_tokens() {
    let catalogue = Catalogue::new();
    let landmarks = &catalogue.landmarks;
    assert_eq!(landmarks.len(), REGIONS.len());
    assert_eq!(
        landmarks
            .iter()
            .map(|landmark| &landmark.id)
            .collect::<BTreeSet<_>>()
            .len(),
        landmarks.len()
    );
    assert_eq!(
        landmarks
            .iter()
            .map(|landmark| format!("{:?}", landmark.region))
            .collect::<BTreeSet<_>>()
            .len(),
        REGIONS.len()
    );

    let tokens = &catalogue.tokens;
    assert_eq!(tokens.len(), RACES.len() * 3);
    for race in RACES {
        assert_eq!(
            tokens
                .iter()
                .filter(|token| format!("{:?}", token.race) == format!("{:?}", race))
                .map(|token| token.id)
                .collect::<BTreeSet<_>>(),
            BTreeSet::from([1, 2, 3])
        );
    }
}

#[test]
fn every_card_record_has_a_unique_stable_id_and_a_source_supported_family_shape() {
    let catalogue = Catalogue::new();
    let cards = &catalogue.cards;
    assert_eq!(cards.len(), 69);
    assert_eq!(
        cards
            .iter()
            .map(|card| &card.id)
            .collect::<BTreeSet<_>>()
            .len(),
        69
    );
    for chapter in 1..=3 {
        assert_eq!(
            cards.iter().filter(|card| card.chapter == chapter).count(),
            23
        );
        for number in 1..=23 {
            let card = ChapterCard {
                chapter,
                number,
                copy: 0,
            };
            let definition = catalogue.card_definition(card);
            assert_eq!(definition.id, format!("chapter{chapter}_card_{number:02}"));
            definition.validate().unwrap();
        }
    }

    assert_eq!(
        cards
            .iter()
            .map(|card| format!("{}:{:?}", card.chapter, card.color))
            .collect::<Vec<_>>(),
        [
            "1:Grey", "1:Grey", "1:Grey", "1:Grey", "1:Grey", "1:Grey", "1:Grey", "1:Grey",
            "1:Yellow", "1:Yellow", "1:Yellow", "1:Yellow", "1:Blue", "1:Blue", "1:Blue", "1:Blue",
            "1:Green", "1:Green", "1:Green", "1:Green", "1:Red", "1:Red", "1:Red", "2:Grey",
            "2:Grey", "2:Grey", "2:Grey", "2:Grey", "2:Grey", "2:Grey", "2:Yellow", "2:Yellow",
            "2:Blue", "2:Blue", "2:Blue", "2:Blue", "2:Blue", "2:Green", "2:Green", "2:Green",
            "2:Green", "2:Red", "2:Red", "2:Red", "2:Red", "2:Red", "3:Yellow", "3:Yellow",
            "3:Blue", "3:Blue", "3:Blue", "3:Blue", "3:Blue", "3:Green", "3:Green", "3:Green",
            "3:Green", "3:Red", "3:Red", "3:Red", "3:Red", "3:Red", "3:Red", "3:Purple",
            "3:Purple", "3:Purple", "3:Purple", "3:Purple", "3:Purple",
        ]
    );
    assert_eq!(
        cards
            .iter()
            .filter(|card| card.cost.chain.is_some())
            .count(),
        17
    );
    assert_eq!(
        cards
            .iter()
            .filter(|card| card.provides_chain.is_some())
            .count(),
        17
    );
    assert_eq!(
        cards
            .iter()
            .filter(|card| !card.provides.skills_any_of.is_empty())
            .count(),
        2
    );
    assert_eq!(
        cards
            .iter()
            .filter(|card| card.provides.race.is_some())
            .count(),
        12
    );
}
