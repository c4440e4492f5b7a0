use duel_for_middle_earth_rules::alliance_schema::{
    AllianceEffect, AllianceTokenDefinition, PersistentEffect,
};
use duel_for_middle_earth_rules::card_schema;
use duel_for_middle_earth_rules::catalog::{
    validate_alliance_token, validate_landmark, Catalogue,
};
use duel_for_middle_earth_rules::landmark_schema::{LandmarkCost, LandmarkDefinition, LandmarkEffect};
use duel_for_middle_earth_rules::server::{
    outcome_for, JsonRequest, JsonlSession, Outcome, Reply, TextSession,
};
use duel_for_middle_earth_rules::{
    Action, CardVisibility, Faction, Game, GameError, VictoryType, TOTAL_COINS,
};
use sha2::{Digest, Sha256};

fn helms_deep() -> LandmarkDefinition {
    Catalogue::new()
        .landmark_definition("helms_deep")
        .unwrap()
        .clone()
}

fn message(reply: Reply) -> String {
    match reply {
        Reply::Message(text) => text,
        Reply::Silent => panic!("expected a message, got silence"),
        Reply::Quit => panic!("expected a message, got quit"),
    }
}

#[test]
fn printed_catalogue_keeps_its_own_rules() {
    assert_eq!(Catalogue::new().validate(), Ok(()));
}

#[test]
fn landmark_lookup_finds_printed_tiles_only() {
    let catalogue = Catalogue::new();
    let tile = catalogue.landmark_definition("barad_dur").unwrap();
    assert_eq!(tile.name, "Barad-Dûr");
    assert_eq!(tile.region, card_schema::Region::Mordor);
    assert!(catalogue.landmark_definition("rivendell").is_none());
}

#[test]
fn landmark_validation_names_each_broken_rule() {
    assert_eq!(validate_landmark(&helms_deep()), Ok(()));

    let mut unnamed = helms_deep();
    unnamed.name = String::new();
    assert_eq!(
        validate_landmark(&unnamed),
        Err("helms_deep has an invalid Landmark identity or cost".to_string())
    );

    let mut surcharge = helms_deep();
    surcharge.cost = LandmarkCost {
        coins_per_existing_fortress: 2,
        skills: surcharge.cost.skills.clone(),
    };
    assert_eq!(
        validate_landmark(&surcharge),
        Err("helms_deep has an invalid Landmark identity or cost".to_string())
    );

    let mut zero_skill = helms_deep();
    zero_skill.cost.skills.push((card_schema::Skill::Ruse, 0));
    assert_eq!(
        validate_landmark(&zero_skill),
        Err("helms_deep has an invalid Landmark identity or cost".to_string())
    );

    let mut elsewhere = helms_deep();
    elsewhere.effects[0] = LandmarkEffect::PlaceFortress {
        location: card_schema::Region::Gondor,
    };
    assert_eq!(
        validate_landmark(&elsewhere),
        Err("helms_deep must first place its regional Fortress".to_string())
    );

    let mut fortress_later = helms_deep();
    fortress_later.effects.swap(0, 1);
    assert_eq!(
        validate_landmark(&fortress_later),
        Err("helms_deep must first place its regional Fortress".to_string())
    );
}

#[test]
fn alliance_token_validation_names_each_broken_rule() {
    let token = |id: u8, name: &str, immediate: Vec<AllianceEffect>, persistent: Vec<PersistentEffect>| {
        AllianceTokenDefinition {
            race: card_schema::Race::Ents,
            id,
            name: name.to_string(),
            immediate,
            persistent,
        }
    };
    assert_eq!(
        validate_alliance_token(&token(1, "Quickbeam", vec![AllianceEffect::TakeExtraTurn], vec![])),
        Ok(())
    );
    assert_eq!(
        validate_alliance_token(&token(4, "Quickbeam", vec![AllianceEffect::TakeExtraTurn], vec![])),
        Err("Alliance tokens require a numbered, named face".to_string())
    );
    assert_eq!(
        validate_alliance_token(&token(2, "", vec![AllianceEffect::TakeExtraTurn], vec![])),
        Err("Alliance tokens require a numbered, named face".to_string())
    );
    assert_eq!(
        validate_alliance_token(&token(2, "Quickbeam", vec![], vec![])),
        Err("Quickbeam must be either immediate or persistent".to_string())
    );
    assert_eq!(
        validate_alliance_token(&token(
            3,
            "Quickbeam",
            vec![AllianceEffect::TakeExtraTurn],
            vec![PersistentEffect::EagleRaceSymbol]
        )),
        Err("Quickbeam must be either immediate or persistent".to_string())
    );
}

#[test]
fn observation_is_the_same_whatever_lies_face_down() {
    let game = Game::new(4);
    let mut swapped = game.clone();
    let layout = &mut swapped.chapters[0].layout;
    let hidden: Vec<usize> = layout
        .iter()
        .enumerate()
        .filter(|(_, slot)| slot.visibility == CardVisibility::FaceDown)
        .map(|(index, _)| index)
        .collect();
    assert!(hidden.len() >= 2);
    let first = layout[hidden[0]].card;
    layout[hidden[0]].card = layout[hidden[1]].card;
    layout[hidden[1]].card = first;
    for stack in &mut swapped.alliance_stacks {
        stack.token_order.reverse();
    }
    swapped.landmarks.facedown_deck.reverse();
    assert_ne!(game, swapped);
    for viewer in [Faction::Fellowship, Faction::Sauron] {
        assert_eq!(
            game.render_observation_for(viewer),
            swapped.render_observation_for(viewer)
        );
    }
}

#[test]
fn every_accepted_action_keeps_the_physical_components() {
    let mut game = Game::new(9);
    for _ in 0..200 {
        if game.is_over() {
            break;
        }
        let player = match game.decision_player() {
            Some(player) => player,
            None => game.active_player(),
        };
        let actions = game.legal_actions_for(player);
        if actions.is_empty() {
            break;
        }
        let action = actions[actions.len() / 2].clone();
        game.apply_for(player, action).unwrap();
        assert_eq!(
            game.fellowship.coins + game.sauron.coins + game.coin_reserve,
            TOTAL_COINS
        );
        for faction in [Faction::Fellowship, Faction::Sauron] {
            let on_map: u8 = game
                .map
                .iter()
                .map(|region| game.region_unit_count(faction, region.region))
                .sum();
            assert_eq!(on_map + game.player(faction).units_in_supply, 15);
        }
    }
}

#[test]
fn actions_for_the_other_faction_are_refused_unchanged() {
    let mut game = Game::new(1);
    let action = game.legal_actions_for(Faction::Sauron)[0].clone();
    let before = game.clone();
    assert_eq!(
        game.apply_for(Faction::Fellowship, action.clone()),
        Err(GameError::IllegalAction(action))
    );
    assert_eq!(game, before);
    game.record_victory(Faction::Fellowship, VictoryType::RaceSupport);
    assert_eq!(
        game.apply_for(Faction::Sauron, Action::PlaySelectedCard),
        Err(GameError::IllegalAction(Action::PlaySelectedCard))
    );
    assert_eq!(game.apply(Action::PlaySelectedCard), Err(GameError::GameOver));
}

#[test]
fn text_session_answers_each_command() {
    let mut session = TextSession::new();
    assert!(matches!(session.handle_line("   "), Reply::Silent));
    assert_eq!(
        message(session.handle_line("state sauron")),
        "error: start a game with 'new [seed]'"
    );
    assert_eq!(
        message(session.handle_line("help")),
        "commands: new [seed] | state <fellowship|sauron> | choose <fellowship|sauron> <action-number> | help | quit"
    );
    assert_eq!(
        message(session.handle_line("dance")),
        "error: unknown command (use 'help')"
    );
    assert_eq!(
        message(session.handle_line("new seven")),
        "error: seed must be an unsigned integer"
    );
    assert_eq!(
        message(session.handle_line("new 7")),
        "game created; use `state <fellowship|sauron>`"
    );
    assert_eq!(
        message(session.handle_line("state gollum")),
        "error: state requires fellowship or sauron"
    );
    assert_eq!(
        message(session.handle_line("legal sauron")),
        Game::new(7).render_observation_for(Faction::Sauron)
    );
    assert_eq!(
        message(session.handle_line("choose sauron")),
        "error: choose requires an action number from that player's latest response"
    );
    assert_eq!(
        message(session.handle_line("choose fellowship 0")),
        "error: action number is not legal in the current state"
    );
    let mut expected = Game::new(7);
    let action = expected.legal_actions_for(Faction::Sauron)[0].clone();
    expected.apply_for(Faction::Sauron, action).unwrap();
    assert_eq!(
        message(session.handle_line("choose sauron 0")),
        expected.render_observation_for(Faction::Sauron)
    );
    assert!(matches!(session.handle_line("quit"), Reply::Quit));
}

#[test]
fn state_hash_is_the_sha256_of_the_observation() {
    let mut session = JsonlSession::new("1.0.0".to_string());
    let new = session.handle(JsonRequest::New {
        protocol_version: 1,
        request_id: "new".to_string(),
        seed: Some(3),
    });
    assert_eq!(new.game_id.as_deref(), Some("game-1"));
    assert_eq!(new.outcome, Some(Outcome::InProgress));
    let state = session.handle(JsonRequest::State {
        protocol_version: 1,
        request_id: "state".to_string(),
        game_id: "game-1".to_string(),
        faction: "sauron".to_string(),
    });
    let observation = state.observation.clone().unwrap();
    assert_eq!(observation, Game::new(3).render_observation_for(Faction::Sauron));
    let expected = format!("{:x}", Sha256::digest(observation.as_bytes()));
    assert_eq!(state.state_hash.as_deref(), Some(expected.as_str()));
    assert_ne!(state.state_hash.as_deref(), Some(observation.as_str()));
    assert_eq!(state.legal_actions[0].action_id, "r0-a0");
    assert_eq!(state.legal_actions[1].action_id, "r0-a1");
}

#[test]
fn jsonl_requests_report_their_version_and_id() {
    let request = JsonRequest::State {
        protocol_version: 2,
        request_id: "s-9".to_string(),
        game_id: "game-1".to_string(),
        faction: "sauron".to_string(),
    };
    assert_eq!(request.protocol_version(), 2);
    assert_eq!(request.request_id(), "s-9");
    let mut session = JsonlSession::new("1.0.0".to_string());
    let response = session.handle(request);
    assert_eq!(response.response_type, "error");
    assert_eq!(response.request_id.as_deref(), Some("s-9"));
    assert_eq!(
        response.error.as_deref(),
        Some("unsupported protocolVersion 2")
    );
    let missing = session.handle(JsonRequest::State {
        protocol_version: 1,
        request_id: "s-10".to_string(),
        game_id: "game-1".to_string(),
        faction: "sauron".to_string(),
    });
    assert_eq!(
        missing.error.as_deref(),
        Some("start a game with a new request")
    );
}

#[test]
fn outcome_follows_the_game() {
    let mut game = Game::new(0);
    assert_eq!(outcome_for(&game), Outcome::InProgress);
    game.record_victory(Faction::Sauron, VictoryType::Quest);
    assert_eq!(outcome_for(&game), Outcome::Winner);
}

#[test]
fn text_session_splits_on_unicode_whitespace() {
    let mut session = TextSession::new();
    assert_eq!(
        message(session.handle_line("new\u{3000}7")),
        "game created; use `state <fellowship|sauron>`"
    );
    assert_eq!(
        message(session.handle_line("state\u{a0}sauron")),
        Game::new(7).render_observation_for(Faction::Sauron)
    );
}

#[test]
fn setup_from_one_seed_is_the_same_twice() {
    let a = Game::new(11);
    let b = Game::new(11);
    assert_eq!(a.landmarks.available, b.landmarks.available);
    assert_eq!(a.landmarks.facedown_deck, b.landmarks.facedown_deck);
    assert_eq!(a.chapters[0].discarded, b.chapters[0].discarded);
    for i in 0..6 {
        assert_eq!(a.alliance_stacks[i].token_order, b.alliance_stacks[i].token_order);
    }
    assert!(a.fellowship.tableau.is_empty() && a.sauron.tableau.is_empty());
    assert!(a.fellowship.alliance_tokens.is_empty() && a.sauron.landmarks.is_empty());
}

#[test]
fn printed_skill_lists_follow_the_skill_order() {
    let catalogue = Catalogue::new();
    for card in catalogue.cards.iter() {
        for list in [&card.cost.skills, &card.provides.skills] {
            for w in list.windows(2) {
                assert!(w[0].0.index() < w[1].0.index());
            }
        }
    }
    for tile in catalogue.landmarks.iter() {
        for w in tile.cost.skills.windows(2) {
            assert!(w[0].0.index() < w[1].0.index());
        }
    }
}

#[test]
fn refused_choice_keeps_the_session() {
    let mut session = JsonlSession::new("1.0.0".to_string());
    let _ = session.handle(JsonRequest::New {
        protocol_version: 1,
        request_id: "n".to_string(),
        seed: Some(3),
    });
    let before_revision = session.state_revision;
    let before_issued = session.issued_actions.len();
    let r = session.handle(JsonRequest::Choose {
        protocol_version: 1,
        request_id: "c".to_string(),
        game_id: "game-1".to_string(),
        state_revision: 9,
        turn: 0,
        state_hash: String::new(),
        faction: "sauron".to_string(),
        action_id: "r0-a0".to_string(),
    });
    assert_eq!(r.response_type, "error");
    assert_eq!(r.game_id, Some("game-1".to_string()));
    assert_eq!(session.state_revision, before_revision);
    assert_eq!(session.issued_actions.len(), before_issued);
}
