use duel_for_middle_earth_rules::server::{JsonRequest, JsonlSession, Reply, TextSession};

fn message(reply: Reply) -> String {
    match reply {
        Reply::Message(text) => text,
        Reply::Silent => panic!("expected a message, got silence"),
        Reply::Quit => panic!("expected a message, got quit"),
    }
}

fn session() -> JsonlSession {
    JsonlSession::new("0.1.0".to_string())
}

fn new_game(session: &mut JsonlSession) -> String {
    let new = session.handle(JsonRequest::New {
        protocol_version: 1,
        request_id: "new".to_string(),
        seed: None,
    });
    new.game_id.unwrap()
}

fn state(session: &mut JsonlSession, game_id: &str) -> duel_for_middle_earth_rules::server::JsonResponse {
    session.handle(JsonRequest::State {
        protocol_version: 1,
        request_id: "state".to_string(),
        game_id: game_id.to_string(),
        faction: "sauron".to_string(),
    })
}

#[test]
fn hello_advertises_jsonl_protocol() {
    let mut session = session();
    let response = session.handle(JsonRequest::Hello {
        protocol_version: 1,
        request_id: "hello-1".to_string(),
    });

    assert_eq!(response.response_type, "hello");
    assert_eq!(response.protocol_version, 1);
    assert_eq!(response.request_id.as_deref(), Some("hello-1"));
    assert!(!response.engine_version.is_empty());
    assert!(response.capabilities.contains(&"choose".to_string()));
}

#[test]
fn choose_rejects_stale_revision_and_unissued_actions() {
    let mut session = session();
    let game_id = new_game(&mut session);
    let state = state(&mut session, &game_id);
    let action_id = state.legal_actions[0].action_id.clone();
    let turn = state.turn.unwrap();
    let state_hash = state.state_hash.clone().unwrap();
    let accepted = session.handle(JsonRequest::Choose {
        protocol_version: 1,
        request_id: "choose".to_string(),
        game_id: game_id.clone(),
        state_revision: 0,
        turn,
        state_hash: state_hash.clone(),
        faction: "sauron".to_string(),
        action_id: action_id.clone(),
    });
    assert_eq!(accepted.response_type, "choose");
    assert_eq!(accepted.state_revision, Some(1));

    let stale = session.handle(JsonRequest::Choose {
        protocol_version: 1,
        request_id: "stale".to_string(),
        game_id: game_id.clone(),
        state_revision: 0,
        turn,
        state_hash,
        faction: "sauron".to_string(),
        action_id,
    });
    assert_eq!(stale.response_type, "error");
    assert!(stale.error.unwrap().contains("stateRevision"));

    let invalid = session.handle(JsonRequest::Choose {
        protocol_version: 1,
        request_id: "invalid".to_string(),
        game_id,
        state_revision: 1,
        turn: accepted.turn.unwrap(),
        state_hash: accepted.state_hash.clone().unwrap_or_default(),
        faction: "fellowship".to_string(),
        action_id: "not-issued".to_string(),
    });
    assert_eq!(invalid.response_type, "error");
    assert!(invalid.error.unwrap().contains("actionId"));
}

#[test]
fn choose_rejects_stale_turn_and_state_hash() {
    let mut session = session();
    let game_id = new_game(&mut session);
    let state = state(&mut session, &game_id);
    let action_id = state.legal_actions[0].action_id.clone();
    let stale_turn = session.handle(JsonRequest::Choose {
        protocol_version: 1,
        request_id: "turn".to_string(),
        game_id: game_id.clone(),
        state_revision: state.state_revision.unwrap(),
        turn: 999,
        state_hash: state.state_hash.clone().unwrap(),
        faction: "sauron".to_string(),
        action_id: action_id.clone(),
    });
    assert!(stale_turn.error.unwrap().contains("turn"));
    let stale_hash = session.handle(JsonRequest::Choose {
        protocol_version: 1,
        request_id: "hash".to_string(),
        game_id,
        state_revision: state.state_revision.unwrap(),
        turn: state.turn.unwrap(),
        state_hash: "0".repeat(64),
        faction: "sauron".to_string(),
        action_id,
    });
    assert!(stale_hash.error.unwrap().contains("stateHash"));
}

#[test]
fn legacy_text_protocol_remains_framed_and_unchanged() {
    let mut session = TextSession::new();
    assert_eq!(
        message(session.handle_line("new 42")),
        "game created; use `state <fellowship|sauron>`"
    );
    let state = message(session.handle_line("state sauron"));
    assert!(state.starts_with("state for Sauron:\n"));
    assert!(state.contains("actions:\n0. "));
}
