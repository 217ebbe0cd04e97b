use vellum::decoder::StreamDecoder;
use vellum::models::ChatSendRequest;
use vellum::models::EngineError;
use vellum::models::ProviderProfileInput;
use vellum::models::TurnConfig;
use vellum::store::TimelineStore;
use vellum::turn::begin_turn;
use vellum::turn::chat_compress_context;
use vellum::turn::chat_create;
use vellum::turn::chat_fork_branch;
use vellum::turn::chat_get_timeline;
use vellum::turn::chat_regenerate;
use vellum::turn::commit_turn;
use vellum::turn::prepare_request;

fn local_provider() -> ProviderProfileInput {
    ProviderProfileInput {
        id: "prov".to_string(),
        name: "Local".to_string(),
        base_url: "http://localhost:11434/v1".to_string(),
        api_key: "sk-local-0123456789".to_string(),
        proxy_url: None,
        full_local_only: false,
    }
}

fn active_config() -> TurnConfig {
    TurnConfig {
        full_local_mode: false,
        active_provider_id: Some("prov".to_string()),
        active_model: Some("test-model".to_string()),
    }
}

fn send(store: &mut TimelineStore, chat_id: &str, branch_id: Option<String>, content: &str) -> vellum::turn::TurnTicket {
    let req = ChatSendRequest {
        chat_id: chat_id.to_string(),
        content: content.to_string(),
        branch_id,
    };
    begin_turn(store, &req).expect("branch should resolve")
}

#[test]
fn full_turn_persists_user_then_assistant() {
    let mut store = TimelineStore::new();
    let chat = chat_create(&mut store, "Chat".to_string());

    let ticket = send(&mut store, &chat.id, None, "Hi");

    let mid_turn = chat_get_timeline(&store, &chat.id, None).unwrap();
    assert_eq!(mid_turn.len(), 1);
    assert_eq!(mid_turn[0].role, "user");
    assert_eq!(mid_turn[0].content, "Hi");
    assert_eq!(mid_turn[0].parent_id, None);
    assert_eq!(mid_turn[0].id.len(), 36);
    assert!(!mid_turn[0].created_at.is_empty());

    let request = prepare_request(&store, &ticket, &active_config(), Some(&local_provider()))
        .expect("gate should pass");
    assert_eq!(request.model, "test-model");
    assert_eq!(request.messages.len(), 2);
    assert_eq!(request.messages[0].role, "system");
    assert_eq!(request.messages[1].role, "user");
    assert_eq!(request.messages[1].content, "Hi");

    let mut d = StreamDecoder::new();
    d.feed_chunk(b"data: {\"choices\":[{\"delta\":{\"content\":\"Hello \"}}]}\n");
    d.feed_chunk(b"data: {\"choices\":[{\"delta\":{\"content\":\"there\"}}]}\n");
    d.feed_chunk(b"data: [DONE]\n");

    let outcome = commit_turn(&mut store, &ticket, d.accumulated_text()).expect("text is not empty");
    let timeline = outcome.timeline;
    assert_eq!(timeline.len(), 2);
    assert_eq!(timeline[0].role, "user");
    assert_eq!(timeline[0].content, "Hi");
    assert_eq!(timeline[1].role, "assistant");
    assert_eq!(timeline[1].content, "Hello there");
    assert_eq!(timeline[1].parent_id, Some(timeline[0].id.clone()));
    assert_eq!(timeline[1].id, outcome.assistant_message_id);
    // ceil(11 / 3.7) = 3
    assert_eq!(timeline[1].token_count, 3);
}

#[test]
fn empty_stream_fails_and_keeps_user_message() {
    let mut store = TimelineStore::new();
    let chat = chat_create(&mut store, "Chat".to_string());
    let ticket = send(&mut store, &chat.id, None, "Hi");

    let mut d = StreamDecoder::new();
    let events = d.feed_chunk(b"data: [DONE]\n");
    assert!(events.is_empty());

    let result = commit_turn(&mut store, &ticket, d.accumulated_text());
    assert!(matches!(result, Err(EngineError::EmptyResponse)));

    let timeline = chat_get_timeline(&store, &chat.id, None).unwrap();
    assert_eq!(timeline.len(), 1);
    assert_eq!(timeline[0].role, "user");
}

#[test]
fn whitespace_only_stream_is_an_empty_response() {
    let mut store = TimelineStore::new();
    let chat = chat_create(&mut store, "Chat".to_string());
    let ticket = send(&mut store, &chat.id, None, "Hi");
    let result = commit_turn(&mut store, &ticket, "  \n\t ".to_string());
    assert!(matches!(result, Err(EngineError::EmptyResponse)));
}

#[test]
fn remote_local_only_provider_fails_before_any_network_call() {
    let mut store = TimelineStore::new();
    let chat = chat_create(&mut store, "Chat".to_string());
    let ticket = send(&mut store, &chat.id, None, "Hi");

    let mut provider = local_provider();
    provider.base_url = "https://api.example.com".to_string();
    provider.full_local_only = true;

    let result = prepare_request(&store, &ticket, &active_config(), Some(&provider));
    assert!(matches!(result, Err(EngineError::PolicyViolation)));
}

#[test]
fn full_local_mode_blocks_remote_provider() {
    let mut store = TimelineStore::new();
    let chat = chat_create(&mut store, "Chat".to_string());
    let ticket = send(&mut store, &chat.id, None, "Hi");

    let mut provider = local_provider();
    provider.base_url = "https://api.example.com".to_string();
    let mut config = active_config();
    config.full_local_mode = true;

    let result = prepare_request(&store, &ticket, &config, Some(&provider));
    assert!(matches!(result, Err(EngineError::PolicyViolation)));
}

#[test]
fn missing_active_selection_is_a_configuration_error() {
    let mut store = TimelineStore::new();
    let chat = chat_create(&mut store, "Chat".to_string());
    let ticket = send(&mut store, &chat.id, None, "Hi");

    let mut config = active_config();
    config.active_model = None;
    let result = prepare_request(&store, &ticket, &config, Some(&local_provider()));
    assert!(matches!(result, Err(EngineError::Configuration)));

    let mut config2 = active_config();
    config2.active_provider_id = None;
    let result2 = prepare_request(&store, &ticket, &config2, Some(&local_provider()));
    assert!(matches!(result2, Err(EngineError::Configuration)));
}

#[test]
fn missing_provider_row_is_not_found() {
    let mut store = TimelineStore::new();
    let chat = chat_create(&mut store, "Chat".to_string());
    let ticket = send(&mut store, &chat.id, None, "Hi");
    let result = prepare_request(&store, &ticket, &active_config(), None);
    assert!(matches!(result, Err(EngineError::NotFound)));
}

#[test]
fn begin_turn_on_unknown_chat_is_not_found() {
    let mut store = TimelineStore::new();
    let req = ChatSendRequest {
        chat_id: "nowhere".to_string(),
        content: "Hi".to_string(),
        branch_id: None,
    };
    assert!(matches!(begin_turn(&mut store, &req), Err(EngineError::NotFound)));
}

#[test]
fn forked_branch_sees_only_its_own_messages() {
    let mut store = TimelineStore::new();
    let chat = chat_create(&mut store, "Chat".to_string());

    let t1 = send(&mut store, &chat.id, None, "root question");
    commit_turn(&mut store, &t1, "root answer".to_string()).unwrap();
    let root_timeline = chat_get_timeline(&store, &chat.id, None).unwrap();
    assert_eq!(root_timeline.len(), 2);

    let fork = chat_fork_branch(
        &mut store,
        chat.id.clone(),
        root_timeline[0].id.clone(),
        "alt".to_string(),
    );
    assert_eq!(fork.parent_message_id, Some(root_timeline[0].id.clone()));

    let t2 = send(&mut store, &chat.id, Some(fork.id.clone()), "fork question");
    let outcome = commit_turn(&mut store, &t2, "fork answer".to_string()).unwrap();

    for m in &outcome.timeline {
        assert_eq!(m.branch_id, fork.id);
    }
    assert_eq!(outcome.timeline.len(), 2);
    assert_eq!(outcome.timeline[0].content, "fork question");
    assert_eq!(outcome.timeline[1].content, "fork answer");

    // the root branch still resolves as the default, unchanged by the fork
    let after = chat_get_timeline(&store, &chat.id, None).unwrap();
    assert_eq!(after.len(), 2);
    assert_eq!(after[0].content, "root question");
}

#[test]
fn regenerate_answers_the_last_user_message() {
    let mut store = TimelineStore::new();
    let chat = chat_create(&mut store, "Chat".to_string());
    let t1 = send(&mut store, &chat.id, None, "tell me more");
    commit_turn(&mut store, &t1, "first answer".to_string()).unwrap();

    let timeline = chat_regenerate(&mut store, &chat.id, None).unwrap();
    assert_eq!(timeline.len(), 3);
    assert_eq!(timeline[2].role, "assistant");
    assert_eq!(timeline[2].content, "[Regenerated] tell me more");
    assert_eq!(timeline[2].parent_id, Some(timeline[0].id.clone()));
}

#[test]
fn regenerate_without_user_message_is_not_found() {
    let mut store = TimelineStore::new();
    let chat = chat_create(&mut store, "Chat".to_string());
    let result = chat_regenerate(&mut store, &chat.id, None);
    assert!(matches!(result, Err(EngineError::NotFound)));
}

#[test]
fn compress_digests_newest_first() {
    let mut store = TimelineStore::new();
    let chat = chat_create(&mut store, "Chat".to_string());
    let t1 = send(&mut store, &chat.id, None, "line one\nline two");
    commit_turn(&mut store, &t1, "answer one".to_string()).unwrap();

    let digest = chat_compress_context(&store, &chat.id, None).unwrap();
    assert_eq!(digest, "assistant: answer one\nuser: line one");
}
