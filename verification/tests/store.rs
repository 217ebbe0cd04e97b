use vellum::models::EngineError;
use vellum::store::TimelineStore;
use vellum::turn::chat_create;
use vellum::turn::chat_fork_branch;
use vellum::turn::chat_get_timeline;
use vellum::turn::begin_turn;
use vellum::models::ChatSendRequest;

fn send(store: &mut TimelineStore, chat_id: &str, content: &str) -> vellum::turn::TurnTicket {
    let req = ChatSendRequest {
        chat_id: chat_id.to_string(),
        content: content.to_string(),
        branch_id: None,
    };
    begin_turn(store, &req).unwrap()
}

#[test]
fn default_branch_is_the_earliest_created() {
    let mut store = TimelineStore::new();
    let chat = chat_create(&mut store, "Chat".to_string());
    let root = store.resolve_branch(&chat.id, None).unwrap();

    // later forks never change which branch resolves by default
    let fork = chat_fork_branch(&mut store, chat.id.clone(), "m1".to_string(), "alt".to_string());
    assert_ne!(fork.id, root);
    let resolved = store.resolve_branch(&chat.id, None).unwrap();
    assert_eq!(resolved, root);

    // a supplied branch id is returned unchanged, without validation
    let supplied = store
        .resolve_branch(&chat.id, Some("whatever".to_string()))
        .unwrap();
    assert_eq!(supplied, "whatever");
}

#[test]
fn resolve_on_chat_without_branches_is_not_found() {
    let store = TimelineStore::new();
    let result = store.resolve_branch(&"ghost".to_string(), None);
    assert!(matches!(result, Err(EngineError::NotFound)));
}

#[test]
fn edit_replaces_content_and_recounts_tokens() {
    let mut store = TimelineStore::new();
    let chat = chat_create(&mut store, "Chat".to_string());
    send(&mut store, &chat.id, "old text");
    let timeline = chat_get_timeline(&store, &chat.id, None).unwrap();
    let id = timeline[0].id.clone();

    store.edit_message(&id, "a considerably longer replacement".to_string());
    let after = chat_get_timeline(&store, &chat.id, None).unwrap();
    assert_eq!(after[0].content, "a considerably longer replacement");
    // ceil(10 * 33 / 37) = 9
    assert_eq!(after[0].token_count, 9);
}

#[test]
fn soft_deleted_messages_leave_timeline_reads() {
    let mut store = TimelineStore::new();
    let chat = chat_create(&mut store, "Chat".to_string());
    send(&mut store, &chat.id, "first");
    send(&mut store, &chat.id, "second");
    let timeline = chat_get_timeline(&store, &chat.id, None).unwrap();
    assert_eq!(timeline.len(), 2);

    store.delete_message(&timeline[0].id);
    let after = chat_get_timeline(&store, &chat.id, None).unwrap();
    assert_eq!(after.len(), 1);
    assert_eq!(after[0].content, "second");
}
