use vellum::composer::compose_prompt;
use vellum::models::PromptBlock;

fn block(id: &str, kind: &str, enabled: bool, order: i32, content: &str) -> PromptBlock {
    PromptBlock {
        id: id.to_string(),
        kind: kind.to_string(),
        enabled,
        order,
        content: content.to_string(),
    }
}

#[test]
fn respects_block_order() {
    let blocks = vec![
        block("2", "history", true, 2, "h"),
        block("1", "system", true, 1, "s"),
    ];
    let sorted = compose_prompt(blocks);
    assert_eq!(sorted[0].id, "1");
    assert_eq!(sorted[1].id, "2");
}

#[test]
fn prompt_orchestration_is_stable() {
    let blocks = vec![
        block("2", "history", true, 2, "H"),
        block("1", "system", true, 1, "S"),
    ];
    let composed = compose_prompt(blocks);
    assert_eq!(composed[0].id, "1");
    assert_eq!(composed[1].id, "2");
}

#[test]
fn disabled_blocks_are_dropped() {
    let blocks = vec![
        block("a", "system", true, 1, "s"),
        block("b", "lore", false, 2, "l"),
        block("c", "history", true, 3, "h"),
    ];
    let composed = compose_prompt(blocks);
    assert_eq!(composed.len(), 2);
    assert_eq!(composed[0].id, "a");
    assert_eq!(composed[1].id, "c");
}

#[test]
fn equal_orders_keep_input_position() {
    let blocks = vec![
        block("first", "x", true, 5, "1"),
        block("second", "y", true, 5, "2"),
        block("third", "z", true, 1, "3"),
    ];
    let composed = compose_prompt(blocks);
    assert_eq!(composed[0].id, "third");
    assert_eq!(composed[1].id, "first");
    assert_eq!(composed[2].id, "second");
}

#[test]
fn compose_is_idempotent_on_its_output() {
    let blocks = vec![
        block("b", "x", true, 2, "2"),
        block("a", "y", false, 1, "1"),
        block("c", "z", true, 2, "3"),
        block("d", "w", true, 0, "4"),
    ];
    let once = compose_prompt(blocks);
    let twice = compose_prompt(once.clone());
    assert_eq!(once.len(), twice.len());
    for (x, y) in once.iter().zip(twice.iter()) {
        assert_eq!(x.id, y.id);
        assert_eq!(x.order, y.order);
        assert_eq!(x.content, y.content);
    }
}

#[test]
fn compose_of_empty_is_empty() {
    let composed = compose_prompt(Vec::new());
    assert!(composed.is_empty());
}
