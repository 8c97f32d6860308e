use terminal_chat::conversation::{ConversationContext, Message};

fn msg(role: &str, content: &str) -> Message {
    Message::new(role, content)
}

#[test]
fn push_keeps_insertion_order_in_debug() {
    let mut ctx = ConversationContext::new("gpt-4o", false);
    ctx.push(msg("developer", "be brief"));
    ctx.push(msg("user", "hello"));
    ctx.push(msg("assistant", "hi"));
    ctx.push(msg("user", "bye"));
    let lines = ctx.debug_lines();
    assert_eq!(lines.len(), 4);
    assert_eq!(lines[0], "developer:\nbe brief\n:::\n");
    assert_eq!(lines[1], "user:\nhello\n:::\n");
    assert_eq!(lines[2], "assistant:\nhi\n:::\n");
    assert_eq!(lines[3], "user:\nbye\n:::\n");
}

#[test]
fn clear_then_reseed_leaves_developer_first() {
    let mut ctx = ConversationContext::new("o1", true);
    ctx.push(msg("user", "one"));
    ctx.push(msg("assistant", "two"));
    ctx.push(msg("user", "three"));
    let dev = msg("developer", "the instruction");
    ctx.clear_to_developer(&dev);
    assert_eq!(ctx.input.len(), 1);
    assert_eq!(ctx.input[0].role, "developer");
    assert_eq!(ctx.input[0].content, "the instruction");
    assert_eq!(ctx.model, "o1");
    assert!(ctx.stream);
}

#[test]
fn set_stream_toggles_only_the_flag() {
    let mut ctx = ConversationContext::new("gpt-4o", true);
    ctx.push(msg("user", "kept"));
    ctx.set_stream(false);
    assert!(!ctx.stream);
    assert_eq!(ctx.input.len(), 1);
    assert_eq!(ctx.model, "gpt-4o");
}

#[test]
fn rewrite_developer_replaces_first_developer_only() {
    let mut ctx = ConversationContext::new("gpt-4o", false);
    ctx.push(msg("developer", "old instruction"));
    ctx.push(msg("user", "hello"));
    ctx.push(msg("developer", "a second one"));
    ctx.rewrite_developer("new instruction");
    assert_eq!(ctx.input[0].content, "new instruction");
    assert_eq!(ctx.input[1].content, "hello");
    assert_eq!(ctx.input[2].content, "a second one");
}

#[test]
fn rewrite_developer_without_developer_changes_nothing() {
    let mut ctx = ConversationContext::new("gpt-4o", false);
    ctx.push(msg("user", "hello"));
    ctx.rewrite_developer("new instruction");
    assert_eq!(ctx.input.len(), 1);
    assert_eq!(ctx.input[0].content, "hello");
}
