use terminal_chat::conversation::{ConversationContext, Message};
use terminal_chat::json::{parse_conversation, render_conversation};

fn msg(role: &str, content: &str) -> Message {
    Message::new(role, content)
}

fn assert_deep_equal(a: &ConversationContext, b: &ConversationContext) {
    assert_eq!(a.model, b.model);
    assert_eq!(a.stream, b.stream);
    assert_eq!(a.input.len(), b.input.len());
    for (x, y) in a.input.iter().zip(b.input.iter()) {
        assert_eq!(x.role, y.role);
        assert_eq!(x.content, y.content);
    }
}

#[test]
fn save_then_load_restores_the_transcript() {
    let mut ctx = ConversationContext::new("gpt-4o", true);
    ctx.push(msg("developer", "keep answers short"));
    ctx.push(msg("user", "what is a monad?"));
    ctx.push(msg("assistant", "a monoid in the category of endofunctors"));
    ctx.push(msg("user", "thanks"));
    ctx.push(msg("assistant", "any time"));
    let saved = render_conversation(&ctx);
    let loaded = parse_conversation(&saved).expect("the saved transcript must load");
    assert_deep_equal(&ctx, &loaded);
}

#[test]
fn round_trip_survives_escaping() {
    let mut ctx = ConversationContext::new("o3-mini", false);
    ctx.push(msg("developer", "say \"hi\"\nwith a\ttab and a \\ backslash"));
    ctx.push(msg("user", "control \u{1} char and unicode \u{1F916} robot"));
    let saved = render_conversation(&ctx);
    let loaded = parse_conversation(&saved).expect("escaped content must load");
    assert_deep_equal(&ctx, &loaded);
}

#[test]
fn rendered_form_is_exact() {
    let mut ctx = ConversationContext::new("m", false);
    ctx.push(msg("user", "a\"b\\c\nd"));
    let saved = render_conversation(&ctx);
    assert_eq!(
        saved,
        "{\"model\":\"m\",\"input\":[{\"role\":\"user\",\"content\":\"a\\\"b\\\\c\\nd\"}],\"stream\":false}"
    );
}

#[test]
fn control_characters_render_as_hex_escapes() {
    let mut ctx = ConversationContext::new("m", false);
    ctx.push(msg("user", "\u{1}\u{1f}"));
    let saved = render_conversation(&ctx);
    assert_eq!(
        saved,
        "{\"model\":\"m\",\"input\":[{\"role\":\"user\",\"content\":\"\\u0001\\u001f\"}],\"stream\":false}"
    );
}

#[test]
fn empty_transcript_round_trips() {
    let ctx = ConversationContext::new("", false);
    let saved = render_conversation(&ctx);
    assert_eq!(saved, "{\"model\":\"\",\"input\":[],\"stream\":false}");
    let loaded = parse_conversation(&saved).expect("an empty transcript must load");
    assert_deep_equal(&ctx, &loaded);
}

#[test]
fn malformed_text_does_not_load() {
    assert!(parse_conversation("").is_none());
    assert!(parse_conversation("{}").is_none());
    assert!(parse_conversation("{\"model\":\"m\",\"input\":[],\"stream\":false").is_none());
    assert!(parse_conversation("{\"model\":\"m\",\"input\":[],\"stream\":false}x").is_none());
    assert!(parse_conversation("{\"model\":\"m\",\"input\":[,],\"stream\":false}").is_none());
    assert!(parse_conversation("{\"model\":\"m\",\"input\":[],\"stream\":maybe}").is_none());
    assert!(parse_conversation("{\"model\":\"m\",\"input\":[],\"stream\":true}}").is_none());
}

#[test]
fn parser_accepts_simple_escapes() {
    let loaded = parse_conversation(
        "{\"model\":\"m\",\"input\":[{\"role\":\"user\",\"content\":\"a\\/b\\u0041\"}],\"stream\":true}",
    )
    .expect("escapes must parse");
    assert_eq!(loaded.input[0].content, "a/bA");
    assert!(loaded.stream);
}
