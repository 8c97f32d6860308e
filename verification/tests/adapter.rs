use terminal_chat::conversation::{
    AnthropicMessage, AnthropicMessageContent, AnthropicRequest, Choice, ConversationContext,
    Message, Output, OutputContent, Response, ResponseC,
};
use terminal_chat::json::{render_anthropic_body, render_chat_body, render_conversation};
use terminal_chat::utils::extract_message_text;

fn msg(role: &str, content: &str) -> Message {
    Message::new(role, content)
}

#[test]
fn anthropic_body_splits_developer_from_turns() {
    let mut ctx = ConversationContext::new("anthropic-medium", false);
    ctx.push(msg("developer", "stay short"));
    ctx.push(msg("user", "q1"));
    ctx.push(msg("assistant", "a1"));
    ctx.push(msg("user", "q2"));
    let req = AnthropicRequest::from_context(&ctx, 2048);
    assert_eq!(req.system, "stay short");
    assert_eq!(req.model, "anthropic-medium");
    assert_eq!(req.max_tokens, 2048);
    assert_eq!(req.messages.len(), 3);
    for m in &req.messages {
        assert_ne!(m.role, "developer");
    }
    assert_eq!(req.messages[0].content, "q1");
    assert_eq!(req.messages[1].content, "a1");
    assert_eq!(req.messages[2].content, "q2");
}

#[test]
fn anthropic_body_without_developer_has_empty_system() {
    let mut ctx = ConversationContext::new("anthropic-large", false);
    ctx.push(msg("user", "only turn"));
    let req = AnthropicRequest::from_context(&ctx, 64);
    assert_eq!(req.system, "");
    assert_eq!(req.messages.len(), 1);
}

fn message_output(texts: &[&str]) -> Output {
    Output {
        type_field: "message".to_string(),
        id: "msg_1".to_string(),
        status: Some("completed".to_string()),
        role: Some("assistant".to_string()),
        content: Some(
            texts
                .iter()
                .map(|t| OutputContent { type_field: "output_text".to_string(), text: t.to_string() })
                .collect(),
        ),
    }
}

fn reasoning_output() -> Output {
    Output {
        type_field: "reasoning".to_string(),
        id: "rs_1".to_string(),
        status: None,
        role: None,
        content: None,
    }
}

#[test]
fn extract_text_returns_first_message_text() {
    let response = Response { output: vec![reasoning_output(), message_output(&["the reply", "extra"])] };
    assert_eq!(extract_message_text(&response), Some("the reply".to_string()));
}

#[test]
fn extract_text_is_absent_without_message_items() {
    let response = Response { output: vec![reasoning_output(), reasoning_output()] };
    assert_eq!(extract_message_text(&response), None);
    let empty = Response { output: vec![] };
    assert_eq!(extract_message_text(&empty), None);
}

#[test]
fn extract_text_skips_message_with_empty_content() {
    let hollow = Output {
        type_field: "message".to_string(),
        id: "msg_0".to_string(),
        status: None,
        role: None,
        content: Some(vec![]),
    };
    let response = Response { output: vec![hollow, message_output(&["later"])] };
    assert_eq!(extract_message_text(&response), Some("later".to_string()));
}

#[test]
fn chat_reply_is_first_choice() {
    let r = ResponseC {
        choices: vec![
            Choice { message: msg("assistant", "first") },
            Choice { message: msg("assistant", "second") },
        ],
    };
    assert_eq!(r.first_text(), Some("first".to_string()));
    let none = ResponseC { choices: vec![] };
    assert_eq!(none.first_text(), None);
}

#[test]
fn anthropic_reply_is_first_block() {
    let r = AnthropicMessage {
        content: vec![
            AnthropicMessageContent { text: "alpha".to_string() },
            AnthropicMessageContent { text: "beta".to_string() },
        ],
    };
    assert_eq!(r.first_text(), Some("alpha".to_string()));
    let none = AnthropicMessage { content: vec![] };
    assert_eq!(none.first_text(), None);
}

#[test]
fn responses_body_shape() {
    let mut ctx = ConversationContext::new("gpt-4o", true);
    ctx.push(msg("developer", "d"));
    ctx.push(msg("user", "u"));
    let body = render_conversation(&ctx);
    assert_eq!(
        body,
        "{\"model\":\"gpt-4o\",\"input\":[{\"role\":\"developer\",\"content\":\"d\"},{\"role\":\"user\",\"content\":\"u\"}],\"stream\":true}"
    );
}

#[test]
fn chat_body_uses_messages_key() {
    let mut ctx = ConversationContext::new("gpt-4o", false);
    ctx.push(msg("user", "u"));
    let body = render_chat_body(&ctx);
    assert_eq!(
        body,
        "{\"model\":\"gpt-4o\",\"messages\":[{\"role\":\"user\",\"content\":\"u\"}],\"stream\":false}"
    );
}

#[test]
fn anthropic_wire_body_shape() {
    let mut ctx = ConversationContext::new("anthropic-small", false);
    ctx.push(msg("developer", "sys"));
    ctx.push(msg("user", "hi"));
    let req = AnthropicRequest::from_context(&ctx, 2048);
    let body = render_anthropic_body(&req);
    assert_eq!(
        body,
        "{\"system\":\"sys\",\"model\":\"anthropic-small\",\"messages\":[{\"role\":\"user\",\"content\":\"hi\"}],\"max_tokens\":2048}"
    );
}
