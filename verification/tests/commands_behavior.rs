use terminal_chat::commands::{
    apply_model_choice, build_document_context, build_readme_context, build_title_context,
    choose_image_model, command_list, compose_report, conversation_filename, find_matching_word,
    help_text, min_distance, push_file_message, readme_filename, report_filename, sanitize_title,
    select_model, suggest_command,
};
use terminal_chat::conversation::{ConversationContext, Message};

fn msg(role: &str, content: &str) -> Message {
    Message::new(role, content)
}

#[test]
fn edit_distance_examples() {
    assert_eq!(min_distance("cm", "cn"), 1);
    assert_eq!(min_distance("readme", "raedme"), 2);
    assert_eq!(min_distance("", "abc"), 3);
    assert_eq!(min_distance("kitten", "sitting"), 3);
    assert_eq!(min_distance("same", "same"), 0);
}

#[test]
fn suggestion_picks_nearest_registered_name() {
    // a typo with a registered near-exact match suggests that match
    assert_eq!(suggest_command("claer"), "clear");
    assert_eq!(suggest_command("debg"), "debug");
    assert_eq!(suggest_command("readm"), "readme");
}

#[test]
fn suggestion_fails_only_on_an_empty_list() {
    assert!(find_matching_word("x", vec![]).is_err());
    let words = vec!["alpha".to_string(), "beta".to_string()];
    assert_eq!(find_matching_word("alpa", words).unwrap(), "alpha");
}

#[test]
fn suggestion_breaks_ties_by_registration_order() {
    // both names are one edit away; the first registered wins
    let words = vec!["ab".to_string(), "cb".to_string()];
    assert_eq!(find_matching_word("bb", words).unwrap(), "ab");
}

#[test]
fn title_sanitization() {
    assert_eq!(sanitize_title("New/Report \"Q1\""), "New_Report_Q1");
    assert_eq!(sanitize_title("a\\b c/d"), "a_b_c_d");
    assert_eq!(sanitize_title("plain"), "plain");
    assert_eq!(sanitize_title(""), "");
}

#[test]
fn report_paths_and_contents() {
    assert_eq!(report_filename("New/Report \"Q1\""), "reports/New_Report_Q1.md");
    assert_eq!(readme_filename("notes"), "readmes/notes.md");
    assert_eq!(conversation_filename("test"), "conversations/test.json");
    assert_eq!(compose_report("Title", "Body"), "Title\n\nBody");
}

#[test]
fn added_file_becomes_one_user_message() {
    let mut ctx = ConversationContext::new("gpt-4o", false);
    ctx.push(msg("developer", "d"));
    let before = ctx.input.len();
    // foo.txt was readable: exactly one tagged user message is appended.
    // bar.txt was not: the caller reports the error and appends nothing.
    push_file_message(&mut ctx, "foo.txt", "the contents");
    assert_eq!(ctx.input.len(), before + 1);
    let added = &ctx.input[before];
    assert_eq!(added.role, "user");
    assert_eq!(added.content, "foo.txt\n\n:::\n\nthe contents");
}

#[test]
fn document_context_keeps_non_developer_turns() {
    let mut ctx = ConversationContext::new("anthropic-large", true);
    ctx.push(msg("developer", "ignored"));
    ctx.push(msg("user", "q"));
    ctx.push(msg("assistant", "a"));
    let doc = build_document_context(&ctx);
    assert_eq!(doc.model, "o3-mini");
    assert!(!doc.stream);
    assert_eq!(doc.input.len(), 3);
    assert_eq!(doc.input[0].role, "developer");
    assert!(doc.input[0].content.contains("well-formed document"));
    assert_eq!(doc.input[1].content, "q");
    assert_eq!(doc.input[2].content, "a");
}

#[test]
fn title_context_carries_the_report() {
    let t = build_title_context("the report body");
    assert_eq!(t.model, "gpt-4o");
    assert_eq!(t.input.len(), 1);
    assert!(t.input[0].content.ends_with(" \n::\n the report body"));
}

#[test]
fn readme_context_is_seeded_with_the_instruction() {
    let r = build_readme_context();
    assert_eq!(r.model, "o3-mini");
    assert_eq!(r.input.len(), 1);
    assert_eq!(r.input[0].role, "developer");
    assert!(r.input[0].content.contains("README"));
}

#[test]
fn image_model_menu() {
    assert_eq!(choose_image_model("2"), ("dall-e-2".to_string(), true));
    assert_eq!(choose_image_model("3"), ("dall-e-3".to_string(), true));
    assert_eq!(choose_image_model("x"), ("dall-e-2".to_string(), false));
}

#[test]
fn model_choice_applies_only_valid_selections() {
    let models = vec!["gpt-4o".to_string(), "o1".to_string(), "o3-mini".to_string()];
    let mut ctx = ConversationContext::new("gpt-4o", false);
    assert!(apply_model_choice(&mut ctx, &models, "2"));
    assert_eq!(ctx.model, "o1");
    assert!(!apply_model_choice(&mut ctx, &models, "0"));
    assert_eq!(ctx.model, "o1");
    assert!(!apply_model_choice(&mut ctx, &models, "4"));
    assert!(!apply_model_choice(&mut ctx, &models, "two"));
    assert!(!apply_model_choice(&mut ctx, &models, ""));
    assert!(!apply_model_choice(&mut ctx, &models, "99999999999999999999"));
    assert!(apply_model_choice(&mut ctx, &models, "+3"));
    assert_eq!(ctx.model, "o3-mini");
}

#[test]
fn help_lists_every_command() {
    let text = help_text();
    for entry in command_list() {
        assert!(text.contains(entry.name.as_str()));
        assert!(text.contains(entry.description.as_str()));
    }
    assert!(text.starts_with("\nAvailable commands:\n"));
    assert!(text.contains("clear   - Clears the conversation context.\n"));
}

#[test]
fn select_model_reads_the_menu_reply() {
    let models = vec!["gpt-4o".to_string(), "o1".to_string()];
    assert_eq!(select_model(&models, "1"), Some("gpt-4o".to_string()));
    assert_eq!(select_model(&models, "2"), Some("o1".to_string()));
    assert_eq!(select_model(&models, "3"), None);
    assert_eq!(select_model(&models, "0"), None);
    assert_eq!(select_model(&models, "one"), None);
}
