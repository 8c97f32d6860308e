use terminal_chat::message_printer::word_wrap;
use terminal_chat::tc_config::{
    available_colors, default_theme, enforce_message_boxes, is_valid_color, reconcile_config,
    ConfigTC,
};
use terminal_chat::utils::{
    calculate_message_width, confirm_action, get_all_model_names, sequence_equals,
};

#[test]
fn test_sequence_equals() {
    // Equal sequences
    assert!(sequence_equals(
        &vec!["a".to_string(), "b".to_string()],
        &vec!["a".to_string(), "b".to_string()]
    ));

    // Equal sequences in different order
    assert!(sequence_equals(
        &vec!["a".to_string(), "b".to_string()],
        &vec!["b".to_string(), "a".to_string()]
    ));

    // Different lengths
    assert!(!sequence_equals(
        &vec!["a".to_string(), "b".to_string()],
        &vec!["a".to_string(), "b".to_string(), "c".to_string()]
    ));

    // Different contents
    assert!(!sequence_equals(
        &vec!["a".to_string(), "b".to_string()],
        &vec!["a".to_string(), "c".to_string()]
    ));

    // Empty sequences
    assert!(sequence_equals(&vec![], &vec![]));
}

#[test]
fn affirmative_replies() {
    assert!(confirm_action("y"));
    assert!(confirm_action("Y"));
    assert!(confirm_action("yes"));
    assert!(confirm_action("YES"));
    assert!(confirm_action("Yes"));
    assert!(!confirm_action("n"));
    assert!(!confirm_action("no"));
    assert!(!confirm_action(""));
    assert!(!confirm_action("yess"));
}

#[test]
fn message_width_shrinks_to_short_single_lines() {
    // max_chat_width below any real terminal width, so the terminal size
    // cannot change the outcome
    assert_eq!(calculate_message_width("hi", 10, 100), 6);
    assert_eq!(calculate_message_width("a longer single line than ten", 10, 100), 10);
    assert_eq!(calculate_message_width("two\nlines", 10, 100), 10);
    assert_eq!(calculate_message_width("", 10, 100), 10);
}

#[test]
fn wrapped_lines_are_framed() {
    let wrapped = word_wrap("ab", 9, "|".to_string());
    assert_eq!(wrapped, "| ab    |\n");
    let blank = word_wrap("", 9, "|".to_string());
    assert_eq!(blank, "|       |\n");
    let two = word_wrap("aaa bbb", 9, "|".to_string());
    assert_eq!(two, "| aaa   |\n| bbb   |\n");
}

#[test]
fn color_names_are_checked_ignoring_case() {
    assert!(is_valid_color("red"));
    assert!(is_valid_color("Dark_Cyan"));
    assert!(!is_valid_color("mauve"));
    assert_eq!(available_colors().len(), 16);
    let theme = default_theme();
    assert_eq!(theme.system_color, "yellow");
    assert_eq!(theme.user_color, "green");
    assert_eq!(theme.assistant_color, "blue");
}

#[test]
fn default_config_uses_the_first_model() {
    let c = ConfigTC::default(vec!["m1".to_string(), "m2".to_string()]);
    assert_eq!(c.model, "m1");
    assert!(!c.enable_streaming);
    let empty = ConfigTC::default(vec![]);
    assert_eq!(empty.model, "default_model_name");
}

#[test]
fn reconcile_refreshes_stale_lists_and_models() {
    let mut c = ConfigTC::default(vec!["old".to_string()]);
    let available = vec!["new1".to_string(), "new2".to_string()];
    let (refreshed, replaced) = reconcile_config(&mut c, &available);
    assert!(refreshed);
    assert!(replaced);
    assert_eq!(c.all_models, available);
    assert_eq!(c.model, "new1");
    let (refreshed2, replaced2) = reconcile_config(&mut c, &available);
    assert!(!refreshed2);
    assert!(!replaced2);
}

#[test]
fn message_boxes_disable_streaming_and_markdown() {
    let mut c = ConfigTC::default(vec!["m".to_string()]);
    c.enable_streaming = true;
    c.preview_md = true;
    c.message_boxes_enabled = true;
    enforce_message_boxes(&mut c);
    assert!(!c.enable_streaming);
    assert!(!c.preview_md);
}

#[test]
fn model_lists_combine_by_enabled_providers() {
    let anthropic = vec!["anthropic-a".to_string(), "anthropic-b".to_string()];
    let both = get_all_model_names(true, true, anthropic.clone());
    assert_eq!(both.len(), 7);
    assert_eq!(both[0], "gpt-4o");
    assert_eq!(both[5], "anthropic-a");
    let openai_only = get_all_model_names(false, true, vec![]);
    assert_eq!(openai_only, vec!["gpt-4o", "gpt-4o-mini", "gpt-4o-search-preview", "o1", "o3-mini"]);
    let anthropic_only = get_all_model_names(true, false, anthropic.clone());
    assert_eq!(anthropic_only, anthropic);
}
