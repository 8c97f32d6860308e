use terminal_chat::chat_client::process_chunk;
use terminal_chat::commands::push_file_message;
use terminal_chat::conversation::{ConversationContext, Message};
use terminal_chat::run::{choose_route, classify_line, parse_command_line, tokenize, LineAction, RequestRoute};

#[test]
fn streamed_frames_accumulate_in_order() {
    let mut acc = String::new();
    let printed = process_chunk("data: {\"delta\":\"Hel\"}", &mut acc);
    assert_eq!(printed, vec!["Hel".to_string()]);
    let printed = process_chunk(
        "data: {\"type\":\"response.created\"}\n\ndata: {\"delta\":\"lo\"}",
        &mut acc,
    );
    assert_eq!(printed, vec!["lo".to_string()]);
    assert_eq!(acc, "Hello");
}

#[test]
fn control_frames_are_skipped_without_aborting() {
    let mut acc = String::new();
    let printed = process_chunk("data: not json at all", &mut acc);
    assert!(printed.is_empty());
    assert_eq!(acc, "");
    let printed = process_chunk("data: {\"delta\":\"ok\"}\n\nevent: done", &mut acc);
    assert_eq!(printed, vec!["ok".to_string()]);
    assert_eq!(acc, "ok");
}

#[test]
fn event_marker_cuts_a_frame() {
    let mut acc = String::new();
    // the frame only parses because everything after the event marker is
    // discarded before parsing
    let printed = process_chunk("data: {\"delta\":\"x\"}event: ignored", &mut acc);
    assert_eq!(printed, vec!["x".to_string()]);
    assert_eq!(acc, "x");
}

#[test]
fn tokenizer_splits_on_whitespace() {
    assert_eq!(tokenize("gf a.txt  b.txt"), vec!["gf", "a.txt", "b.txt"]);
    assert_eq!(tokenize("   "), Vec::<String>::new());
    assert_eq!(tokenize("\tone\n"), vec!["one"]);
}

#[test]
fn command_lines_split_into_name_and_args() {
    let (name, args) = parse_command_line("gf foo.txt bar.txt").unwrap();
    assert_eq!(name, "gf");
    assert_eq!(args, vec!["foo.txt", "bar.txt"]);
    assert!(parse_command_line("  ").is_none());
}

#[test]
fn lines_classify_as_the_loop_treats_them() {
    assert!(matches!(classify_line("   "), LineAction::Empty));
    assert!(matches!(classify_line(""), LineAction::Empty));
    assert!(matches!(classify_line(":q"), LineAction::Quit));
    assert!(matches!(classify_line(":quit"), LineAction::Quit));
    assert!(matches!(classify_line("hello there"), LineAction::Chat));
    assert!(matches!(classify_line(" :clear"), LineAction::Chat));
    assert!(matches!(classify_line(":"), LineAction::BlankCommand));
    match classify_line(":gf foo.txt bar.txt") {
        LineAction::Command(name, args) => {
            assert_eq!(name, "gf");
            assert_eq!(args, vec!["foo.txt", "bar.txt"]);
        }
        _ => panic!("expected a command"),
    }
}

#[test]
fn routes_follow_model_and_flag() {
    let anthropic = vec!["anthropic-medium".to_string(), "anthropic-small".to_string()];
    assert_eq!(choose_route("anthropic-medium", true, &anthropic), RequestRoute::Anthropic);
    assert_eq!(choose_route("anthropic-small", false, &anthropic), RequestRoute::Anthropic);
    assert_eq!(choose_route("gpt-4o", false, &anthropic), RequestRoute::BufferedChat);
    assert_eq!(choose_route("GPT-4o-Search-Preview", true, &anthropic), RequestRoute::BufferedChat);
    assert_eq!(choose_route("gpt-4o", true, &anthropic), RequestRoute::Streaming);
    assert_eq!(choose_route("o1", true, &anthropic), RequestRoute::Streaming);
}

#[test]
fn gf_line_adds_only_the_readable_file() {
    // the user sends `:gf foo.txt bar.txt`
    let (name, args) = match classify_line(":gf foo.txt bar.txt") {
        LineAction::Command(name, args) => (name, args),
        _ => panic!("expected a command"),
    };
    assert_eq!(name, "gf");

    let mut ctx = ConversationContext::new("gpt-4o", false);
    ctx.push(Message::new("developer", "d"));
    let before = ctx.input.len();

    // foo.txt exists and reads as "hello"; bar.txt does not, so its error
    // is reported and nothing is appended for it
    let mut errors = 0;
    for path in &args {
        match path.as_str() {
            "foo.txt" => push_file_message(&mut ctx, path, "hello"),
            _ => errors += 1,
        }
    }
    assert_eq!(errors, 1);
    assert_eq!(ctx.input.len(), before + 1);
    assert_eq!(ctx.input[before].role, "user");
    assert_eq!(ctx.input[before].content, "foo.txt\n\n:::\n\nhello");
}
