use veebot::ai::{
    assistant_message_id, build_messages, build_prompt, cleanup_response, context_text,
    final_reply, has_images, max_tokens_for, memory_from_lowered, memory_to_store,
    prepare_request, reply_text, AiError, ChatCompletionResponse, Choice, ResponseMessage, Role,
};
use veebot::context::ContextMessage;

fn response(content: Option<&str>) -> ChatCompletionResponse {
    ChatCompletionResponse {
        choices: vec![Choice {
            message: ResponseMessage { role: Some("assistant".to_string()), content: content.map(|c| c.to_string()) },
        }],
        usage: None,
    }
}

fn msg(content: &str, author: &str, msg_type: &str) -> ContextMessage {
    ContextMessage {
        content: content.to_string(),
        author: author.to_string(),
        author_id: None,
        msg_type: msg_type.to_string(),
        similarity: None,
        timestamp: None,
        is_recent: false,
    }
}

#[test]
fn cleanup_keeps_the_answer_between_markers() {
    assert_eq!(cleanup_response("AM: Hello there\nHuman: hi"), "Hello there");
    assert_eq!(cleanup_response("Sure.\nHuman: next"), "Sure.");
    assert_eq!(cleanup_response("prefix AM:  fine  "), "fine");
}

#[test]
fn cleanup_puts_the_reply_on_one_line() {
    assert_eq!(cleanup_response("line one\nline two\n"), "line one line two");
}

#[test]
fn cleanup_falls_back_on_short_replies() {
    assert_eq!(cleanup_response("ok"), "Your weak words echo in the void.");
    assert_eq!(cleanup_response("AM:   "), "Your weak words echo in the void.");
    // two characters but three bytes are enough
    assert_eq!(cleanup_response("é!"), "é!");
}

#[test]
fn reply_text_takes_the_first_answer() {
    assert_eq!(reply_text(&response(Some("hi there"))), "hi there");
    assert_eq!(reply_text(&response(None)), "Your weak words echo in the void.");
    let empty = ChatCompletionResponse { choices: Vec::new(), usage: None };
    assert_eq!(reply_text(&empty), "Your weak words echo in the void.");
    assert_eq!(final_reply(&response(Some("AM: no\nHuman: yes"))), "Your weak words echo in the void.");
    assert_eq!(final_reply(&response(Some("AM: indeed\nHuman: no"))), "indeed");
}

#[test]
fn memory_is_taken_from_the_first_keyword() {
    assert_eq!(memory_to_store("Please REMEMBER my cat is Tom").as_deref(), Some("please  my cat is tom"));
    assert_eq!(memory_to_store("IMPORTANT: buy milk").as_deref(), Some(": buy milk"));
    assert_eq!(memory_to_store("key").as_deref(), None);
    assert_eq!(memory_to_store("hello there").as_deref(), None);
    // "remember" is found before "remember that", so "that" stays
    assert_eq!(memory_from_lowered("remember that i like tea").as_deref(), Some("that i like tea"));
    // too short after removal
    assert_eq!(memory_from_lowered("vital: ok").as_deref(), None);
}

#[test]
fn prompt_includes_context_only_when_there_is_some() {
    assert_eq!(build_prompt("P", "", "hi"), "P\nHuman: hi\nAM:");
    assert_eq!(build_prompt("P", "a: b\n", "hi"), "P\n\nContext from conversation:\na: b\n\nHuman: hi\nAM:");
}

#[test]
fn context_text_names_the_assistant_am_and_keeps_ten() {
    let mut ctx = vec![msg("hello", "bob", "user"), msg("hi bob", "whoever", "assistant")];
    let notes = vec![" (relevance: 50.0%)".to_string(), String::new()];
    assert_eq!(context_text(&ctx, &notes), "bob: hello (relevance: 50.0%)\nAM: hi bob\n");
    for i in 0..12 {
        ctx.push(msg(&format!("m{}", i), "u", "user"));
    }
    let notes: Vec<String> = ctx.iter().map(|_| String::new()).collect();
    let t = context_text(&ctx, &notes);
    assert_eq!(t.lines().count(), 10);
    assert!(t.ends_with("u: m7\n"));
}

#[test]
fn messages_without_images_are_plain_text() {
    let ms = build_messages("system", "question", &None);
    assert_eq!(ms.len(), 2);
    assert_eq!(ms[0].role, Role::System);
    assert_eq!(ms[0].content.as_deref(), Some("system"));
    assert_eq!(ms[1].role, Role::User);
    assert_eq!(ms[1].content.as_deref(), Some("question\nKeep your response under 3 sentences."));
    assert!(ms[1].parts.is_none());
    let ms = build_messages("system", "question", &Some(Vec::new()));
    assert!(ms[1].parts.is_none());
}

#[test]
fn messages_with_images_are_in_parts() {
    let urls = Some(vec!["http://a/1.png".to_string(), "http://a/2.png".to_string()]);
    assert!(has_images(&urls));
    let ms = build_messages("system", "q", &urls);
    assert!(ms[1].content.is_none());
    let parts = ms[1].parts.as_ref().unwrap();
    assert_eq!(parts.len(), 3);
    assert_eq!(parts[0].part_type, "text");
    assert_eq!(parts[0].text.as_deref(), Some("q\nKeep your response under 3 sentences."));
    assert_eq!(parts[1].part_type, "image_url");
    assert_eq!(parts[1].image_url.as_ref().unwrap().url, "http://a/1.png");
    assert_eq!(parts[2].image_url.as_ref().unwrap().url, "http://a/2.png");
}

#[test]
fn request_plan_combines_the_steps() {
    let ctx = vec![msg("earlier", "ann", "user")];
    let notes = vec![String::new()];
    let plan = prepare_request("You are AM.", &ctx, &notes, "hello", &None);
    assert_eq!(plan.max_tokens, 120);
    assert_eq!(
        plan.messages[1].content.as_deref(),
        Some("You are AM.\n\nContext from conversation:\nann: earlier\n\nHuman: hello\nAM:\nKeep your response under 3 sentences.")
    );
    let plan = prepare_request("P", &Vec::new(), &Vec::new(), "x", &Some(vec!["u".to_string()]));
    assert_eq!(plan.max_tokens, 300);
    assert_eq!(max_tokens_for(false), 120);
}

#[test]
fn ids_and_errors() {
    assert_eq!(assistant_message_id("123"), "assistant_123");
    assert_eq!(Role::Assistant.name(), "assistant");
    assert_eq!(AiError::ApiError("x".to_string()).message(), "API error: x");
    assert_eq!(AiError::RequestFailed("y".to_string()).message(), "HTTP request failed: y");
    assert_eq!(AiError::ConfigError("z".to_string()).message(), "Configuration error: z");
}
