use hipfire_serve::chat::{
    add_piece, answer_step, assistant_prefix, fold_messages, read_chat_input, read_messages,
    starts_in_think, turn_hash, Answer, AnswerStep, AssistantPrefix, ChatMessage, EngineEvent,
    Role, RoutedText,
};
use hipfire_serve::policy::DoneReason;
use serde_json::Value;

fn parsed(text: &str) -> Value {
    serde_json::from_str(text).unwrap()
}

fn msg(role: &str, text: &str) -> ChatMessage {
    ChatMessage {
        role: Some(role.to_string()),
        text: text.to_string(),
    }
}

#[test]
fn messages_fold_into_a_prompt() {
    let p = fold_messages(&[
        msg("system", "be brief"),
        msg("user", "one"),
        msg("assistant", "1"),
        msg("system", "and kind"),
        msg("tool", "result"),
        msg("user", "two"),
    ])
    .unwrap();
    assert_eq!(p.system.as_deref(), Some("be brief\nand kind"));
    assert_eq!(p.user, "two");
    let history: Vec<(Role, &str)> = p.history.iter().map(|t| (t.role, t.text.as_str())).collect();
    assert_eq!(
        history,
        vec![
            (Role::User, "one"),
            (Role::Assistant, "1"),
            (Role::User, "result")
        ]
    );
    assert_eq!(
        p.convo,
        vec![turn_hash("one"), turn_hash("result"), turn_hash("two")]
    );
    assert!(p.continues());
}

#[test]
fn only_what_precedes_the_prompt_is_history() {
    let p = fold_messages(&[msg("user", "q"), msg("assistant", "a")]).unwrap();
    assert_eq!(p.user, "q");
    assert!(p.history.is_empty());
    assert!(!p.continues());
    assert!(p.system.is_none());
    assert!(fold_messages(&[msg("assistant", "a"), msg("system", "s")]).is_none());
}

#[test]
fn turn_hashes_are_fnv() {
    assert_eq!(turn_hash(""), 0xcbf29ce484222325);
    assert_eq!(turn_hash("a"), 0xaf63dc4c8601ec8c);
    assert_eq!(turn_hash("foobar"), 0x85944171f73967e8);
}

#[test]
fn requests_are_read() {
    let c = read_chat_input(&parsed(
        "{\"model\":\"m\",\"max_tokens\":7,\"messages\":[{\"role\":\"user\",\"content\":\"hi\"},{\"content\":5}]}",
    ))
    .unwrap();
    assert_eq!((c.model.as_str(), c.max_tokens), ("m", 7));
    assert_eq!(c.prompt.user, "", "a message without text or role is an empty user turn");
    assert_eq!(c.prompt.history.len(), 1);
    let d = read_chat_input(&parsed("{\"messages\":[{\"role\":\"user\",\"content\":\"hi\"}]}")).unwrap();
    assert_eq!((d.model.as_str(), d.max_tokens), ("unknown", 512));
    assert_eq!(d.prompt.user, "hi");
    assert_eq!(
        read_chat_input(&parsed("{\"messages\":3}")).unwrap_err(),
        "messages is required"
    );
    assert_eq!(
        read_chat_input(&parsed("{\"messages\":[]}")).unwrap_err(),
        "messages must contain at least one user message"
    );
    assert_eq!(read_messages(&parsed("{}")).is_none(), true);
}

#[test]
fn events_drive_the_answer() {
    assert_eq!(answer_step(true, EngineEvent::Token(4)), AnswerStep::Cancel);
    assert_eq!(answer_step(false, EngineEvent::Token(4)), AnswerStep::Decode(4));
    assert_eq!(answer_step(false, EngineEvent::Accepted), AnswerStep::Wait);
    assert_eq!(answer_step(false, EngineEvent::Timeout), AnswerStep::Wait);
    assert_eq!(
        answer_step(false, EngineEvent::Done(DoneReason::MaxTokens)),
        AnswerStep::Finish("length")
    );
    assert_eq!(
        answer_step(false, EngineEvent::Done(DoneReason::Eos)),
        AnswerStep::Finish("stop")
    );
    assert_eq!(
        answer_step(false, EngineEvent::Disconnected),
        AnswerStep::Finish("stop")
    );
    assert_eq!(
        answer_step(false, EngineEvent::Rejected("full".to_string())),
        AnswerStep::Fail("multi_slot rejected: full".to_string())
    );
    let mut a = Answer::default();
    let e = add_piece(&mut a, &RoutedText::Reasoning("hm\n".to_string()));
    assert_eq!(parsed(&e).get("type").and_then(Value::as_str), Some("reasoning"));
    assert_eq!(parsed(&e).get("text").and_then(Value::as_str), Some("hm\n"));
    let e = add_piece(&mut a, &RoutedText::Content("yes".to_string()));
    assert_eq!(e, "{\"text\":\"yes\",\"type\":\"token\"}");
    assert_eq!((a.content.as_str(), a.reasoning_content.as_str()), ("yes", "hm\n"));
}

#[test]
fn thinking_models_start_in_an_open_block() {
    assert_eq!(assistant_prefix(true), AssistantPrefix::OpenThink);
    assert_eq!(assistant_prefix(false), AssistantPrefix::Plain);
    assert!(starts_in_think(assistant_prefix(true)));
    assert!(!starts_in_think(assistant_prefix(false)));
}
