use askit_llm::{AgentError, Message, MessageHistory, Value};

fn s(text: &str) -> Value {
    Value::String(text.to_string())
}

fn obj(fields: Vec<(&str, Value)>) -> Value {
    Value::Object(fields.into_iter().map(|(k, v)| (k.to_string(), v)).collect())
}

fn sample_history() -> MessageHistory {
    MessageHistory::new(
        vec![
            Message::new("system".to_string(), "You are a helpful assistant.".to_string()),
            Message::new("user".to_string(), "Hello".to_string()),
            Message::new("assistant".to_string(), "Hi there!".to_string()),
        ],
        0,
    )
}

fn with_id(role: &str, content: &str, id: &str) -> Message {
    let mut m = Message::new(role.to_string(), content.to_string());
    m.id = Some(id.to_string());
    m
}

#[test]
fn message_test_message_history_new() {
    let history = MessageHistory::new(vec![], 0);
    assert_eq!(history.messages.len(), 0);
    assert_eq!(history.max_size, 0);
    assert_eq!(history.include_system, false);
    assert!(history.system_message.is_none());
}

#[test]
fn message_lib_test_message_history_new() {
    let history = MessageHistory::new(vec![], 0);
    assert_eq!(history.messages.len(), 0);
    assert_eq!(history.max_size, 0);
    assert_eq!(history.include_system, false);
    assert!(history.system_message.is_none());
}

#[test]
fn test_message_history_from_value_array() {
    let value = Value::Array(vec![
        obj(vec![("role", s("user")), ("content", s("Hello"))]),
        obj(vec![("role", s("assistant")), ("content", s("Hi there!"))]),
    ]);
    let history = MessageHistory::from_value(value).unwrap();
    assert_eq!(history.messages.len(), 2);
    assert_eq!(history.messages[0].role, "user");
    assert_eq!(history.messages[1].role, "assistant");
}

#[test]
fn test_message_history_from_value_single_message_object() {
    let value = obj(vec![("role", s("user")), ("content", s("Solo message"))]);
    let history = MessageHistory::from_value(value).unwrap();
    assert_eq!(history.messages.len(), 1);
    assert_eq!(history.messages[0].role, "user");
    assert_eq!(history.messages[0].content, "Solo message");
}

#[test]
fn test_message_history_from_value_history_and_message_fields() {
    let value = obj(vec![
        (
            "history",
            Value::Array(vec![obj(vec![
                ("role", s("system")),
                ("content", s("You are a helpful assistant.")),
            ])]),
        ),
        ("message", obj(vec![("role", s("user")), ("content", s("Hello"))])),
    ]);
    let history = MessageHistory::from_value(value).unwrap();
    assert_eq!(history.messages.len(), 2);
    assert_eq!(history.messages[0].role, "system");
    assert_eq!(history.messages[1].role, "user");
    assert_eq!(history.messages[1].content, "Hello");
}

#[test]
fn test_message_history_from_value_invalid() {
    let result = MessageHistory::from_value(Value::Integer(42));
    assert!(result.is_err());
}

#[test]
fn from_value_of_empty_object_is_invalid() {
    let result = MessageHistory::from_value(obj(vec![("history", Value::Array(vec![]))]));
    assert!(matches!(result, Err(AgentError::InvalidValue(_))));
}

#[test]
fn from_value_propagates_a_bad_item() {
    let value = Value::Array(vec![obj(vec![("role", s("user"))])]);
    assert!(matches!(MessageHistory::from_value(value), Err(AgentError::InvalidValue(_))));
}

#[test]
fn message_test_message_history_include_system() {
    let mut history = MessageHistory::new(vec![], 0);
    assert_eq!(history.include_system(), false);
    history.set_include_system(true);
    assert_eq!(history.include_system(), true);
}

#[test]
fn message_lib_test_message_history_include_system() {
    let mut history = MessageHistory::new(vec![], 0);
    assert_eq!(history.include_system(), false);
    history.set_include_system(true);
    assert_eq!(history.include_system(), true);
}

fn check_set_max_size() {
    let mut history = sample_history();
    assert_eq!(history.max_size, 0);
    assert_eq!(history.messages.len(), 3);

    history.set_max_size(5);
    assert_eq!(history.max_size, 5);
    assert_eq!(history.messages.len(), 3);

    history.set_max_size(1);
    assert_eq!(history.max_size, 1);
    let msgs = history.messages();
    assert_eq!(msgs.len(), 1);
    assert_eq!(msgs[0].role, "assistant");
}

#[test]
fn message_test_message_history_set_max_size() {
    check_set_max_size();
}

#[test]
fn message_lib_test_message_history_set_max_size() {
    check_set_max_size();
}

fn check_set_max_size_with_include_system() {
    let mut history = sample_history();
    history.set_include_system(true);
    assert_eq!(history.max_size, 0);
    assert_eq!(history.messages.len(), 3);

    history.set_max_size(5);
    assert_eq!(history.max_size, 5);
    assert_eq!(history.messages.len(), 3);

    history.set_max_size(1);
    assert_eq!(history.max_size, 1);
    assert_eq!(history.messages.len(), 1);
    assert!(history.system_message.is_some());
    let msgs = history.messages();
    assert_eq!(msgs.len(), 2);
    assert_eq!(msgs[0].role, "system");
    assert_eq!(msgs[1].role, "assistant");
}

#[test]
fn message_test_message_history_set_max_size_with_include_system() {
    check_set_max_size_with_include_system();
}

#[test]
fn message_lib_test_message_history_set_max_size_with_include_system() {
    check_set_max_size_with_include_system();
}

fn check_push() {
    let mut history = sample_history();
    let new_msg = Message::user("How are you?".to_string());
    history.push(new_msg);
    let msgs = history.messages();
    assert_eq!(msgs.len(), 4);
    assert_eq!(msgs[3].role, "user");
    assert_eq!(msgs[3].content, "How are you?");
}

#[test]
fn message_test_message_history_push() {
    check_push();
}

#[test]
fn message_lib_test_message_history_push() {
    check_push();
}

fn check_push_with_include_system() {
    let mut history = sample_history();
    history.set_include_system(true);
    history.set_max_size(3);
    assert_eq!(history.messages.len(), 3);
    assert!(history.system_message.is_none());

    let new_msg = Message::user("How are you?".to_string());
    history.push(new_msg);
    assert_eq!(history.messages.len(), 3);
    assert!(history.system_message.is_some());

    let msgs = history.messages();
    assert_eq!(msgs.len(), 4);
    assert_eq!(msgs[0].role, "system");
    assert_eq!(msgs[3].role, "user");

    let new_msg = Message::assistant("Good!".to_string());
    history.push(new_msg);
    assert_eq!(history.messages.len(), 3);
    assert!(history.system_message.is_some());

    let msgs = history.messages();
    assert_eq!(msgs.len(), 4);
    assert_eq!(msgs[0].role, "system");
    assert_eq!(msgs[3].role, "assistant");
}

#[test]
fn message_test_message_history_push_with_include_system() {
    check_push_with_include_system();
}

#[test]
fn message_lib_test_message_history_push_with_include_system() {
    check_push_with_include_system();
}

fn check_push_update_last() {
    let mut history = MessageHistory::new(vec![with_id("user", "Hello", "msg1")], 0);
    let updated_msg = Message {
        role: "user".to_string(),
        content: "Hello, updated!".to_string(),
        id: Some("msg1".to_string()),
        thinking: "".to_string(),
        tool_calls: None,
        tool_name: None,
        image: None,
    };
    history.push(updated_msg);
    let msgs = history.messages();
    assert_eq!(msgs.len(), 1);
    assert_eq!(msgs[0].content, "Hello, updated!");
}

#[test]
fn message_test_message_history_push_update_last() {
    check_push_update_last();
}

#[test]
fn message_lib_test_message_history_push_update_last() {
    check_push_update_last();
}

#[test]
fn system_message_survives_set_max_size() {
    let mut history = MessageHistory::new(vec![], 0);
    history.set_include_system(true);
    history.push(Message::system("Be terse.".to_string()));
    history.push(Message::user("Hi".to_string()));
    history.set_max_size(1);
    let msgs = history.messages();
    assert_eq!(msgs.len(), 2);
    assert_eq!(msgs[0].role, "system");
    assert_eq!(msgs[0].content, "Be terse.");
    assert_eq!(msgs[1].role, "user");
    assert_eq!(msgs[1].content, "Hi");
}

#[test]
fn same_id_push_coalesces() {
    let mut history = MessageHistory::new(vec![], 0);
    history.push(with_id("user", "Hello", "m1"));
    history.push(with_id("user", "Hello, updated!", "m1"));
    let msgs = history.messages();
    assert_eq!(msgs.len(), 1);
    assert_eq!(msgs[0].content, "Hello, updated!");
}

#[test]
fn coalescing_replaces_thinking_and_calls_only() {
    let mut history = MessageHistory::new(vec![], 0);
    let mut first = with_id("assistant", "A", "r");
    first.tool_name = Some("kept".to_string());
    history.push(first);
    let mut second = with_id("user", "AB", "r");
    second.thinking = "t".to_string();
    history.push(second);
    assert_eq!(history.messages.len(), 1);
    assert_eq!(history.messages[0].role, "assistant");
    assert_eq!(history.messages[0].content, "AB");
    assert_eq!(history.messages[0].thinking, "t");
    assert_eq!(history.messages[0].tool_name.as_deref(), Some("kept"));
}

#[test]
fn push_stays_within_bound() {
    let mut history = MessageHistory::new(vec![], 2);
    for i in 0..5 {
        history.push(Message::user(format!("m{}", i)));
        assert!(history.messages.len() <= 2);
    }
    assert_eq!(history.messages[0].content, "m3");
    assert_eq!(history.messages[1].content, "m4");
}

#[test]
fn system_first_then_n_others_is_retained() {
    let n = 3;
    let mut history = MessageHistory::new(vec![], n);
    history.set_include_system(true);
    history.push(Message::system("S".to_string()));
    for i in 0..n {
        history.push(Message::user(format!("u{}", i)));
    }
    let msgs = history.messages();
    assert_eq!(msgs.len(), n + 1);
    assert_eq!(msgs[0].role, "system");
    assert_eq!(msgs[0].content, "S");
}

#[test]
fn eviction_without_include_system_hides_system() {
    let mut history = MessageHistory::new(vec![], 1);
    history.push(Message::system("S".to_string()));
    history.push(Message::user("U".to_string()));
    assert!(history.system_message.is_some());
    let msgs = history.messages();
    assert_eq!(msgs.len(), 1);
    assert_eq!(msgs[0].role, "user");
}

#[test]
fn set_max_size_keeps_last_evicted_system() {
    let mut history = MessageHistory::new(
        vec![
            Message::system("first".to_string()),
            Message::system("second".to_string()),
            Message::user("u".to_string()),
        ],
        0,
    );
    history.set_include_system(true);
    history.set_max_size(1);
    assert_eq!(history.system_message.as_ref().unwrap().content, "second");
    history.set_max_size(1);
    assert_eq!(history.messages.len(), 1);
    assert_eq!(history.system_message.as_ref().unwrap().content, "second");
}

#[test]
fn prompt_leaves_out_thinking() {
    let mut history = MessageHistory::new(vec![], 0);
    let mut m = Message::assistant("answer".to_string());
    m.thinking = "chain".to_string();
    history.push(m);
    assert_eq!(history.messages()[0].thinking, "chain");
    assert_eq!(history.messages_for_prompt()[0].thinking, "");
    assert_eq!(history.messages_for_prompt()[0].content, "answer");
}

#[test]
fn preamble_goes_first_and_is_bounded() {
    let mut history = MessageHistory::new(vec![Message::user("u".to_string())], 2);
    history.set_preamble(vec![]);
    assert_eq!(history.messages.len(), 1);
    history.set_preamble(vec![Message::system("persona".to_string()), Message::assistant("greeting".to_string())]);
    assert_eq!(history.messages.len(), 2);
    assert_eq!(history.messages[0].content, "greeting");
    assert_eq!(history.messages[1].content, "u");
    assert!(history.system_message.is_none());
}

#[test]
fn push_all_pushes_in_order() {
    let mut history = MessageHistory::default();
    history.push_all(vec![Message::user("a".to_string()), Message::assistant("b".to_string())]);
    assert_eq!(history.messages.len(), 2);
    assert_eq!(history.messages[1].content, "b");
}

#[test]
fn history_round_trips_through_wire_shape() {
    let mut history = MessageHistory::new(vec![], 0);
    history.push(with_id("user", "q", "1"));
    history.push(Message::assistant("a".to_string()));
    history.push(Message::tool("clock".to_string(), "12:00".to_string()));
    let back = MessageHistory::from_value(history.to_value()).unwrap();
    assert_eq!(back.messages.len(), 3);
    for (a, b) in back.messages.iter().zip(history.messages.iter()) {
        assert_eq!(a.role, b.role);
        assert_eq!(a.content, b.content);
        assert_eq!(a.id, b.id);
        assert_eq!(a.tool_name, b.tool_name);
    }
}

#[test]
fn empty_ids_do_not_coalesce() {
    let mut history = MessageHistory::new(vec![], 0);
    history.push(with_id("user", "a", ""));
    history.push(with_id("user", "b", ""));
    assert_eq!(history.messages.len(), 2);
}
