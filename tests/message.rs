use askit_llm::wire::{add_message, is_message, is_message_history};
use askit_llm::{AgentError, Message, ToolCall, ToolCallFunction, Value};

fn s(text: &str) -> Value {
    Value::String(text.to_string())
}

fn obj(fields: Vec<(&str, Value)>) -> Value {
    Value::Object(fields.into_iter().map(|(k, v)| (k.to_string(), v)).collect())
}

fn str_of<'a>(v: &'a Value, key: &str) -> &'a str {
    v.get_str(key).unwrap().as_str()
}

#[test]
fn test_add_message() {
    let value = Value::Unit;
    let msg = Message::user("Hello".to_string());
    let result = add_message(value, msg);
    assert!(matches!(result, Value::Object(_)));
    assert_eq!(str_of(&result, "role"), "user");
    assert_eq!(str_of(&result, "content"), "Hello");

    let value = s("How are you?");
    let msg = Message::assistant("Hello".to_string());
    let result = add_message(value, msg);
    let arr = result.as_array().unwrap();
    assert_eq!(arr.len(), 2);
    assert_eq!(str_of(&arr[0], "role"), "user");
    assert_eq!(str_of(&arr[0], "content"), "How are you?");
    assert_eq!(str_of(&arr[1], "role"), "assistant");
    assert_eq!(str_of(&arr[1], "content"), "Hello");

    let value = obj(vec![("role", s("system")), ("content", s("I am fine."))]);
    let msg = Message::user("Hello".to_string());
    let result = add_message(value, msg);
    let arr = result.as_array().unwrap();
    assert_eq!(arr.len(), 2);
    assert_eq!(str_of(&arr[0], "role"), "system");
    assert_eq!(str_of(&arr[0], "content"), "I am fine.");
    assert_eq!(str_of(&arr[1], "role"), "user");
    assert_eq!(str_of(&arr[1], "content"), "Hello");

    let value = Value::Array(vec![
        obj(vec![("role", s("system")), ("content", s("Welcome!"))]),
        obj(vec![("role", s("assistant")), ("content", s("Hello!"))]),
    ]);
    let msg = Message::user("How are you?".to_string());
    let result = add_message(value, msg);
    let arr = result.as_array().unwrap();
    assert_eq!(arr.len(), 3);
    assert_eq!(str_of(&arr[0], "role"), "system");
    assert_eq!(str_of(&arr[0], "content"), "Welcome!");
    assert_eq!(str_of(&arr[1], "role"), "assistant");
    assert_eq!(str_of(&arr[1], "content"), "Hello!");
    assert_eq!(str_of(&arr[2], "role"), "user");
    assert_eq!(str_of(&arr[2], "content"), "How are you?");

    let img = Value::Image("iVBORw0KGgo=".to_string());
    let msg = Message::user("Check this image".to_string());
    let result = add_message(img, msg);
    assert!(matches!(result, Value::Object(_)));
    assert_eq!(str_of(&result, "role"), "user");
    assert_eq!(str_of(&result, "content"), "Check this image");
    assert!(matches!(result.get("image"), Some(Value::Image(_))));
}

#[test]
fn add_message_skips_empty_string() {
    let result = add_message(s(""), Message::user("Hi".to_string()));
    assert!(matches!(result, Value::Object(_)));
    assert_eq!(str_of(&result, "content"), "Hi");
}

#[test]
fn message_test_message_to_from_agent_value() {
    let msg = Message::user("What is the weather today?".to_string());
    let value: Value = msg.clone().to_value();
    let msg_converted: Message = Message::from_value(&value).unwrap();
    assert_eq!(msg_converted.role, "user");
    assert_eq!(msg_converted.content, "What is the weather today?");
}

#[test]
fn message_lib_test_message_to_from_agent_value() {
    let msg = Message::user("What is the weather today?".to_string());
    let value = msg.to_value();
    assert_eq!(matches!(value, Value::Object(_)), true);
    assert_eq!(str_of(&value, "role"), "user");
    assert_eq!(str_of(&value, "content"), "What is the weather today?");
    let msg_converted = Message::from_value(&value).unwrap();
    assert_eq!(msg_converted.role, "user");
    assert_eq!(msg_converted.content, "What is the weather today?");
}

#[test]
fn test_message_with_tool_calls_to_from_agent_value() {
    let mut msg = Message::assistant("".to_string());
    msg.tool_calls = Some(vec![ToolCall {
        function: ToolCallFunction {
            id: Some("call1".to_string()),
            name: "get_weather".to_string(),
            parameters: obj(vec![("location", s("San Francisco"))]),
        },
    }]);

    let value = msg.to_value();
    assert_eq!(matches!(value, Value::Object(_)), true);
    assert_eq!(str_of(&value, "role"), "assistant");
    assert_eq!(str_of(&value, "content"), "");
    let tool_calls = value.get_array("tool_calls").unwrap();
    assert_eq!(tool_calls.len(), 1);
    let function = tool_calls[0].get("function").unwrap();
    assert_eq!(str_of(function, "name"), "get_weather");
    let parameters = function.get("parameters").unwrap();
    assert_eq!(str_of(parameters, "location"), "San Francisco");

    let msg_converted = Message::from_value(&value).unwrap();
    assert_eq!(msg_converted.role, "assistant");
    assert_eq!(msg_converted.content, "");
    let tool_calls = msg_converted.tool_calls.unwrap();
    assert_eq!(tool_calls.len(), 1);
    assert_eq!(tool_calls[0].function.name, "get_weather");
    assert_eq!(str_of(&tool_calls[0].function.parameters, "location"), "San Francisco");
    assert_eq!(tool_calls[0].function.id.as_deref(), Some("call1"));
}

#[test]
fn test_tool_message_to_from_agent_value() {
    let msg = Message::tool("get_time".to_string(), "2025-01-02 03:04:05".to_string());
    let value = msg.clone().to_value();
    assert_eq!(str_of(&value, "role"), "tool");
    assert_eq!(str_of(&value, "tool_name"), "get_time");
    assert_eq!(str_of(&value, "content"), "2025-01-02 03:04:05");

    let msg_converted = Message::from_value(&value).unwrap();
    assert_eq!(msg_converted.role, "tool");
    assert_eq!(msg_converted.tool_name.unwrap(), "get_time");
    assert_eq!(msg_converted.content, "2025-01-02 03:04:05");
}

#[test]
fn message_test_message_from_string_value() {
    let value = s("Just a simple message");
    let msg = Message::from_value(&value).unwrap();
    assert_eq!(msg.role, "user");
    assert_eq!(msg.content, "Just a simple message");
}

#[test]
fn message_lib_test_message_from_string_value() {
    let value = s("Just a simple message");
    let msg = Message::from_value(&value).unwrap();
    assert_eq!(msg.role, "user");
    assert_eq!(msg.content, "Just a simple message");
}

#[test]
fn message_test_message_from_object_value() {
    let value = obj(vec![("role", s("assistant")), ("content", s("Here is some information."))]);
    let msg = Message::from_value(&value).unwrap();
    assert_eq!(msg.role, "assistant");
    assert_eq!(msg.content, "Here is some information.");
}

#[test]
fn message_lib_test_message_from_object_value() {
    let value = obj(vec![("role", s("assistant")), ("content", s("Here is some information."))]);
    let msg = Message::from_value(&value).unwrap();
    assert_eq!(msg.role, "assistant");
    assert_eq!(msg.content, "Here is some information.");
}

#[test]
fn message_test_message_from_invalid_value() {
    let value = Value::Integer(42);
    let result: Result<Message, AgentError> = Message::from_value(&value);
    assert!(result.is_err());
}

#[test]
fn message_lib_test_message_from_invalid_value() {
    let value = Value::Integer(42);
    let result: Result<Message, AgentError> = Message::from_value(&value);
    assert!(matches!(result, Err(AgentError::InvalidValue(_))));
}

#[test]
fn message_test_message_invalid_object() {
    let value = obj(vec![("some_key", s("some_value"))]);
    let result: Result<Message, AgentError> = Message::from_value(&value);
    assert!(result.is_err());
}

#[test]
fn message_lib_test_message_invalid_object() {
    let value = obj(vec![("some_key", s("some_value"))]);
    let result: Result<Message, AgentError> = Message::from_value(&value);
    assert!(matches!(result, Err(AgentError::InvalidValue(_))));
}

#[test]
fn test_message_to_agent_value_with_tool_calls() {
    let message = Message {
        role: "assistant".to_string(),
        content: "".to_string(),
        thinking: "".to_string(),
        tool_calls: Some(vec![ToolCall {
            function: ToolCallFunction {
                id: Some("call1".to_string()),
                name: "active_applications".to_string(),
                parameters: obj(vec![]),
            },
        }]),
        id: None,
        tool_name: None,
        image: None,
    };

    let value = message.to_value();
    assert!(matches!(value, Value::Object(_)), "message converts to object value");
    assert_eq!(value.get_str("role").map(|v| v.as_str()), Some("assistant"));
    assert_eq!(value.get_str("content").map(|v| v.as_str()), Some(""));
    let tool_calls = value.get_array("tool_calls").expect("tool_calls should be serialized");
    assert_eq!(tool_calls.len(), 1);
    let function_obj = tool_calls[0].get("function").expect("function should be serialized");
    assert_eq!(function_obj.get_str("name").map(|v| v.as_str()), Some("active_applications"));
    match function_obj.get("parameters") {
        Some(Value::Object(fields)) => assert!(fields.is_empty()),
        _ => panic!("parameters should serialize as object"),
    }
}

#[test]
fn thinking_is_written_only_when_present() {
    let mut msg = Message::assistant("A".to_string());
    assert!(msg.to_value().get("thinking").is_none());
    msg.thinking = "pondering".to_string();
    let value = msg.to_value();
    assert_eq!(str_of(&value, "thinking"), "pondering");
    assert_eq!(Message::from_value(&value).unwrap().thinking, "pondering");
}

#[test]
fn non_string_tool_name_is_invalid() {
    let value = obj(vec![("content", s("x")), ("tool_name", Value::Integer(1))]);
    assert!(matches!(Message::from_value(&value), Err(AgentError::InvalidValue(_))));
}

#[test]
fn malformed_tool_calls_are_invalid() {
    let value = obj(vec![("content", s("x")), ("tool_calls", s("nope"))]);
    assert!(matches!(Message::from_value(&value), Err(AgentError::InvalidValue(_))));
    let value = obj(vec![
        ("content", s("x")),
        ("tool_calls", Value::Array(vec![obj(vec![("function", obj(vec![("name", s("f"))]))])])),
    ]);
    assert!(matches!(Message::from_value(&value), Err(AgentError::InvalidValue(_))));
}

#[test]
fn role_defaults_to_user() {
    let value = obj(vec![("content", s("hey"))]);
    let msg = Message::from_value(&value).unwrap();
    assert_eq!(msg.role, "user");
}

#[test]
fn image_string_loses_data_url_marker() {
    let value = obj(vec![
        ("content", s("look")),
        ("image", s("data:image/png;base64,data:image/png;base64,QUJD")),
    ]);
    let msg = Message::from_value(&value).unwrap();
    assert_eq!(msg.image.as_deref(), Some("QUJD"));
    let msg = Message::from_value(&Value::Image("QUJD".to_string())).unwrap();
    assert_eq!(msg.role, "user");
    assert_eq!(msg.content, "");
    assert_eq!(msg.image.as_deref(), Some("QUJD"));
}

#[test]
fn message_shapes_are_recognised() {
    assert!(is_message(&obj(vec![("role", s("user")), ("content", s("x"))])));
    assert!(!is_message(&obj(vec![("role", s("user"))])));
    assert!(!is_message(&s("x")));
    assert!(is_message_history(&obj(vec![("message", s("x")), ("history", Value::Array(vec![]))])));
    assert!(!is_message_history(&obj(vec![("message", s("x"))])));
}
