use askit_llm::tool::{
    find_tool, get_tool, list_tool_infos, list_tool_infos_patterns, list_tool_infos_regex, register_tool,
    unregister_tool, NamePattern, ToolEntry, ToolInfo, ToolRegistry,
};
use askit_llm::{AgentError, Value};

fn entry(name: &str, tool: u32) -> ToolEntry<u32> {
    ToolEntry {
        info: ToolInfo { name: name.to_string(), description: format!("{} tool", name), parameters: None },
        tool,
    }
}

fn names(infos: &[ToolInfo]) -> Vec<String> {
    infos.iter().map(|i| i.name.clone()).collect()
}

fn registry() -> ToolRegistry<u32> {
    let mut r = ToolRegistry::new();
    register_tool(&mut r, entry("get_time", 1));
    register_tool(&mut r, entry("get_weather", 2));
    register_tool(&mut r, entry("search", 3));
    r
}

#[test]
fn registered_tool_is_found() {
    let r = registry();
    assert_eq!(get_tool(&r, "get_time"), Some(&1));
    assert_eq!(*find_tool(&r, "search").unwrap(), 3);
}

#[test]
fn unregistered_tool_is_not_found() {
    let r = registry();
    assert!(matches!(find_tool(&r, "missing_tool"), Err(AgentError::NotFound(_))));
    assert_eq!(get_tool(&r, "missing_tool"), None);
}

#[test]
fn last_registration_wins() {
    let mut r = registry();
    register_tool(&mut r, entry("get_time", 9));
    assert_eq!(get_tool(&r, "get_time"), Some(&9));
    assert_eq!(list_tool_infos(&r).len(), 3);
}

#[test]
fn unregister_removes_only_that_tool() {
    let mut r = registry();
    unregister_tool(&mut r, "get_weather");
    unregister_tool(&mut r, "not_there");
    assert_eq!(names(&list_tool_infos(&r)), vec!["get_time", "search"]);
    assert_eq!(get_tool(&r, "get_weather"), None);
}

#[test]
fn regex_filters_names() {
    let r = registry();
    let p = NamePattern::new("^get_").unwrap();
    assert_eq!(names(&list_tool_infos_regex(&r, &p)), vec!["get_time", "get_weather"]);
}

#[test]
fn bad_regex_is_a_config_error() {
    assert!(matches!(NamePattern::new("("), Err(AgentError::InvalidConfig(_))));
    let r = registry();
    assert!(matches!(list_tool_infos_patterns(&r, "time\n("), Err(AgentError::InvalidConfig(_))));
}

#[test]
fn pattern_list_ignores_blank_lines() {
    let r = registry();
    assert_eq!(names(&list_tool_infos_patterns(&r, "search\n\n  \nweather$").unwrap()), vec!["get_weather", "search"]);
    assert_eq!(list_tool_infos_patterns(&r, "").unwrap().len(), 3);
    assert_eq!(list_tool_infos_patterns(&r, "\n \n").unwrap().len(), 3);
    assert!(list_tool_infos_patterns(&r, "nothing_matches").unwrap().is_empty());
}

#[test]
fn tool_info_wire_shape() {
    let info = ToolInfo {
        name: "get_time".to_string(),
        description: "now".to_string(),
        parameters: Some(Value::Object(vec![])),
    };
    let v = info.to_value();
    assert_eq!(v.get_str("name").unwrap(), "get_time");
    assert_eq!(v.get_str("description").unwrap(), "now");
    assert!(matches!(v.get("parameters"), Some(Value::Object(_))));
}

use askit_llm::tool::tool_result_value;

#[test]
fn tool_result_texts_become_an_array() {
    let v = tool_result_value(vec!["a".to_string(), "b".to_string()], Some(false)).unwrap();
    let items = v.as_array().unwrap();
    assert_eq!(items.len(), 2);
    assert!(matches!(&items[1], Value::String(s) if s == "b"));
    assert!(tool_result_value(vec![], None).unwrap().as_array().unwrap().is_empty());
}

#[test]
fn tool_error_carries_json_of_texts() {
    match tool_result_value(vec!["boom".to_string(), "q\"x".to_string()], Some(true)) {
        Err(AgentError::Other(msg)) => assert_eq!(msg, "[\"boom\",\"q\\\"x\"]"),
        _ => panic!("expected a failure"),
    }
}

use askit_llm::tool::PendingCalls;

#[test]
fn pending_calls_are_answered_once_by_id() {
    let mut pending: PendingCalls<&str> = PendingCalls::new();
    pending.open(7, "first");
    pending.open(8, "second");
    pending.open(7, "again");
    assert_eq!(pending.take(7), Some("again"));
    assert_eq!(pending.take(7), None);
    pending.clear();
    assert_eq!(pending.take(8), None);
}

#[test]
fn pattern_lines_are_trimmed() {
    let r = registry();
    assert_eq!(names(&list_tool_infos_patterns(&r, "search\r\n").unwrap()), vec!["search"]);
    assert_eq!(names(&list_tool_infos_patterns(&r, "  ^get_time$ \t\n").unwrap()), vec!["get_time"]);
    assert_eq!(names(&list_tool_infos_patterns(&r, "\u{a0}^search$\u{3000}").unwrap()), vec!["search"]);
    assert_eq!(list_tool_infos_patterns(&r, " \r\n\t\n").unwrap().len(), 3);
}

#[test]
fn trim_text_strips_unicode_white_space() {
    assert_eq!(askit_llm::tool::trim_text("\u{2003} a b \r"), "a b");
    assert_eq!(askit_llm::tool::trim_text("   "), "");
    assert_eq!(askit_llm::tool::trim_text("x"), "x");
}
