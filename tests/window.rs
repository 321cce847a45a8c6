use askit_llm::window::select_prompt_window;
use askit_llm::Message;

fn m(role: &str, content: &str) -> Message {
    Message::new(role.to_string(), content.to_string())
}

fn roles_and_contents(msgs: &[Message]) -> Vec<(String, String)> {
    msgs.iter().map(|m| (m.role.clone(), m.content.clone())).collect()
}

#[test]
fn window_keeps_system_and_latest_user() {
    let history = vec![m("system", "S"), m("user", "U1"), m("assistant", "A1"), m("user", "U2")];
    let budget = ("S".len() + "U2".len()) as i64;
    let w = select_prompt_window(&history, budget);
    assert_eq!(
        roles_and_contents(&w),
        vec![("system".to_string(), "S".to_string()), ("user".to_string(), "U2".to_string())]
    );
}

#[test]
fn window_without_budget_keeps_everything() {
    let history = vec![m("system", "S"), m("assistant", "A"), m("user", "U")];
    assert_eq!(select_prompt_window(&history, 0).len(), 3);
    assert_eq!(select_prompt_window(&history, -5).len(), 3);
}

#[test]
fn window_never_opens_on_assistant() {
    let history = vec![m("system", "S"), m("user", "U"), m("assistant", "A1"), m("assistant", "A2")];
    let w = select_prompt_window(&history, 3);
    assert_eq!(roles_and_contents(&w), vec![("system".to_string(), "S".to_string())]);
    let history = vec![m("assistant", "A1"), m("assistant", "A2")];
    assert!(select_prompt_window(&history, 2).is_empty());
}

#[test]
fn window_takes_the_longest_fitting_suffix() {
    let history = vec![m("user", "aaaa"), m("assistant", "bb"), m("user", "cc"), m("assistant", "dd")];
    let w = select_prompt_window(&history, 6);
    assert_eq!(
        roles_and_contents(&w),
        vec![("user".to_string(), "cc".to_string()), ("assistant".to_string(), "dd".to_string())]
    );
    let w = select_prompt_window(&history, 10);
    assert_eq!(w.len(), 4);
}

#[test]
fn window_counts_characters() {
    let history = vec![m("user", "héé")];
    assert_eq!(select_prompt_window(&history, 3).len(), 1);
    assert_eq!(select_prompt_window(&history, 2).len(), 0);
}

#[test]
fn oversized_system_message_stays_alone() {
    let history = vec![m("system", "a long system prompt"), m("user", "u")];
    let w = select_prompt_window(&history, 4);
    assert_eq!(roles_and_contents(&w), vec![("system".to_string(), "a long system prompt".to_string())]);
}
