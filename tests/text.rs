use askit_llm::text::{normalize_text, split_text};
use askit_llm::{AgentError, Value};

#[test]
fn nfkc_normalizes_compatibility_forms() {
    let r = normalize_text(&Value::String("ｶﾞ①ﬁ".to_string())).unwrap();
    match r {
        Value::String(s) => assert_eq!(s, "ガ1fi"),
        _ => panic!("expected a string"),
    }
}

#[test]
fn nfkc_needs_a_string() {
    assert!(matches!(normalize_text(&Value::Integer(1)), Err(AgentError::InvalidValue(_))));
}

#[test]
fn split_text_gives_offsets_and_chunks() {
    let r = split_text(&Value::String("Some text\n\nfrom a\ndocument".to_string()), 10).unwrap();
    let items = r.as_array().unwrap();
    let expected = [(0, "Some text"), (11, "from a"), (18, "document")];
    assert_eq!(items.len(), expected.len());
    for (item, (start, text)) in items.iter().zip(expected.iter()) {
        let pair = item.as_array().unwrap();
        assert!(matches!(pair[0], Value::Integer(n) if n == *start));
        assert!(matches!(&pair[1], Value::String(s) if s == text));
    }
}

#[test]
fn split_text_rejects_zero_and_non_strings() {
    assert!(matches!(split_text(&Value::String("x".to_string()), 0), Err(AgentError::InvalidConfig(_))));
    assert!(matches!(split_text(&Value::Unit, 5), Err(AgentError::InvalidValue(_))));
}
