use vstd::prelude::*;

use unicode_normalization::UnicodeNormalization;

use crate::error::AgentError;
use crate::value::{Value, ValueView};

verus! {

/// The NFKC normal form of a text.
pub uninterp spec fn nfkc_of(text: Seq<char>) -> Seq<char>;

/// The chunks that text-splitter cuts a text into under a bound of `max`
/// characters: each with the byte offset where it starts.
pub uninterp spec fn chunks_of(text: Seq<char>, max: nat) -> Seq<(nat, Seq<char>)>;

/// Relies on unicode_normalization's `nfkc`: the NFKC normal form of `text`,
/// which depends on the text alone.
#[verifier::external_body]
fn nfkc(text: &str) -> (r: String)
    ensures
        r@ == nfkc_of(text@),
{
    text.nfkc().collect()
}

/// Relies on text_splitter::TextSplitter::chunk_indices, with a bound of
/// `max` characters: the chunks in order, each with its byte offset. A bound
/// of 0 is left out: the splitter can underflow on it.
#[verifier::external_body]
fn text_chunks(text: &str, max: usize) -> (r: Vec<(usize, String)>)
    requires
        max > 0,
    ensures
        r@.map_values(|c: (usize, String)| (c.0 as nat, c.1@)) == chunks_of(text@, max as nat),
{
    text_splitter::TextSplitter::new(max).chunk_indices(text).map(|(start, t)| (start, t.to_owned())).collect()
}

/// The text of a value, normalised to NFKC; only a string has one.
pub fn normalize_text(value: &Value) -> (r: Result<Value, AgentError>)
    ensures
        value@ is String ==> r is Ok && r->Ok_0@ == ValueView::String(nfkc_of(value@->String_0)),
        !(value@ is String) ==> r is Err && r->Err_0 is InvalidValue,
{
    match value.as_str() {
        Some(text) => Ok(Value::String(nfkc(text.as_str()))),
        None => Err(AgentError::InvalidValue("Input must be a string".to_owned())),
    }
}

/// The wire shape of a chunk: `[start, text]`, the start capped at the
/// largest integer a value holds.
pub open spec fn chunk_value(c: (nat, Seq<char>)) -> ValueView {
    ValueView::Array(seq![
        ValueView::Integer(if c.0 <= i64::MAX { c.0 as i64 } else { i64::MAX }),
        ValueView::String(c.1),
    ])
}

/// The wire shape of a list of chunks.
pub fn chunks_to_value(chunks: &Vec<(usize, String)>) -> (r: Value)
    ensures
        r@ == ValueView::Array(chunks@.map_values(|c: (usize, String)| chunk_value((c.0 as nat, c.1@)))),
{
    let mut items: Vec<Value> = Vec::new();
    let mut i: usize = 0;
    while i < chunks.len()
        invariant
            i <= chunks.len(),
            items.len() == i,
            forall|j: int| 0 <= j < i ==> #[trigger] items[j]@ == chunk_value((chunks[j].0 as nat, chunks[j].1@)),
        decreases chunks.len() - i,
    {
        let offset = chunks[i].0 as u64;
        let start: i64 = if offset <= i64::MAX as u64 { offset as i64 } else { i64::MAX };
        let mut pair: Vec<Value> = Vec::new();
        pair.push(Value::Integer(start));
        pair.push(Value::String(chunks[i].1.clone()));
        let ghost pv = pair@;
        assert(pv[0]@ == ValueView::Integer(start));
        assert(pv[1]@ == ValueView::String(chunks[i as int].1@));
        let item = Value::Array(pair);
        assert(item@->Array_0.len() == 2);
        assert(item@->Array_0[0] == pv[0]@);
        assert(item@->Array_0[1] == pv[1]@);
        assert(item@->Array_0 =~= chunk_value((chunks[i as int].0 as nat, chunks[i as int].1@))->Array_0);
        items.push(item);
        i += 1;
    }
    let r = Value::Array(items);
    assert forall|j: int| 0 <= j < items.len() implies #[trigger] r@->Array_0[j] == chunk_value((chunks[j].0 as nat, chunks[j].1@)) by {
        assert(r@->Array_0[j] == items[j]@);
    }
    assert(r@->Array_0 =~= chunks@.map_values(|c: (usize, String)| chunk_value((c.0 as nat, c.1@))));
    r
}

/// A text cut into chunks of at most `max_characters` characters, each as
/// `[start, text]`. A bound of 0 is a configuration error; only a string can
/// be cut.
pub fn split_text(value: &Value, max_characters: usize) -> (r: Result<Value, AgentError>)
    ensures
        max_characters == 0 ==> r is Err && r->Err_0 is InvalidConfig,
        max_characters > 0 && !(value@ is String) ==> r is Err && r->Err_0 is InvalidValue,
        max_characters > 0 && value@ is String ==> r is Ok && r->Ok_0@ == ValueView::Array(
            chunks_of(value@->String_0, max_characters as nat).map_values(|c: (nat, Seq<char>)| chunk_value(c)),
        ),
{
    if max_characters == 0 {
        return Err(AgentError::InvalidConfig("max_characters must be greater than 0".to_owned()));
    }
    match value.as_str() {
        Some(text) => {
            let chunks = text_chunks(text.as_str(), max_characters);
            let r = chunks_to_value(&chunks);
            let ghost named = chunks_of(text@, max_characters as nat);
            assert(r@->Array_0 =~= named.map_values(|c: (nat, Seq<char>)| chunk_value(c))) by {
                assert forall|j: int| 0 <= j < named.len() implies #[trigger] r@->Array_0[j] == chunk_value(named[j]) by {
                    assert(named[j] == (chunks@[j].0 as nat, chunks@[j].1@));
                }
            }
            Ok(r)
        },
        None => Err(AgentError::InvalidValue("Input must be a string".to_owned())),
    }
}

} // verus!
