use vstd::prelude::*;

use crate::error::AgentError;
use crate::history::{HistoryView, MessageHistory};
use crate::message::{
    calls_view, messages_view, opt_view, plain, Message, MessageView, ToolCall,
    ToolCallFunction, ToolCallView,
};
use crate::value::{field_of, get_field, lemma_field_of_concat, text_of, Value, ValueView};

verus! {

/// The marker in front of base64 PNG text written as a data URL.
pub open spec fn png_marker() -> Seq<char> {
    "data:image/png;base64,"@
}

/// `s` with every leading copy of `p` removed.
pub open spec fn strip_leading(s: Seq<char>, p: Seq<char>) -> Seq<char>
    decreases s.len(),
{
    if p.len() > 0 && p.len() <= s.len() && s.subrange(0, p.len() as int) == p {
        strip_leading(s.subrange(p.len() as int, s.len() as int), p)
    } else {
        s
    }
}

/// A field, when there is a value for it.
pub open spec fn opt_field(key: Seq<char>, v: Option<ValueView>) -> Seq<(Seq<char>, ValueView)> {
    match v {
        Some(x) => seq![(key, x)],
        None => Seq::empty(),
    }
}

/// A string value for an optional text.
pub open spec fn opt_string(t: Option<Seq<char>>) -> Option<ValueView> {
    match t {
        Some(s) => Some(ValueView::String(s)),
        None => None,
    }
}

/// The wire shape of a tool call: `{function: {name, parameters, id?}}`.
pub open spec fn call_value(c: ToolCallView) -> ValueView {
    ValueView::Object(seq![("function"@, ValueView::Object(
        seq![("name"@, ValueView::String(c.name)), ("parameters"@, c.parameters)]
            + opt_field("id"@, opt_string(c.id)),
    ))])
}

/// The wire shape of a list of tool calls.
pub open spec fn calls_value(calls: Seq<ToolCallView>) -> ValueView {
    ValueView::Array(calls.map_values(|c: ToolCallView| call_value(c)))
}

/// The wire shape of a message: `role` and `content`, then `id`, `thinking`
/// (when not empty), `tool_calls`, `tool_name` and `image` where present.
pub open spec fn message_value(m: MessageView) -> ValueView {
    ValueView::Object(
        seq![("role"@, ValueView::String(m.role)), ("content"@, ValueView::String(m.content))]
            + opt_field("id"@, opt_string(m.id))
            + opt_field("thinking"@, if m.thinking.len() > 0 { Some(ValueView::String(m.thinking)) } else { None })
            + opt_field("tool_calls"@, match m.tool_calls {
                Some(calls) => Some(calls_value(calls)),
                None => None,
            })
            + opt_field("tool_name"@, opt_string(m.tool_name))
            + opt_field("image"@, match m.image {
                Some(img) => Some(ValueView::Image(img)),
                None => None,
            }),
    )
}

/// The tool call that a value describes, if it is one.
pub open spec fn call_of(v: ValueView) -> Option<ToolCallView> {
    let f = get_field(v, "function"@);
    if f is None {
        None
    } else {
        let name = text_of(get_field(f->Some_0, "name"@));
        let params = get_field(f->Some_0, "parameters"@);
        if name is None || params is None {
            None
        } else {
            Some(ToolCallView {
                name: name->Some_0,
                parameters: params->Some_0,
                id: text_of(get_field(f->Some_0, "id"@)),
            })
        }
    }
}

/// Whether a value is an array of tool calls.
pub open spec fn calls_ok(v: ValueView) -> bool {
    v is Array && forall|i: int| 0 <= i < v->Array_0.len() ==> (#[trigger] call_of(v->Array_0[i])) is Some
}

/// The tool calls of an array of them.
pub open spec fn calls_from(v: ValueView) -> Seq<ToolCallView> {
    Seq::new(v->Array_0.len(), |i: int| call_of(v->Array_0[i])->Some_0)
}

/// The image of the `image` field: base64 text, given as a string (an
/// optional data URL marker is dropped) or as an image.
pub open spec fn image_of(v: Option<ValueView>) -> Option<Seq<char>> {
    match v {
        Some(ValueView::String(s)) => Some(strip_leading(s, png_marker())),
        Some(ValueView::Image(s)) => Some(s),
        _ => None,
    }
}

/// The message that a value describes, if it is one: a string is a user
/// message with that content, an image a user message with that image, and an
/// object needs a string `content`; its `role` defaults to "user".
pub open spec fn message_of(v: ValueView) -> Option<MessageView> {
    match v {
        ValueView::String(s) => Some(plain("user"@, s)),
        ValueView::Image(img) => Some(MessageView { image: Some(img), ..plain("user"@, Seq::empty()) }),
        ValueView::Object(_) => {
            let content = text_of(get_field(v, "content"@));
            let tool_name = get_field(v, "tool_name"@);
            let tool_calls = get_field(v, "tool_calls"@);
            if content is None || (tool_name is Some && !(tool_name->Some_0 is String)) || (
            tool_calls is Some && !calls_ok(tool_calls->Some_0)) {
                None
            } else {
                Some(MessageView {
                    id: text_of(get_field(v, "id"@)),
                    role: match text_of(get_field(v, "role"@)) {
                        Some(r) => r,
                        None => "user"@,
                    },
                    content: content->Some_0,
                    thinking: match text_of(get_field(v, "thinking"@)) {
                        Some(t) => t,
                        None => Seq::empty(),
                    },
                    tool_calls: if tool_calls is Some {
                        Some(calls_from(tool_calls->Some_0))
                    } else {
                        None
                    },
                    tool_name: text_of(tool_name),
                    image: image_of(get_field(v, "image"@)),
                })
            }
        },
        _ => None,
    }
}

fn text_matches_at(s: &str, pos: usize, p: &str, m: usize) -> (r: bool)
    requires
        m == p@.len(),
        pos + m <= s@.len(),
        s@.len() <= usize::MAX,
    ensures
        r == (s@.subrange(pos as int, pos + m) == p@),
{
    let mut j: usize = 0;
    while j < m
        invariant
            j <= m,
            m == p@.len(),
            pos + m <= s@.len(),
            s@.len() <= usize::MAX,
            forall|k: int| 0 <= k < j ==> s@[pos + k] == p@[k],
        decreases m - j,
    {
        if s.get_char(pos + j) != p.get_char(j) {
            assert(s@.subrange(pos as int, pos + m)[j as int] != p@[j as int]);
            return false;
        }
        j += 1;
    }
    assert(s@.subrange(pos as int, pos + m) =~= p@);
    true
}

/// `s` with every leading copy of `p` removed.
pub fn strip_leading_text(s: &str, p: &str) -> (r: String)
    ensures
        r@ == strip_leading(s@, p@),
{
    let n = s.unicode_len();
    let m = p.unicode_len();
    let mut pos: usize = 0;
    assert(s@.subrange(0, n as int) =~= s@);
    while m > 0 && m <= n - pos && text_matches_at(s, pos, p, m)
        invariant
            pos <= n,
            n == s@.len(),
            m == p@.len(),
            strip_leading(s@, p@) == strip_leading(s@.subrange(pos as int, n as int), p@),
        decreases n - pos,
    {
        let ghost rest = s@.subrange(pos as int, n as int);
        assert(rest.subrange(0, m as int) =~= s@.subrange(pos as int, pos + m));
        assert(rest.subrange(m as int, rest.len() as int) =~= s@.subrange(pos + m, n as int));
        pos += m;
    }
    let ghost rest = s@.subrange(pos as int, n as int);
    if m > 0 && m <= n - pos {
        assert(rest.subrange(0, m as int) =~= s@.subrange(pos as int, pos + m));
    }
    s.substring_char(pos, n).to_owned()
}

/// The models of a list of fields.
pub open spec fn fields_view(fields: Seq<(String, Value)>) -> Seq<(Seq<char>, ValueView)> {
    Seq::new(fields.len(), |i: int| (fields[i].0@, fields[i].1@))
}

proof fn lemma_object_view(fields: Vec<(String, Value)>)
    ensures
        Value::Object(fields)@ == ValueView::Object(fields_view(fields@)),
{
    assert(Value::Object(fields)@->Object_0 =~= fields_view(fields@));
}

fn push_field(fields: &mut Vec<(String, Value)>, key: &str, v: Value)
    ensures
        fields_view(final(fields)@) == fields_view(old(fields)@) + seq![(key@, v@)],
{
    fields.push((key.to_owned(), v));
    assert(fields_view(fields@) =~= fields_view(old(fields)@) + seq![(key@, v@)]);
}

/// The text of the string field `key`, if there is one.
fn text_field(v: &Value, key: &str) -> (r: Option<String>)
    ensures
        opt_view(r) == text_of(get_field(v@, key@)),
{
    match v.get(key) {
        Some(f) => match f.as_str() {
            Some(t) => Some(t.clone()),
            None => None,
        },
        None => None,
    }
}

fn invalid(what: &str) -> (r: AgentError)
    ensures
        r is InvalidValue,
{
    AgentError::InvalidValue(what.to_owned())
}

impl ToolCall {
    /// The tool call that `value` describes: `{function: {name, parameters, id?}}`.
    pub fn from_value(value: &Value) -> (r: Option<ToolCall>)
        ensures
            r is Some == call_of(value@) is Some,
            r is Some ==> r->Some_0@ == call_of(value@)->Some_0,
    {
        let function = match value.get("function") {
            Some(f) => f,
            None => return None,
        };
        let name = match text_field(function, "name") {
            Some(n) => n,
            None => return None,
        };
        let parameters = match function.get("parameters") {
            Some(p) => p.clone(),
            None => return None,
        };
        let id = text_field(function, "id");
        Some(ToolCall { function: ToolCallFunction { name, parameters, id } })
    }

    /// The wire shape of this tool call.
    pub fn to_value(&self) -> (r: Value)
        ensures
            r@ == call_value(self@),
    {
        let mut inner: Vec<(String, Value)> = Vec::new();
        push_field(&mut inner, "name", Value::String(self.function.name.clone()));
        push_field(&mut inner, "parameters", self.function.parameters.clone());
        match &self.function.id {
            Some(id) => push_field(&mut inner, "id", Value::String(id.clone())),
            None => {},
        }
        proof {
            lemma_object_view(inner);
        }
        assert(fields_view(inner@) =~= seq![("name"@, ValueView::String(self@.name)), ("parameters"@, self@.parameters)]
            + opt_field("id"@, opt_string(self@.id)));
        let mut outer: Vec<(String, Value)> = Vec::new();
        let ghost inner_view = Value::Object(inner)@;
        push_field(&mut outer, "function", Value::Object(inner));
        proof {
            lemma_object_view(outer);
        }
        assert(fields_view(outer@) =~= seq![("function"@, inner_view)]);
        Value::Object(outer)
    }
}

/// The tool calls of an array of them.
fn calls_from_value(value: &Value) -> (r: Option<Vec<ToolCall>>)
    ensures
        r is Some == calls_ok(value@),
        r is Some ==> calls_view(r->Some_0@) == calls_from(value@),
{
    match value {
        Value::Array(items) => {
            let mut calls: Vec<ToolCall> = Vec::new();
            let mut i: usize = 0;
            while i < items.len()
                invariant
                    i <= items.len(),
                    calls.len() == i,
                    value@ == Value::Array(*items)@,
                    value@->Array_0.len() == items.len(),
                    forall|j: int| 0 <= j < items.len() ==> #[trigger] value@->Array_0[j] == items[j]@,
                    forall|j: int| 0 <= j < i ==> (#[trigger] call_of(items[j]@)) is Some,
                    forall|j: int| 0 <= j < i ==> #[trigger] calls[j]@ == call_of(items[j]@)->Some_0,
                decreases items.len() - i,
            {
                match ToolCall::from_value(&items[i]) {
                    Some(c) => {
                        calls.push(c);
                        assert(calls[i as int]@ == call_of(items[i as int]@)->Some_0);
                    },
                    None => {
                        assert(call_of(value@->Array_0[i as int]) is None);
                        return None;
                    },
                }
                i += 1;
            }
            assert forall|j: int| 0 <= j < value@->Array_0.len() implies (#[trigger] call_of(value@->Array_0[j])) is Some by {
                assert(value@->Array_0[j] == items[j]@);
                assert(call_of(items[j]@) is Some);
            }
            assert(calls_view(calls@) =~= calls_from(value@));
            Some(calls)
        },
        _ => None,
    }
}

/// The image of an `image` field.
fn image_from_value(v: Option<&Value>) -> (r: Option<String>)
    ensures
        opt_view(r) == image_of(
            match v {
                Some(x) => Some(x@),
                None => None,
            },
        ),
{
    match v {
        Some(Value::String(s)) => Some(strip_leading_text(s.as_str(), "data:image/png;base64,")),
        Some(Value::Image(s)) => Some(s.clone()),
        _ => None,
    }
}

impl Message {
    /// The message that `value` describes: a string is a user message with
    /// that content, an image a user message with that image, and an object
    /// needs a string `content`; anything else is not a message.
    pub fn from_value(value: &Value) -> (r: Result<Message, AgentError>)
        ensures
            r is Ok == message_of(value@) is Some,
            r is Ok ==> r->Ok_0@ == message_of(value@)->Some_0,
            r is Err ==> r->Err_0 is InvalidValue,
    {
        match value {
            Value::String(s) => Ok(Message::user(s.clone())),
            Value::Image(img) => Ok(Message::user(String::new()).with_image(img.clone())),
            Value::Object(_) => {
                let content = match text_field(value, "content") {
                    Some(c) => c,
                    None => return Err(invalid("Message object missing 'content' field")),
                };
                let role = match text_field(value, "role") {
                    Some(r) => r,
                    None => "user".to_owned(),
                };
                let mut message = Message::new(role, content);
                message.id = text_field(value, "id");
                message.thinking = match text_field(value, "thinking") {
                    Some(t) => t,
                    None => String::new(),
                };
                match value.get("tool_name") {
                    Some(t) => match t.as_str() {
                        Some(name) => {
                            message.tool_name = Some(name.clone());
                        },
                        None => return Err(invalid("'tool_name' field must be a string")),
                    },
                    None => {},
                }
                match value.get("tool_calls") {
                    Some(t) => match calls_from_value(t) {
                        Some(calls) => {
                            message.tool_calls = Some(calls);
                        },
                        None => return Err(invalid("'tool_calls' field must be an array of tool calls")),
                    },
                    None => {},
                }
                message.image = image_from_value(value.get("image"));
                Ok(message)
            },
            _ => Err(invalid("Cannot convert value to Message")),
        }
    }

    /// The wire shape of this message.
    pub fn to_value(&self) -> (r: Value)
        ensures
            r@ == message_value(self@),
    {
        let mut fields: Vec<(String, Value)> = Vec::new();
        push_field(&mut fields, "role", Value::String(self.role.clone()));
        push_field(&mut fields, "content", Value::String(self.content.clone()));
        let ghost f0 = fields_view(fields@);
        assert(f0 =~= seq![("role"@, ValueView::String(self@.role)), ("content"@, ValueView::String(self@.content))]);
        match &self.id {
            Some(id) => push_field(&mut fields, "id", Value::String(id.clone())),
            None => {},
        }
        let ghost f1 = fields_view(fields@);
        assert(f1 =~= f0 + opt_field("id"@, opt_string(self@.id)));
        if !self.thinking.as_str().is_empty() {
            push_field(&mut fields, "thinking", Value::String(self.thinking.clone()));
        }
        let ghost f2 = fields_view(fields@);
        assert(f2 =~= f1 + opt_field(
            "thinking"@,
            if self@.thinking.len() > 0 { Some(ValueView::String(self@.thinking)) } else { None },
        ));
        match &self.tool_calls {
            Some(calls) => {
                let mut items: Vec<Value> = Vec::new();
                let mut i: usize = 0;
                while i < calls.len()
                    invariant
                        i <= calls.len(),
                        items.len() == i,
                        forall|j: int| 0 <= j < i ==> #[trigger] items[j]@ == call_value(calls[j]@),
                    decreases calls.len() - i,
                {
                    items.push(calls[i].to_value());
                    i += 1;
                }
                let ghost items_view = Value::Array(items)@;
                assert forall|j: int| 0 <= j < items.len() implies #[trigger] items_view->Array_0[j] == call_value(calls_view(calls@)[j]) by {
                    assert(items_view->Array_0[j] == items[j]@);
                }
                assert(items_view->Array_0 =~= calls_value(calls_view(calls@))->Array_0);
                push_field(&mut fields, "tool_calls", Value::Array(items));
            },
            None => {},
        }
        let ghost f3 = fields_view(fields@);
        assert(f3 =~= f2 + opt_field("tool_calls"@, match self@.tool_calls {
            Some(calls) => Some(calls_value(calls)),
            None => None,
        }));
        match &self.tool_name {
            Some(t) => push_field(&mut fields, "tool_name", Value::String(t.clone())),
            None => {},
        }
        let ghost f4 = fields_view(fields@);
        assert(f4 =~= f3 + opt_field("tool_name"@, opt_string(self@.tool_name)));
        match &self.image {
            Some(img) => push_field(&mut fields, "image", Value::Image(img.clone())),
            None => {},
        }
        let ghost f5 = fields_view(fields@);
        assert(f5 =~= f4 + opt_field("image"@, match self@.image {
            Some(img) => Some(ValueView::Image(img)),
            None => None,
        }));
        proof {
            lemma_object_view(fields);
        }
        Value::Object(fields)
    }
}

/// Whether every one of `items` describes a message.
pub open spec fn all_messages(items: Seq<ValueView>) -> bool {
    forall|i: int| 0 <= i < items.len() ==> (#[trigger] message_of(items[i])) is Some
}

/// The messages that `items` describe.
pub open spec fn messages_from(items: Seq<ValueView>) -> Seq<MessageView> {
    Seq::new(items.len(), |i: int| message_of(items[i])->Some_0)
}

/// The messages of an array of messages, if every item is one.
pub open spec fn listed_messages(v: Option<ValueView>) -> Option<Seq<MessageView>> {
    match v {
        Some(ValueView::Array(items)) => if all_messages(items) {
            Some(messages_from(items))
        } else {
            None
        },
        _ => Some(Seq::empty()),
    }
}

/// The messages of a history value: an array of messages; a single message;
/// or an object with a `history` array and/or a `message`, in that order,
/// which together hold at least one message.
pub open spec fn history_of(v: ValueView) -> Option<Seq<MessageView>> {
    match v {
        ValueView::Array(items) => listed_messages(Some(v)),
        _ => if message_of(v) is Some {
            Some(seq![message_of(v)->Some_0])
        } else if v is Object {
            let listed = listed_messages(get_field(v, "history"@));
            let newest = match get_field(v, "message"@) {
                Some(m) => match message_of(m) {
                    Some(x) => Some(seq![x]),
                    None => None,
                },
                None => Some(Seq::empty()),
            };
            if listed is Some && newest is Some && (listed->Some_0 + newest->Some_0).len() > 0 {
                Some(listed->Some_0 + newest->Some_0)
            } else {
                None
            }
        } else {
            None
        },
    }
}

/// The wire shape of a history: its stored messages, in order.
pub open spec fn history_value(h: HistoryView) -> ValueView {
    ValueView::Array(h.messages.map_values(|m: MessageView| message_value(m)))
}

/// The messages that the items of an array describe.
fn messages_from_items(items: &Vec<Value>) -> (r: Result<Vec<Message>, AgentError>)
    ensures
        r is Ok == all_messages(Value::Array(*items)@->Array_0),
        r is Ok ==> messages_view(r->Ok_0@) == messages_from(Value::Array(*items)@->Array_0),
        r is Err ==> r->Err_0 is InvalidValue,
{
    let ghost seen = Value::Array(*items)@->Array_0;
    let mut out: Vec<Message> = Vec::new();
    let mut i: usize = 0;
    while i < items.len()
        invariant
            i <= items.len(),
            out.len() == i,
            seen == Value::Array(*items)@->Array_0,
            seen.len() == items.len(),
            forall|j: int| 0 <= j < items.len() ==> #[trigger] seen[j] == items[j]@,
            forall|j: int| 0 <= j < i ==> (#[trigger] message_of(items[j]@)) is Some,
            forall|j: int| 0 <= j < i ==> #[trigger] out[j]@ == message_of(items[j]@)->Some_0,
        decreases items.len() - i,
    {
        match Message::from_value(&items[i]) {
            Ok(m) => {
                out.push(m);
                assert(out[i as int]@ == message_of(items[i as int]@)->Some_0);
            },
            Err(e) => {
                assert(message_of(seen[i as int]) is None);
                return Err(e);
            },
        }
        i += 1;
    }
    assert forall|j: int| 0 <= j < seen.len() implies (#[trigger] message_of(seen[j])) is Some by {
        assert(seen[j] == items[j]@);
        assert(message_of(items[j]@) is Some);
    }
    assert(messages_view(out@) =~= messages_from(seen));
    Ok(out)
}

/// Whether a value is an object with both a `role` and a `content` field.
pub fn is_message(value: &Value) -> (r: bool)
    ensures
        r == (value@ is Object && get_field(value@, "role"@) is Some && get_field(value@, "content"@) is Some),
{
    match value {
        Value::Object(_) => value.get("role").is_some() && value.get("content").is_some(),
        _ => false,
    }
}

/// Whether a value is an object with both a `message` and a `history` field.
pub fn is_message_history(value: &Value) -> (r: bool)
    ensures
        r == (value@ is Object && get_field(value@, "message"@) is Some && get_field(value@, "history"@) is Some),
{
    match value {
        Value::Object(_) => value.get("message").is_some() && value.get("history").is_some(),
        _ => false,
    }
}

/// A value of messages with `m` added after them: a non-empty string becomes
/// a user message in front of `m`, an image is attached to `m`, an object or
/// the items of an array are kept in front of `m`, and anything else gives
/// way to `m` alone.
pub open spec fn message_added(v: ValueView, m: MessageView) -> ValueView {
    match v {
        ValueView::String(s) => if s.len() > 0 {
            ValueView::Array(seq![message_value(plain("user"@, s)), message_value(m)])
        } else {
            message_value(m)
        },
        ValueView::Image(img) => message_value(MessageView { image: Some(img), ..m }),
        ValueView::Object(_) => ValueView::Array(seq![v, message_value(m)]),
        ValueView::Array(items) => ValueView::Array(items.push(message_value(m))),
        _ => message_value(m),
    }
}

/// Adds `message` after the messages that `value` holds (see [`message_added`]).
pub fn add_message(value: Value, message: Message) -> (r: Value)
    ensures
        r@ == message_added(value@, message@),
{
    let ghost v = value@;
    match value {
        Value::String(s) => {
            if !s.as_str().is_empty() {
                let first = Message::user(s).to_value();
                let mut arr: Vec<Value> = Vec::new();
                arr.push(first);
                arr.push(message.to_value());
                let r = Value::Array(arr);
                assert(r@->Array_0 =~= message_added(v, message@)->Array_0);
                r
            } else {
                message.to_value()
            }
        },
        Value::Image(img) => message.with_image(img).to_value(),
        Value::Object(fields) => {
            let mut arr: Vec<Value> = Vec::new();
            arr.push(Value::Object(fields));
            arr.push(message.to_value());
            let r = Value::Array(arr);
            assert(r@->Array_0 =~= message_added(v, message@)->Array_0);
            r
        },
        Value::Array(items) => {
            let mut arr = items;
            let ghost before = arr@;
            arr.push(message.to_value());
            let r = Value::Array(arr);
            assert forall|j: int| 0 <= j < before.len() implies #[trigger] r@->Array_0[j] == v->Array_0[j] by {
                assert(r@->Array_0[j] == arr[j]@);
                assert(arr[j] == before[j]);
            }
            assert(r@->Array_0 =~= message_added(v, message@)->Array_0);
            r
        },
        _ => message.to_value(),
    }
}

/// The messages that a chat input denotes: a non-empty string is one user
/// message; an object with `role` and `content` is one message; another
/// object gives its `history` array and its `message`, in that order; an
/// empty string and anything else give none.
pub open spec fn input_messages_of(v: ValueView) -> Option<Seq<MessageView>> {
    match v {
        ValueView::String(s) => if s.len() > 0 {
            Some(seq![plain("user"@, s)])
        } else {
            Some(Seq::empty())
        },
        ValueView::Object(_) => if get_field(v, "role"@) is Some && get_field(v, "content"@) is Some {
            match message_of(v) {
                Some(m) => Some(seq![m]),
                None => None,
            }
        } else {
            let listed = listed_messages(get_field(v, "history"@));
            let newest = match get_field(v, "message"@) {
                Some(m) => match message_of(m) {
                    Some(x) => Some(seq![x]),
                    None => None,
                },
                None => Some(Seq::empty()),
            };
            if listed is Some && newest is Some {
                Some(listed->Some_0 + newest->Some_0)
            } else {
                None
            }
        },
        _ => Some(Seq::empty()),
    }
}

/// The messages that a chat input denotes (see [`input_messages_of`]); a
/// message that cannot be read is an invalid value.
pub fn input_messages(value: &Value) -> (r: Result<Vec<Message>, AgentError>)
    ensures
        r is Ok == input_messages_of(value@) is Some,
        r is Ok ==> messages_view(r->Ok_0@) == input_messages_of(value@)->Some_0,
        r is Err ==> r->Err_0 is InvalidValue,
{
    let mut msgs: Vec<Message> = Vec::new();
    match value {
        Value::String(s) => {
            if !s.as_str().is_empty() {
                msgs.push(Message::user(s.clone()));
            }
            assert(messages_view(msgs@) =~= input_messages_of(value@)->Some_0);
            Ok(msgs)
        },
        Value::Object(_) => {
            if is_message(value) {
                let m = Message::from_value(value)?;
                msgs.push(m);
                assert(messages_view(msgs@) =~= input_messages_of(value@)->Some_0);
                return Ok(msgs);
            }
            match value.get("history") {
                Some(Value::Array(items)) => {
                    msgs = messages_from_items(items)?;
                },
                _ => {},
            }
            let ghost listed = messages_view(msgs@);
            match value.get("message") {
                Some(m) => {
                    let m = Message::from_value(m)?;
                    msgs.push(m);
                },
                None => {},
            }
            assert(messages_view(msgs@) =~= input_messages_of(value@)->Some_0);
            Ok(msgs)
        },
        _ => {
            assert(messages_view(msgs@) =~= Seq::<MessageView>::empty());
            Ok(msgs)
        },
    }
}

impl MessageHistory {
    /// The unbounded history that a value describes: an array of messages; a
    /// single message; or an object with a `history` array and/or a `message`,
    /// taken in that order, holding at least one message.
    pub fn from_value(value: Value) -> (r: Result<MessageHistory, AgentError>)
        ensures
            r is Ok == history_of(value@) is Some,
            r is Ok ==> r->Ok_0@ == (HistoryView {
                messages: history_of(value@)->Some_0,
                max_size: 0,
                system_message: None,
                include_system: false,
            }),
            r is Err ==> r->Err_0 is InvalidValue,
    {
        match &value {
            Value::Array(items) => {
                let msgs = messages_from_items(items)?;
                return Ok(MessageHistory::new(msgs, 0));
            },
            _ => {},
        }
        match Message::from_value(&value) {
            Ok(m) => {
                let mut msgs: Vec<Message> = Vec::new();
                msgs.push(m);
                assert(messages_view(msgs@) =~= seq![message_of(value@)->Some_0]);
                return Ok(MessageHistory::new(msgs, 0));
            },
            Err(_) => {},
        }
        match &value {
            Value::Object(_) => {},
            _ => return Err(invalid("Cannot convert value to MessageHistory")),
        }
        let mut msgs: Vec<Message> = Vec::new();
        match value.get("history") {
            Some(Value::Array(items)) => {
                msgs = messages_from_items(items)?;
            },
            _ => {},
        }
        let ghost listed = messages_view(msgs@);
        match value.get("message") {
            Some(m) => {
                let m = Message::from_value(m)?;
                msgs.push(m);
            },
            None => {},
        }
        assert(messages_view(msgs@) =~= history_of(value@)->Some_0 || msgs.len() == 0);
        if msgs.len() == 0 {
            return Err(invalid("Cannot convert value to MessageHistory"));
        }
        Ok(MessageHistory::new(msgs, 0))
    }

    /// The wire shape of the history: its stored messages, in order.
    pub fn to_value(&self) -> (r: Value)
        ensures
            r@ == history_value(self@),
    {
        let mut items: Vec<Value> = Vec::new();
        let mut i: usize = 0;
        while i < self.messages.len()
            invariant
                i <= self.messages.len(),
                items.len() == i,
                forall|j: int| 0 <= j < i ==> #[trigger] items[j]@ == message_value(self.messages[j]@),
            decreases self.messages.len() - i,
        {
            items.push(self.messages[i].to_value());
            i += 1;
        }
        let ghost v = Value::Array(items)@;
        assert forall|j: int| 0 <= j < items.len() implies #[trigger] v->Array_0[j] == history_value(self@)->Array_0[j] by {
            assert(v->Array_0[j] == items[j]@);
        }
        assert(v->Array_0 =~= history_value(self@)->Array_0);
        Value::Array(items)
    }
}

proof fn lemma_single_field(k: Seq<char>, v: ValueView, key: Seq<char>)
    ensures
        field_of(seq![(k, v)], key) == (if k == key { Some(v) } else { None }),
{
    let s = seq![(k, v)];
    assert(s.len() == 1 && s[0] == (k, v));
    assert(s.drop_first() =~= Seq::<(Seq<char>, ValueView)>::empty());
    assert(field_of(Seq::<(Seq<char>, ValueView)>::empty(), key) is None);
}

proof fn lemma_opt_field(k: Seq<char>, v: Option<ValueView>, key: Seq<char>)
    ensures
        field_of(opt_field(k, v), key) == (if k == key { v } else { None }),
{
    if v is Some {
        lemma_single_field(k, v->Some_0, key);
    } else {
        assert(field_of(Seq::<(Seq<char>, ValueView)>::empty(), key) is None);
    }
}

proof fn lemma_pair_fields(k1: Seq<char>, v1: ValueView, k2: Seq<char>, v2: ValueView, key: Seq<char>)
    ensures
        field_of(seq![(k1, v1), (k2, v2)], key) == (if k1 == key { Some(v1) } else if k2 == key { Some(v2) } else { None }),
{
    assert(seq![(k1, v1)] + seq![(k2, v2)] =~= seq![(k1, v1), (k2, v2)]);
    lemma_field_of_concat(seq![(k1, v1)], seq![(k2, v2)], key);
    lemma_single_field(k1, v1, key);
    lemma_single_field(k2, v2, key);
}

proof fn lemma_call_field(c: ToolCallView, key: Seq<char>)
    ensures
        field_of(
            seq![("name"@, ValueView::String(c.name)), ("parameters"@, c.parameters)] + opt_field("id"@, opt_string(c.id)),
            key,
        ) == (if key == "name"@ {
            Some(ValueView::String(c.name))
        } else if key == "parameters"@ {
            Some(c.parameters)
        } else if key == "id"@ {
            opt_string(c.id)
        } else {
            None
        }),
{
    let inner = seq![("name"@, ValueView::String(c.name)), ("parameters"@, c.parameters)];
    lemma_field_of_concat(inner, opt_field("id"@, opt_string(c.id)), key);
    lemma_pair_fields("name"@, ValueView::String(c.name), "parameters"@, c.parameters, key);
    lemma_opt_field("id"@, opt_string(c.id), key);
}

/// A tool call read back from its wire shape is the same tool call.
pub proof fn lemma_call_round_trip(c: ToolCallView)
    ensures
        call_of(call_value(c)) == Some(c),
{
    reveal_strlit("function");
    reveal_strlit("name");
    reveal_strlit("parameters");
    reveal_strlit("id");
    let inner = seq![("name"@, ValueView::String(c.name)), ("parameters"@, c.parameters)] + opt_field("id"@, opt_string(c.id));
    lemma_single_field("function"@, ValueView::Object(inner), "function"@);
    lemma_call_field(c, "name"@);
    lemma_call_field(c, "parameters"@);
    lemma_call_field(c, "id"@);
    assert("name"@.len() == 4 && "parameters"@.len() == 10 && "id"@.len() == 2);
    assert("name"@ != "parameters"@);
    assert("id"@ != "parameters"@ && "id"@ != "name"@);
}

/// The value of `key` in the wire shape of a message.
proof fn lemma_message_field(m: MessageView, key: Seq<char>)
    ensures
        get_field(message_value(m), key) == (if key == "role"@ {
            Some(ValueView::String(m.role))
        } else if key == "content"@ {
            Some(ValueView::String(m.content))
        } else if key == "id"@ {
            opt_string(m.id)
        } else if key == "thinking"@ {
            if m.thinking.len() > 0 { Some(ValueView::String(m.thinking)) } else { None }
        } else if key == "tool_calls"@ {
            match m.tool_calls {
                Some(calls) => Some(calls_value(calls)),
                None => None,
            }
        } else if key == "tool_name"@ {
            opt_string(m.tool_name)
        } else if key == "image"@ {
            match m.image {
                Some(img) => Some(ValueView::Image(img)),
                None => None,
            }
        } else {
            None
        }),
{
    let base = seq![("role"@, ValueView::String(m.role)), ("content"@, ValueView::String(m.content))];
    let with_id = opt_field("id"@, opt_string(m.id));
    let with_thinking = opt_field("thinking"@, if m.thinking.len() > 0 { Some(ValueView::String(m.thinking)) } else { None });
    let calls_v = match m.tool_calls {
        Some(calls) => Some(calls_value(calls)),
        None => None,
    };
    let with_calls = opt_field("tool_calls"@, calls_v);
    let with_tool_name = opt_field("tool_name"@, opt_string(m.tool_name));
    let img_v = match m.image {
        Some(img) => Some(ValueView::Image(img)),
        None => None,
    };
    let with_image = opt_field("image"@, img_v);
    reveal_strlit("role");
    reveal_strlit("content");
    reveal_strlit("id");
    reveal_strlit("thinking");
    reveal_strlit("tool_calls");
    reveal_strlit("tool_name");
    reveal_strlit("image");
    assert("role"@.len() == 4 && "content"@.len() == 7 && "id"@.len() == 2 && "thinking"@.len() == 8);
    assert("tool_calls"@.len() == 10 && "tool_name"@.len() == 9 && "image"@.len() == 5);
    assert(message_value(m) == ValueView::Object(base + with_id + with_thinking + with_calls + with_tool_name + with_image));
    lemma_field_of_concat(base + with_id + with_thinking + with_calls + with_tool_name, with_image, key);
    lemma_field_of_concat(base + with_id + with_thinking + with_calls, with_tool_name, key);
    lemma_field_of_concat(base + with_id + with_thinking, with_calls, key);
    lemma_field_of_concat(base + with_id, with_thinking, key);
    lemma_field_of_concat(base, with_id, key);
    lemma_pair_fields("role"@, ValueView::String(m.role), "content"@, ValueView::String(m.content), key);
    lemma_opt_field("id"@, opt_string(m.id), key);
    lemma_opt_field("thinking"@, if m.thinking.len() > 0 { Some(ValueView::String(m.thinking)) } else { None }, key);
    lemma_opt_field("tool_calls"@, calls_v, key);
    lemma_opt_field("tool_name"@, opt_string(m.tool_name), key);
    lemma_opt_field("image"@, img_v, key);
}

/// A message read back from its wire shape is the same message.
pub proof fn lemma_message_round_trip(m: MessageView)
    ensures
        message_of(message_value(m)) == Some(m),
{
    reveal_strlit("role");
    reveal_strlit("content");
    reveal_strlit("id");
    reveal_strlit("thinking");
    reveal_strlit("tool_calls");
    reveal_strlit("tool_name");
    reveal_strlit("image");
    lemma_message_field(m, "role"@);
    lemma_message_field(m, "content"@);
    lemma_message_field(m, "id"@);
    lemma_message_field(m, "thinking"@);
    lemma_message_field(m, "tool_calls"@);
    lemma_message_field(m, "tool_name"@);
    lemma_message_field(m, "image"@);
    assert("role"@.len() == 4 && "content"@.len() == 7 && "id"@.len() == 2 && "thinking"@.len() == 8);
    assert("tool_calls"@.len() == 10 && "tool_name"@.len() == 9 && "image"@.len() == 5);
    assert("role"@ != "content"@);
    assert("id"@ != "role"@ && "id"@ != "content"@);
    assert("thinking"@ != "role"@ && "thinking"@ != "content"@ && "thinking"@ != "id"@);
    assert("tool_calls"@ != "role"@ && "tool_calls"@ != "content"@ && "tool_calls"@ != "id"@ && "tool_calls"@ != "thinking"@);
    assert("tool_name"@ != "role"@ && "tool_name"@ != "content"@ && "tool_name"@ != "id"@ && "tool_name"@ != "thinking"@ && "tool_name"@ != "tool_calls"@);
    assert("image"@ != "role"@ && "image"@ != "content"@ && "image"@ != "id"@ && "image"@ != "thinking"@ && "image"@ != "tool_calls"@ && "image"@ != "tool_name"@);
    if m.thinking.len() == 0 {
        assert(m.thinking =~= Seq::<char>::empty());
    }
    match m.tool_calls {
        Some(calls) => {
            let items = calls_value(calls)->Array_0;
            assert forall|i: int| 0 <= i < items.len() implies (#[trigger] call_of(items[i])) is Some && call_of(items[i])->Some_0 == calls[i] by {
                lemma_call_round_trip(calls[i]);
            }
            assert(calls_from(ValueView::Array(items)) =~= calls);
        },
        None => {},
    }
}

/// Reading a history back from its wire shape gives its stored messages, in
/// order.
pub proof fn lemma_history_round_trip(h: HistoryView)
    ensures
        history_of(history_value(h)) == Some(h.messages),
{
    let items = h.messages.map_values(|m: MessageView| message_value(m));
    assert forall|i: int| 0 <= i < items.len() implies (#[trigger] message_of(items[i])) is Some && message_of(items[i])->Some_0 == h.messages[i] by {
        lemma_message_round_trip(h.messages[i]);
    }
    assert(messages_from(items) =~= h.messages);
}

} // verus!
