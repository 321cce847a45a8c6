use vstd::prelude::*;

use crate::value::{Value, ValueView};

verus! {

/// The model of an optional text.
pub open spec fn opt_view(o: Option<String>) -> Option<Seq<char>> {
    match o {
        Some(s) => Some(s@),
        None => None,
    }
}

/// The model of a [`ToolCall`]: which tool, with which arguments.
pub struct ToolCallView {
    pub name: Seq<char>,
    pub parameters: ValueView,
    pub id: Option<Seq<char>>,
}

/// The model of a [`Message`].
pub struct MessageView {
    pub id: Option<Seq<char>>,
    pub role: Seq<char>,
    pub content: Seq<char>,
    pub thinking: Seq<char>,
    pub tool_calls: Option<Seq<ToolCallView>>,
    pub tool_name: Option<Seq<char>>,
    pub image: Option<Seq<char>>,
}

/// The function part of a tool call request.
#[derive(Debug)]
pub struct ToolCallFunction {
    pub name: String,
    pub parameters: Value,
    pub id: Option<String>,
}

/// A request, made by an assistant message, to invoke a tool.
#[derive(Debug)]
pub struct ToolCall {
    pub function: ToolCallFunction,
}

/// One turn of a conversation.
#[derive(Debug)]
pub struct Message {
    pub id: Option<String>,
    pub role: String,
    pub content: String,
    /// Auxiliary trace text; kept in the history, left out of prompts.
    pub thinking: String,
    pub tool_calls: Option<Vec<ToolCall>>,
    pub tool_name: Option<String>,
    /// An attached image, as base64 text of its PNG encoding.
    pub image: Option<String>,
}

impl View for ToolCall {
    type V = ToolCallView;

    open spec fn view(&self) -> ToolCallView {
        ToolCallView {
            name: self.function.name@,
            parameters: self.function.parameters@,
            id: opt_view(self.function.id),
        }
    }
}

/// The models of a sequence of tool calls.
pub open spec fn calls_view(calls: Seq<ToolCall>) -> Seq<ToolCallView> {
    calls.map_values(|c: ToolCall| c@)
}

impl View for Message {
    type V = MessageView;

    open spec fn view(&self) -> MessageView {
        MessageView {
            id: opt_view(self.id),
            role: self.role@,
            content: self.content@,
            thinking: self.thinking@,
            tool_calls: match self.tool_calls {
                Some(calls) => Some(calls_view(calls@)),
                None => None,
            },
            tool_name: opt_view(self.tool_name),
            image: opt_view(self.image),
        }
    }
}

/// The models of a sequence of messages.
pub open spec fn messages_view(msgs: Seq<Message>) -> Seq<MessageView> {
    msgs.map_values(|m: Message| m@)
}

/// Whether a message is a system message.
pub open spec fn is_system(m: MessageView) -> bool {
    m.role == "system"@
}

/// Whether a message is a user message.
pub open spec fn is_user(m: MessageView) -> bool {
    m.role == "user"@
}

/// A message with a role and a text and nothing else.
pub open spec fn plain(role: Seq<char>, content: Seq<char>) -> MessageView {
    MessageView {
        id: None,
        role,
        content,
        thinking: Seq::empty(),
        tool_calls: None,
        tool_name: None,
        image: None,
    }
}

/// A copy of an optional text.
pub fn copy_text(o: &Option<String>) -> (r: Option<String>)
    ensures
        opt_view(r) == opt_view(*o),
{
    match o {
        Some(s) => Some(s.clone()),
        None => None,
    }
}

impl Clone for ToolCall {
    fn clone(&self) -> (r: Self)
        ensures
            r@ == self@,
    {
        ToolCall {
            function: ToolCallFunction {
                name: self.function.name.clone(),
                parameters: self.function.parameters.clone(),
                id: copy_text(&self.function.id),
            },
        }
    }
}

/// A copy of a list of tool calls.
pub fn copy_calls(calls: &Vec<ToolCall>) -> (r: Vec<ToolCall>)
    ensures
        calls_view(r@) == calls_view(calls@),
{
    let mut out: Vec<ToolCall> = Vec::new();
    let mut i: usize = 0;
    while i < calls.len()
        invariant
            i <= calls.len(),
            out.len() == i,
            forall|j: int| 0 <= j < i ==> #[trigger] out[j]@ == calls[j]@,
        decreases calls.len() - i,
    {
        out.push(calls[i].clone());
        i += 1;
    }
    assert(calls_view(out@) =~= calls_view(calls@));
    out
}

impl Clone for Message {
    fn clone(&self) -> (r: Self)
        ensures
            r@ == self@,
    {
        let tool_calls = match &self.tool_calls {
            Some(calls) => Some(copy_calls(calls)),
            None => None,
        };
        Message {
            id: copy_text(&self.id),
            role: self.role.clone(),
            content: self.content.clone(),
            thinking: self.thinking.clone(),
            tool_calls,
            tool_name: copy_text(&self.tool_name),
            image: copy_text(&self.image),
        }
    }
}

impl Message {
    /// A message with the given role and content, and no other parts.
    pub fn new(role: String, content: String) -> (r: Message)
        ensures
            r@ == plain(role@, content@),
    {
        Message {
            id: None,
            role,
            content,
            thinking: String::new(),
            tool_calls: None,
            tool_name: None,
            image: None,
        }
    }

    pub fn assistant(content: String) -> (r: Message)
        ensures
            r@ == plain("assistant"@, content@),
    {
        Message::new("assistant".to_owned(), content)
    }

    pub fn system(content: String) -> (r: Message)
        ensures
            r@ == plain("system"@, content@),
    {
        Message::new("system".to_owned(), content)
    }

    pub fn user(content: String) -> (r: Message)
        ensures
            r@ == plain("user"@, content@),
    {
        Message::new("user".to_owned(), content)
    }

    /// The result of a tool, as a message of role "tool".
    pub fn tool(tool_name: String, content: String) -> (r: Message)
        ensures
            r@ == (MessageView { tool_name: Some(tool_name@), ..plain("tool"@, content@) }),
    {
        let mut message = Message::new("tool".to_owned(), content);
        message.tool_name = Some(tool_name);
        message
    }

    /// Whether the message has the given role.
    pub fn has_role(&self, role: &str) -> (r: bool)
        ensures
            r == (self.role@ == role@),
    {
        self.role == role.to_owned()
    }

    /// The same message with `image` attached.
    pub fn with_image(self, image: String) -> (r: Message)
        ensures
            r@ == (MessageView { image: Some(image@), ..self@ }),
    {
        let mut m = self;
        m.image = Some(image);
        m
    }
}

} // verus!
