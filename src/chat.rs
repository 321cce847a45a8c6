use vstd::prelude::*;

use vstd::string::StringExecFns;

use crate::history::{empty_history, pushed, pushed_all, prompt, resized, shown, with_preamble, HistoryView, MessageHistory};
use crate::message::{calls_view, copy_calls, is_user, messages_view, Message, MessageView, ToolCall, ToolCallView};
use crate::value::{Value, ValueView};
use crate::window::{select_prompt_window, window};
use crate::wire::{history_value, message_value};

verus! {

/// Relies on uuid::Uuid::new_v4 and its `Display`: a random id, written in
/// the hyphenated form of 36 characters.
#[verifier::external_body]
fn fresh_message_id() -> (r: String)
    ensures
        r@.len() == 36,
{
    uuid::Uuid::new_v4().to_string()
}

/// One piece of a streamed response.
pub struct ResponseDelta {
    pub content: String,
    pub thinking: String,
    pub tool_calls: Vec<ToolCall>,
}

/// Where the first tool call with id `id` stands in `calls`.
pub open spec fn call_index(calls: Seq<ToolCallView>, id: Seq<char>) -> Option<int>
    decreases calls.len(),
{
    if calls.len() == 0 {
        None
    } else if calls[0].id == Some(id) {
        Some(0)
    } else {
        match call_index(calls.drop_first(), id) {
            Some(i) => Some(i + 1),
            None => None,
        }
    }
}

/// `calls` with `c` taken in: it replaces the call with the same id, if it
/// has an id and there is one, and is added last otherwise.
pub open spec fn merged_call(calls: Seq<ToolCallView>, c: ToolCallView) -> Seq<ToolCallView> {
    match c.id {
        Some(id) => match call_index(calls, id) {
            Some(i) => calls.update(i, c),
            None => calls.push(c),
        },
        None => calls.push(c),
    }
}

/// `calls` with each of `news` taken in, in order.
pub open spec fn merged_calls(calls: Seq<ToolCallView>, news: Seq<ToolCallView>) -> Seq<ToolCallView>
    decreases news.len(),
{
    if news.len() == 0 {
        calls
    } else {
        merged_call(merged_calls(calls, news.drop_last()), news.last())
    }
}

proof fn lemma_call_index(calls: Seq<ToolCallView>, id: Seq<char>, i: int)
    requires
        0 <= i < calls.len(),
        calls[i].id == Some(id),
        forall|j: int| 0 <= j < i ==> calls[j].id != Some(id),
    ensures
        call_index(calls, id) == Some(i),
    decreases i,
{
    if i > 0 {
        lemma_call_index(calls.drop_first(), id, i - 1);
    }
}

proof fn lemma_call_index_none(calls: Seq<ToolCallView>, id: Seq<char>)
    requires
        forall|j: int| 0 <= j < calls.len() ==> calls[j].id != Some(id),
    ensures
        call_index(calls, id) is None,
    decreases calls.len(),
{
    if calls.len() > 0 {
        lemma_call_index_none(calls.drop_first(), id);
    }
}

proof fn lemma_take_none(news: Seq<ToolCallView>)
    ensures
        news.take(0) =~= Seq::<ToolCallView>::empty(),
{
}

/// The model of a [`StreamAccumulator`].
pub struct AccumulatorView {
    pub id: Seq<char>,
    pub content: Seq<char>,
    pub thinking: Seq<char>,
    pub tool_calls: Seq<ToolCallView>,
}

/// The assistant message assembled so far from a streamed response.
pub struct StreamAccumulator {
    /// The id that every version of the message carries.
    pub id: String,
    pub content: String,
    pub thinking: String,
    pub tool_calls: Vec<ToolCall>,
}

impl View for StreamAccumulator {
    type V = AccumulatorView;

    open spec fn view(&self) -> AccumulatorView {
        AccumulatorView {
            id: self.id@,
            content: self.content@,
            thinking: self.thinking@,
            tool_calls: calls_view(self.tool_calls@),
        }
    }
}

/// The message that an accumulator stands for: an assistant message with
/// its id, its text and thinking so far, and its tool calls, if it has any.
pub open spec fn assembled(a: AccumulatorView) -> MessageView {
    MessageView {
        id: Some(a.id),
        role: "assistant"@,
        content: a.content,
        thinking: a.thinking,
        tool_calls: if a.tool_calls.len() > 0 { Some(a.tool_calls) } else { None },
        tool_name: None,
        image: None,
    }
}

impl StreamAccumulator {
    /// An empty message with the given id.
    pub fn new(id: String) -> (r: StreamAccumulator)
        ensures
            r@ == (AccumulatorView { id: id@, content: Seq::empty(), thinking: Seq::empty(), tool_calls: Seq::empty() }),
    {
        let r = StreamAccumulator { id, content: String::new(), thinking: String::new(), tool_calls: Vec::new() };
        assert(calls_view(r.tool_calls@) =~= Seq::<ToolCallView>::empty());
        r
    }

    /// An empty message under a fresh id.
    pub fn fresh() -> (r: StreamAccumulator)
        ensures
            r@.id.len() == 36,
            r@.content.len() == 0,
            r@.thinking.len() == 0,
            r@.tool_calls.len() == 0,
    {
        StreamAccumulator::new(fresh_message_id())
    }

    /// Takes in one piece of the response: its text and thinking are
    /// appended, and its tool calls merged by id.
    pub fn apply(&mut self, delta: &ResponseDelta)
        ensures
            final(self)@ == (AccumulatorView {
                id: old(self)@.id,
                content: old(self)@.content + delta.content@,
                thinking: old(self)@.thinking + delta.thinking@,
                tool_calls: merged_calls(old(self)@.tool_calls, calls_view(delta.tool_calls@)),
            }),
    {
        self.content.append(delta.content.as_str());
        self.thinking.append(delta.thinking.as_str());
        proof {
            lemma_take_none(calls_view(delta.tool_calls@));
        }
        let ghost start = calls_view(self.tool_calls@);
        let ghost news = calls_view(delta.tool_calls@);
        let mut k: usize = 0;
        while k < delta.tool_calls.len()
            invariant
                k <= delta.tool_calls.len(),
                news == calls_view(delta.tool_calls@),
                calls_view(self.tool_calls@) == merged_calls(start, news.take(k as int)),
                start == old(self)@.tool_calls,
                self.id@ == old(self)@.id,
                self.content@ == old(self)@.content + delta.content@,
                self.thinking@ == old(self)@.thinking + delta.thinking@,
            decreases delta.tool_calls.len() - k,
        {
            let c = delta.tool_calls[k].clone();
            let ghost before = calls_view(self.tool_calls@);
            proof {
                assert(news.take(k + 1).drop_last() =~= news.take(k as int));
                assert(news.take(k + 1).last() == c@);
            }
            let mut slot: Option<usize> = None;
            match &c.function.id {
                Some(id) => {
                    let mut j: usize = 0;
                    while j < self.tool_calls.len()
                        invariant_except_break
                            slot is None,
                        invariant
                            j <= self.tool_calls.len(),
                            before == calls_view(self.tool_calls@),
                            forall|t: int| 0 <= t < j ==> before[t].id != Some(id@),
                        ensures
                            slot is Some ==> slot->Some_0 < self.tool_calls.len() && call_index(before, id@) == Some(slot->Some_0 as int),
                            slot is None ==> forall|t: int| 0 <= t < before.len() ==> before[t].id != Some(id@),
                        decreases self.tool_calls.len() - j,
                    {
                        let same = match &self.tool_calls[j].function.id {
                            Some(other) => *other == *id,
                            None => false,
                        };
                        if same {
                            proof {
                                lemma_call_index(before, id@, j as int);
                            }
                            slot = Some(j);
                            break;
                        }
                        j += 1;
                    }
                    proof {
                        if slot is None {
                            lemma_call_index_none(before, id@);
                        }
                    }
                },
                None => {},
            }
            match slot {
                Some(j) => {
                    let mut calls = Vec::new();
                    std::mem::swap(&mut calls, &mut self.tool_calls);
                    calls.set(j, c);
                    self.tool_calls = calls;
                },
                None => {
                    self.tool_calls.push(c);
                },
            }
            assert(calls_view(self.tool_calls@) =~= merged_call(before, c@));
            k += 1;
        }
        assert(news.take(k as int) =~= news);
    }

    /// The message assembled so far.
    pub fn message(&self) -> (r: Message)
        ensures
            r@ == assembled(self@),
    {
        let mut m = Message::assistant(self.content.clone());
        m.id = Some(self.id.clone());
        m.thinking = self.thinking.clone();
        if self.tool_calls.len() > 0 {
            m.tool_calls = Some(copy_calls(&self.tool_calls));
        }
        m
    }
}

/// Where a chat turn stands.
#[derive(Debug, Clone, Copy, PartialEq, Eq, Structural)]
pub enum TurnStage {
    /// Waiting for a user message.
    AwaitingUserTurn,
    /// A prompt is out to the provider.
    Requesting,
    /// A response is arriving piece by piece.
    Streaming,
    /// Tools that the response asked for are being invoked.
    ToolDispatch,
}

/// What the driver of a turn must do next.
pub enum ChatAction {
    /// The turn is over: wait for the next user message.
    Idle,
    /// Send this prompt to the provider.
    Request(Vec<Message>),
    /// Invoke these tools, in order, and report their results.
    CallTools(Vec<ToolCall>),
}

/// Whether the history calls for a provider: its last stored message is a
/// user message.
pub open spec fn opens_turn(h: HistoryView) -> bool {
    h.messages.len() > 0 && is_user(h.messages.last())
}

/// Whether `r` asks for the prompt window of `h` under `budget`.
pub open spec fn requests(r: ChatAction, h: HistoryView, budget: i64) -> bool {
    r is Request && messages_view(r->Request_0@) == window(prompt(h), budget as int)
}

/// Whether `r` is the step that follows a finished response `m`: its tool
/// calls, when it has some, and the end of the turn otherwise.
pub open spec fn follows_response(r: ChatAction, m: MessageView) -> bool {
    if m.tool_calls is Some && m.tool_calls->Some_0.len() > 0 {
        r is CallTools && calls_view(r->CallTools_0@) == m.tool_calls->Some_0
    } else {
        r is Idle
    }
}

/// The stage that follows a finished response `m`.
pub open spec fn stage_after_response(m: MessageView) -> TurnStage {
    if m.tool_calls is Some && m.tool_calls->Some_0.len() > 0 {
        TurnStage::ToolDispatch
    } else {
        TurnStage::AwaitingUserTurn
    }
}

/// The decisions of one conversation: what to do with inbound messages,
/// streamed pieces, responses and tool results.
pub struct ChatSession {
    pub history: MessageHistory,
    pub stage: TurnStage,
    /// The prompt budget in characters; 0 or less for none.
    pub prompt_budget: i64,
    /// The response being assembled from streamed pieces.
    pub partial: Option<StreamAccumulator>,
}

impl ChatSession {
    /// A session over `history`, waiting for a user message.
    pub fn new(history: MessageHistory, prompt_budget: i64) -> (r: ChatSession)
        ensures
            r.history@ == history@,
            r.stage == TurnStage::AwaitingUserTurn,
            r.prompt_budget == prompt_budget,
            r.partial is None,
    {
        ChatSession { history, stage: TurnStage::AwaitingUserTurn, prompt_budget, partial: None }
    }

    fn request(&self) -> (r: ChatAction)
        ensures
            requests(r, self.history@, self.prompt_budget),
    {
        ChatAction::Request(select_prompt_window(&self.history.messages_for_prompt(), self.prompt_budget))
    }

    /// Takes in inbound messages: each is pushed to the history. A provider
    /// is called only when the last stored message is then a user message.
    pub fn receive(&mut self, messages: Vec<Message>) -> (r: ChatAction)
        ensures
            final(self).history@ == pushed_all(old(self).history@, messages_view(messages@)),
            final(self).prompt_budget == old(self).prompt_budget,
            final(self).partial == old(self).partial,
            messages@.len() == 0 ==> r is Idle && final(self).stage == old(self).stage,
            messages@.len() > 0 && opens_turn(final(self).history@) ==> requests(r, final(self).history@, final(self).prompt_budget)
                && final(self).stage == TurnStage::Requesting,
            messages@.len() > 0 && !opens_turn(final(self).history@) ==> r is Idle
                && final(self).stage == TurnStage::AwaitingUserTurn,
    {
        let n = messages.len();
        self.history.push_all(messages);
        if n == 0 {
            return ChatAction::Idle;
        }
        let len = self.history.messages.len();
        if len > 0 && self.history.messages[len - 1].has_role("user") {
            self.stage = TurnStage::Requesting;
            self.request()
        } else {
            self.stage = TurnStage::AwaitingUserTurn;
            ChatAction::Idle
        }
    }

    /// Starts assembling a streamed response whose versions all carry `id`.
    pub fn begin_stream_with_id(&mut self, id: String)
        ensures
            final(self).history@ == old(self).history@,
            final(self).prompt_budget == old(self).prompt_budget,
            final(self).stage == TurnStage::Streaming,
            final(self).partial is Some,
            final(self).partial->Some_0@ == (AccumulatorView {
                id: id@,
                content: Seq::empty(),
                thinking: Seq::empty(),
                tool_calls: Seq::empty(),
            }),
    {
        self.partial = Some(StreamAccumulator::new(id));
        self.stage = TurnStage::Streaming;
    }

    /// Starts assembling a streamed response under a fresh id.
    pub fn begin_stream(&mut self)
        ensures
            final(self).history@ == old(self).history@,
            final(self).prompt_budget == old(self).prompt_budget,
            final(self).stage == TurnStage::Streaming,
            final(self).partial is Some,
            final(self).partial->Some_0@.id.len() == 36,
            final(self).partial->Some_0@.content.len() == 0,
            final(self).partial->Some_0@.thinking.len() == 0,
            final(self).partial->Some_0@.tool_calls.len() == 0,
    {
        let id = fresh_message_id();
        self.begin_stream_with_id(id);
    }

    /// Takes in one streamed piece: the assembled message grows, replaces its
    /// previous version in the history (they share an id) and is returned to
    /// be shown. Nothing happens when no stream is under way.
    pub fn apply_delta(&mut self, delta: &ResponseDelta) -> (r: Option<Message>)
        ensures
            final(self).prompt_budget == old(self).prompt_budget,
            final(self).stage == old(self).stage,
            old(self).partial is None ==> r is None && final(self).history@ == old(self).history@
                && final(self).partial is None,
            old(self).partial is Some ==> {
                let a = old(self).partial->Some_0@;
                &&& final(self).partial is Some
                &&& final(self).partial->Some_0@ == (AccumulatorView {
                    id: a.id,
                    content: a.content + delta.content@,
                    thinking: a.thinking + delta.thinking@,
                    tool_calls: merged_calls(a.tool_calls, calls_view(delta.tool_calls@)),
                })
                &&& r is Some
                &&& r->Some_0@ == assembled(final(self).partial->Some_0@)
                &&& final(self).history@ == pushed(old(self).history@, r->Some_0@)
            },
    {
        let mut taken: Option<StreamAccumulator> = None;
        std::mem::swap(&mut taken, &mut self.partial);
        match taken {
            Some(mut acc) => {
                acc.apply(delta);
                let m = acc.message();
                self.history.push(m.clone());
                self.partial = Some(acc);
                Some(m)
            },
            None => None,
        }
    }

    /// Ends the streamed response: the assembled message is final, and its
    /// tool calls, if any, are to be invoked. Without a stream under way the
    /// turn ends.
    pub fn finish_stream(&mut self) -> (r: ChatAction)
        ensures
            final(self).history@ == old(self).history@,
            final(self).prompt_budget == old(self).prompt_budget,
            final(self).partial is None,
            old(self).partial is None ==> r is Idle && final(self).stage == TurnStage::AwaitingUserTurn,
            old(self).partial is Some ==> follows_response(r, assembled(old(self).partial->Some_0@))
                && final(self).stage == stage_after_response(assembled(old(self).partial->Some_0@)),
    {
        let mut taken: Option<StreamAccumulator> = None;
        std::mem::swap(&mut taken, &mut self.partial);
        match taken {
            Some(acc) => {
                let m = acc.message();
                self.decide(&m)
            },
            None => {
                self.stage = TurnStage::AwaitingUserTurn;
                ChatAction::Idle
            },
        }
    }

    fn decide(&mut self, m: &Message) -> (r: ChatAction)
        ensures
            final(self).history@ == old(self).history@,
            final(self).prompt_budget == old(self).prompt_budget,
            final(self).partial == old(self).partial,
            follows_response(r, m@),
            final(self).stage == stage_after_response(m@),
    {
        match &m.tool_calls {
            Some(calls) => {
                if calls.len() > 0 {
                    self.stage = TurnStage::ToolDispatch;
                    return ChatAction::CallTools(copy_calls(calls));
                }
            },
            None => {},
        }
        self.stage = TurnStage::AwaitingUserTurn;
        ChatAction::Idle
    }

    /// Takes in a whole response: it is given `id`, pushed to the history,
    /// and its tool calls, if any, are to be invoked.
    pub fn apply_response_with_id(&mut self, message: Message, id: String) -> (r: ChatAction)
        ensures
            final(self).history@ == pushed(old(self).history@, MessageView { id: Some(id@), ..message@ }),
            final(self).prompt_budget == old(self).prompt_budget,
            final(self).partial == old(self).partial,
            follows_response(r, message@),
            final(self).stage == stage_after_response(message@),
    {
        let mut m = message;
        m.id = Some(id);
        let r = self.decide(&m);
        self.history.push(m);
        r
    }

    /// Takes in a whole response under a fresh id.
    pub fn apply_response(&mut self, message: Message) -> (r: ChatAction)
        ensures
            final(self).history@ == pushed(
                old(self).history@,
                MessageView { id: final(self).history@.messages.last().id, ..message@ },
            ),
            final(self).prompt_budget == old(self).prompt_budget,
            final(self).partial == old(self).partial,
            follows_response(r, message@),
            final(self).stage == stage_after_response(message@),
    {
        let id = fresh_message_id();
        let r = self.apply_response_with_id(message, id);
        proof {
            let h = old(self).history@;
            let m = MessageView { id: Some(id@), ..message@ };
            if crate::history::coalesces(h, m) {
                assert(self.history@.messages.last() == crate::history::updated(h.messages.last(), m));
            }
        }
        r
    }

    /// Takes in the results of the tools, as tool messages, and asks for the
    /// next prompt so the provider can react to them.
    pub fn apply_tool_results(&mut self, results: Vec<Message>) -> (r: ChatAction)
        ensures
            final(self).history@ == pushed_all(old(self).history@, messages_view(results@)),
            final(self).prompt_budget == old(self).prompt_budget,
            final(self).partial == old(self).partial,
            final(self).stage == TurnStage::Requesting,
            requests(r, final(self).history@, final(self).prompt_budget),
    {
        self.history.push_all(results);
        self.stage = TurnStage::Requesting;
        self.request()
    }

    /// Drops the conversation: the history is empty again, and the session
    /// waits for a user message.
    pub fn reset(&mut self)
        ensures
            final(self).history@ == empty_history(),
            final(self).prompt_budget == old(self).prompt_budget,
            final(self).stage == TurnStage::AwaitingUserTurn,
            final(self).partial is None,
    {
        self.history = MessageHistory::default();
        self.stage = TurnStage::AwaitingUserTurn;
        self.partial = None;
    }
}

/// The messages a history shows, in their wire shape.
pub open spec fn shown_value(h: HistoryView) -> ValueView {
    ValueView::Array(shown(h).map_values(|m: MessageView| message_value(m)))
}

/// What a history node sends on after a message: the stored history, and,
/// for a user message, the message paired with the history it joined.
pub struct HistoryOutputs {
    pub history: Value,
    pub message_history: Option<Value>,
}

/// A node that keeps the history of one conversation: it bounds it, seeds
/// it once with a preamble, and hands user messages on with their history.
pub struct HistoryNode {
    pub history: MessageHistory,
    /// Whether the preamble was applied in this conversation.
    pub preamble_included: bool,
}

impl HistoryNode {
    /// A node with an empty history.
    pub fn new() -> (r: HistoryNode)
        ensures
            r.history@ == empty_history(),
            !r.preamble_included,
    {
        HistoryNode { history: MessageHistory::default(), preamble_included: false }
    }

    /// Forgets the conversation; the next one gets the preamble again.
    pub fn reset(&mut self)
        ensures
            final(self).history@ == empty_history(),
            !final(self).preamble_included,
    {
        self.history = MessageHistory::default();
        self.preamble_included = false;
    }

    /// Applies the configured bound, and before the first message of a
    /// conversation the preamble; later preambles are ignored.
    pub fn prepare(&mut self, history_size: usize, preamble: Vec<Message>)
        ensures
            final(self).preamble_included,
            final(self).history@ == (if old(self).preamble_included {
                resized(old(self).history@, history_size as nat)
            } else {
                with_preamble(resized(old(self).history@, history_size as nat), messages_view(preamble@))
            }),
    {
        self.history.set_max_size(history_size);
        if !self.preamble_included {
            self.preamble_included = true;
            self.history.set_preamble(preamble);
        }
    }

    /// Pushes `message`; hands on the stored history, and for a user message
    /// also `{message, history}` with all the messages the history shows.
    pub fn accept(&mut self, message: Message) -> (r: HistoryOutputs)
        ensures
            final(self).history@ == pushed(old(self).history@, message@),
            final(self).preamble_included == old(self).preamble_included,
            r.history@ == history_value(final(self).history@),
            r.message_history is Some == is_user(message@),
            r.message_history is Some ==> r.message_history->Some_0@ == ValueView::Object(seq![
                ("message"@, message_value(message@)),
                ("history"@, shown_value(final(self).history@)),
            ]),
    {
        let is_user_message = message.has_role("user");
        let copy = message.clone();
        self.history.push(message);
        let history = self.history.to_value();
        if !is_user_message {
            return HistoryOutputs { history, message_history: None };
        }
        let shown_msgs = self.history.messages();
        let mut items: Vec<Value> = Vec::new();
        let mut i: usize = 0;
        while i < shown_msgs.len()
            invariant
                i <= shown_msgs.len(),
                items.len() == i,
                forall|j: int| 0 <= j < i ==> #[trigger] items[j]@ == message_value(shown_msgs[j]@),
            decreases shown_msgs.len() - i,
        {
            items.push(shown_msgs[i].to_value());
            i += 1;
        }
        let ghost listed = Value::Array(items)@;
        assert forall|j: int| 0 <= j < items.len() implies #[trigger] listed->Array_0[j] == shown_value(self.history@)->Array_0[j] by {
            assert(listed->Array_0[j] == items[j]@);
            assert(messages_view(shown_msgs@)[j] == shown_msgs[j]@);
        }
        assert(listed->Array_0 =~= shown_value(self.history@)->Array_0);
        let mut fields: Vec<(String, Value)> = Vec::new();
        fields.push(("message".to_owned(), copy.to_value()));
        fields.push(("history".to_owned(), Value::Array(items)));
        let pair = Value::Object(fields);
        assert(pair@->Object_0 =~= seq![
            ("message"@, message_value(message@)),
            ("history"@, shown_value(self.history@)),
        ]);
        HistoryOutputs { history, message_history: Some(pair) }
    }
}

/// The message that carries a tool's result: role "tool", named after the
/// tool that was called, with the serialized result as content.
pub fn tool_result_message(call: &ToolCall, result: String) -> (r: Message)
    ensures
        r@ == (MessageView { tool_name: Some(call@.name), ..crate::message::plain("tool"@, result@) }),
{
    Message::tool(call.function.name.clone(), result)
}

} // verus!
