use vstd::prelude::*;

use crate::message::{is_system, messages_view, opt_view, Message, MessageView};

verus! {

/// The model of a [`MessageHistory`].
pub struct HistoryView {
    pub messages: Seq<MessageView>,
    pub max_size: nat,
    pub system_message: Option<MessageView>,
    pub include_system: bool,
}

/// Whether pushing `m` updates the last stored message in place: `m` carries
/// a non-empty id and the last stored message carries the same one.
pub open spec fn coalesces(h: HistoryView, m: MessageView) -> bool {
    &&& m.id is Some
    &&& m.id->Some_0.len() > 0
    &&& h.messages.len() > 0
    &&& h.messages.last().id == m.id
}

/// The last stored message after a coalescing update by `m`.
pub open spec fn updated(last: MessageView, m: MessageView) -> MessageView {
    MessageView { content: m.content, thinking: m.thinking, tool_calls: m.tool_calls, ..last }
}

/// The history after pushing `m`.
pub open spec fn pushed(h: HistoryView, m: MessageView) -> HistoryView {
    if coalesces(h, m) {
        HistoryView {
            messages: h.messages.update(h.messages.len() - 1, updated(h.messages.last(), m)),
            ..h
        }
    } else if h.max_size > 0 && h.messages.len() >= h.max_size {
        HistoryView {
            messages: h.messages.drop_first().push(m),
            system_message: if is_system(h.messages[0]) {
                Some(h.messages[0])
            } else {
                h.system_message
            },
            ..h
        }
    } else {
        HistoryView { messages: h.messages.push(m), ..h }
    }
}

/// The history after pushing each of `msgs` in order.
pub open spec fn pushed_all(h: HistoryView, msgs: Seq<MessageView>) -> HistoryView
    decreases msgs.len(),
{
    if msgs.len() == 0 {
        h
    } else {
        pushed(pushed_all(h, msgs.drop_last()), msgs.last())
    }
}

/// The index of the last system message among the first `n` of `msgs`.
pub open spec fn last_system_before(msgs: Seq<MessageView>, n: int) -> Option<int>
    decreases n,
{
    if n <= 0 {
        None
    } else if is_system(msgs[n - 1]) {
        Some(n - 1)
    } else {
        last_system_before(msgs, n - 1)
    }
}

/// The history after its bound is set to `size`: the oldest messages beyond
/// the bound are dropped, and where system messages are re-injected, the last
/// system message among the dropped ones is retained.
pub open spec fn resized(h: HistoryView, size: nat) -> HistoryView {
    if size > 0 && h.messages.len() > size {
        let cut = h.messages.len() - size;
        let found = last_system_before(h.messages, cut);
        HistoryView {
            messages: h.messages.subrange(cut, h.messages.len() as int),
            max_size: size,
            system_message: if h.include_system && found is Some {
                Some(h.messages[found->Some_0])
            } else {
                h.system_message
            },
            ..h
        }
    } else {
        HistoryView { max_size: size, ..h }
    }
}

/// The history after `preamble` is put in front of the stored messages.
pub open spec fn with_preamble(h: HistoryView, preamble: Seq<MessageView>) -> HistoryView {
    if preamble.len() == 0 {
        h
    } else {
        resized(
            HistoryView { messages: preamble + h.messages, system_message: None, ..h },
            h.max_size,
        )
    }
}

/// What the history shows: the retained system message where it is
/// re-injected, then the stored messages.
pub open spec fn shown(h: HistoryView) -> Seq<MessageView> {
    if h.include_system && h.system_message is Some {
        seq![h.system_message->Some_0] + h.messages
    } else {
        h.messages
    }
}

/// A message with its thinking trace left out.
pub open spec fn without_thinking(m: MessageView) -> MessageView {
    MessageView { thinking: Seq::empty(), ..m }
}

/// What the history sends to a provider: what it shows, without thinking.
pub open spec fn prompt(h: HistoryView) -> Seq<MessageView> {
    shown(h).map_values(|m: MessageView| without_thinking(m))
}

/// The bound holds: no more stored messages than `max_size`, when it is set.
pub open spec fn bounded(h: HistoryView) -> bool {
    h.max_size == 0 || h.messages.len() <= h.max_size
}

/// Under a bound, any sequence of pushes keeps the history within it: after
/// each push, at most `max_size` messages are stored.
pub proof fn lemma_push_keeps_bound(h: HistoryView, msgs: Seq<MessageView>, k: int)
    requires
        h.max_size > 0,
        h.messages.len() <= h.max_size,
        0 <= k <= msgs.len(),
    ensures
        pushed_all(h, msgs.take(k)).messages.len() <= h.max_size,
        pushed_all(h, msgs.take(k)).max_size == h.max_size,
    decreases k,
{
    if k > 0 {
        lemma_push_keeps_bound(h, msgs, k - 1);
        assert(msgs.take(k).drop_last() =~= msgs.take(k - 1));
    }
}

/// The history reached by pushing `sys` and then the first `k` of `others`
/// onto an empty history bounded by the number of `others`.
proof fn lemma_system_then_others(sys: MessageView, others: Seq<MessageView>, k: int)
    requires
        others.len() > 0,
        0 <= k < others.len(),
        forall|i: int| 0 < i < others.len() ==> (#[trigger] others[i].id is None || others[i].id != others[i - 1].id),
        others[0].id is None || others[0].id != sys.id,
    ensures
        pushed_all(
            HistoryView { messages: Seq::empty(), max_size: others.len(), system_message: None, include_system: true },
            (seq![sys] + others).take(k + 1),
        ) == (HistoryView {
            messages: seq![sys] + others.take(k),
            max_size: others.len(),
            system_message: None,
            include_system: true,
        }),
    decreases k,
{
    let h0 = HistoryView { messages: Seq::empty(), max_size: others.len(), system_message: None, include_system: true };
    let all = seq![sys] + others;
    if k == 0 {
        assert(all.take(1).drop_last() =~= Seq::<MessageView>::empty());
        assert(seq![sys] + others.take(0) =~= seq![sys]);
        assert(Seq::<MessageView>::empty().push(sys) =~= seq![sys]);
        assert(all.take(1).last() == sys);
        assert(pushed_all(h0, Seq::<MessageView>::empty()) == h0);
    } else {
        lemma_system_then_others(sys, others, k - 1);
        assert(all.take(k + 1).drop_last() =~= all.take(k));
        assert(all[k] == others[k - 1]);
        let prev = seq![sys] + others.take(k - 1);
        assert(prev.last() == (if k == 1 { sys } else { others[k - 2] }));
        if k > 1 {
            assert(others[k - 1].id is None || others[k - 1].id != others[k - 1 - 1].id);
        }
        assert(all.take(k + 1).last() == others[k - 1]);
        assert((seq![sys] + others.take(k - 1)).push(others[k - 1]) =~= seq![sys] + others.take(k));
    }
}

/// A system message pushed first onto an empty history bounded by `n`, then
/// `n` messages that are not system messages, stays shown in front of them
/// once it has left the stored messages: the history shows `n + 1` messages,
/// the system message first. (No pushed message may carry the id of the one
/// pushed just before it, which would merge the two.)
pub proof fn lemma_system_retained(sys: MessageView, others: Seq<MessageView>)
    requires
        is_system(sys),
        others.len() > 0,
        forall|i: int| 0 <= i < others.len() ==> !is_system(#[trigger] others[i]),
        forall|i: int| 0 < i < others.len() ==> (#[trigger] others[i].id is None || others[i].id != others[i - 1].id),
        others[0].id is None || others[0].id != sys.id,
    ensures
        shown(
            pushed_all(
                HistoryView { messages: Seq::empty(), max_size: others.len(), system_message: None, include_system: true },
                seq![sys] + others,
            ),
        ) == seq![sys] + others,
{
    let n = others.len() as int;
    let all = seq![sys] + others;
    lemma_system_then_others(sys, others, n - 1);
    assert(all.take(n + 1) =~= all);
    assert(all.drop_last() =~= all.take(n));
    let prev = seq![sys] + others.take(n - 1);
    assert(prev.last() == (if n == 1 { sys } else { others[n - 2] }));
    assert(prev.drop_first().push(others[n - 1]) =~= others);
}

/// Two pushes in succession of messages with the same non-empty id leave one stored
/// message for both, holding the content of the second.
pub proof fn lemma_same_id_coalesces(h: HistoryView, first: MessageView, second: MessageView)
    requires
        first.id is Some,
        first.id->Some_0.len() > 0,
        second.id == first.id,
    ensures
        pushed(pushed(h, first), second).messages.len() == pushed(h, first).messages.len(),
        pushed(pushed(h, first), second).messages.last().content == second.content,
        h.messages.len() == 0 ==> pushed(pushed(h, first), second).messages.len() == 1,
{
}

/// The prompt view leaves out the thinking trace of every stored message,
/// while the shown view keeps it.
pub proof fn lemma_prompt_strips_thinking(h: HistoryView, j: int)
    requires
        0 <= j < h.messages.len(),
    ensures
        ({
            let at = if h.include_system && h.system_message is Some { j + 1 } else { j };
            &&& shown(h)[at] == h.messages[j]
            &&& prompt(h)[at] == without_thinking(h.messages[j])
            &&& prompt(h)[at].thinking.len() == 0
        }),
{
}

/// Setting the same bound twice changes nothing the second time.
pub proof fn lemma_resize_idempotent(h: HistoryView, size: nat)
    ensures
        resized(resized(h, size), size) == resized(h, size),
{
}

/// An ordered, size-bounded record of a conversation.
#[derive(Debug)]
pub struct MessageHistory {
    pub messages: Vec<Message>,
    /// 0 for no bound.
    pub max_size: usize,
    /// A system message kept after it left `messages`.
    pub system_message: Option<Message>,
    /// Whether `system_message` is shown in front of the stored messages.
    pub include_system: bool,
}

impl View for MessageHistory {
    type V = HistoryView;

    open spec fn view(&self) -> HistoryView {
        HistoryView {
            messages: messages_view(self.messages@),
            max_size: self.max_size as nat,
            system_message: match self.system_message {
                Some(m) => Some(m@),
                None => None,
            },
            include_system: self.include_system,
        }
    }
}

fn same_id(a: &Option<String>, b: &Option<String>) -> (r: bool)
    ensures
        r == (opt_view(*a) is Some && opt_view(*a)->Some_0.len() > 0 && opt_view(*a) == opt_view(*b)),
{
    match (a, b) {
        (Some(x), Some(y)) => !x.as_str().is_empty() && *x == *y,
        _ => false,
    }
}

/// The empty, unbounded history.
pub open spec fn empty_history() -> HistoryView {
    HistoryView { messages: Seq::empty(), max_size: 0, system_message: None, include_system: false }
}

impl Default for MessageHistory {
    fn default() -> (r: Self)
        ensures
            r@ == empty_history(),
    {
        let r = MessageHistory { messages: Vec::new(), max_size: 0, system_message: None, include_system: false };
        assert(messages_view(r.messages@) =~= Seq::<MessageView>::empty());
        r
    }
}

impl MessageHistory {
    /// A history of `messages`, bounded by `max_size` (0 for no bound).
    pub fn new(messages: Vec<Message>, max_size: usize) -> (r: MessageHistory)
        ensures
            r@ == resized(
                HistoryView {
                    messages: messages_view(messages@),
                    max_size: 0,
                    system_message: None,
                    include_system: false,
                },
                max_size as nat,
            ),
            bounded(r@),
    {
        let mut hist = MessageHistory {
            messages,
            max_size: 0,
            system_message: None,
            include_system: false,
        };
        hist.set_max_size(max_size);
        hist
    }

    /// The messages shown: the retained system message where it is
    /// re-injected, followed by the stored messages.
    pub fn messages(&self) -> (r: Vec<Message>)
        ensures
            messages_view(r@) == shown(self@),
    {
        let mut msgs: Vec<Message> = Vec::new();
        if self.include_system {
            match &self.system_message {
                Some(sys) => msgs.push(sys.clone()),
                None => {},
            }
        }
        let ghost start = msgs@.len();
        let mut i: usize = 0;
        while i < self.messages.len()
            invariant
                i <= self.messages.len(),
                msgs@.len() == start + i,
                start == (if self.include_system && self.system_message is Some { 1int } else { 0 }),
                start == 1 ==> msgs@[0]@ == self.system_message->Some_0@,
                forall|j: int| 0 <= j < i ==> #[trigger] msgs@[start + j]@ == self.messages@[j]@,
            decreases self.messages.len() - i,
        {
            msgs.push(self.messages[i].clone());
            i += 1;
        }
        assert forall|j: int| 0 <= j < msgs@.len() implies #[trigger] messages_view(msgs@)[j] == shown(self@)[j] by {
            if start == 1 && j > 0 {
                assert(msgs@[start + (j - 1)]@ == self.messages@[j - 1]@);
            } else if start == 0 {
                assert(msgs@[start + j]@ == self.messages@[j]@);
            }
        }
        assert(messages_view(msgs@) =~= shown(self@));
        msgs
    }

    /// The messages sent to a provider: the same as [`Self::messages`], each
    /// with its thinking trace left out.
    pub fn messages_for_prompt(&self) -> (r: Vec<Message>)
        ensures
            messages_view(r@) == prompt(self@),
    {
        let mut msgs = self.messages();
        let ghost shown_msgs = msgs@;
        let mut i: usize = 0;
        while i < msgs.len()
            invariant
                i <= msgs.len(),
                msgs@.len() == shown_msgs.len(),
                messages_view(shown_msgs) == shown(self@),
                forall|j: int| 0 <= j < i ==> #[trigger] msgs@[j]@ == without_thinking(shown_msgs[j]@),
                forall|j: int| i <= j < msgs.len() ==> #[trigger] msgs@[j] == shown_msgs[j],
            decreases msgs.len() - i,
        {
            let mut m = msgs.remove(i);
            m.thinking = String::new();
            msgs.insert(i, m);
            i += 1;
        }
        assert(messages_view(msgs@) =~= prompt(self@)) by {
            assert forall|j: int| 0 <= j < msgs@.len() implies messages_view(msgs@)[j] == prompt(self@)[j] by {
                assert(shown(self@)[j] == shown_msgs[j]@);
            }
        }
        msgs
    }

    pub fn include_system(&self) -> (r: bool)
        ensures
            r == self.include_system,
    {
        self.include_system
    }

    pub fn set_include_system(&mut self, shown: bool)
        ensures
            final(self)@ == (HistoryView { include_system: shown, ..old(self)@ }),
    {
        self.include_system = shown;
    }

    /// Sets the bound (0 for none) and drops the oldest messages beyond it.
    /// Where system messages are re-injected, the last system message among
    /// the dropped ones is retained.
    pub fn set_max_size(&mut self, size: usize)
        ensures
            final(self)@ == resized(old(self)@, size as nat),
            bounded(final(self)@),
    {
        self.max_size = size;
        if size > 0 && self.messages.len() > size {
            let cut = self.messages.len() - size;
            if self.include_system {
                let mut found: Option<usize> = None;
                let mut i: usize = 0;
                while i < cut
                    invariant
                        i <= cut,
                        cut <= self.messages.len(),
                        found is Some ==> found->Some_0 < i,
                        (match found {
                            Some(j) => Some(j as int),
                            None => None,
                        }) == last_system_before(messages_view(self.messages@), i as int),
                    decreases cut - i,
                {
                    if self.messages[i].has_role("system") {
                        found = Some(i);
                    }
                    i += 1;
                }
                match found {
                    Some(j) => {
                        self.system_message = Some(self.messages[j].clone());
                    },
                    None => {},
                }
            }
            let tail = self.messages.split_off(cut);
            self.messages = tail;
            assert(messages_view(self.messages@) =~= messages_view(old(self).messages@).subrange(
                cut as int,
                old(self).messages@.len() as int,
            ));
        }
    }

    /// Puts `preamble` in front of the stored messages, drops the retained
    /// system message and enforces the bound again. Nothing changes when
    /// `preamble` is empty.
    pub fn set_preamble(&mut self, preamble: Vec<Message>)
        ensures
            final(self)@ == with_preamble(old(self)@, messages_view(preamble@)),
            bounded(old(self)@) ==> bounded(final(self)@),
    {
        if preamble.len() == 0 {
            return;
        }
        let mut msgs = preamble;
        let ghost pre = msgs@;
        let mut rest: Vec<Message> = Vec::new();
        std::mem::swap(&mut rest, &mut self.messages);
        let ghost stored = rest@;
        msgs.append(&mut rest);
        self.messages = msgs;
        self.system_message = None;
        assert(messages_view(self.messages@) =~= messages_view(pre) + messages_view(stored));
        let size = self.max_size;
        self.set_max_size(size);
    }

    /// Adds `message` to the history. A message whose non-empty id is that of
    /// the last stored message replaces its content, thinking and tool calls. Otherwise,
    /// at the bound, the oldest message leaves first (and is retained if it is
    /// a system message), and `message` is appended.
    pub fn push(&mut self, message: Message)
        ensures
            final(self)@ == pushed(old(self)@, message@),
            bounded(old(self)@) ==> bounded(final(self)@),
    {
        let n = self.messages.len();
        if n > 0 && same_id(&message.id, &self.messages[n - 1].id) {
            let last = self.messages.pop();
            match last {
                Some(mut last) => {
                    last.content = message.content;
                    last.thinking = message.thinking;
                    last.tool_calls = message.tool_calls;
                    self.messages.push(last);
                },
                None => {},
            }
            assert(messages_view(self.messages@) =~= pushed(old(self)@, message@).messages);
            return;
        }
        if self.max_size > 0 && self.messages.len() >= self.max_size {
            let m = self.messages.remove(0);
            if m.has_role("system") {
                self.system_message = Some(m);
            }
        }
        self.messages.push(message);
        assert(messages_view(self.messages@) =~= pushed(old(self)@, message@).messages);
    }

    /// Pushes each of `messages` in order.
    pub fn push_all(&mut self, messages: Vec<Message>)
        ensures
            final(self)@ == pushed_all(old(self)@, messages_view(messages@)),
            bounded(old(self)@) ==> bounded(final(self)@),
    {
        let mut i: usize = 0;
        let mut rest = messages;
        let ghost all = rest@;
        let total = rest.len();
        while rest.len() > 0
            invariant
                i + rest@.len() == all.len(),
                all.len() == total,
                rest@ == all.subrange(i as int, all.len() as int),
                self@ == pushed_all(old(self)@, messages_view(all.subrange(0, i as int))),
                bounded(old(self)@) ==> bounded(self@),
            decreases rest@.len(),
        {
            let m = rest.remove(0);
            proof {
                assert(messages_view(all.subrange(0, i + 1)).drop_last() =~= messages_view(all.subrange(0, i as int)));
            }
            self.push(m);
            i += 1;
            assert(rest@ =~= all.subrange(i as int, all.len() as int));
        }
        assert(all.subrange(0, i as int) =~= all);
    }
}

} // verus!
