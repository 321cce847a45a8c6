use vstd::prelude::*;

use crate::message::{is_system, is_user, messages_view, Message, MessageView};

verus! {

/// What a message costs in a prompt: the length of its content, in characters.
pub open spec fn content_size(m: MessageView) -> nat {
    m.content.len()
}

/// The total cost of `s[k..]`.
pub open spec fn suffix_size(s: Seq<MessageView>, k: int) -> nat
    decreases s.len() - k,
{
    if 0 <= k < s.len() {
        content_size(s[k]) + suffix_size(s, k + 1)
    } else {
        0
    }
}

/// Where the most recent messages that fit start: walking back from `s[k..]`,
/// a message is taken while `base` plus the cost of what is taken stays
/// within `max`; the walk stops at the first one that does not fit.
pub open spec fn fit_start(s: Seq<MessageView>, base: nat, max: nat, k: int) -> int
    decreases k,
{
    if k <= 0 {
        0
    } else if base + suffix_size(s, k - 1) <= max {
        fit_start(s, base, max, k - 1)
    } else {
        k
    }
}

/// The first user message at or after `k`; the length of `s` if there is none.
pub open spec fn user_start(s: Seq<MessageView>, k: int) -> int
    decreases s.len() - k,
{
    if k >= s.len() {
        s.len() as int
    } else if is_user(s[k]) {
        k
    } else {
        user_start(s, k + 1)
    }
}

/// The prompt window of `msgs` under a budget of `max` characters: all of
/// them when `max <= 0`; otherwise a leading system message (always kept, its
/// cost counted), then the most recent messages that fit, starting at the
/// first user message among them.
pub open spec fn window(msgs: Seq<MessageView>, max: int) -> Seq<MessageView> {
    if max <= 0 {
        msgs
    } else if msgs.len() > 0 && is_system(msgs[0]) {
        let rest = msgs.drop_first();
        let k = fit_start(rest, content_size(msgs[0]), max as nat, rest.len() as int);
        seq![msgs[0]] + rest.subrange(user_start(rest, k), rest.len() as int)
    } else {
        let k = fit_start(msgs, 0, max as nat, msgs.len() as int);
        msgs.subrange(user_start(msgs, k), msgs.len() as int)
    }
}

proof fn lemma_user_start(s: Seq<MessageView>, k: int)
    requires
        0 <= k <= s.len(),
    ensures
        k <= user_start(s, k) <= s.len(),
        user_start(s, k) < s.len() ==> is_user(s[user_start(s, k)]),
    decreases s.len() - k,
{
    if k < s.len() && !is_user(s[k]) {
        lemma_user_start(s, k + 1);
    }
}

proof fn lemma_fit_start(s: Seq<MessageView>, base: nat, max: nat, k: int)
    requires
        0 <= k <= s.len(),
    ensures
        0 <= fit_start(s, base, max, k) <= k,
    decreases k,
{
    if k > 0 && base + suffix_size(s, k - 1) <= max {
        lemma_fit_start(s, base, max, k - 1);
    }
}

/// Under a positive budget, the part of the window after a leading system
/// message is empty or opens with a user message.
pub proof fn lemma_window_opens_with_user(msgs: Seq<MessageView>, max: int)
    requires
        max > 0,
    ensures
        ({
            let w = window(msgs, max);
            let lead = if msgs.len() > 0 && is_system(msgs[0]) { 1int } else { 0 };
            &&& lead <= w.len()
            &&& (lead == 1 ==> w[0] == msgs[0])
            &&& (w.len() == lead || is_user(w[lead]))
        }),
{
    if msgs.len() > 0 && is_system(msgs[0]) {
        let rest = msgs.drop_first();
        let k = fit_start(rest, content_size(msgs[0]), max as nat, rest.len() as int);
        lemma_fit_start(rest, content_size(msgs[0]), max as nat, rest.len() as int);
        lemma_user_start(rest, k);
    } else {
        let k = fit_start(msgs, 0, max as nat, msgs.len() as int);
        lemma_fit_start(msgs, 0, max as nat, msgs.len() as int);
        lemma_user_start(msgs, k);
    }
}

/// When a history ends with two assistant messages and the budget takes in
/// the last of them but not the one before, the window holds no message but
/// a leading system message: it never opens on an assistant message.
pub proof fn lemma_window_drops_assistant_tail(msgs: Seq<MessageView>, max: int)
    requires
        max > 0,
        msgs.len() >= 2,
        msgs[msgs.len() - 1].role == "assistant"@,
        msgs[msgs.len() - 2].role == "assistant"@,
        ({
            let base = if is_system(msgs[0]) { content_size(msgs[0]) } else { 0 };
            &&& base + content_size(msgs[msgs.len() - 1]) <= max
            &&& base + content_size(msgs[msgs.len() - 1]) + content_size(msgs[msgs.len() - 2]) > max
        }),
    ensures
        window(msgs, max) == (if is_system(msgs[0]) { seq![msgs[0]] } else { Seq::<MessageView>::empty() }),
{
    reveal_strlit("assistant");
    reveal_strlit("system");
    reveal_strlit("user");
    assert("assistant"@.len() == 9 && "system"@.len() == 6 && "user"@.len() == 4);
    assert("assistant"@ != "system"@ && "assistant"@ != "user"@);
    let sys = is_system(msgs[0]);
    let s = if sys { msgs.drop_first() } else { msgs };
    let base = if sys { content_size(msgs[0]) } else { 0 };
    let n = s.len() as int;
    assert(n >= 2);
    assert(s[n - 1] == msgs[msgs.len() - 1]);
    assert(s[n - 2] == msgs[msgs.len() - 2]);
    assert(suffix_size(s, n) == 0);
    assert(suffix_size(s, n - 1) == content_size(s[n - 1]));
    assert(suffix_size(s, n - 2) == content_size(s[n - 2]) + content_size(s[n - 1]));
    assert(fit_start(s, base, max as nat, n - 1) == n - 1);
    assert(fit_start(s, base, max as nat, n) == n - 1);
    assert(user_start(s, n) == n);
    assert(!is_user(s[n - 1]));
    assert(user_start(s, n - 1) == n);
    if sys {
        assert(seq![msgs[0]] + s.subrange(n, n) =~= seq![msgs[0]]);
    } else {
        assert(s.subrange(n, n) =~= Seq::<MessageView>::empty());
    }
}

/// The prompt window of `messages` under a budget of `max_size` characters
/// (see [`window`]): a leading system message, then the most recent messages
/// that fit, opening on a user message. A budget of 0 or less keeps all.
pub fn select_prompt_window(messages: &Vec<Message>, max_size: i64) -> (r: Vec<Message>)
    ensures
        messages_view(r@) == window(messages_view(messages@), max_size as int),
{
    let ghost all = messages_view(messages@);
    let n = messages.len();
    let mut out: Vec<Message> = Vec::new();
    if max_size <= 0 {
        let mut i: usize = 0;
        while i < n
            invariant
                i <= n,
                n == messages.len(),
                out.len() == i,
                forall|j: int| 0 <= j < i ==> #[trigger] out[j]@ == messages[j]@,
            decreases n - i,
        {
            out.push(messages[i].clone());
            i += 1;
        }
        assert(messages_view(out@) =~= all);
        return out;
    }
    let max = max_size as u64;
    let mut first: usize = 0;
    let mut total: u64 = 0;
    if n > 0 && messages[0].has_role("system") {
        first = 1;
        total = messages[0].content.as_str().unicode_len() as u64;
    }
    let ghost base = total as nat;
    let ghost rest = all.subrange(first as int, n as int);
    assert(first == 1 ==> rest =~= all.drop_first());
    assert(first == 0 ==> rest =~= all);
    let mut k: usize = n;
    while k > first
        invariant
            first <= k <= n,
            n == messages.len(),
            all == messages_view(messages@),
            rest == all.subrange(first as int, n as int),
            total as nat == base + suffix_size(rest, k - first),
            k < n ==> total <= max,
            fit_start(rest, base, max as nat, n - first) == fit_start(rest, base, max as nat, k - first),
        ensures
            first <= k <= n,
            fit_start(rest, base, max as nat, n - first) == fit_start(rest, base, max as nat, k - first),
            k == first || base + suffix_size(rest, k - 1 - first) > max,
        decreases k,
    {
        let size = messages[k - 1].content.as_str().unicode_len() as u64;
        assert(rest[k - 1 - first] == messages[k - 1]@);
        if total <= max && size <= max - total {
            total = total + size;
            k = k - 1;
        } else {
            break;
        }
    }
    let ghost stop = fit_start(rest, base, max as nat, n - first);
    assert(stop == k - first);
    let mut j: usize = k;
    while j < n && !messages[j].has_role("user")
        invariant
            k <= j <= n,
            first <= k,
            n == messages.len(),
            all == messages_view(messages@),
            rest == all.subrange(first as int, n as int),
            user_start(rest, stop) == user_start(rest, j - first),
        decreases n - j,
    {
        assert(rest[j - first] == messages[j as int]@);
        j += 1;
    }
    if j < n {
        assert(rest[j - first] == messages[j as int]@);
    }
    assert(user_start(rest, stop) == j - first);
    if first == 1 {
        out.push(messages[0].clone());
    }
    let mut i: usize = j;
    while i < n
        invariant
            j <= i <= n,
            n == messages.len(),
            out.len() == first + (i - j),
            first == 1 ==> out[0]@ == messages[0]@,
            forall|t: int| 0 <= t < i - j ==> #[trigger] out[first + t]@ == messages[j + t]@,
        decreases n - i,
    {
        out.push(messages[i].clone());
        i += 1;
    }
    proof {
        let w = window(all, max_size as int);
        if first == 1 {
            assert(w =~= seq![all[0]] + rest.subrange(j - first, rest.len() as int));
            assert forall|t: int| 0 <= t < out.len() implies #[trigger] messages_view(out@)[t] == w[t] by {
                if t > 0 {
                    assert(out[first + (t - 1)]@ == messages[j + (t - 1)]@);
                }
            }
        } else {
            assert(w =~= rest.subrange(j as int, rest.len() as int));
            assert forall|t: int| 0 <= t < out.len() implies #[trigger] messages_view(out@)[t] == w[t] by {
                assert(out[first + t]@ == messages[j + t]@);
            }
        }
        assert(messages_view(out@) =~= w);
    }
    out
}

} // verus!
