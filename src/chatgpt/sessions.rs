use super::request::{ChatMessage, MessageView, Role};
use super::response::{delta_contents, ChatGptResponse, ChatGptStreamChunk};
use std::collections::VecDeque;
use vstd::prelude::*;

verus! {

/// A bounded conversation history of messages.
pub struct Session {
    history: VecDeque<ChatMessage>,
    history_limit: usize,
    chat_no: usize,
    remember_reply: bool,
}

/// What a session holds: its messages, oldest first, the most messages it
/// keeps, how many messages were ever added, and whether replies are kept.
pub struct SessionView {
    pub history: Seq<MessageView>,
    pub limit: nat,
    pub chat_no: nat,
    pub remember_reply: bool,
}

/// The views of a list of messages.
pub open spec fn messages_view(m: Seq<ChatMessage>) -> Seq<MessageView> {
    m.map_values(|c: ChatMessage| c@)
}

impl View for Session {
    type V = SessionView;

    closed spec fn view(&self) -> SessionView {
        SessionView {
            history: messages_view(self.history@),
            limit: self.history_limit as nat,
            chat_no: self.chat_no as nat,
            remember_reply: self.remember_reply,
        }
    }
}

/// No two adjacent messages share a role.
#[verifier::opaque]
pub open spec fn roles_alternate(h: Seq<MessageView>) -> bool {
    forall|i: int| 0 <= i < h.len() - 1 ==> #[trigger] h[i].role != h[i + 1].role
}

/// The session invariant: the history fits its limit and roles alternate.
pub open spec fn session_wf(v: SessionView) -> bool {
    &&& v.history.len() <= v.limit
    &&& roles_alternate(v.history)
}

/// The session after one message is added: a message of the last message's
/// role has its content appended to that message; any other message is
/// appended, counted, and the oldest is dropped when the history would
/// exceed its limit.
pub open spec fn add_message(v: SessionView, m: MessageView) -> SessionView {
    if v.history.len() > 0 && v.history.last().role == m.role {
        SessionView {
            history: v.history.update(
                v.history.len() - 1,
                MessageView { content: v.history.last().content + m.content, ..v.history.last() },
            ),
            ..v
        }
    } else {
        let h = v.history.push(m);
        SessionView {
            history: if h.len() > v.limit {
                h.drop_first()
            } else {
                h
            },
            chat_no: v.chat_no + 1,
            ..v
        }
    }
}

/// A plain message of the given role and content.
pub open spec fn plain(role: Role, content: Seq<char>) -> MessageView {
    MessageView { role, content, name: None, tool_call_id: None }
}

/// The session after each streamed text is added, in order, as assistant
/// content.
pub open spec fn add_assistant_texts(v: SessionView, texts: Seq<Seq<char>>) -> SessionView
    decreases texts.len(),
{
    if texts.len() == 0 {
        v
    } else {
        add_message(add_assistant_texts(v, texts.drop_last()), plain(Role::Assistant, texts.last()))
    }
}

proof fn lemma_messages_view_push(s: Seq<ChatMessage>, c: ChatMessage)
    ensures
        messages_view(s.push(c)) == messages_view(s).push(c@),
{
    assert(messages_view(s.push(c)) =~= messages_view(s).push(c@));
}

proof fn lemma_messages_view_update_last(s: Seq<ChatMessage>, c: ChatMessage)
    requires
        s.len() > 0,
    ensures
        messages_view(s.drop_last().push(c)) == messages_view(s).update(s.len() - 1, c@),
{
    assert(messages_view(s.drop_last().push(c)) =~= messages_view(s).update(s.len() - 1, c@));
}

proof fn lemma_messages_view_drop_first(s: Seq<ChatMessage>)
    requires
        s.len() > 0,
    ensures
        messages_view(s.subrange(1, s.len() as int)) == messages_view(s).drop_first(),
{
    assert(messages_view(s.subrange(1, s.len() as int)) =~= messages_view(s).drop_first());
}

proof fn lemma_messages_view_take(s: Seq<ChatMessage>, n: int)
    requires
        0 <= n <= s.len(),
    ensures
        messages_view(s.subrange(0, n)) == messages_view(s).take(n),
{
    assert(messages_view(s.subrange(0, n)) =~= messages_view(s).take(n));
}

proof fn lemma_roles_update_last(h: Seq<MessageView>, c: MessageView)
    requires
        h.len() > 0,
        roles_alternate(h),
        c.role == h.last().role,
    ensures
        roles_alternate(h.update(h.len() - 1, c)),
{
    reveal(roles_alternate);
    let h2 = h.update(h.len() - 1, c);
    assert forall|i: int| 0 <= i < h2.len() - 1 implies #[trigger] h2[i].role != h2[i + 1].role by {
        assert(h[i].role != h[i + 1].role);
    }
}

proof fn lemma_roles_push(h: Seq<MessageView>, c: MessageView)
    requires
        roles_alternate(h),
        h.len() == 0 || c.role != h.last().role,
    ensures
        roles_alternate(h.push(c)),
{
    reveal(roles_alternate);
    let h2 = h.push(c);
    assert forall|i: int| 0 <= i < h2.len() - 1 implies #[trigger] h2[i].role != h2[i + 1].role by {
        if i + 1 < h.len() {
            assert(h[i].role != h[i + 1].role);
        }
    }
}

proof fn lemma_roles_drop_first(h: Seq<MessageView>)
    requires
        h.len() > 0,
        roles_alternate(h),
    ensures
        roles_alternate(h.drop_first()),
{
    reveal(roles_alternate);
    let h2 = h.drop_first();
    assert forall|i: int| 0 <= i < h2.len() - 1 implies #[trigger] h2[i].role != h2[i + 1].role by {
        assert(h[i + 1].role != h[i + 2].role);
    }
}

proof fn lemma_roles_take(h: Seq<MessageView>, n: int)
    requires
        0 <= n <= h.len(),
        roles_alternate(h),
    ensures
        roles_alternate(h.take(n)),
{
    reveal(roles_alternate);
    let h2 = h.take(n);
    assert forall|i: int| 0 <= i < h2.len() - 1 implies #[trigger] h2[i].role != h2[i + 1].role by {
        assert(h[i].role != h[i + 1].role);
    }
}

impl Session {
    /// The session invariant.
    pub open spec fn wf(&self) -> bool {
        session_wf(self@)
    }

    /// `history_limit`: total number of messages kept.
    pub fn new(history_limit: usize) -> (r: Session)
        ensures
            r@.history == Seq::<MessageView>::empty(),
            r@.limit == history_limit,
            r@.chat_no == 0,
            r@.remember_reply,
            r.wf(),
    {
        let r = Session { history: VecDeque::new(), history_limit, chat_no: 0, remember_reply: true };
        proof {
            reveal(roles_alternate);
            assert(r@.history =~= Seq::<MessageView>::empty());
        }
        r
    }

    pub fn set_remember_reply(self, remember: bool) -> (r: Session)
        ensures
            r@ == (SessionView { remember_reply: remember, ..self@ }),
    {
        let mut s = self;
        s.remember_reply = remember;
        s
    }

    pub fn get_history_limit(&self) -> (r: usize)
        ensures
            r == self@.limit,
    {
        self.history_limit
    }

    pub fn get_history_as_vecdeque(&self) -> (r: &VecDeque<ChatMessage>)
        ensures
            messages_view(r@) == self@.history,
    {
        &self.history
    }

    /// Count of all messages ever added to the history.
    pub fn get_chat_no(&self) -> (r: usize)
        ensures
            r == self@.chat_no,
    {
        self.chat_no
    }

    /// The messages, oldest first.
    pub fn get_history(&self) -> (r: Vec<&ChatMessage>)
        ensures
            r@.len() == self@.history.len(),
            forall|i: int| 0 <= i < r@.len() ==> (#[trigger] r@[i])@ == self@.history[i],
    {
        let mut r: Vec<&ChatMessage> = Vec::new();
        let mut i: usize = 0;
        while i < self.history.len()
            invariant
                i <= self.history@.len(),
                r@.len() == i,
                forall|j: int| 0 <= j < i ==> (#[trigger] r@[j])@ == self@.history[j],
            decreases self.history@.len() - i,
        {
            r.push(&self.history[i]);
            i += 1;
        }
        r
    }

    /// Copies of the messages, oldest first.
    pub fn get_history_cloned(&self) -> (r: Vec<ChatMessage>)
        ensures
            messages_view(r@) == self@.history,
    {
        let mut r: Vec<ChatMessage> = Vec::new();
        let mut i: usize = 0;
        while i < self.history.len()
            invariant
                i <= self.history@.len(),
                r@.len() == i,
                forall|j: int| 0 <= j < i ==> (#[trigger] r@[j])@ == self@.history[j],
            decreases self.history@.len() - i,
        {
            r.push(self.history[i].copy());
            i += 1;
        }
        assert(messages_view(r@) =~= self@.history);
        r
    }

    pub fn get_history_length(&self) -> (r: usize)
        ensures
            r == self@.history.len(),
    {
        self.history.len()
    }

    /// The last message.
    pub fn get_last_chat(&self) -> (r: Option<&ChatMessage>)
        ensures
            match r {
                Some(m) => self@.history.len() > 0 && m@ == self@.history.last(),
                None => self@.history.len() == 0,
            },
    {
        let n = self.history.len();
        if n == 0 {
            None
        } else {
            Some(&self.history[n - 1])
        }
    }

    #[verifier::rlimit(30)]
    fn add_chat(&mut self, chat: ChatMessage)
        requires
            old(self).wf(),
            old(self)@.chat_no < usize::MAX,
        ensures
            final(self)@ == add_message(old(self)@, chat@),
            final(self).wf(),
    {
        let ghost v = self@;
        let ghost c = chat@;
        let n = self.history.len();
        if n > 0 && self.history[n - 1].role == chat.role {
            let mut last = self.history.pop_back().unwrap();
            last.append_content(chat.content.as_str());
            self.history.push_back(last);
            proof {
                lemma_messages_view_update_last(old(self).history@, last);
                lemma_roles_update_last(v.history, last@);
                assert(last@ == (MessageView { content: v.history.last().content + c.content, ..v.history.last() }));
            }
            return;
        }
        self.history.push_back(chat);
        self.chat_no = self.chat_no + 1;
        proof {
            lemma_messages_view_push(old(self).history@, chat);
            lemma_roles_push(v.history, c);
        }
        if self.history.len() > self.history_limit {
            let ghost before = self.history@;
            self.history.pop_front();
            proof {
                lemma_messages_view_drop_first(before);
                lemma_roles_drop_first(v.history.push(c));
            }
        }
    }

    /// Adds a user message; consecutive user messages are concatenated.
    pub fn ask(&mut self, content: &str)
        requires
            old(self).wf(),
            old(self)@.chat_no < usize::MAX,
        ensures
            final(self)@ == add_message(old(self)@, plain(Role::User, content@)),
            final(self).wf(),
    {
        self.add_chat(ChatMessage::new(Role::User, content.to_owned(), None, None))
    }

    /// Adds an assistant message; consecutive assistant messages are
    /// concatenated.
    pub fn reply(&mut self, content: &str)
        requires
            old(self).wf(),
            old(self)@.chat_no < usize::MAX,
        ensures
            final(self)@ == add_message(old(self)@, plain(Role::Assistant, content@)),
            final(self).wf(),
    {
        self.add_chat(ChatMessage::new(Role::Assistant, content.to_owned(), None, None))
    }

    /// Applies a complete reply: when replies are remembered its message is
    /// added and returned; otherwise the question that prompted it is
    /// dropped, leaving no trace of the exchange.
    pub fn update_with_response<'a>(&mut self, response: &'a ChatGptResponse) -> (r: Option<&'a ChatMessage>)
        requires
            old(self).wf(),
            old(self)@.chat_no < usize::MAX,
            response.choices@.len() > 0,
        ensures
            old(self)@.remember_reply ==> r == Some(&response.choices@[0].message) && final(self)@
                == add_message(old(self)@, response.choices@[0].message@),
            !old(self)@.remember_reply ==> r is None && final(self)@ == (SessionView {
                history: if old(self)@.history.len() > 0 && old(self)@.history.last().role
                    == Role::User {
                    old(self)@.history.drop_last()
                } else {
                    old(self)@.history
                },
                ..old(self)@
            }),
            final(self).wf(),
    {
        if self.remember_reply {
            let message = response.message();
            self.add_chat(message.copy());
            Some(message)
        } else {
            let n = self.history.len();
            if n > 0 && self.history[n - 1].role == Role::User {
                self.history.pop_back();
                proof {
                    let hs = old(self).history@;
                    lemma_messages_view_take(hs, hs.len() - 1);
                    lemma_roles_take(old(self)@.history, hs.len() - 1);
                    assert(messages_view(self.history@) =~= old(self)@.history.drop_last());
                }
            }
            None
        }
    }

    /// Applies one streamed chunk: each piece of content it carries is added
    /// to the history as assistant content, in order.
    pub fn update_stream(&mut self, chunk: &ChatGptStreamChunk)
        requires
            old(self).wf(),
            old(self)@.chat_no + chunk.choices@.len() < usize::MAX,
        ensures
            final(self)@ == add_assistant_texts(old(self)@, delta_contents(chunk.choices@)),
            final(self).wf(),
    {
        let ghost start = self@;
        let mut i: usize = 0;
        while i < chunk.choices.len()
            invariant
                i <= chunk.choices@.len(),
                self.wf(),
                self@ == add_assistant_texts(start, delta_contents(chunk.choices@.take(i as int))),
                self@.chat_no <= start.chat_no + i,
                start.chat_no + chunk.choices@.len() < usize::MAX,
            decreases chunk.choices@.len() - i,
        {
            let ghost prev = chunk.choices@.take(i as int);
            let ghost next = chunk.choices@.take(i + 1);
            assert(next.drop_last() =~= prev);
            match &chunk.choices[i].delta.content {
                Some(content) => {
                    self.add_chat(ChatMessage::new(Role::Assistant, content.clone(), None, None));
                    assert(delta_contents(next) == delta_contents(prev).push(content@));
                    assert(delta_contents(next).drop_last() =~= delta_contents(prev));
                },
                None => {},
            }
            i += 1;
        }
        assert(chunk.choices@.take(i as int) =~= chunk.choices@);
    }
}

/// Adding messages keeps the history within its limit.
pub proof fn lemma_add_message_keeps_limit(v: SessionView, m: MessageView)
    requires
        session_wf(v),
    ensures
        add_message(v, m).history.len() <= v.limit,
{
}

} // verus!
