use super::merge::{concatenate_parts, merge_parts};
use super::response::{texts_with_separator, GeminiResponse};
use super::types::{chats_view, copy_parts, parts_view, Chat, ChatView, Part, PartView, Role, TextPart};
use crate::text::push_str;
use std::collections::VecDeque;
use vstd::prelude::*;

verus! {

/// A bounded conversation history.
pub struct Session {
    history: VecDeque<Chat>,
    history_limit: usize,
    chat_no: usize,
    remember_reply: bool,
}

/// What a session holds: its turns, oldest first, the most turns it keeps,
/// how many turns were ever added, and whether replies are kept.
pub struct SessionView {
    pub history: Seq<ChatView>,
    pub limit: nat,
    pub chat_no: nat,
    pub remember_reply: bool,
}

impl View for Session {
    type V = SessionView;

    closed spec fn view(&self) -> SessionView {
        SessionView {
            history: chats_view(self.history@),
            limit: self.history_limit as nat,
            chat_no: self.chat_no as nat,
            remember_reply: self.remember_reply,
        }
    }
}

/// No two adjacent turns share a role.
#[verifier::opaque]
pub open spec fn roles_alternate(h: Seq<ChatView>) -> bool {
    forall|i: int| 0 <= i < h.len() - 1 ==> #[trigger] h[i].role != h[i + 1].role
}

/// The session invariant: the history fits its limit and roles alternate.
pub open spec fn session_wf(v: SessionView) -> bool {
    &&& v.history.len() <= v.limit
    &&& roles_alternate(v.history)
}

/// The session after one turn is added: a turn of the last turn's role is
/// folded into it; any other turn is appended, counted, and the oldest turn
/// is dropped when the history would exceed its limit.
pub open spec fn add_turn(v: SessionView, c: ChatView) -> SessionView {
    if v.history.len() > 0 && v.history.last().role == c.role {
        SessionView {
            history: v.history.update(
                v.history.len() - 1,
                ChatView { role: c.role, parts: merge_parts(v.history.last().parts, c.parts) },
            ),
            limit: v.limit,
            chat_no: v.chat_no,
            remember_reply: v.remember_reply,
        }
    } else {
        let h = v.history.push(c);
        SessionView {
            history: if h.len() > v.limit {
                h.drop_first()
            } else {
                h
            },
            limit: v.limit,
            chat_no: v.chat_no + 1,
            remember_reply: v.remember_reply,
        }
    }
}

/// The history after the last exchange is forgotten: the last turn goes,
/// and then the turn before it too when that one is the user's.
pub open spec fn forget_history(h: Seq<ChatView>) -> Seq<ChatView> {
    if h.len() == 0 {
        h
    } else if h.len() >= 2 && h[h.len() - 2].role == Role::user {
        h.take(h.len() - 2)
    } else {
        h.drop_last()
    }
}

/// The texts of the text parts whose thought flag is `thought`, in order.
pub open spec fn texts_flagged(parts: Seq<PartView>, thought: bool) -> Seq<Seq<char>>
    decreases parts.len(),
{
    if parts.len() == 0 {
        Seq::empty()
    } else {
        let rest = texts_flagged(parts.drop_last(), thought);
        match parts.last() {
            PartView::Text { text, thought: t } => if t == thought {
                rest.push(text)
            } else {
                rest
            },
            _ => rest,
        }
    }
}

/// The items joined with `sep` between neighbours.
pub open spec fn join(items: Seq<Seq<char>>, sep: Seq<char>) -> Seq<char>
    decreases items.len(),
{
    if items.len() == 0 {
        Seq::empty()
    } else if items.len() == 1 {
        items[0]
    } else {
        join(items.drop_last(), sep) + sep + items.last()
    }
}

/// Joins the texts of the text parts with the given thought flag.
fn join_texts(parts: &Vec<Part>, seperator: &str, thought: bool) -> (r: String)
    ensures
        r@ == join(texts_flagged(parts_view(parts@), thought), seperator@),
{
    let mut out = String::new();
    let mut first = true;
    let mut i: usize = 0;
    while i < parts.len()
        invariant
            i <= parts@.len(),
            first == (texts_flagged(parts_view(parts@.take(i as int)), thought).len() == 0),
            out@ == join(texts_flagged(parts_view(parts@.take(i as int)), thought), seperator@),
        decreases parts@.len() - i,
    {
        let ghost before = texts_flagged(parts_view(parts@.take(i as int)), thought);
        if let Part::text(t) = &parts[i] {
            if t.thought == thought {
                if !first {
                    push_str(&mut out, seperator);
                }
                push_str(&mut out, t.text.as_str());
                first = false;
            }
        }
        proof {
            let s = parts_view(parts@.take(i + 1));
            assert(s.drop_last() =~= parts_view(parts@.take(i as int)));
            assert(s.last() == parts@[i as int]@);
            let after = texts_flagged(s, thought);
            if after.len() > before.len() {
                assert(after == before.push(after.last()));
                assert(after.drop_last() =~= before);
                if before.len() == 0 {
                    assert(out@ =~= join(after, seperator@));
                }
            }
        }
        i += 1;
    }
    assert(parts@.take(i as int) =~= parts@);
    out
}

impl Session {
    /// The session invariant.
    pub open spec fn wf(&self) -> bool {
        session_wf(self@)
    }

    /// `history_limit`: total number of turns of user and model kept.
    /// `new(2)` keeps one question and one reply.
    pub fn new(history_limit: usize) -> (r: Session)
        ensures
            r@.history == Seq::<ChatView>::empty(),
            r@.limit == history_limit,
            r@.chat_no == 0,
            r@.remember_reply,
            r.wf(),
    {
        let r = Session { history: VecDeque::new(), history_limit, chat_no: 0, remember_reply: true };
        proof {
            reveal(roles_alternate);
            assert(r@.history =~= Seq::<ChatView>::empty());
        }
        r
    }

    pub fn set_remember_reply(self, remember: bool) -> (r: Session)
        ensures
            r@ == (SessionView { remember_reply: remember, ..self@ }),
    {
        let mut s = self;
        s.remember_reply = remember;
        s
    }

    pub fn get_history_limit(&self) -> (r: usize)
        ensures
            r == self@.limit,
    {
        self.history_limit
    }

    pub fn get_history_as_vecdeque(&self) -> (r: &VecDeque<Chat>)
        ensures
            chats_view(r@) == self@.history,
    {
        &self.history
    }

    /// Count of all turns ever added to the history.
    pub fn get_chat_no(&self) -> (r: usize)
        ensures
            r == self@.chat_no,
    {
        self.chat_no
    }

    /// The turns, oldest first.
    pub fn get_history(&self) -> (r: Vec<&Chat>)
        ensures
            r@.len() == self@.history.len(),
            forall|i: int| 0 <= i < r@.len() ==> (#[trigger] r@[i])@ == self@.history[i],
    {
        let mut r: Vec<&Chat> = Vec::new();
        let mut i: usize = 0;
        while i < self.history.len()
            invariant
                i <= self.history@.len(),
                r@.len() == i,
                forall|j: int| 0 <= j < i ==> (#[trigger] r@[j])@ == self@.history[j],
            decreases self.history@.len() - i,
        {
            r.push(&self.history[i]);
            i += 1;
        }
        r
    }

    pub fn get_history_length(&self) -> (r: usize)
        ensures
            r == self@.history.len(),
    {
        self.history.len()
    }

    /// The parts of the `chat_previous_no`-th last turn: 1 is the last turn,
    /// 2 the one before it.
    pub fn get_parts(&self, chat_previous_no: usize) -> (r: Option<&Vec<Part>>)
        ensures
            match r {
                Some(p) => 1 <= chat_previous_no <= self@.history.len() && parts_view(p@)
                    == self@.history[self@.history.len() - chat_previous_no].parts,
                None => chat_previous_no == 0 || chat_previous_no > self@.history.len(),
            },
    {
        let n = self.history.len();
        if chat_previous_no == 0 || chat_previous_no > n {
            None
        } else {
            Some(&self.history[n - chat_previous_no].parts)
        }
    }

    /// The parts of the turn at `chat_no`, counting from 0 at the oldest.
    pub fn get_parts_no(&self, chat_no: usize) -> (r: Option<&Vec<Part>>)
        ensures
            match r {
                Some(p) => chat_no < self@.history.len() && parts_view(p@)
                    == self@.history[chat_no as int].parts,
                None => chat_no >= self@.history.len(),
            },
    {
        if chat_no < self.history.len() {
            Some(&self.history[chat_no].parts)
        } else {
            None
        }
    }

    pub fn get_remember_reply(&self) -> (r: bool)
        ensures
            r == self@.remember_reply,
    {
        self.remember_reply
    }

    #[verifier::rlimit(100)]
    fn add_chat(&mut self, chat: Chat)
        requires
            old(self).wf(),
            old(self)@.chat_no < usize::MAX,
        ensures
            final(self)@ == add_turn(old(self)@, chat@),
            final(self).wf(),
    {
        let ghost v = self@;
        let ghost c = chat@;
        let n = self.history.len();
        if n > 0 && self.history[n - 1].role == chat.role {
            let mut last = self.history.pop_back().unwrap();
            concatenate_parts(&mut last.parts, chat.parts.as_slice());
            self.history.push_back(last);
            proof {
                lemma_chats_view_update_last(old(self).history@, last);
                lemma_roles_update_last(v.history, last@);
            }
            return;
        }
        self.history.push_back(chat);
        self.chat_no = self.chat_no + 1;
        proof {
            lemma_chats_view_push(old(self).history@, chat);
            lemma_roles_push(v.history, c);
        }
        if self.history.len() > self.history_limit {
            let ghost before = self.history@;
            self.history.pop_front();
            proof {
                lemma_chats_view_drop_first(before);
                lemma_roles_drop_first(v.history.push(c));
            }
        }
    }

    /// Adds a user turn; consecutive user turns are folded into one.
    pub fn ask(&mut self, parts: Vec<Part>)
        requires
            old(self).wf(),
            old(self)@.chat_no < usize::MAX,
        ensures
            final(self)@ == add_turn(old(self)@, ChatView { role: Role::user, parts: parts_view(parts@) }),
            final(self).wf(),
    {
        self.add_chat(Chat::new(Role::user, parts))
    }

    /// Adds a user turn of one plain text part.
    pub fn ask_string(&mut self, prompt: &str)
        requires
            old(self).wf(),
            old(self)@.chat_no < usize::MAX,
        ensures
            final(self)@ == add_turn(
                old(self)@,
                ChatView { role: Role::user, parts: seq![PartView::Text { text: prompt@, thought: false }] },
            ),
            final(self).wf(),
    {
        let parts = vec![Part::text(TextPart::from(prompt.to_owned()))];
        proof {
            assert(parts_view(parts@) =~= seq![PartView::Text { text: prompt@, thought: false }]);
        }
        self.add_chat(Chat::new(Role::user, parts))
    }

    /// Adds a model turn; consecutive model turns are folded into one.
    pub fn reply(&mut self, parts: Vec<Part>)
        requires
            old(self).wf(),
            old(self)@.chat_no < usize::MAX,
        ensures
            final(self)@ == add_turn(old(self)@, ChatView { role: Role::model, parts: parts_view(parts@) }),
            final(self).wf(),
    {
        self.add_chat(Chat::new(Role::model, parts))
    }

    /// Adds a model turn of one plain text part.
    pub fn reply_string(&mut self, prompt: &str)
        requires
            old(self).wf(),
            old(self)@.chat_no < usize::MAX,
        ensures
            final(self)@ == add_turn(
                old(self)@,
                ChatView { role: Role::model, parts: seq![PartView::Text { text: prompt@, thought: false }] },
            ),
            final(self).wf(),
    {
        let parts = vec![Part::text(TextPart::from(prompt.to_owned()))];
        proof {
            assert(parts_view(parts@) =~= seq![PartView::Text { text: prompt@, thought: false }]);
        }
        self.add_chat(Chat::new(Role::model, parts))
    }

    /// Applies a reply (complete, or one streamed delta): when replies are
    /// remembered its parts are folded in as a model turn and returned;
    /// otherwise the question that prompted it is dropped, leaving no trace
    /// of the exchange.
    pub fn update<'b>(&mut self, response: &'b GeminiResponse) -> (r: Option<&'b Vec<Part>>)
        requires
            old(self).wf(),
            old(self)@.chat_no < usize::MAX,
            response.candidates@.len() > 0,
        ensures
            old(self)@.remember_reply ==> r == Some(&response.candidates@[0].content.parts)
                && final(self)@ == add_turn(
                old(self)@,
                ChatView {
                    role: Role::model,
                    parts: parts_view(response.candidates@[0].content.parts@),
                },
            ),
            !old(self)@.remember_reply ==> r is None && final(self)@ == (SessionView {
                history: if old(self)@.history.len() > 0 && old(self)@.history.last().role
                    == Role::user {
                    old(self)@.history.drop_last()
                } else {
                    old(self)@.history
                },
                ..old(self)@
            }),
            final(self).wf(),
    {
        if self.remember_reply {
            let reply_parts = response.get_parts();
            self.add_chat(Chat::new(Role::model, copy_parts(reply_parts.as_slice())));
            Some(reply_parts)
        } else {
            let n = self.history.len();
            if n > 0 && self.history[n - 1].role == Role::user {
                self.history.pop_back();
                proof {
                    let hs = old(self).history@;
                    lemma_chats_view_take(hs, hs.len() - 1);
                    lemma_roles_take(old(self)@.history, hs.len() - 1);
                    assert(chats_view(self.history@) =~= old(self)@.history.drop_last());
                }
            }
            None
        }
    }

    /// The parts of the last turn.
    pub fn get_last_message(&self) -> (r: Option<&Vec<Part>>)
        ensures
            match r {
                Some(p) => self@.history.len() > 0 && parts_view(p@) == self@.history.last().parts,
                None => self@.history.len() == 0,
            },
    {
        let n = self.history.len();
        if n == 0 {
            None
        } else {
            Some(&self.history[n - 1].parts)
        }
    }

    /// The parts of the last turn.
    pub fn last_reply(&self) -> (r: Option<&Vec<Part>>)
        ensures
            match r {
                Some(p) => self@.history.len() > 0 && parts_view(p@) == self@.history.last().parts,
                None => self@.history.len() == 0,
            },
    {
        self.get_last_message()
    }

    /// Every text part of the last turn, each followed by `seperator`.
    pub fn last_reply_text(&self, seperator: &str) -> (r: Option<String>)
        ensures
            match r {
                Some(s) => self@.history.len() > 0 && s@ == texts_with_separator(
                    self@.history.last().parts,
                    seperator@,
                ),
                None => self@.history.len() == 0,
            },
    {
        match self.get_last_message() {
            Some(parts) => Some(GeminiResponse::extract_text(parts.as_slice(), seperator)),
            None => None,
        }
    }

    /// The answer text of the last turn: its non-thought text parts joined
    /// with `seperator`.
    pub fn get_last_message_text(&self, seperator: &str) -> (r: Option<String>)
        ensures
            match r {
                Some(s) => self@.history.len() > 0 && s@ == join(
                    texts_flagged(self@.history.last().parts, false),
                    seperator@,
                ),
                None => self@.history.len() == 0,
            },
    {
        match self.get_last_message() {
            Some(parts) => Some(join_texts(parts, seperator, false)),
            None => None,
        }
    }

    /// The reasoning trace of the last turn: its thought text parts joined
    /// with `seperator`.
    pub fn get_last_message_thoughts(&self, seperator: &str) -> (r: Option<String>)
        ensures
            match r {
                Some(s) => self@.history.len() > 0 && s@ == join(
                    texts_flagged(self@.history.last().parts, true),
                    seperator@,
                ),
                None => self@.history.len() == 0,
            },
    {
        match self.get_last_message() {
            Some(parts) => Some(join_texts(parts, seperator, true)),
            None => None,
        }
    }

    /// Removes the last turn, and the user's question before it when the
    /// last turn was a reply. Returns the removed turns as
    /// (last, second last).
    pub fn forget_last_conversation(&mut self) -> (r: (Option<Chat>, Option<Chat>))
        requires
            old(self).wf(),
        ensures
            final(self)@ == (SessionView { history: forget_history(old(self)@.history), ..old(self)@ }),
            final(self).wf(),
            match r.0 {
                Some(c) => old(self)@.history.len() > 0 && c@ == old(self)@.history.last(),
                None => old(self)@.history.len() == 0,
            },
            match r.1 {
                Some(c) => old(self)@.history.len() >= 2 && c@ == old(self)@.history[old(self)@.history.len() - 2]
                    && c@.role == Role::user,
                None => old(self)@.history.len() < 2 || old(self)@.history[old(self)@.history.len() - 2].role != Role::user,
            },
    {
        let ghost h = old(self)@.history;
        let ghost hs = old(self).history@;
        let last = self.history.pop_back();
        let n = self.history.len();
        let second = if n > 0 && self.history[n - 1].role == Role::user {
            self.history.pop_back()
        } else {
            None
        };
        proof {
            if hs.len() == 0 {
                assert(self.history@ == hs);
            } else if hs.len() >= 2 && hs[hs.len() - 2].role == Role::user {
                assert(h[h.len() - 2].role == Role::user);
                assert(self.history@ =~= hs.subrange(0, hs.len() - 2));
                lemma_chats_view_take(hs, hs.len() - 2);
                lemma_roles_take(h, h.len() - 2);
                assert(chats_view(self.history@) =~= forget_history(h));
            } else {
                assert(h.len() < 2 || h[h.len() - 2].role != Role::user);
                assert(self.history@ =~= hs.subrange(0, hs.len() - 1));
                lemma_chats_view_take(hs, hs.len() - 1);
                lemma_roles_take(h, h.len() - 1);
                assert(chats_view(self.history@) =~= forget_history(h));
            }
        }
        (last, second)
    }
}

proof fn lemma_chats_view_push(s: Seq<Chat>, c: Chat)
    ensures
        chats_view(s.push(c)) == chats_view(s).push(c@),
{
    assert(chats_view(s.push(c)) =~= chats_view(s).push(c@));
}

proof fn lemma_chats_view_update_last(s: Seq<Chat>, c: Chat)
    requires
        s.len() > 0,
    ensures
        chats_view(s.drop_last().push(c)) == chats_view(s).update(s.len() - 1, c@),
{
    assert(chats_view(s.drop_last().push(c)) =~= chats_view(s).update(s.len() - 1, c@));
}

proof fn lemma_chats_view_drop_first(s: Seq<Chat>)
    requires
        s.len() > 0,
    ensures
        chats_view(s.subrange(1, s.len() as int)) == chats_view(s).drop_first(),
{
    assert(chats_view(s.subrange(1, s.len() as int)) =~= chats_view(s).drop_first());
}

proof fn lemma_chats_view_take(s: Seq<Chat>, n: int)
    requires
        0 <= n <= s.len(),
    ensures
        chats_view(s.subrange(0, n)) == chats_view(s).take(n),
{
    assert(chats_view(s.subrange(0, n)) =~= chats_view(s).take(n));
}

proof fn lemma_roles_update_last(h: Seq<ChatView>, c: ChatView)
    requires
        h.len() > 0,
        roles_alternate(h),
        c.role == h.last().role,
    ensures
        roles_alternate(h.update(h.len() - 1, c)),
{
    reveal(roles_alternate);
    let h2 = h.update(h.len() - 1, c);
    assert forall|i: int| 0 <= i < h2.len() - 1 implies #[trigger] h2[i].role != h2[i + 1].role by {
        assert(h[i].role != h[i + 1].role);
    }
}

proof fn lemma_roles_push(h: Seq<ChatView>, c: ChatView)
    requires
        roles_alternate(h),
        h.len() == 0 || c.role != h.last().role,
    ensures
        roles_alternate(h.push(c)),
{
    reveal(roles_alternate);
    let h2 = h.push(c);
    assert forall|i: int| 0 <= i < h2.len() - 1 implies #[trigger] h2[i].role != h2[i + 1].role by {
        if i + 1 < h.len() {
            assert(h[i].role != h[i + 1].role);
        }
    }
}

proof fn lemma_roles_drop_first(h: Seq<ChatView>)
    requires
        h.len() > 0,
        roles_alternate(h),
    ensures
        roles_alternate(h.drop_first()),
{
    reveal(roles_alternate);
    let h2 = h.drop_first();
    assert forall|i: int| 0 <= i < h2.len() - 1 implies #[trigger] h2[i].role != h2[i + 1].role by {
        assert(h[i + 1].role != h[i + 2].role);
    }
}

proof fn lemma_roles_take(h: Seq<ChatView>, n: int)
    requires
        0 <= n <= h.len(),
        roles_alternate(h),
    ensures
        roles_alternate(h.take(n)),
{
    reveal(roles_alternate);
    let h2 = h.take(n);
    assert forall|i: int| 0 <= i < h2.len() - 1 implies #[trigger] h2[i].role != h2[i + 1].role by {
        assert(h[i].role != h[i + 1].role);
    }
}

/// Two user turns in a row, with no reply between them, leave one user
/// turn whose parts are the first turn's parts with the second's folded in.
pub proof fn lemma_user_turns_coalesce(v: SessionView, a: Seq<PartView>, b: Seq<PartView>)
    requires
        session_wf(v),
        v.limit > 0,
    ensures
        ({
            let w = add_turn(add_turn(v, ChatView { role: Role::user, parts: a }), ChatView { role: Role::user, parts: b });
            &&& w.history.len() == add_turn(v, ChatView { role: Role::user, parts: a }).history.len()
            &&& w.history.last() == ChatView { role: Role::user, parts: merge_parts(add_turn(v, ChatView { role: Role::user, parts: a }).history.last().parts, b) }
        }),
{
    let c = ChatView { role: Role::user, parts: a };
    let w1 = add_turn(v, c);
    assert(w1.history.len() > 0);
    assert(w1.history.last().role == Role::user);
}

/// Forgetting the last exchange of a history of a question and its reply
/// leaves it empty; a history of one question loses that question.
pub proof fn lemma_forget_exchange(q: ChatView, a: ChatView)
    requires
        q.role == Role::user,
        a.role == Role::model,
    ensures
        forget_history(seq![q, a]) == Seq::<ChatView>::empty(),
        forget_history(seq![q]) == Seq::<ChatView>::empty(),
{
    assert(seq![q, a].take(0) =~= Seq::<ChatView>::empty());
    assert(seq![q].drop_last() =~= Seq::<ChatView>::empty());
}

/// Adding a turn keeps the session invariant.
pub proof fn lemma_add_turn_wf(v: SessionView, c: ChatView)
    requires
        session_wf(v),
    ensures
        session_wf(add_turn(v, c)),
{
    if v.history.len() > 0 && v.history.last().role == c.role {
        lemma_roles_update_last(
            v.history,
            ChatView { role: c.role, parts: merge_parts(v.history.last().parts, c.parts) },
        );
    } else {
        lemma_roles_push(v.history, c);
        if v.history.push(c).len() > v.limit {
            lemma_roles_drop_first(v.history.push(c));
        }
    }
}

/// The session after each turn is added, in order.
pub open spec fn add_turns(v: SessionView, cs: Seq<ChatView>) -> SessionView
    decreases cs.len(),
{
    if cs.len() == 0 {
        v
    } else {
        add_turn(add_turns(v, cs.drop_last()), cs.last())
    }
}

/// Whatever turns are added, in whatever order, the history never holds
/// more turns than its limit, after each addition.
pub proof fn lemma_appends_within_capacity(v: SessionView, cs: Seq<ChatView>)
    requires
        session_wf(v),
    ensures
        session_wf(add_turns(v, cs)),
        forall|k: int| 0 <= k <= cs.len() ==> #[trigger] add_turns(v, cs.take(k)).history.len() <= v.limit,
    decreases cs.len(),
{
    if cs.len() > 0 {
        lemma_appends_within_capacity(v, cs.drop_last());
        lemma_add_turn_wf(add_turns(v, cs.drop_last()), cs.last());
        assert(add_turns(v, cs.drop_last()).limit == v.limit) by {
            lemma_add_turns_limit(v, cs.drop_last());
        }
        assert forall|k: int| 0 <= k <= cs.len() implies #[trigger] add_turns(v, cs.take(k)).history.len() <= v.limit by {
            if k < cs.len() {
                assert(cs.take(k) =~= cs.drop_last().take(k));
            } else {
                assert(cs.take(k) =~= cs);
            }
        }
    } else {
        assert forall|k: int| 0 <= k <= cs.len() implies #[trigger] add_turns(v, cs.take(k)).history.len() <= v.limit by {
            assert(cs.take(k) =~= cs);
        }
    }
}

proof fn lemma_add_turns_limit(v: SessionView, cs: Seq<ChatView>)
    ensures
        add_turns(v, cs).limit == v.limit,
    decreases cs.len(),
{
    if cs.len() > 0 {
        lemma_add_turns_limit(v, cs.drop_last());
    }
}

} // verus!
