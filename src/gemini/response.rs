use super::sessions::{add_turn, Session, SessionView};
use super::types::{parts_view, Chat, ChatView, Part, PartView, Role};
use crate::framing::{scan, utf8_lossy, StreamReader, StreamStep};
use crate::text::push_str;
use serde_json::Value;
use vstd::prelude::*;

verus! {

/// One candidate reply of a response.
#[allow(non_snake_case)]
pub struct Candidate {
    pub content: Chat,
    pub finishReason: Option<String>,
}

/// A complete reply, or one delta of a streamed reply.
#[allow(non_snake_case)]
pub struct GeminiResponse {
    pub candidates: Vec<Candidate>,
    pub usageMetadata: Value,
    pub modelVersion: String,
}

/// Every text part's text followed by the separator, in order; other parts
/// contribute nothing.
pub open spec fn texts_with_separator(parts: Seq<PartView>, sep: Seq<char>) -> Seq<char>
    decreases parts.len(),
{
    if parts.len() == 0 {
        Seq::empty()
    } else {
        texts_with_separator(parts.drop_last(), sep) + match parts.last() {
            PartView::Text { text, .. } => text + sep,
            _ => Seq::empty(),
        }
    }
}

impl GeminiResponse {
    /// The parts of the first candidate.
    pub fn get_parts(&self) -> (r: &Vec<Part>)
        requires
            self.candidates@.len() > 0,
        ensures
            r == &self.candidates@[0].content.parts,
    {
        &self.candidates[0].content.parts
    }

    /// Concatenates every text part, each followed by `seperator`.
    pub fn extract_text(parts: &[Part], seperator: &str) -> (r: String)
        ensures
            r@ == texts_with_separator(parts_view(parts@), seperator@),
    {
        let mut out = String::new();
        let mut i: usize = 0;
        while i < parts.len()
            invariant
                i <= parts@.len(),
                out@ == texts_with_separator(parts_view(parts@.take(i as int)), seperator@),
            decreases parts@.len() - i,
        {
            if let Part::text(t) = &parts[i] {
                push_str(&mut out, t.text.as_str());
                push_str(&mut out, seperator);
            }
            proof {
                let s = parts_view(parts@.take(i + 1));
                assert(s.drop_last() =~= parts_view(parts@.take(i as int)));
                assert(s.last() == parts@[i as int]@);
                assert(out@ =~= texts_with_separator(s, seperator@));
            }
            i += 1;
        }
        assert(parts@.take(i as int) =~= parts@);
        out
    }

    /// The text of the first candidate, each text part followed by `seperator`.
    pub fn get_text(&self, seperator: &str) -> (r: String)
        requires
            self.candidates@.len() > 0,
        ensures
            r@ == texts_with_separator(
                parts_view(self.candidates@[0].content.parts@),
                seperator@,
            ),
    {
        Self::extract_text(self.get_parts().as_slice(), seperator)
    }
}

/// A streamed reply in progress: the session it updates and the reader of
/// its bytes. Every applied delta is in the session before the caller sees
/// it, so a stream abandoned part way leaves the session holding what was
/// read so far.
pub struct GeminiResponseStream {
    session: Session,
    reader: StreamReader,
}

/// Failure of a streamed reply; each one ends the stream.
pub enum GeminiStreamFailure {
    /// The stream closed part way through a frame; holds the pending text.
    IncompleteData(String),
}

impl GeminiResponseStream {
    pub closed spec fn session(&self) -> Session {
        self.session
    }

    pub closed spec fn reader(&self) -> StreamReader {
        self.reader
    }

    pub fn new(session: Session) -> (r: GeminiResponseStream)
        ensures
            r.session() == session,
            r.reader().pending() == Seq::<u8>::empty(),
            !r.reader().is_finished(),
    {
        GeminiResponseStream { session, reader: StreamReader::new() }
    }

    pub fn get_session(&self) -> (r: &Session)
        ensures
            *r == self.session(),
    {
        &self.session
    }

    pub fn get_session_owned(self) -> (r: Session)
        ensures
            r == self.session(),
    {
        self.session
    }

    /// Whether the stream has ended.
    pub fn is_finished(&self) -> (r: bool)
        ensures
            r == self.reader().is_finished(),
    {
        self.reader.finished()
    }

    /// Adds bytes received from the transport.
    pub fn push_bytes(&mut self, bytes: &[u8])
        ensures
            final(self).session() == old(self).session(),
            final(self).reader().pending() == old(self).reader().pending() + bytes@,
            final(self).reader().is_finished() == old(self).reader().is_finished(),
    {
        self.reader.push_bytes(bytes)
    }

    /// The next payload to decode, a request for more bytes, or the end.
    pub fn next_step(&mut self) -> (r: StreamStep)
        ensures
            final(self).session() == old(self).session(),
            old(self).reader().is_finished() ==> r is Finished && final(self).reader() == old(self).reader(),
            !old(self).reader().is_finished() ==> r.kind() == scan(old(self).reader().pending()).0
                && final(self).reader().pending() == scan(old(self).reader().pending()).1
                && final(self).reader().is_finished() == (r is Finished),
    {
        self.reader.next_step()
    }

    /// Applies a decoded delta to the session, as `Session::update` does.
    pub fn apply_delta<'b>(&mut self, delta: &'b GeminiResponse) -> (r: Option<&'b Vec<Part>>)
        requires
            old(self).session().wf(),
            old(self).session()@.chat_no < usize::MAX,
            delta.candidates@.len() > 0,
        ensures
            old(self).session()@.remember_reply ==> r == Some(&delta.candidates@[0].content.parts)
                && final(self).session()@ == add_turn(
                old(self).session()@,
                ChatView { role: Role::model, parts: parts_view(delta.candidates@[0].content.parts@) },
            ),
            !old(self).session()@.remember_reply ==> r is None && final(self).session()@ == (
            SessionView {
                history: if old(self).session()@.history.len() > 0 && old(self).session()@.history.last().role
                    == Role::user {
                    old(self).session()@.history.drop_last()
                } else {
                    old(self).session()@.history
                },
                ..old(self).session()@
            }),
            final(self).session().wf(),
            final(self).reader() == old(self).reader(),
    {
        self.session.update(delta)
    }

    /// The byte source closed: bytes left part way through a frame are an
    /// error holding their text.
    pub fn close(&mut self) -> (r: Result<(), GeminiStreamFailure>)
        ensures
            final(self).session() == old(self).session(),
            final(self).reader().is_finished(),
            match r {
                Ok(()) => old(self).reader().pending().len() == 0,
                Err(GeminiStreamFailure::IncompleteData(t)) => old(self).reader().pending().len() > 0
                    && t@ == utf8_lossy(old(self).reader().pending()),
            },
    {
        match self.reader.close() {
            Ok(()) => Ok(()),
            Err(text) => Err(GeminiStreamFailure::IncompleteData(text)),
        }
    }

    /// Ends the stream after a transport or decode failure.
    pub fn fail(&mut self)
        ensures
            final(self).session() == old(self).session(),
            final(self).reader().is_finished(),
    {
        self.reader.fail()
    }
}

} // verus!
