use super::error::ChatGptStreamError;
use super::request::ChatMessage;
use super::sessions::{add_assistant_texts, Session};
use crate::framing::{scan, utf8_lossy, StreamReader, StreamStep};
use crate::text::push_str;
use serde_json::Value;
use vstd::prelude::*;

verus! {

/// One candidate reply of a complete response.
#[derive(Debug, Clone)]
pub struct Choice {
    pub index: usize,
    pub message: ChatMessage,
    pub finish_reason: Option<String>,
}

/// A complete reply.
#[derive(Debug, Clone)]
pub struct ChatGptResponse {
    pub id: String,
    pub choices: Vec<Choice>,
    pub usage: Option<Value>,
}

impl ChatGptResponse {
    /// The message of the first choice.
    pub fn message(&self) -> (r: &ChatMessage)
        requires
            self.choices@.len() > 0,
        ensures
            r == &self.choices@[0].message,
    {
        &self.choices[0].message
    }

    /// The content of the first choice's message.
    pub fn text(&self) -> (r: &str)
        requires
            self.choices@.len() > 0,
        ensures
            r@ == self.choices@[0].message.content@,
    {
        self.message().content.as_str()
    }
}

/// The content piece of a streamed choice.
#[derive(Debug, Clone)]
pub struct DeltaMessage {
    pub role: Option<String>,
    pub content: Option<String>,
}

/// One streamed choice.
#[derive(Debug, Clone)]
pub struct ChoiceDelta {
    pub index: usize,
    pub delta: DeltaMessage,
    pub finish_reason: Option<String>,
}

/// One decoded chunk of a streamed reply.
#[derive(Debug, Clone)]
pub struct ChatGptStreamChunk {
    pub id: Option<String>,
    pub choices: Vec<ChoiceDelta>,
    pub usage: Option<Value>,
}

/// The content pieces of the choices that carry one, in order.
pub open spec fn delta_contents(choices: Seq<ChoiceDelta>) -> Seq<Seq<char>>
    decreases choices.len(),
{
    if choices.len() == 0 {
        Seq::empty()
    } else {
        let rest = delta_contents(choices.drop_last());
        match choices.last().delta.content {
            Some(c) => rest.push(c@),
            None => rest,
        }
    }
}

/// The pieces concatenated in order.
pub open spec fn concat_all(items: Seq<Seq<char>>) -> Seq<char>
    decreases items.len(),
{
    if items.len() == 0 {
        Seq::empty()
    } else {
        concat_all(items.drop_last()) + items.last()
    }
}

impl ChatGptStreamChunk {
    /// The text this chunk adds: every choice's content piece, in order.
    pub fn text_delta(&self) -> (r: String)
        ensures
            r@ == concat_all(delta_contents(self.choices@)),
    {
        let mut out = String::new();
        let mut i: usize = 0;
        while i < self.choices.len()
            invariant
                i <= self.choices@.len(),
                out@ == concat_all(delta_contents(self.choices@.take(i as int))),
            decreases self.choices@.len() - i,
        {
            let ghost prev = self.choices@.take(i as int);
            let ghost next = self.choices@.take(i + 1);
            assert(next.drop_last() =~= prev);
            if let Some(c) = &self.choices[i].delta.content {
                push_str(&mut out, c.as_str());
                assert(delta_contents(next).drop_last() =~= delta_contents(prev));
            }
            i += 1;
        }
        assert(self.choices@.take(i as int) =~= self.choices@);
        out
    }
}

/// A streamed reply in progress: the session it updates and the reader of
/// its bytes. Every applied chunk is in the session before the caller sees
/// it, so a stream abandoned part way leaves the session holding what was
/// read so far.
pub struct ResponseStream {
    session: Session,
    reader: StreamReader,
}

impl ResponseStream {
    pub closed spec fn session(&self) -> Session {
        self.session
    }

    pub closed spec fn reader(&self) -> StreamReader {
        self.reader
    }

    pub fn new(session: Session) -> (r: ResponseStream)
        ensures
            r.session() == session,
            r.reader().pending() == Seq::<u8>::empty(),
            !r.reader().is_finished(),
    {
        ResponseStream { session, reader: StreamReader::new() }
    }

    pub fn get_session(&self) -> (r: &Session)
        ensures
            *r == self.session(),
    {
        &self.session
    }

    pub fn get_session_owned(self) -> (r: Session)
        ensures
            r == self.session(),
    {
        self.session
    }

    /// Whether the stream has ended.
    pub fn is_finished(&self) -> (r: bool)
        ensures
            r == self.reader().is_finished(),
    {
        self.reader.finished()
    }

    /// Adds bytes received from the transport.
    pub fn push_bytes(&mut self, bytes: &[u8])
        ensures
            final(self).session() == old(self).session(),
            final(self).reader().pending() == old(self).reader().pending() + bytes@,
            final(self).reader().is_finished() == old(self).reader().is_finished(),
    {
        self.reader.push_bytes(bytes)
    }

    /// The next payload to decode, a request for more bytes, or the end.
    pub fn next_step(&mut self) -> (r: StreamStep)
        ensures
            final(self).session() == old(self).session(),
            old(self).reader().is_finished() ==> r is Finished && final(self).reader() == old(self).reader(),
            !old(self).reader().is_finished() ==> r.kind() == scan(old(self).reader().pending()).0
                && final(self).reader().pending() == scan(old(self).reader().pending()).1
                && final(self).reader().is_finished() == (r is Finished),
    {
        self.reader.next_step()
    }

    /// Applies a decoded chunk to the session.
    pub fn apply_chunk(&mut self, chunk: &ChatGptStreamChunk)
        requires
            old(self).session().wf(),
            old(self).session()@.chat_no + chunk.choices@.len() < usize::MAX,
        ensures
            final(self).session()@ == add_assistant_texts(old(self).session()@, delta_contents(chunk.choices@)),
            final(self).session().wf(),
            final(self).reader() == old(self).reader(),
    {
        self.session.update_stream(chunk)
    }

    /// The byte source closed: bytes left part way through a frame are an
    /// error holding their text.
    pub fn close(&mut self) -> (r: Result<(), ChatGptStreamError>)
        ensures
            final(self).session() == old(self).session(),
            final(self).reader().is_finished(),
            match r {
                Ok(()) => old(self).reader().pending().len() == 0,
                Err(ChatGptStreamError::IncompleteData(t)) => old(self).reader().pending().len() > 0
                    && t@ == utf8_lossy(old(self).reader().pending()),
                Err(_) => false,
            },
    {
        match self.reader.close() {
            Ok(()) => Ok(()),
            Err(text) => Err(ChatGptStreamError::IncompleteData(text)),
        }
    }

    /// Ends the stream after a transport or decode failure.
    pub fn fail(&mut self)
        ensures
            final(self).session() == old(self).session(),
            final(self).reader().is_finished(),
    {
        self.reader.fail()
    }
}

} // verus!
