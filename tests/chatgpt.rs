use llm_session::chatgpt::error::ChatGptStreamError;
use llm_session::chatgpt::request::{ChatMessage, Role};
use llm_session::chatgpt::response::{
    ChatGptResponse, ChatGptStreamChunk, Choice, ChoiceDelta, DeltaMessage, ResponseStream,
};
use llm_session::chatgpt::sessions::Session;
use llm_session::framing::StreamStep;

fn chunk(pieces: &[Option<&str>]) -> ChatGptStreamChunk {
    ChatGptStreamChunk {
        id: None,
        choices: pieces
            .iter()
            .enumerate()
            .map(|(i, p)| ChoiceDelta {
                index: i,
                delta: DeltaMessage { role: None, content: p.map(|s| s.to_string()) },
                finish_reason: None,
            })
            .collect(),
        usage: None,
    }
}

#[test]
fn append_content_extends_message() {
    let mut m = ChatMessage::new(Role::User, "Hello".to_string(), None, None);
    m.append_content(", world");
    assert_eq!(m.content(), "Hello, world");
}

#[test]
fn text_delta_joins_contents() {
    assert_eq!(chunk(&[Some("a"), None, Some("bc")]).text_delta(), "abc");
    assert_eq!(chunk(&[]).text_delta(), "");
}

#[test]
fn messages_of_one_role_coalesce_and_evict() {
    let mut s = Session::new(2);
    s.ask("Hi");
    s.ask(" there");
    assert_eq!(s.get_history_length(), 1);
    assert_eq!(s.get_last_chat().unwrap().content(), "Hi there");
    s.reply("Hello");
    s.ask("Bye");
    assert_eq!(s.get_history_length(), 2);
    assert_eq!(s.get_chat_no(), 3);
    let h = s.get_history_cloned();
    assert_eq!(h[0].role, Role::Assistant);
    assert_eq!(h[1].content, "Bye");
}

#[test]
fn stream_chunks_build_one_reply() {
    let mut s = Session::new(10);
    s.ask("q");
    s.update_stream(&chunk(&[Some("Hel")]));
    s.update_stream(&chunk(&[None, Some("lo")]));
    assert_eq!(s.get_history_length(), 2);
    assert_eq!(s.get_last_chat().unwrap().content(), "Hello");
}

#[test]
fn complete_reply_is_remembered_or_dropped() {
    let resp = ChatGptResponse {
        id: "x".to_string(),
        choices: vec![Choice {
            index: 0,
            message: ChatMessage::new(Role::Assistant, "A".to_string(), None, None),
            finish_reason: None,
        }],
        usage: None,
    };
    assert_eq!(resp.text(), "A");
    let mut s = Session::new(4);
    s.ask("q");
    assert!(s.update_with_response(&resp).is_some());
    assert_eq!(s.get_history_length(), 2);
    let mut t = Session::new(4).set_remember_reply(false);
    t.ask("q");
    assert!(t.update_with_response(&resp).is_none());
    assert_eq!(t.get_history_length(), 0);
}

#[test]
fn response_stream_drives_session() {
    let mut s = Session::new(10);
    s.ask("q");
    let mut rs = ResponseStream::new(s);
    rs.push_bytes(b"data: {\"x\"}\n\ndata: [DO");
    assert!(matches!(rs.next_step(), StreamStep::Payload(p) if p == "{\"x\"}"));
    rs.apply_chunk(&chunk(&[Some("partial")]));
    assert!(matches!(rs.next_step(), StreamStep::NeedBytes));
    assert_eq!(rs.get_session().get_last_chat().unwrap().content(), "partial");
    assert!(matches!(rs.close(), Err(ChatGptStreamError::IncompleteData(t)) if t == "data: [DO"));
    assert!(rs.is_finished());
    let s = rs.get_session_owned();
    assert_eq!(s.get_history_length(), 2);
}
