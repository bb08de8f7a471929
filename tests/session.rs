use llm_session::framing::StreamStep;
use llm_session::gemini::response::{Candidate, GeminiResponse, GeminiResponseStream, GeminiStreamFailure};
use llm_session::gemini::sessions::Session;
use llm_session::gemini::types::{Chat, FunctionCall, Part, Role, TextPart};

fn text(s: &str) -> Part {
    Part::text(TextPart::new(s.to_string(), false))
}

fn thought(s: &str) -> Part {
    Part::text(TextPart::new(s.to_string(), true))
}

fn reply(parts: Vec<Part>) -> GeminiResponse {
    GeminiResponse {
        candidates: vec![Candidate { content: Chat::new(Role::model, parts), finishReason: None }],
        usageMetadata: serde_json::Value::Null,
        modelVersion: "test".to_string(),
    }
}

fn roles(s: &Session) -> Vec<Role> {
    s.get_history().iter().map(|c| c.role).collect()
}

#[test]
fn capacity_two_scenario() {
    let mut s = Session::new(2);
    s.ask_string("hi");
    let r = reply(vec![text("hello")]);
    let got = s.update(&r);
    assert_eq!(got, Some(&vec![text("hello")]));
    assert_eq!(roles(&s), vec![Role::user, Role::model]);
    assert_eq!(s.get_parts_no(0), Some(&vec![text("hi")]));
    assert_eq!(s.get_parts_no(1), Some(&vec![text("hello")]));
    s.ask_string("bye");
    assert_eq!(roles(&s), vec![Role::model, Role::user]);
    assert_eq!(s.get_parts_no(0), Some(&vec![text("hello")]));
    assert_eq!(s.get_parts_no(1), Some(&vec![text("bye")]));
    assert_eq!(s.get_chat_no(), 3);
}

#[test]
fn history_never_exceeds_limit() {
    for limit in 0..4usize {
        let mut s = Session::new(limit);
        for k in 0..10 {
            if k % 3 == 0 {
                s.ask_string("q");
            } else {
                s.reply_string("a");
            }
            assert!(s.get_history_length() <= limit);
        }
    }
}

#[test]
fn consecutive_questions_coalesce() {
    let mut s = Session::new(10);
    s.ask_string("first ");
    s.ask_string("second");
    assert_eq!(s.get_history_length(), 1);
    assert_eq!(s.get_chat_no(), 1);
    assert_eq!(s.get_last_message(), Some(&vec![text("first second")]));
    s.ask(vec![Part::functionCall(FunctionCall { id: None, name: "f".to_string(), args: None })]);
    assert_eq!(s.get_history_length(), 1);
    assert_eq!(s.get_last_message().unwrap().len(), 2);
}

#[test]
fn streamed_deltas_fold_into_one_reply() {
    let mut s = Session::new(10);
    s.ask_string("q");
    s.update(&reply(vec![thought("let me "), text("The ")]));
    s.update(&reply(vec![text("answer")]));
    assert_eq!(s.get_history_length(), 2);
    assert_eq!(s.get_last_message(), Some(&vec![thought("let me "), text("The answer")]));
    assert_eq!(s.get_last_message_text("\n"), Some("The answer".to_string()));
    assert_eq!(s.get_last_message_thoughts("\n"), Some("let me ".to_string()));
}

#[test]
fn forget_question_and_answer() {
    let mut s = Session::new(10);
    s.ask_string("q");
    s.reply_string("a");
    let (last, before) = s.forget_last_conversation();
    assert_eq!(last, Some(Chat::new(Role::model, vec![text("a")])));
    assert_eq!(before, Some(Chat::new(Role::user, vec![text("q")])));
    assert_eq!(s.get_history_length(), 0);
}

#[test]
fn forget_lone_question() {
    let mut s = Session::new(10);
    s.ask_string("q");
    let (last, before) = s.forget_last_conversation();
    assert_eq!(last, Some(Chat::new(Role::user, vec![text("q")])));
    assert_eq!(before, None);
    assert_eq!(s.get_history_length(), 0);
    assert_eq!(s.forget_last_conversation(), (None, None));
}

#[test]
fn reply_not_remembered_leaves_no_trace() {
    let mut s = Session::new(10).set_remember_reply(false);
    assert!(!s.get_remember_reply());
    s.ask_string("q");
    assert_eq!(s.update(&reply(vec![text("a")])), None);
    assert_eq!(s.get_history_length(), 0);
}

#[test]
fn parts_by_position() {
    let mut s = Session::new(10);
    s.ask_string("q");
    s.reply_string("a");
    assert_eq!(s.get_parts(1), Some(&vec![text("a")]));
    assert_eq!(s.get_parts(2), Some(&vec![text("q")]));
    assert_eq!(s.get_parts(0), None);
    assert_eq!(s.get_parts(3), None);
    assert_eq!(s.get_parts_no(2), None);
    assert_eq!(s.get_history_limit(), 10);
}

#[test]
fn last_message_texts_join_with_separator() {
    let mut s = Session::new(10);
    assert_eq!(s.get_last_message_text(""), None);
    s.reply(vec![text("a"), thought("t1"), Part::functionCall(FunctionCall { id: None, name: "f".to_string(), args: None }), text("b"), thought("t2")]);
    assert_eq!(s.get_last_message_text(", "), Some("a, b".to_string()));
    assert_eq!(s.get_last_message_thoughts("|"), Some("t1|t2".to_string()));
}

#[test]
fn response_text_extraction() {
    let r = reply(vec![text("a"), thought("t"), text("b")]);
    assert_eq!(r.get_text("-"), "a-t-b-");
    assert_eq!(GeminiResponse::extract_text(&[], "-"), "");
}

#[test]
fn last_reply_text_follows_each_part_with_separator() {
    let mut s = Session::new(4);
    assert_eq!(s.last_reply_text("\n"), None);
    s.reply(vec![text("a"), thought("t"), text("b")]);
    assert_eq!(s.last_reply_text("\n"), Some("a\nt\nb\n".to_string()));
    assert_eq!(s.last_reply().map(|p| p.len()), Some(3));
}

#[test]
fn function_call_arguments_survive_copying() {
    let mut args = serde_json::Map::new();
    args.insert("a".to_string(), serde_json::Value::from(10));
    args.insert("b".to_string(), serde_json::Value::from(20));
    let call = Part::functionCall(FunctionCall {
        id: Some("c1".to_string()),
        name: "add_numbers".to_string(),
        args: Some(serde_json::Value::Object(args)),
    });
    let mut s = Session::new(4);
    s.ask_string("add");
    s.update(&reply(vec![call.clone()]));
    s.update(&reply(vec![call.clone()]));
    assert_eq!(s.get_last_message(), Some(&vec![call.clone(), call]));
}

#[test]
fn gemini_stream_applies_deltas_before_handing_them_out() {
    let mut s = Session::new(4);
    s.ask_string("q");
    let mut st = GeminiResponseStream::new(s);
    st.push_bytes(b"data: {\"candidates\": []}\r\n\r\ndata: {\"cand");
    assert!(matches!(st.next_step(), StreamStep::Payload(p) if p == "{\"candidates\": []}"));
    st.apply_delta(&reply(vec![text("par")]));
    st.apply_delta(&reply(vec![text("tial")]));
    assert_eq!(st.get_session().get_last_message(), Some(&vec![text("partial")]));
    assert!(matches!(st.next_step(), StreamStep::NeedBytes));
    match st.close() {
        Err(GeminiStreamFailure::IncompleteData(t)) => assert_eq!(t, "data: {\"cand"),
        Ok(()) => panic!("expected a framing error"),
    }
    assert!(st.is_finished());
    assert!(matches!(st.next_step(), StreamStep::Finished));
    let s = st.get_session_owned();
    assert_eq!(s.get_history_length(), 2);
    assert_eq!(s.get_chat_no(), 2);
}
