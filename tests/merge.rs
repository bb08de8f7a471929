use llm_session::gemini::merge::concatenate_parts;
use llm_session::gemini::types::{
    CodeExecuteResult, ExecutableCode, FileData, FunctionCall, InlineData, Language, Outcome, Part,
    TextPart,
};

fn text(s: &str, thought: bool) -> Part {
    Part::text(TextPart::new(s.to_string(), thought))
}

fn call(name: &str) -> Part {
    Part::functionCall(FunctionCall { id: None, name: name.to_string(), args: None })
}

#[test]
fn text_deltas_concatenate() {
    let mut parts: Vec<Part> = Vec::new();
    concatenate_parts(&mut parts, &[text("ab", false)]);
    concatenate_parts(&mut parts, &[text("cd", false)]);
    assert_eq!(parts, vec![text("abcd", false)]);
}

#[test]
fn thought_and_answer_stay_apart() {
    let mut parts: Vec<Part> = Vec::new();
    concatenate_parts(&mut parts, &[text("thinking", true)]);
    concatenate_parts(&mut parts, &[text("answer", false)]);
    assert_eq!(parts, vec![text("thinking", true), text("answer", false)]);
    concatenate_parts(&mut parts, &[text(" more", false)]);
    assert_eq!(parts, vec![text("thinking", true), text("answer more", false)]);
}

#[test]
fn function_calls_stay_distinct() {
    let mut parts: Vec<Part> = Vec::new();
    concatenate_parts(&mut parts, &[call("add_numbers")]);
    concatenate_parts(&mut parts, &[call("greet")]);
    assert_eq!(parts, vec![call("add_numbers"), call("greet")]);
}

#[test]
fn only_the_last_part_continues() {
    let mut parts = vec![text("a", false), call("f")];
    concatenate_parts(&mut parts, &[text("b", false)]);
    assert_eq!(parts, vec![text("a", false), call("f"), text("b", false)]);
}

#[test]
fn inline_data_and_code_continue() {
    let img = |d: &str| Part::inline_data(InlineData::new("image/png".to_string(), d.to_string()));
    let code = |c: &str| {
        Part::executable_code(ExecutableCode { language: Language::PYTHON, code: c.to_string() })
    };
    let mut parts: Vec<Part> = Vec::new();
    concatenate_parts(&mut parts, &[img("iVBO"), img("Rw0K")]);
    assert_eq!(parts, vec![img("iVBORw0K")]);
    concatenate_parts(&mut parts, &[code("print("), code("1)")]);
    assert_eq!(parts, vec![img("iVBORw0K"), code("print(1)")]);
}

#[test]
fn code_result_output_extends_and_outcome_updates() {
    let res = |o: Outcome, out: Option<&str>| {
        Part::code_execution_result(CodeExecuteResult { outcome: o, output: out.map(|s| s.to_string()) })
    };
    let mut parts = vec![res(Outcome::OUTCOME_UNSPECIFIED, None)];
    concatenate_parts(&mut parts, &[res(Outcome::OUTCOME_OK, Some("10"))]);
    assert_eq!(parts, vec![res(Outcome::OUTCOME_OK, Some("10"))]);
    concatenate_parts(&mut parts, &[res(Outcome::OUTCOME_OK, Some("60"))]);
    assert_eq!(parts, vec![res(Outcome::OUTCOME_OK, Some("1060"))]);
    concatenate_parts(&mut parts, &[res(Outcome::OUTCOME_FAILED, None)]);
    assert_eq!(parts, vec![res(Outcome::OUTCOME_FAILED, Some("1060"))]);
}

#[test]
fn file_references_never_merge() {
    let f = |u: &str| Part::file_data(FileData { mime_type: None, file_uri: u.to_string() });
    let mut parts: Vec<Part> = Vec::new();
    concatenate_parts(&mut parts, &[f("a.mp3"), f("b.mp3")]);
    assert_eq!(parts, vec![f("a.mp3"), f("b.mp3")]);
}

#[test]
fn split_delta_merges_like_whole() {
    let delta = vec![text("a", false), text("b", false), call("f"), text("c", true), text("d", true)];
    let mut whole: Vec<Part> = vec![text("x", false)];
    concatenate_parts(&mut whole, &delta);
    let mut split: Vec<Part> = vec![text("x", false)];
    concatenate_parts(&mut split, &delta[..2]);
    concatenate_parts(&mut split, &delta[2..]);
    assert_eq!(whole, split);
    assert_eq!(whole, vec![text("xab", false), call("f"), text("cd", true)]);
}
