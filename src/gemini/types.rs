use crate::text::{copy_opt_string, opt_view};
use serde_json::Value;
use vstd::prelude::*;

verus! {

#[verifier::external_type_specification]
#[verifier::external_body]
pub struct ExValue(Value);

/// Relies on `Value`'s `Clone`: the clone is the same JSON value.
pub assume_specification[ <Value as Clone>::clone ](v: &Value) -> (r: Value)
    ensures
        r == *v,
;

/// Author of a turn.
#[allow(non_camel_case_types)]
#[derive(Clone, Copy, Debug, PartialEq, Eq, Structural)]
pub enum Role {
    user,
    model,
}

/// Embedded binary payload (image, audio or document), base64 encoded.
#[derive(Clone, Debug, PartialEq)]
pub struct InlineData {
    pub mime_type: String,
    pub data: String,
}

/// Language of an executable code part.
#[allow(non_camel_case_types)]
#[derive(Clone, Copy, Debug, PartialEq, Eq, Structural)]
pub enum Language {
    /// Unspecified language. This value should not be used.
    LANGUAGE_UNSPECIFIED,
    /// Python >= 3.10, with numpy and simpy available.
    PYTHON,
}

#[derive(Clone, Debug, PartialEq)]
pub struct ExecutableCode {
    pub language: Language,
    pub code: String,
}

#[derive(Clone, Debug, PartialEq)]
pub struct FunctionCall {
    pub id: Option<String>,
    pub name: String,
    pub args: Option<Value>,
}

#[derive(Clone, Debug, PartialEq)]
pub struct FunctionResponse {
    pub id: Option<String>,
    pub name: String,
    pub response: Value,
}

/// Reference to a file by URI.
#[derive(Clone, Debug, PartialEq)]
pub struct FileData {
    pub mime_type: Option<String>,
    pub file_uri: String,
}

/// Status of a code execution.
#[allow(non_camel_case_types)]
#[derive(Clone, Copy, Debug, PartialEq, Eq, Structural)]
pub enum Outcome {
    /// Unspecified status. This value should not be used.
    OUTCOME_UNSPECIFIED,
    /// Code execution completed successfully.
    OUTCOME_OK,
    /// Code execution finished but with a failure.
    OUTCOME_FAILED,
    /// Code execution ran for too long, and was cancelled.
    OUTCOME_DEADLINE_EXCEEDED,
}

#[derive(Clone, Debug, PartialEq)]
pub struct CodeExecuteResult {
    pub outcome: Outcome,
    pub output: Option<String>,
}

/// Text content; `thought` marks reasoning trace rather than answer text.
#[derive(Clone, Debug, PartialEq)]
pub struct TextPart {
    pub text: String,
    pub thought: bool,
}

/// One unit of message content.
#[allow(non_camel_case_types)]
#[derive(Clone, Debug, PartialEq)]
pub enum Part {
    text(TextPart),
    /// Image or document
    inline_data(InlineData),
    executable_code(ExecutableCode),
    code_execution_result(CodeExecuteResult),
    functionCall(FunctionCall),
    functionResponse(FunctionResponse),
    /// For audio file URLs. Not allowed for images or PDFs, use InlineData instead.
    file_data(FileData),
}

/// One role-attributed message.
#[derive(Clone, Debug, PartialEq)]
pub struct Chat {
    pub role: Role,
    pub parts: Vec<Part>,
}

/// What a part holds, with strings seen as character sequences.
#[allow(inconsistent_fields)]
pub enum PartView {
    Text { text: Seq<char>, thought: bool },
    InlineData { mime_type: Seq<char>, data: Seq<char> },
    ExecutableCode { language: Language, code: Seq<char> },
    CodeExecutionResult { outcome: Outcome, output: Option<Seq<char>> },
    FunctionCall { id: Option<Seq<char>>, name: Seq<char>, args: Option<Value> },
    FunctionResponse { id: Option<Seq<char>>, name: Seq<char>, response: Value },
    FileData { mime_type: Option<Seq<char>>, file_uri: Seq<char> },
}

/// What a turn holds.
pub struct ChatView {
    pub role: Role,
    pub parts: Seq<PartView>,
}

impl View for Part {
    type V = PartView;

    open spec fn view(&self) -> PartView {
        match self {
            Part::text(t) => PartView::Text { text: t.text@, thought: t.thought },
            Part::inline_data(d) => PartView::InlineData { mime_type: d.mime_type@, data: d.data@ },
            Part::executable_code(c) => PartView::ExecutableCode {
                language: c.language,
                code: c.code@,
            },
            Part::code_execution_result(r) => PartView::CodeExecutionResult {
                outcome: r.outcome,
                output: opt_view(r.output),
            },
            Part::functionCall(c) => PartView::FunctionCall {
                id: opt_view(c.id),
                name: c.name@,
                args: c.args,
            },
            Part::functionResponse(r) => PartView::FunctionResponse {
                id: opt_view(r.id),
                name: r.name@,
                response: r.response,
            },
            Part::file_data(f) => PartView::FileData {
                mime_type: opt_view(f.mime_type),
                file_uri: f.file_uri@,
            },
        }
    }
}

/// The views of a list of parts.
pub open spec fn parts_view(parts: Seq<Part>) -> Seq<PartView> {
    parts.map_values(|p: Part| p@)
}

impl View for Chat {
    type V = ChatView;

    open spec fn view(&self) -> ChatView {
        ChatView { role: self.role, parts: parts_view(self.parts@) }
    }
}

/// The views of a list of turns.
pub open spec fn chats_view(chats: Seq<Chat>) -> Seq<ChatView> {
    chats.map_values(|c: Chat| c@)
}

/// A plain text part.
pub open spec fn text_view(s: Seq<char>) -> PartView {
    PartView::Text { text: s, thought: false }
}

impl Part {
    /// A copy of this part.
    pub fn copy(&self) -> (r: Part)
        ensures
            r@ == self@,
    {
        match self {
            Part::text(t) => Part::text(TextPart { text: t.text.clone(), thought: t.thought }),
            Part::inline_data(d) => Part::inline_data(
                InlineData { mime_type: d.mime_type.clone(), data: d.data.clone() },
            ),
            Part::executable_code(c) => Part::executable_code(
                ExecutableCode { language: c.language, code: c.code.clone() },
            ),
            Part::code_execution_result(r) => Part::code_execution_result(
                CodeExecuteResult { outcome: r.outcome, output: copy_opt_string(&r.output) },
            ),
            Part::functionCall(c) => {
                let args = match &c.args {
                    Some(v) => Some(v.clone()),
                    None => None,
                };
                Part::functionCall(
                    FunctionCall { id: copy_opt_string(&c.id), name: c.name.clone(), args },
                )
            },
            Part::functionResponse(r) => Part::functionResponse(
                FunctionResponse {
                    id: copy_opt_string(&r.id),
                    name: r.name.clone(),
                    response: r.response.clone(),
                },
            ),
            Part::file_data(f) => Part::file_data(
                FileData { mime_type: copy_opt_string(&f.mime_type), file_uri: f.file_uri.clone() },
            ),
        }
    }
}

/// A copy of a list of parts.
pub fn copy_parts(parts: &[Part]) -> (r: Vec<Part>)
    ensures
        parts_view(r@) == parts_view(parts@),
{
    let mut r: Vec<Part> = Vec::new();
    let mut i: usize = 0;
    while i < parts.len()
        invariant
            i <= parts@.len(),
            r@.len() == i,
            forall|j: int| 0 <= j < i ==> #[trigger] r@[j]@ == parts@[j]@,
        decreases parts@.len() - i,
    {
        let p = parts[i].copy();
        r.push(p);
        i += 1;
    }
    assert(parts_view(r@) =~= parts_view(parts@));
    r
}

impl TextPart {
    pub fn new(text: String, thought: bool) -> (r: TextPart)
        ensures
            r.text == text,
            r.thought == thought,
    {
        TextPart { text, thought }
    }

    /// A plain (non-thought) text part.
    pub fn from(text: String) -> (r: TextPart)
        ensures
            r.text == text,
            !r.thought,
    {
        TextPart { text, thought: false }
    }
}

impl InlineData {
    pub fn new(mime_type: String, data: String) -> (r: InlineData)
        ensures
            r.mime_type == mime_type,
            r.data == data,
    {
        InlineData { mime_type, data }
    }
}

impl Chat {
    pub fn new(role: Role, parts: Vec<Part>) -> (r: Chat)
        ensures
            r.role == role,
            r.parts == parts,
    {
        Chat { role, parts }
    }

    pub fn role(&self) -> (r: &Role)
        ensures
            *r == self.role,
    {
        &self.role
    }

    pub fn parts(&self) -> (r: &Vec<Part>)
        ensures
            *r == self.parts,
    {
        &self.parts
    }
}

} // verus!
