use crate::text::{copy_opt_string, opt_view, push_str};
use vstd::prelude::*;

verus! {

/// Author of a message.
#[derive(Clone, Copy, Debug, PartialEq, Eq, Structural)]
pub enum Role {
    System,
    User,
    Assistant,
    Tool,
}

/// One message of a conversation.
#[derive(Debug, Clone)]
pub struct ChatMessage {
    pub role: Role,
    pub content: String,
    pub name: Option<String>,
    pub tool_call_id: Option<String>,
}

/// What a message holds.
pub struct MessageView {
    pub role: Role,
    pub content: Seq<char>,
    pub name: Option<Seq<char>>,
    pub tool_call_id: Option<Seq<char>>,
}

impl View for ChatMessage {
    type V = MessageView;

    open spec fn view(&self) -> MessageView {
        MessageView {
            role: self.role,
            content: self.content@,
            name: opt_view(self.name),
            tool_call_id: opt_view(self.tool_call_id),
        }
    }
}

impl ChatMessage {
    pub fn new(role: Role, content: String, name: Option<String>, tool_call_id: Option<String>) -> (r: ChatMessage)
        ensures
            r.role == role,
            r.content == content,
            r.name == name,
            r.tool_call_id == tool_call_id,
    {
        ChatMessage { role, content, name, tool_call_id }
    }

    /// Appends `text` to the content.
    pub fn append_content(&mut self, text: &str)
        ensures
            final(self)@ == (MessageView { content: old(self)@.content + text@, ..old(self)@ }),
    {
        push_str(&mut self.content, text);
    }

    /// A copy of this message.
    pub fn copy(&self) -> (r: ChatMessage)
        ensures
            r@ == self@,
    {
        ChatMessage {
            role: self.role,
            content: self.content.clone(),
            name: copy_opt_string(&self.name),
            tool_call_id: copy_opt_string(&self.tool_call_id),
        }
    }

    pub fn role(&self) -> (r: &Role)
        ensures
            *r == self.role,
    {
        &self.role
    }

    pub fn content(&self) -> (r: &String)
        ensures
            *r == self.content,
    {
        &self.content
    }

    pub fn name(&self) -> (r: &Option<String>)
        ensures
            *r == self.name,
    {
        &self.name
    }

    pub fn tool_call_id(&self) -> (r: &Option<String>)
        ensures
            *r == self.tool_call_id,
    {
        &self.tool_call_id
    }
}

} // verus!
