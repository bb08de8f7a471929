//! Conversation state for chat-style language-model APIs: part and turn
//! models, the part merge engine, bounded session histories, and the
//! byte-stream framing and frame decoding used for streamed replies.

pub mod chatgpt;
pub mod framing;
pub mod gemini;
pub mod text;
