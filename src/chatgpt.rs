//! Message model, session store and stream state for the ChatGPT API.

pub mod error;
pub mod request;
pub mod response;
pub mod sessions;
