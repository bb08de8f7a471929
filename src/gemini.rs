//! Turn and part model, merge engine and session store for the Gemini API.

pub mod merge;
pub mod response;
pub mod sessions;
pub mod types;
pub mod utils;
