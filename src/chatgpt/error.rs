use vstd::prelude::*;

verus! {

#[verifier::external_type_specification]
#[verifier::external_body]
pub struct ExReqwestError(reqwest::Error);

/// Failure of a complete (non-streamed) request.
pub enum ChatGptError {
    ReqwestError(reqwest::Error),
    /// Holds the response text.
    StatusNotOk(String),
    InvalidResponseFormat(String),
}

/// Failure of a streamed reply; each one ends the stream.
pub enum ChatGptStreamError {
    /// The transport failed.
    ReqwestError(reqwest::Error),
    /// A payload could not be decoded; holds the diagnostic and the payload.
    InvalidResposeFormat(String),
    /// The stream closed part way through a frame; holds the pending text.
    IncompleteData(String),
}

} // verus!
