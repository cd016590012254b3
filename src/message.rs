//! Chat messages and the checks on them before they are sent.

use vstd::prelude::*;
use vstd::string::StringExecFns;

verus! {

/// Longest content accepted, in characters.
pub const MAX_CONTENT_LENGTH: usize = 100_000;

/// Why content could not be sanitized.
#[derive(Debug, Clone)]
pub enum SanitizationError {
    /// Content longer than allowed: its length and the maximum.
    TooLong(usize, usize),
    /// The encoding is not valid UTF-8.
    InvalidEncoding,
    /// Prohibited characters remain after filtering.
    ProhibitedCharacters,
    /// Another failure.
    ProcessingError(String),
}

/// Who wrote a message.
#[derive(Debug, Clone, Copy, PartialEq, Eq, Structural)]
pub enum CandleMessageRole {
    System,
    User,
    Assistant,
    Tool,
}

/// A chat message.
#[derive(Debug, Clone)]
pub struct CandleMessage {
    pub role: CandleMessageRole,
    pub content: String,
}

/// Checks that a message can be sent: its content must not be empty.
pub fn validate_message_sync(message: &CandleMessage) -> (r: Result<(), String>)
    ensures
        r is Ok <==> message.content@.len() > 0,
        r matches Err(e) ==> e@ == "Empty message content"@,
{
    if message.content.as_str().is_empty() {
        return Err(String::from_str("Empty message content"));
    }
    Ok(())
}

/// Checks the length limit on content.
pub fn check_content_length(content: &str) -> (r: Result<(), SanitizationError>)
    ensures
        r is Ok <==> content@.len() <= MAX_CONTENT_LENGTH,
        r matches Err(SanitizationError::TooLong(n, m)) ==> n == content@.len() && m == MAX_CONTENT_LENGTH,
{
    let n = crate::text::chars_of(content).len();
    if n > MAX_CONTENT_LENGTH {
        Err(SanitizationError::TooLong(n, MAX_CONTENT_LENGTH))
    } else {
        Ok(())
    }
}

} // verus!
