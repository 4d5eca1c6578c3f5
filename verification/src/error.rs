//! The error type of the whole core.
use vstd::prelude::*;
use crate::text;

verus! {

/// What went wrong, with a user-facing message. The API key must never appear
/// in one (see [`crate::config::redact_key`]).
#[derive(Debug)]
pub enum SallyError {
    Config(String),
    Audio(String),
    Gemini(String),
    Storage(String),
    Session(String),
}

/// A [`SallyError`] by its characters.
pub enum ErrorModel {
    Config(Seq<char>),
    Audio(Seq<char>),
    Gemini(Seq<char>),
    Storage(Seq<char>),
    Session(Seq<char>),
}

impl View for SallyError {
    type V = ErrorModel;

    open spec fn view(&self) -> ErrorModel {
        match self {
            SallyError::Config(m) => ErrorModel::Config(m@),
            SallyError::Audio(m) => ErrorModel::Audio(m@),
            SallyError::Gemini(m) => ErrorModel::Gemini(m@),
            SallyError::Storage(m) => ErrorModel::Storage(m@),
            SallyError::Session(m) => ErrorModel::Session(m@),
        }
    }
}

impl ErrorModel {
    /// The text shown to the user.
    pub open spec fn shown(self) -> Seq<char> {
        match self {
            ErrorModel::Config(m) => "configuration error: "@ + m,
            ErrorModel::Audio(m) => "audio error: "@ + m,
            ErrorModel::Gemini(m) => "gemini error: "@ + m,
            ErrorModel::Storage(m) => "storage error: "@ + m,
            ErrorModel::Session(m) => "session error: "@ + m,
        }
    }
}

pub type Result<T> = std::result::Result<T, SallyError>;

impl SallyError {
    /// The text shown to the user.
    pub fn message(&self) -> (r: String)
        ensures
            r@ == self@.shown(),
    {
        let (kind, detail) = match self {
            SallyError::Config(m) => ("configuration error: ", m),
            SallyError::Audio(m) => ("audio error: ", m),
            SallyError::Gemini(m) => ("gemini error: ", m),
            SallyError::Storage(m) => ("storage error: ", m),
            SallyError::Session(m) => ("session error: ", m),
        };
        let mut out = text::owned(kind);
        out.push_str(detail);
        out
    }
}

} // verus!
