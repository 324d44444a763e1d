//! The errors that requests end in, with the reply each one gives.

use vstd::prelude::*;
use vstd::string::StringExecFns;

verus! {

/// Why a request or a background task failed. The variants that stand for a
/// failure outside the library carry the text of that failure.
#[derive(Debug)]
pub enum AppError {
    NotFound,
    Invalid(String),
    Io(String),
    Serde(String),
    Other(String),
}

impl AppError {
    /// Whether this rejects an input, for the given reason.
    pub open spec fn rejects(self, reason: Seq<char>) -> bool {
        self matches AppError::Invalid(m) && m@ == reason
    }

    /// The HTTP status that the error is answered with.
    pub open spec fn status(self) -> u16 {
        match self {
            AppError::NotFound => 404,
            AppError::Invalid(_) => 400,
            AppError::Io(_) | AppError::Serde(_) | AppError::Other(_) => 500,
        }
    }

    /// The text that the error is answered with.
    pub open spec fn text(self) -> Seq<char> {
        match self {
            AppError::NotFound => "Not found"@,
            AppError::Invalid(m) => "Invalid input: "@ + m@,
            AppError::Io(m) => "I/O error: "@ + m@,
            AppError::Serde(m) => "Serialization error: "@ + m@,
            AppError::Other(m) => "Server error: "@ + m@,
        }
    }

    /// An error that rejects an input for `reason`.
    pub fn invalid(reason: &str) -> (e: AppError)
        ensures
            e.rejects(reason@),
    {
        AppError::Invalid(reason.to_string())
    }

    /// The HTTP status that the error is answered with.
    pub fn status_code(&self) -> (r: u16)
        ensures
            r == self.status(),
    {
        match self {
            AppError::NotFound => 404,
            AppError::Invalid(_) => 400,
            AppError::Io(_) | AppError::Serde(_) | AppError::Other(_) => 500,
        }
    }

    /// The text that the error is answered with.
    pub fn message(&self) -> (r: String)
        ensures
            r@ == self.text(),
    {
        match self {
            AppError::NotFound => "Not found".to_string(),
            AppError::Invalid(m) => "Invalid input: ".to_string().concat(m.as_str()),
            AppError::Io(m) => "I/O error: ".to_string().concat(m.as_str()),
            AppError::Serde(m) => "Serialization error: ".to_string().concat(m.as_str()),
            AppError::Other(m) => "Server error: ".to_string().concat(m.as_str()),
        }
    }
}

/// What each error is answered with: the status of its kind, and its text behind the words for
/// its kind. Only an invalid input rejects anything, and for the reason that it carries.
pub proof fn law_replies_to_errors(m: String, reason: Seq<char>)
    ensures
        AppError::NotFound.status() == 404 && AppError::NotFound.text() == "Not found"@,
        AppError::Invalid(m).status() == 400 && AppError::Invalid(m).text() == "Invalid input: "@
            + m@,
        AppError::Io(m).status() == 500 && AppError::Io(m).text() == "I/O error: "@ + m@,
        AppError::Serde(m).status() == 500 && AppError::Serde(m).text()
            == "Serialization error: "@ + m@,
        AppError::Other(m).status() == 500 && AppError::Other(m).text() == "Server error: "@ + m@,
        AppError::Invalid(m).rejects(reason) <==> m@ == reason,
        !AppError::NotFound.rejects(reason),
        !AppError::Io(m).rejects(reason),
        !AppError::Serde(m).rejects(reason),
        !AppError::Other(m).rejects(reason),
{
}

} // verus!
