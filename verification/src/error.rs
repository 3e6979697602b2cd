//! The failures that the library reports.

use vstd::prelude::*;
use vstd::string::*;

verus! {

/// A failure of a query. Each variant carries a message for the operator.
#[derive(Debug, Clone, PartialEq, Eq)]
pub enum GitAiError {
    /// A commit range that is malformed or is no ancestry interval.
    InvalidRange(String),
    /// A revision that names no commit.
    UnresolvedCommit(String),
    /// An authorship note whose content cannot be read as a log.
    DecodeFailure(String),
    /// A failure of the version-control system or of its object store.
    BackingStoreFailure(String),
    /// Any other failure.
    Generic(String),
}

/// The mathematical value of a [`GitAiError`].
pub enum GitAiErrorView {
    InvalidRange(Seq<char>),
    UnresolvedCommit(Seq<char>),
    DecodeFailure(Seq<char>),
    BackingStoreFailure(Seq<char>),
    Generic(Seq<char>),
}

impl View for GitAiError {
    type V = GitAiErrorView;

    open spec fn view(&self) -> GitAiErrorView {
        match self {
            GitAiError::InvalidRange(m) => GitAiErrorView::InvalidRange(m@),
            GitAiError::UnresolvedCommit(m) => GitAiErrorView::UnresolvedCommit(m@),
            GitAiError::DecodeFailure(m) => GitAiErrorView::DecodeFailure(m@),
            GitAiError::BackingStoreFailure(m) => GitAiErrorView::BackingStoreFailure(m@),
            GitAiError::Generic(m) => GitAiErrorView::Generic(m@),
        }
    }
}

impl DeepView for GitAiError {
    type V = GitAiErrorView;

    open spec fn deep_view(&self) -> GitAiErrorView {
        self@
    }
}

impl GitAiErrorView {
    /// The message that the error carries.
    pub open spec fn message(self) -> Seq<char> {
        match self {
            GitAiErrorView::InvalidRange(m) => m,
            GitAiErrorView::UnresolvedCommit(m) => m,
            GitAiErrorView::DecodeFailure(m) => m,
            GitAiErrorView::BackingStoreFailure(m) => m,
            GitAiErrorView::Generic(m) => m,
        }
    }
}

impl GitAiError {
    /// The message that the error carries.
    pub fn message(&self) -> (m: String)
        ensures
            m@ == self@.message(),
    {
        match self {
            GitAiError::InvalidRange(m) => m.clone(),
            GitAiError::UnresolvedCommit(m) => m.clone(),
            GitAiError::DecodeFailure(m) => m.clone(),
            GitAiError::BackingStoreFailure(m) => m.clone(),
            GitAiError::Generic(m) => m.clone(),
        }
    }

    /// A copy of the error.
    pub fn duplicate(&self) -> (e: GitAiError)
        ensures
            e@ == self@,
    {
        match self {
            GitAiError::InvalidRange(m) => GitAiError::InvalidRange(m.clone()),
            GitAiError::UnresolvedCommit(m) => GitAiError::UnresolvedCommit(m.clone()),
            GitAiError::DecodeFailure(m) => GitAiError::DecodeFailure(m.clone()),
            GitAiError::BackingStoreFailure(m) => GitAiError::BackingStoreFailure(m.clone()),
            GitAiError::Generic(m) => GitAiError::Generic(m.clone()),
        }
    }
}

/// The message for what a command wrote where that is no UTF-8 text:
/// `what` could not be read, and `shown` is what the decoder said of it.
pub open spec fn not_text_message(what: Seq<char>, shown: Seq<char>) -> Seq<char> {
    "Failed to parse "@ + what + ": "@ + shown
}

/// The error for what a command wrote where that is no UTF-8 text.
pub fn not_text(what: &str, shown: &str) -> (e: GitAiError)
    ensures
        e@ == GitAiErrorView::Generic(not_text_message(what@, shown@)),
{
    GitAiError::Generic("Failed to parse ".to_owned().concat(what).concat(": ").concat(shown))
}

} // verus!
