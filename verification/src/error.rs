//! The errors of the library.

use vstd::prelude::*;

verus! {

/// What went wrong.
#[derive(Debug)]
pub enum RitzError {
    /// A condition, or a configuration text, could not be read.
    Condition(String),
    /// An extension breaks a rule.
    InvalidExtension { id: String, reason: String },
    /// A file could not be read or written.
    Io { path: String, source: String },
    /// A file does not hold the JSON that it should.
    Json { path: String, source: String },
}

/// The result of an operation that can fail.
pub type Result<T> = std::result::Result<T, RitzError>;

/// A [`RitzError`] as contracts speak of it.
pub enum ErrorView {
    Condition(Seq<char>),
    InvalidExtension { id: Seq<char>, reason: Seq<char> },
    Io { path: Seq<char>, source: Seq<char> },
    Json { path: Seq<char>, source: Seq<char> },
}

impl DeepView for RitzError {
    type V = ErrorView;

    open spec fn deep_view(&self) -> ErrorView {
        match self {
            RitzError::Condition(m) => ErrorView::Condition(m@),
            RitzError::InvalidExtension { id, reason } => ErrorView::InvalidExtension {
                id: id@,
                reason: reason@,
            },
            RitzError::Io { path, source } => ErrorView::Io { path: path@, source: source@ },
            RitzError::Json { path, source } => ErrorView::Json { path: path@, source: source@ },
        }
    }
}

/// A [`Result`] as contracts speak of it.
pub open spec fn outcome<T: DeepView>(r: Result<T>) -> std::result::Result<T::V, ErrorView> {
    match r {
        Ok(v) => Ok(v.deep_view()),
        Err(e) => Err(e.deep_view()),
    }
}

impl ErrorView {
    /// The message shown for an error.
    pub open spec fn message(self) -> Seq<char> {
        match self {
            ErrorView::Condition(m) => "condition parse error: "@ + m,
            ErrorView::InvalidExtension { id, reason } => "invalid extension `"@ + id + "`: "@
                + reason,
            ErrorView::Io { path, source } => "io error at "@ + path + ": "@ + source,
            ErrorView::Json { path, source } => "json error at "@ + path + ": "@ + source,
        }
    }
}

impl RitzError {
    /// The message shown for this error.
    pub fn message(&self) -> (m: String)
        ensures
            m@ == self.deep_view().message(),
    {
        let mut m = String::new();
        match self {
            RitzError::Condition(text) => {
                m.append("condition parse error: ");
                m.append(text.as_str());
                assert(m@ =~= self.deep_view().message());
            },
            RitzError::InvalidExtension { id, reason } => {
                m.append("invalid extension `");
                m.append(id.as_str());
                m.append("`: ");
                m.append(reason.as_str());
                assert(m@ =~= self.deep_view().message());
            },
            RitzError::Io { path, source } => {
                m.append("io error at ");
                m.append(path.as_str());
                m.append(": ");
                m.append(source.as_str());
                assert(m@ =~= self.deep_view().message());
            },
            RitzError::Json { path, source } => {
                m.append("json error at ");
                m.append(path.as_str());
                m.append(": ");
                m.append(source.as_str());
                assert(m@ =~= self.deep_view().message());
            },
        }
        m
    }
}

} // verus!
