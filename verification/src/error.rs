//! What can go wrong while scanning or parsing, and where.

use vstd::prelude::*;
use vstd::string::StringExecFns;
use crate::position::Position;

verus! {

/// One mistake found in the source, with the position it was found at.
#[derive(Clone, Debug, PartialEq, Eq)]
pub enum Error {
    /// One shape was required and another was found.
    Unexpected { expected: String, received: String, position: Position },
    /// What was found cannot begin anything that may stand here.
    Invalid { received: String, position: Position },
    /// The input ended in the middle of something.
    EndOfFile { expected: String, position: Position },
    /// A rule of the language was broken, or a number could not be read.
    Other { message: String, position: Position },
}

/// The mathematical model of an [`Error`].
pub enum ErrorView {
    Unexpected { expected: Seq<char>, received: Seq<char>, position: Position },
    Invalid { received: Seq<char>, position: Position },
    EndOfFile { expected: Seq<char>, position: Position },
    Other { message: Seq<char>, position: Position },
}

impl DeepView for Error {
    type V = ErrorView;

    open spec fn deep_view(&self) -> ErrorView {
        match self {
            Error::Unexpected { expected, received, position } => ErrorView::Unexpected {
                expected: expected@,
                received: received@,
                position: *position,
            },
            Error::Invalid { received, position } => ErrorView::Invalid {
                received: received@,
                position: *position,
            },
            Error::EndOfFile { expected, position } => ErrorView::EndOfFile {
                expected: expected@,
                position: *position,
            },
            Error::Other { message, position } => ErrorView::Other {
                message: message@,
                position: *position,
            },
        }
    }
}

/// The model of the outcome of a step that may fail.
pub open spec fn result_view<T: DeepView>(result: Result<T, Error>) -> Result<T::V, ErrorView> {
    match result {
        Ok(value) => Ok(value.deep_view()),
        Err(error) => Err(error.deep_view()),
    }
}

/// The model of a value that may be missing.
pub open spec fn option_view<T: DeepView>(option: Option<T>) -> Option<T::V> {
    match option {
        Some(value) => Some(value.deep_view()),
        None => None,
    }
}

impl ErrorView {
    /// Where the mistake was found.
    pub open spec fn position(self) -> Position {
        match self {
            ErrorView::Unexpected { position, .. } => position,
            ErrorView::Invalid { position, .. } => position,
            ErrorView::EndOfFile { position, .. } => position,
            ErrorView::Other { position, .. } => position,
        }
    }

    /// The sentence that tells a reader what went wrong.
    pub open spec fn message(self) -> Seq<char> {
        match self {
            ErrorView::Unexpected { expected, received, .. } => "Expected '"@ + expected
                + "', found '"@ + received + "'"@,
            ErrorView::Invalid { received, .. } => "Invalid: found '"@ + received + "'"@,
            ErrorView::EndOfFile { expected, .. } => "Expected '"@ + expected
                + "', found end of file"@,
            ErrorView::Other { message, .. } => message,
        }
    }
}

impl Error {
    /// An `Unexpected` error.
    pub fn unexpected(expected: &str, received: &str, position: Position) -> (error: Error)
        ensures
            error.deep_view() == (ErrorView::Unexpected {
                expected: expected@,
                received: received@,
                position,
            }),
    {
        Error::Unexpected {
            expected: String::from_str(expected),
            received: String::from_str(received),
            position,
        }
    }

    /// An `Invalid` error.
    pub fn invalid(received: &str, position: Position) -> (error: Error)
        ensures
            error.deep_view() == (ErrorView::Invalid { received: received@, position }),
    {
        Error::Invalid { received: String::from_str(received), position }
    }

    /// An `EndOfFile` error.
    pub fn end_of_file(expected: &str, position: Position) -> (error: Error)
        ensures
            error.deep_view() == (ErrorView::EndOfFile { expected: expected@, position }),
    {
        Error::EndOfFile { expected: String::from_str(expected), position }
    }

    /// An `Other` error.
    pub fn other(message: &str, position: Position) -> (error: Error)
        ensures
            error.deep_view() == (ErrorView::Other { message: message@, position }),
    {
        Error::Other { message: String::from_str(message), position }
    }

    /// Where the mistake was found.
    pub fn position(&self) -> (position: Position)
        ensures
            position == self.deep_view().position(),
    {
        match self {
            Error::Unexpected { position, .. } => *position,
            Error::Invalid { position, .. } => *position,
            Error::EndOfFile { position, .. } => *position,
            Error::Other { position, .. } => *position,
        }
    }

    /// The sentence that tells a reader what went wrong.
    pub fn message(&self) -> (message: String)
        ensures
            message@ == self.deep_view().message(),
    {
        match self {
            Error::Unexpected { expected, received, .. } => {
                let mut text = String::from_str("Expected '");
                text.append(expected.as_str());
                text.append("', found '");
                text.append(received.as_str());
                text.append("'");
                text
            },
            Error::Invalid { received, .. } => {
                let mut text = String::from_str("Invalid: found '");
                text.append(received.as_str());
                text.append("'");
                text
            },
            Error::EndOfFile { expected, .. } => {
                let mut text = String::from_str("Expected '");
                text.append(expected.as_str());
                text.append("', found end of file");
                text
            },
            Error::Other { message, .. } => message.clone(),
        }
    }
}

} // verus!
