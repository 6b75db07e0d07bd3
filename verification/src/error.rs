//! The diagnostics that lexing and the command grammars report.

use vstd::prelude::*;
use vstd::string::*;

verus! {

/// What went wrong while a command was read.
#[derive(Clone, Copy, Debug, PartialEq, Eq)]
pub enum ErrorKind {
    /// A quoted string is opened and the text ends before it is closed.
    UnterminatedQuote,
    /// `assign` is followed by a word that is no `@name` mention.
    MentionUser,
    /// `assign` is not followed by a word.
    NoUser,
    /// A label delta consists of its sign alone.
    EmptyLabel,
    /// A label delta was expected and something else was found.
    ExpectedLabelDelta,
    /// `modify labels to to ...`: write `+to` to add a label named `to`.
    MisleadingTo,
    /// `modify labels` is followed neither by `:` nor by `to`.
    NoSeparator,
    /// `triage` is not followed by a priority.
    ExpectedPriority,
}

/// A diagnostic: the text that was read, the byte offset in it at which
/// reading stopped, and what went wrong there.
#[derive(Clone, Copy, Debug, PartialEq, Eq)]
pub struct Error<'a> {
    pub input: &'a str,
    pub position: usize,
    pub kind: ErrorKind,
}

/// A diagnostic over the bytes of the text.
pub struct ErrorView {
    pub text: Seq<u8>,
    pub position: int,
    pub kind: ErrorKind,
}

impl<'a> View for Error<'a> {
    type V = ErrorView;

    open spec fn view(&self) -> ErrorView {
        ErrorView {
            text: self.input.spec_bytes(),
            position: self.position as int,
            kind: self.kind,
        }
    }
}

impl ErrorKind {
    /// Whether the text could not even be split into tokens.
    pub open spec fn lexical(self) -> bool {
        self is UnterminatedQuote
    }

    /// Whether the text could not even be split into tokens.
    pub fn is_lexical(&self) -> (r: bool)
        ensures
            r == self.lexical(),
    {
        match self {
            ErrorKind::UnterminatedQuote => true,
            _ => false,
        }
    }

    /// What was expected, in words.
    pub open spec fn text(self) -> Seq<char> {
        match self {
            ErrorKind::UnterminatedQuote => "quoted string is not closed"@,
            ErrorKind::MentionUser => "user should start with @"@,
            ErrorKind::NoUser => "specify user to assign to"@,
            ErrorKind::EmptyLabel => "empty label"@,
            ErrorKind::ExpectedLabelDelta => "a label delta"@,
            ErrorKind::MisleadingTo => "forbidden to, use +to"@,
            ErrorKind::NoSeparator => "must have : or to as label starter"@,
            ErrorKind::ExpectedPriority => "expected a priority: high, medium or low"@,
        }
    }

    /// What was expected, in words, for the author of the comment.
    pub fn message(&self) -> (m: &'static str)
        ensures
            m@ == self.text(),
    {
        match self {
            ErrorKind::UnterminatedQuote => "quoted string is not closed",
            ErrorKind::MentionUser => "user should start with @",
            ErrorKind::NoUser => "specify user to assign to",
            ErrorKind::EmptyLabel => "empty label",
            ErrorKind::ExpectedLabelDelta => "a label delta",
            ErrorKind::MisleadingTo => "forbidden to, use +to",
            ErrorKind::NoSeparator => "must have : or to as label starter",
            ErrorKind::ExpectedPriority => "expected a priority: high, medium or low",
        }
    }
}

} // verus!
