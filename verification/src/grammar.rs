//! What every command grammar reports, and how its report is read.
//!
//! A grammar is tried on the text behind the mention of the bot. It declines
//! where the text does not start with one of its keywords, so that another
//! grammar may own it. Once it has seen its keyword it claims the text: it
//! matches, and consumes exactly the tokens of one command, or it finds the
//! command malformed and consumes nothing.

use vstd::prelude::*;
use crate::error::{Error, ErrorKind, ErrorView};
use crate::text::span_text;
use crate::token::{Lexeme, TokenKind, Tokenizer, skip_space};

verus! {

/// The outcome of one grammar at one position, over the views of the
/// command values.
pub enum Outcome<V> {
    /// The text belongs to no command of this grammar.
    Decline,
    /// The text up to `end` is the command `value`.
    Match { value: V, end: int },
    /// The keyword is there and what follows it is no command; reading
    /// stopped at `position`.
    Malformed { position: int, kind: ErrorKind },
}

impl<V> Outcome<V> {
    /// The grammar owns the text, well-formed or not.
    pub open spec fn claimed(self) -> bool {
        !(self is Decline)
    }

    /// The position behind what the grammar consumed when it started at
    /// `pos`: only a match consumes anything.
    pub open spec fn end_from(self, pos: int) -> int {
        match self {
            Outcome::Match { value, end } => end,
            _ => pos,
        }
    }

    /// The outcome with its offsets moved by `d`.
    pub open spec fn shifted(self, d: int) -> Outcome<V> {
        match self {
            Outcome::Decline => Outcome::Decline,
            Outcome::Match { value, end } => Outcome::Match { value, end: end + d },
            Outcome::Malformed { position, kind } => Outcome::Malformed {
                position: position + d,
                kind,
            },
        }
    }

    /// What the grammar reports of the text `s` where it claims it.
    pub open spec fn report(self, s: Seq<u8>) -> Option<Result<V, ErrorView>> {
        match self {
            Outcome::Decline => None,
            Outcome::Match { value, end } => Some(Ok(value)),
            Outcome::Malformed { position, kind } => Some(
                Err(ErrorView { text: s, position, kind }),
            ),
        }
    }
}

/// The lexeme is a word with the text `lit`.
pub open spec fn is_word(s: Seq<u8>, l: Lexeme, lit: Seq<u8>) -> bool {
    l matches Lexeme::Token { kind, start, end } && kind == TokenKind::Word && span_text(
        s,
        start,
        end,
    ) == lit
}

/// The lexeme is a token of the given kind.
pub open spec fn is_kind(l: Lexeme, k: TokenKind) -> bool {
    l matches Lexeme::Token { kind, start, end } && kind == k
}

/// The outcome where the token that is read at `pos` is a quoted string
/// that is never closed: the lexical error, at its opening quote character.
pub open spec fn unterminated_at<V>(s: Seq<u8>, pos: int) -> Outcome<V> {
    Outcome::Malformed { position: skip_space(s, pos), kind: ErrorKind::UnterminatedQuote }
}

/// The outcome where the lexeme `l` that was read at `pos` is not what the
/// grammar needs there: the lexical error where there is one, else `kind`,
/// both at the first byte behind the whitespace.
pub open spec fn malformed_at<V>(s: Seq<u8>, pos: int, l: Lexeme, kind: ErrorKind) -> Outcome<V> {
    if l is Unterminated {
        unterminated_at(s, pos)
    } else {
        Outcome::Malformed { position: skip_space(s, pos), kind }
    }
}

/// The result `r` of a grammar on the text `s` says what `outcome` says.
pub open spec fn reports<T: View>(
    r: Result<Option<T>, Error>,
    s: Seq<u8>,
    outcome: Outcome<T::V>,
) -> bool {
    match outcome {
        Outcome::Decline => r matches Ok(None),
        Outcome::Match { value, end } => r matches Ok(Some(c)) && c@ == value,
        Outcome::Malformed { position, kind } => r matches Err(e) && e@ == (ErrorView {
            text: s,
            position,
            kind,
        }),
    }
}

/// The tokenizer moved from `before` as `outcome` says: behind a match, and
/// not at all otherwise.
pub open spec fn advanced<V>(before: Tokenizer, after: Tokenizer, outcome: Outcome<V>) -> bool {
    &&& after.text() == before.text()
    &&& after.offset() == outcome.end_from(before.offset())
}

} // verus!
