//! The assignment commands: `claim`, `assign @user`, `release` and
//! `unassign`.

use vstd::prelude::*;
use vstd::string::*;
use vstd::utf8::*;
use crate::error::{Error, ErrorKind};
use crate::grammar::{Outcome, advanced, is_word, malformed_at, reports};
use crate::text::{lemma_boundary_after_ascii, span_is, span_string, span_text};
use crate::token::{
    Lexeme, TokenKind, Tokenizer, is_delimiter, lemma_lex_boundaries, lemma_lex_bounds, lemma_lex_local,
    lemma_lex_rest, lemma_same_span, lemma_skip_space, lemma_word_end, lemma_word_rest, lex, rest,
    same_on,
};

verus! {

/// An assignment command.
#[derive(Clone, Debug, PartialEq, Eq)]
pub enum AssignCommand {
    /// `claim`: assign the issue to whoever wrote the comment.
    Own,
    /// `release` or `unassign`: drop the current assignment.
    Release,
    /// `assign @user`: assign the issue to the named user.
    User { username: String },
}

/// An assignment command with the user name as UTF-8 bytes.
pub enum AssignCommandView {
    Own,
    Release,
    User { username: Seq<u8> },
}

impl View for AssignCommand {
    type V = AssignCommandView;

    open spec fn view(&self) -> AssignCommandView {
        match self {
            AssignCommand::Own => AssignCommandView::Own,
            AssignCommand::Release => AssignCommandView::Release,
            AssignCommand::User { username } => AssignCommandView::User {
                username: encode_utf8(username@),
            },
        }
    }
}

/// The character `@` that starts a mention.
pub open spec fn is_at(b: u8) -> bool {
    b == 0x40
}

/// The outcome of the assignment grammar on `s` at `pos`.
///
/// The first token decides: the words `claim`, `release` and `unassign` are
/// commands by themselves, the word `assign` needs a mention behind it, a
/// word of `@` and at least one more byte, and anything else is declined.
pub open spec fn assign_outcome(s: Seq<u8>, pos: int) -> Outcome<AssignCommandView> {
    let first = lex(s, pos);
    if is_word(s, first, "claim".spec_bytes()) {
        Outcome::Match { value: AssignCommandView::Own, end: first->end }
    } else if is_word(s, first, "release".spec_bytes()) || is_word(
        s,
        first,
        "unassign".spec_bytes(),
    ) {
        Outcome::Match { value: AssignCommandView::Release, end: first->end }
    } else if is_word(s, first, "assign".spec_bytes()) {
        match lex(s, first->end) {
            Lexeme::Token { kind: TokenKind::Word, start, end } => {
                if end - start >= 2 && is_at(s[start]) {
                    Outcome::Match {
                        value: AssignCommandView::User { username: span_text(s, start + 1, end) },
                        end,
                    }
                } else {
                    Outcome::Malformed { position: start, kind: ErrorKind::MentionUser }
                }
            },
            other => malformed_at(s, first->end, other, ErrorKind::NoUser),
        }
    } else {
        Outcome::Decline
    }
}

/// A matched assignment command is not empty and ends in the text, and an
/// error lies in the text, not before `pos`.
pub proof fn lemma_assign_bounds(s: Seq<u8>, pos: int)
    requires
        0 <= pos <= s.len(),
    ensures
        assign_outcome(s, pos) matches Outcome::Match { value, end } ==> pos < end <= s.len(),
        assign_outcome(s, pos) matches Outcome::Malformed { position, kind } ==> pos <= position
            <= s.len(),
{
    lemma_lex_bounds(s, pos);
    let first = lex(s, pos);
    if first is Token {
        lemma_lex_bounds(s, first->end);
        lemma_skip_space(s, first->end);
    }
}

/// What stands before `pos` has no part in the outcome: it is the outcome
/// at the start of the text from `pos` on, with its offsets moved by `pos`.
pub proof fn lemma_assign_rest(s: Seq<u8>, pos: int)
    requires
        0 <= pos <= s.len(),
    ensures
        assign_outcome(s, pos) == assign_outcome(rest(s, pos), 0).shifted(pos),
{
    let r = rest(s, pos);
    lemma_lex_rest(s, pos, 0);
    lemma_lex_bounds(r, 0);
    let first = lex(r, 0);
    if first is Token {
        lemma_word_rest(s, pos, first->start, first->end);
        lemma_lex_rest(s, pos, first->end);
        lemma_lex_bounds(r, first->end);
        let second = lex(r, first->end);
        if second is Token {
            lemma_word_rest(s, pos, second->start + 1, second->end);
        }
    }
}

/// What follows a matched assignment command has no part in it: a text that
/// holds the same bytes from `pos` to the end of the command, and there ends
/// or goes on with a delimiter, has the same command at `pos`.
pub proof fn lemma_assign_local(a: Seq<u8>, b: Seq<u8>, pos: int)
    requires
        0 <= pos <= a.len(),
        assign_outcome(a, pos) matches Outcome::Match { value, end } && same_on(a, b, pos, end) && (
        end == b.len() || is_delimiter(b[end])),
    ensures
        assign_outcome(b, pos) == assign_outcome(a, pos),
{
    let e = assign_outcome(a, pos)->end;
    lemma_lex_bounds(a, pos);
    let first = lex(a, pos);
    lemma_word_end(a, first->start);
    if is_word(a, first, "claim".spec_bytes()) || is_word(a, first, "release".spec_bytes())
        || is_word(a, first, "unassign".spec_bytes()) {
        lemma_lex_local(a, b, pos, e);
    } else {
        lemma_lex_bounds(a, first->end);
        lemma_lex_local(a, b, pos, e);
        lemma_lex_local(a, b, first->end, e);
        let second = lex(a, first->end);
        lemma_same_span(a, b, pos, e, second->start + 1, second->end);
        assert(b[second->start] == a[second->start]);
    }
}

impl AssignCommand {
    /// Tries the assignment grammar at the tokenizer's position.
    pub fn parse<'a>(input: &mut Tokenizer<'a>) -> (r: Result<Option<AssignCommand>, Error<'a>>)
        ensures
            reports(r, old(input).text(), assign_outcome(old(input).text(), old(input).offset())),
            advanced(
                *old(input),
                *final(input),
                assign_outcome(old(input).text(), old(input).offset()),
            ),
    {
        let mut toks = *input;
        let text = input.input();
        let bytes = text.as_bytes();
        let ghost s = bytes@;
        let pos = toks.position();
        proof {
            lemma_lex_bounds(s, pos as int);
        }
        let first = match toks.next_token() {
            Ok(Some(t)) => t,
            _ => {
                return Ok(None);
            },
        };
        if !matches!(first.kind, TokenKind::Word) {
            return Ok(None);
        }
        if span_is(bytes, first.start, first.end, "claim") {
            *input = toks;
            return Ok(Some(AssignCommand::Own));
        }
        if span_is(bytes, first.start, first.end, "release") || span_is(
            bytes,
            first.start,
            first.end,
            "unassign",
        ) {
            *input = toks;
            return Ok(Some(AssignCommand::Release));
        }
        if !span_is(bytes, first.start, first.end, "assign") {
            return Ok(None);
        }
        let behind = toks.position();
        proof {
            lemma_lex_bounds(s, behind as int);
            lemma_lex_boundaries(s, behind as int);
        }
        match toks.next_token() {
            Ok(Some(t)) => {
                if !matches!(t.kind, TokenKind::Word) {
                    return Err(Error { input: text, position: t.start, kind: ErrorKind::NoUser });
                }
                if t.end - t.start >= 2 && bytes[t.start] == 0x40 {
                    proof {
                        lemma_boundary_after_ascii(s, t.start as int);
                    }
                    let username = span_string(text, t.start + 1, t.end);
                    *input = toks;
                    Ok(Some(AssignCommand::User { username }))
                } else {
                    Err(Error { input: text, position: t.start, kind: ErrorKind::MentionUser })
                }
            },
            Ok(None) => Err(Error { input: text, position: bytes.len(), kind: ErrorKind::NoUser }),
            Err(e) => Err(e),
        }
    }
}

} // verus!
