//! The triage command: `triage high`, `triage medium` or `triage low`, the
//! priority also spelled `P-high`, `P-medium`, `P-low`.

use vstd::prelude::*;
use vstd::string::*;
use crate::error::{Error, ErrorKind};
use crate::grammar::{Outcome, advanced, is_word, malformed_at, reports};
use crate::text::span_is;
use crate::token::{
    Lexeme, TokenKind, Tokenizer, is_delimiter, lemma_lex_bounds, lemma_lex_local, lemma_lex_rest,
    lemma_skip_space, lemma_word_end, lemma_word_rest, lex, rest, same_on,
};

verus! {

/// How urgent an issue is.
#[derive(Clone, Copy, Debug, PartialEq, Eq)]
pub enum Priority {
    High,
    Medium,
    Low,
}

/// A triage command: give the issue the priority.
#[derive(Clone, Copy, Debug, PartialEq, Eq)]
pub struct TriageCommand {
    pub priority: Priority,
}

impl View for TriageCommand {
    type V = TriageCommand;

    open spec fn view(&self) -> TriageCommand {
        *self
    }
}

/// The priority that a lexeme names, if it names one.
pub open spec fn priority_of(s: Seq<u8>, l: Lexeme) -> Option<Priority> {
    if is_word(s, l, "high".spec_bytes()) || is_word(s, l, "P-high".spec_bytes()) {
        Some(Priority::High)
    } else if is_word(s, l, "medium".spec_bytes()) || is_word(s, l, "P-medium".spec_bytes()) {
        Some(Priority::Medium)
    } else if is_word(s, l, "low".spec_bytes()) || is_word(s, l, "P-low".spec_bytes()) {
        Some(Priority::Low)
    } else {
        None
    }
}

/// The outcome of the triage grammar on `s` at `pos`: the word `triage` and
/// a priority behind it match, `triage` and anything else is malformed, and
/// any other first token is declined.
pub open spec fn triage_outcome(s: Seq<u8>, pos: int) -> Outcome<TriageCommand> {
    let first = lex(s, pos);
    if is_word(s, first, "triage".spec_bytes()) {
        let second = lex(s, first->end);
        match priority_of(s, second) {
            Some(priority) => Outcome::Match {
                value: TriageCommand { priority },
                end: second->end,
            },
            None => malformed_at(s, first->end, second, ErrorKind::ExpectedPriority),
        }
    } else {
        Outcome::Decline
    }
}

/// A matched triage command is not empty and ends in the text, and an error
/// lies in the text, not before `pos`.
pub proof fn lemma_triage_bounds(s: Seq<u8>, pos: int)
    requires
        0 <= pos <= s.len(),
    ensures
        triage_outcome(s, pos) matches Outcome::Match { value, end } ==> pos < end <= s.len(),
        triage_outcome(s, pos) matches Outcome::Malformed { position, kind } ==> pos <= position
            <= s.len(),
{
    lemma_lex_bounds(s, pos);
    let first = lex(s, pos);
    if first is Token {
        lemma_lex_bounds(s, first->end);
        lemma_skip_space(s, first->end);
    }
}

/// What stands before `pos` has no part in the outcome: it is the outcome
/// at the start of the text from `pos` on, with its offsets moved by `pos`.
pub proof fn lemma_triage_rest(s: Seq<u8>, pos: int)
    requires
        0 <= pos <= s.len(),
    ensures
        triage_outcome(s, pos) == triage_outcome(rest(s, pos), 0).shifted(pos),
{
    let r = rest(s, pos);
    lemma_lex_rest(s, pos, 0);
    lemma_lex_bounds(r, 0);
    let first = lex(r, 0);
    if first is Token {
        lemma_word_rest(s, pos, first->start, first->end);
        lemma_lex_rest(s, pos, first->end);
        lemma_lex_bounds(r, first->end);
        let second = lex(r, first->end);
        if second is Token {
            lemma_word_rest(s, pos, second->start, second->end);
        }
    }
}

/// What follows a matched triage command has no part in it: a text that
/// holds the same bytes from `pos` to the end of the command, and there ends
/// or goes on with a delimiter, has the same command at `pos`.
pub proof fn lemma_triage_local(a: Seq<u8>, b: Seq<u8>, pos: int)
    requires
        0 <= pos <= a.len(),
        triage_outcome(a, pos) matches Outcome::Match { value, end } && same_on(a, b, pos, end) && (
        end == b.len() || is_delimiter(b[end])),
    ensures
        triage_outcome(b, pos) == triage_outcome(a, pos),
{
    let e = triage_outcome(a, pos)->end;
    lemma_lex_bounds(a, pos);
    let first = lex(a, pos);
    lemma_word_end(a, first->start);
    lemma_lex_bounds(a, first->end);
    lemma_lex_local(a, b, pos, e);
    lemma_lex_local(a, b, first->end, e);
}

impl TriageCommand {
    /// Tries the triage grammar at the tokenizer's position.
    pub fn parse<'a>(input: &mut Tokenizer<'a>) -> (r: Result<Option<TriageCommand>, Error<'a>>)
        ensures
            reports(r, old(input).text(), triage_outcome(old(input).text(), old(input).offset())),
            advanced(
                *old(input),
                *final(input),
                triage_outcome(old(input).text(), old(input).offset()),
            ),
    {
        let mut toks = *input;
        let text = input.input();
        let bytes = text.as_bytes();
        let ghost s = bytes@;
        let pos = toks.position();
        proof {
            lemma_lex_bounds(s, pos as int);
        }
        let first = match toks.next_token() {
            Ok(Some(t)) => t,
            _ => {
                return Ok(None);
            },
        };
        if !matches!(first.kind, TokenKind::Word) || !span_is(
            bytes,
            first.start,
            first.end,
            "triage",
        ) {
            return Ok(None);
        }
        let behind = toks.position();
        proof {
            lemma_lex_bounds(s, behind as int);
        }
        let t = match toks.next_token() {
            Ok(Some(t)) => t,
            Ok(None) => {
                return Err(Error { input: text, position: bytes.len(), kind: ErrorKind::ExpectedPriority });
            },
            Err(e) => {
                return Err(e);
            },
        };
        if !matches!(t.kind, TokenKind::Word) {
            return Err(Error { input: text, position: t.start, kind: ErrorKind::ExpectedPriority });
        }
        let priority = if span_is(bytes, t.start, t.end, "high") || span_is(
            bytes,
            t.start,
            t.end,
            "P-high",
        ) {
            Priority::High
        } else if span_is(bytes, t.start, t.end, "medium") || span_is(
            bytes,
            t.start,
            t.end,
            "P-medium",
        ) {
            Priority::Medium
        } else if span_is(bytes, t.start, t.end, "low") || span_is(
            bytes,
            t.start,
            t.end,
            "P-low",
        ) {
            Priority::Low
        } else {
            return Err(Error { input: text, position: t.start, kind: ErrorKind::ExpectedPriority });
        };
        *input = toks;
        Ok(Some(TriageCommand { priority }))
    }
}

} // verus!
