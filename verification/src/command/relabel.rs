//! The label command: `modify labels: +bug -question, and help-wanted.`
//!
//! ```text
//! command:    modify labels (":" | to) <delta-list> ("." | ";" | end of text)
//! delta-list: <delta> | <delta> [","] [and] <delta-list>
//! delta:      +<label> | -<label> | <label>
//! ```
//!
//! A label is any word. One that itself starts with `+` or `-` has to be
//! written with a sign before it.

use vstd::prelude::*;
use vstd::string::*;
use vstd::utf8::*;
use crate::error::{Error, ErrorKind};
use crate::grammar::{Outcome, advanced, is_kind, is_word, malformed_at, reports, unterminated_at};
use crate::text::{lemma_boundary_after_ascii, span_is, span_string, span_text};
use crate::token::{
    Lexeme, TokenKind, Tokenizer, lemma_lex_boundaries, lemma_lex_bounds, lemma_lex_local,
    lemma_lex_rest, lemma_same_span, lemma_skip_space, lemma_word_end, lemma_word_rest, lex, lex_end,
    punct_kind, rest, same_on, skip_space,
};

verus! {

/// The name of a label.
#[derive(Clone, Debug, PartialEq, Eq)]
pub struct Label(pub String);

/// One change to the labels of an issue.
#[derive(Clone, Debug, PartialEq, Eq)]
pub enum LabelDelta {
    Add(Label),
    Remove(Label),
}

/// A label command: the changes in the order in which they were written.
#[derive(Clone, Debug, PartialEq, Eq)]
pub struct RelabelCommand(pub Vec<LabelDelta>);

/// One change to the labels, the label as UTF-8 bytes.
pub enum LabelDeltaView {
    Add(Seq<u8>),
    Remove(Seq<u8>),
}

impl View for Label {
    type V = Seq<u8>;

    open spec fn view(&self) -> Seq<u8> {
        encode_utf8(self.0@)
    }
}

impl View for LabelDelta {
    type V = LabelDeltaView;

    open spec fn view(&self) -> LabelDeltaView {
        match self {
            LabelDelta::Add(l) => LabelDeltaView::Add(l@),
            LabelDelta::Remove(l) => LabelDeltaView::Remove(l@),
        }
    }
}

/// The views of the deltas, in order.
pub open spec fn deltas_view(v: Seq<LabelDelta>) -> Seq<LabelDeltaView> {
    Seq::new(v.len(), |i: int| v[i]@)
}

impl View for RelabelCommand {
    type V = Seq<LabelDeltaView>;

    open spec fn view(&self) -> Seq<LabelDeltaView> {
        deltas_view(self.0@)
    }
}

impl Label {
    /// The name of the label.
    pub fn as_str(&self) -> (s: &str)
        ensures
            s@ == self.0@,
    {
        self.0.as_str()
    }
}

impl LabelDelta {
    /// The label that is added or removed.
    pub fn label(&self) -> (l: &Label)
        ensures
            self@ == LabelDeltaView::Add(l@) || self@ == LabelDeltaView::Remove(l@),
            l == match self {
                LabelDelta::Add(a) => a,
                LabelDelta::Remove(a) => a,
            },
    {
        match self {
            LabelDelta::Add(l) => l,
            LabelDelta::Remove(l) => l,
        }
    }
}

/// The sign `+` of a label that is added.
pub open spec fn is_plus(b: u8) -> bool {
    b == 0x2b
}

/// The sign `-` of a label that is removed.
pub open spec fn is_minus(b: u8) -> bool {
    b == 0x2d
}

/// The delta that the word over `[start, end)` stands for: none where the
/// word is a sign alone.
pub open spec fn delta_of(s: Seq<u8>, start: int, end: int) -> Option<LabelDeltaView> {
    if is_plus(s[start]) {
        if end - start >= 2 {
            Some(LabelDeltaView::Add(span_text(s, start + 1, end)))
        } else {
            None
        }
    } else if is_minus(s[start]) {
        if end - start >= 2 {
            Some(LabelDeltaView::Remove(span_text(s, start + 1, end)))
        } else {
            None
        }
    } else {
        Some(LabelDeltaView::Add(span_text(s, start, end)))
    }
}

/// The outcome `o` with the deltas `before` put in front of those that it
/// matched.
pub open spec fn after_deltas(before: Seq<LabelDeltaView>, o: Outcome<Seq<LabelDeltaView>>) -> Outcome<
    Seq<LabelDeltaView>,
> {
    match o {
        Outcome::Match { value, end } => Outcome::Match { value: before + value, end },
        other => other,
    }
}

/// Putting deltas in front in two steps is putting them in front at once.
proof fn lemma_after_deltas(
    first: Seq<LabelDeltaView>,
    second: Seq<LabelDeltaView>,
    o: Outcome<Seq<LabelDeltaView>>,
)
    ensures
        after_deltas(first, after_deltas(second, o)) == after_deltas(first + second, o),
{
    if let Outcome::Match { value, end } = o {
        assert(first + (second + value) =~= first + second + value);
    }
}

/// The position behind an optional comma at `pos`.
pub open spec fn skip_comma(s: Seq<u8>, pos: int) -> int {
    if is_kind(lex(s, pos), TokenKind::Comma) {
        lex(s, pos)->end
    } else {
        pos
    }
}

/// The position behind an optional word `and` at `pos`.
pub open spec fn skip_and(s: Seq<u8>, pos: int) -> int {
    if is_word(s, lex(s, pos), "and".spec_bytes()) {
        lex(s, pos)->end
    } else {
        pos
    }
}

/// The outcome of the list of deltas that starts at `pos`.
///
/// Each delta is a word. Behind it may stand a comma, then the word `and`.
/// A dot, a semicolon or the end of the text ends the list, anything else
/// starts the next delta.
pub open spec fn deltas_outcome(s: Seq<u8>, pos: int) -> Outcome<Seq<LabelDeltaView>>
    decreases s.len() - pos,
{
    match lex(s, pos) {
        Lexeme::Token { kind: TokenKind::Word, start, end } => {
            match delta_of(s, start, end) {
                None => Outcome::Malformed { position: start, kind: ErrorKind::EmptyLabel },
                Some(delta) => {
                    let comma = lex(s, end);
                    let p = skip_comma(s, end);
                    let and = lex(s, p);
                    let q = skip_and(s, p);
                    let stop = lex(s, q);
                    if comma is Unterminated {
                        unterminated_at(s, end)
                    } else if and is Unterminated {
                        unterminated_at(s, p)
                    } else if stop is Unterminated {
                        unterminated_at(s, q)
                    } else if stop is End || is_kind(stop, TokenKind::Dot) || is_kind(
                        stop,
                        TokenKind::Semi,
                    ) {
                        Outcome::Match { value: seq![delta], end: lex_end(s, q) }
                    } else if pos < q <= s.len() {
                        after_deltas(seq![delta], deltas_outcome(s, q))
                    } else {
                        // Not reached: `q` lies behind the word, in the text.
                        Outcome::Decline
                    }
                },
            }
        },
        other => malformed_at(s, pos, other, ErrorKind::ExpectedLabelDelta),
    }
}

/// The outcome of the label grammar on `s` at `pos`.
///
/// The words `modify labels` are the keyword: any other start is declined.
/// Behind them stands a colon or the word `to`, then the list of deltas, which
/// must not start with the word `to`.
pub open spec fn relabel_outcome(s: Seq<u8>, pos: int) -> Outcome<Seq<LabelDeltaView>> {
    let first = lex(s, pos);
    if !is_word(s, first, "modify".spec_bytes()) {
        Outcome::Decline
    } else {
        let second = lex(s, first->end);
        if second is Unterminated {
            unterminated_at(s, first->end)
        } else if !is_word(s, second, "labels".spec_bytes()) {
            Outcome::Decline
        } else {
            let sep = lex(s, second->end);
            if is_kind(sep, TokenKind::Colon) || is_word(s, sep, "to".spec_bytes()) {
                let next = lex(s, sep->end);
                if is_word(s, next, "to".spec_bytes()) {
                    Outcome::Malformed { position: next->start, kind: ErrorKind::MisleadingTo }
                } else {
                    deltas_outcome(s, sep->end)
                }
            } else {
                malformed_at(s, second->end, sep, ErrorKind::NoSeparator)
            }
        }
    }
}

/// The byte that ends a list of deltas: a dot or a semicolon.
pub open spec fn is_terminator(b: u8) -> bool {
    punct_kind(b) == Some(TokenKind::Dot) || punct_kind(b) == Some(TokenKind::Semi)
}

/// A list of deltas that matched starts with a word and ends at or behind
/// the end of that word.
proof fn lemma_deltas_end(a: Seq<u8>, pos: int)
    requires
        0 <= pos <= a.len(),
        deltas_outcome(a, pos) is Match,
    ensures
        lex(a, pos) matches Lexeme::Token { kind, start, end } && kind == TokenKind::Word && end
            <= deltas_outcome(a, pos)->end <= a.len(),
        deltas_outcome(a, pos)->value.len() >= 1,
    decreases a.len() - pos,
{
    lemma_lex_bounds(a, pos);
    let end1 = lex(a, pos)->end;
    lemma_lex_bounds(a, end1);
    let p = skip_comma(a, end1);
    lemma_lex_bounds(a, p);
    let q = skip_and(a, p);
    lemma_lex_bounds(a, q);
    let stop = lex(a, q);
    if !(stop is End || is_kind(stop, TokenKind::Dot) || is_kind(stop, TokenKind::Semi)) {
        lemma_deltas_end(a, q);
    }
}

proof fn lemma_delta_of_rest(s: Seq<u8>, p: int, start: int, end: int)
    requires
        0 <= p,
        0 <= start < end,
        p + end <= s.len(),
    ensures
        delta_of(s, start + p, end + p) == delta_of(rest(s, p), start, end),
{
    lemma_word_rest(s, p, start, end);
    lemma_word_rest(s, p, start + 1, end);
}

proof fn lemma_skip_comma_rest(s: Seq<u8>, p: int, k: int)
    requires
        0 <= p,
        0 <= k,
        p + k <= s.len(),
    ensures
        skip_comma(s, p + k) == p + skip_comma(rest(s, p), k),
        k <= skip_comma(rest(s, p), k) <= rest(s, p).len(),
{
    lemma_lex_rest(s, p, k);
    lemma_lex_bounds(rest(s, p), k);
}

proof fn lemma_skip_and_rest(s: Seq<u8>, p: int, k: int)
    requires
        0 <= p,
        0 <= k,
        p + k <= s.len(),
    ensures
        skip_and(s, p + k) == p + skip_and(rest(s, p), k),
        k <= skip_and(rest(s, p), k) <= rest(s, p).len(),
{
    let r = rest(s, p);
    lemma_lex_rest(s, p, k);
    lemma_lex_bounds(r, k);
    if lex(r, k) is Token {
        lemma_word_rest(s, p, lex(r, k)->start, lex(r, k)->end);
    }
}

proof fn lemma_deltas_rest(s: Seq<u8>, p: int, k: int)
    requires
        0 <= p,
        0 <= k,
        p + k <= s.len(),
    ensures
        deltas_outcome(s, p + k) == deltas_outcome(rest(s, p), k).shifted(p),
    decreases s.len() - p - k,
{
    let r = rest(s, p);
    lemma_lex_rest(s, p, k);
    lemma_lex_bounds(r, k);
    if let Lexeme::Token { kind: TokenKind::Word, start, end } = lex(r, k) {
        lemma_delta_of_rest(s, p, start, end);
        lemma_lex_rest(s, p, end);
        lemma_skip_comma_rest(s, p, end);
        let behind_comma = skip_comma(r, end);
        lemma_lex_rest(s, p, behind_comma);
        lemma_skip_and_rest(s, p, behind_comma);
        let behind_and = skip_and(r, behind_comma);
        lemma_lex_rest(s, p, behind_and);
        if k < behind_and {
            lemma_deltas_rest(s, p, behind_and);
        }
    }
}

/// What stands before `pos` has no part in the outcome: it is the outcome
/// at the start of the text from `pos` on, with its offsets moved by `pos`.
pub proof fn lemma_relabel_rest(s: Seq<u8>, pos: int)
    requires
        0 <= pos <= s.len(),
    ensures
        relabel_outcome(s, pos) == relabel_outcome(rest(s, pos), 0).shifted(pos),
{
    let r = rest(s, pos);
    lemma_lex_rest(s, pos, 0);
    lemma_lex_bounds(r, 0);
    let first = lex(r, 0);
    if first is Token {
        lemma_word_rest(s, pos, first->start, first->end);
        lemma_lex_rest(s, pos, first->end);
        lemma_lex_bounds(r, first->end);
        let second = lex(r, first->end);
        if second is Token {
            lemma_word_rest(s, pos, second->start, second->end);
            lemma_lex_rest(s, pos, second->end);
            lemma_lex_bounds(r, second->end);
            let sep = lex(r, second->end);
            if sep is Token {
                lemma_word_rest(s, pos, sep->start, sep->end);
                lemma_lex_rest(s, pos, sep->end);
                lemma_lex_bounds(r, sep->end);
                let next = lex(r, sep->end);
                if next is Token {
                    lemma_word_rest(s, pos, next->start, next->end);
                }
                lemma_deltas_rest(s, pos, sep->end);
            }
        }
    }
}

/// An error in a list of deltas lies in the text, not before the list.
proof fn lemma_deltas_error(s: Seq<u8>, pos: int)
    requires
        0 <= pos <= s.len(),
    ensures
        deltas_outcome(s, pos) matches Outcome::Malformed { position, kind } ==> pos <= position
            <= s.len(),
    decreases s.len() - pos,
{
    lemma_lex_bounds(s, pos);
    lemma_skip_space(s, pos);
    if let Lexeme::Token { kind: TokenKind::Word, start, end } = lex(s, pos) {
        lemma_lex_bounds(s, end);
        lemma_skip_space(s, end);
        let p = skip_comma(s, end);
        lemma_lex_bounds(s, p);
        lemma_skip_space(s, p);
        let q = skip_and(s, p);
        lemma_lex_bounds(s, q);
        lemma_skip_space(s, q);
        if pos < q <= s.len() {
            lemma_deltas_error(s, q);
        }
    }
}

/// A matched label command is not empty, ends in the text and holds at
/// least one delta, and an error lies in the text, not before `pos`.
pub proof fn lemma_relabel_bounds(s: Seq<u8>, pos: int)
    requires
        0 <= pos <= s.len(),
    ensures
        relabel_outcome(s, pos) matches Outcome::Match { value, end } ==> pos < end <= s.len()
            && value.len() >= 1,
        relabel_outcome(s, pos) matches Outcome::Malformed { position, kind } ==> pos <= position
            <= s.len(),
{
    lemma_lex_bounds(s, pos);
    let first = lex(s, pos);
    if first is Token {
        lemma_lex_bounds(s, first->end);
        lemma_skip_space(s, first->end);
        let second = lex(s, first->end);
        if second is Token {
            lemma_lex_bounds(s, second->end);
            lemma_skip_space(s, second->end);
            let sep = lex(s, second->end);
            if sep is Token {
                lemma_lex_bounds(s, sep->end);
                lemma_deltas_error(s, sep->end);
                if deltas_outcome(s, sep->end) is Match {
                    lemma_deltas_end(s, sep->end);
                }
            }
        }
    }
}

/// Before a punctuation byte at `e - 1` the text does not run out, and a
/// token that is no quoted string ends before that byte or is that byte.
proof fn lemma_before_punctuation(a: Seq<u8>, x: int, e: int)
    requires
        0 <= x < e <= a.len(),
        punct_kind(a[e - 1]) is Some,
    ensures
        !(lex(a, x) is End),
        lex(a, x) matches Lexeme::Token { kind, start, end } ==> (kind != TokenKind::Quote ==> end
            <= e && (end == e ==> start == e - 1 && kind == punct_kind(a[e - 1])->0)),
{
    lemma_skip_space(a, x);
    let start = skip_space(a, x);
    lemma_word_end(a, start);
}

proof fn lemma_deltas_local(a: Seq<u8>, b: Seq<u8>, from: int, pos: int)
    requires
        0 <= from <= pos <= a.len(),
        deltas_outcome(a, pos) matches Outcome::Match { value, end } && same_on(a, b, from, end)
            && is_terminator(a[end - 1]),
    ensures
        deltas_outcome(b, pos) == deltas_outcome(a, pos),
    decreases a.len() - pos,
{
    let e = deltas_outcome(a, pos)->end;
    lemma_deltas_end(a, pos);
    lemma_lex_bounds(a, pos);
    let start = lex(a, pos)->start;
    let end1 = lex(a, pos)->end;
    lemma_word_end(a, start);
    lemma_lex_local(a, b, pos, e);
    lemma_same_span(a, b, from, e, start + 1, end1);
    assert(b[start] == a[start]);
    lemma_before_punctuation(a, end1, e);
    lemma_lex_bounds(a, end1);
    let comma = lex(a, end1);
    let p = skip_comma(a, end1);
    lemma_before_punctuation(a, p, e);
    lemma_lex_bounds(a, p);
    let and = lex(a, p);
    let q = skip_and(a, p);
    lemma_before_punctuation(a, q, e);
    lemma_lex_bounds(a, q);
    let stop = lex(a, q);
    if !(stop is End || is_kind(stop, TokenKind::Dot) || is_kind(stop, TokenKind::Semi)) {
        lemma_deltas_end(a, q);
        lemma_deltas_local(a, b, from, q);
    }
    if comma is Token && comma->kind != TokenKind::Quote {
        lemma_lex_local(a, b, end1, e);
    }
    if and is Token && and->kind != TokenKind::Quote {
        lemma_lex_local(a, b, p, e);
    }
    if stop is Token && stop->kind != TokenKind::Quote {
        lemma_lex_local(a, b, q, e);
    }
}

/// What follows a label command that its dot or semicolon closed has no
/// part in it: a text that holds the same bytes from `pos` to the end of the
/// command has the same command at `pos`.
pub proof fn lemma_relabel_local(a: Seq<u8>, b: Seq<u8>, pos: int)
    requires
        0 <= pos <= a.len(),
        relabel_outcome(a, pos) matches Outcome::Match { value, end } && same_on(a, b, pos, end)
            && is_terminator(a[end - 1]),
    ensures
        relabel_outcome(b, pos) == relabel_outcome(a, pos),
{
    let e = relabel_outcome(a, pos)->end;
    lemma_lex_bounds(a, pos);
    let first = lex(a, pos);
    lemma_lex_bounds(a, first->end);
    let second = lex(a, first->end);
    lemma_lex_bounds(a, second->end);
    let sep = lex(a, second->end);
    lemma_lex_bounds(a, sep->end);
    lemma_deltas_end(a, sep->end);
    lemma_deltas_local(a, b, pos, sep->end);
    lemma_word_end(a, first->start);
    lemma_word_end(a, second->start);
    lemma_word_end(a, sep->start);
    lemma_word_end(a, lex(a, sep->end)->start);
    lemma_before_punctuation(a, sep->end, e);
    lemma_lex_local(a, b, pos, e);
    lemma_lex_local(a, b, first->end, e);
    lemma_lex_local(a, b, second->end, e);
    lemma_lex_local(a, b, sep->end, e);
}

/// The delta that a word stands for.
fn delta_from(text: &str, start: usize, end: usize) -> (r: Option<LabelDelta>)
    requires
        start < end,
        valid_utf8(text.spec_bytes()),
        crate::text::boundary(text.spec_bytes(), start as int),
        crate::text::boundary(text.spec_bytes(), end as int),
    ensures
        match delta_of(text.spec_bytes(), start as int, end as int) {
            Some(d) => r matches Some(x) && x@ == d,
            None => r is None,
        },
{
    let bytes = text.as_bytes();
    let sign: u8 = bytes[start];
    if sign == 0x2b || sign == 0x2d {
        if end - start < 2 {
            return None;
        }
        proof {
            lemma_boundary_after_ascii(text.spec_bytes(), start as int);
        }
        let label = Label(span_string(text, start + 1, end));
        if sign == 0x2b {
            Some(LabelDelta::Add(label))
        } else {
            Some(LabelDelta::Remove(label))
        }
    } else {
        Some(LabelDelta::Add(Label(span_string(text, start, end))))
    }
}

impl RelabelCommand {
    /// Tries the label grammar at the tokenizer's position.
    pub fn parse<'a>(input: &mut Tokenizer<'a>) -> (r: Result<Option<RelabelCommand>, Error<'a>>)
        ensures
            reports(r, old(input).text(), relabel_outcome(old(input).text(), old(input).offset())),
            advanced(
                *old(input),
                *final(input),
                relabel_outcome(old(input).text(), old(input).offset()),
            ),
    {
        let mut toks = *input;
        let text = input.input();
        let bytes = text.as_bytes();
        let ghost s = bytes@;
        let pos = toks.position();
        proof {
            lemma_lex_bounds(s, pos as int);
        }
        let first = match toks.next_token() {
            Ok(Some(t)) => t,
            _ => {
                return Ok(None);
            },
        };
        if !matches!(first.kind, TokenKind::Word) || !span_is(
            bytes,
            first.start,
            first.end,
            "modify",
        ) {
            return Ok(None);
        }
        let behind_modify = toks.position();
        proof {
            lemma_lex_bounds(s, behind_modify as int);
        }
        let second = match toks.next_token() {
            Ok(Some(t)) => t,
            Ok(None) => {
                return Ok(None);
            },
            Err(e) => {
                return Err(e);
            },
        };
        if !matches!(second.kind, TokenKind::Word) || !span_is(
            bytes,
            second.start,
            second.end,
            "labels",
        ) {
            return Ok(None);
        }
        let behind_labels = toks.position();
        proof {
            lemma_lex_bounds(s, behind_labels as int);
        }
        let sep = match toks.next_token() {
            Ok(Some(t)) => t,
            Ok(None) => {
                return Err(Error { input: text, position: bytes.len(), kind: ErrorKind::NoSeparator });
            },
            Err(e) => {
                return Err(e);
            },
        };
        let colon = matches!(sep.kind, TokenKind::Colon);
        let to = matches!(sep.kind, TokenKind::Word) && span_is(bytes, sep.start, sep.end, "to");
        if !colon && !to {
            return Err(Error { input: text, position: sep.start, kind: ErrorKind::NoSeparator });
        }
        let list_start = toks.position();
        proof {
            lemma_lex_bounds(s, list_start as int);
        }
        match toks.peek_token() {
            Ok(Some(t)) => {
                if matches!(t.kind, TokenKind::Word) && span_is(bytes, t.start, t.end, "to") {
                    return Err(Error { input: text, position: t.start, kind: ErrorKind::MisleadingTo });
                }
            },
            _ => {},
        }
        let mut deltas: Vec<LabelDelta> = Vec::new();
        assert(deltas_view(deltas@) =~= Seq::<LabelDeltaView>::empty());
        loop
            invariant
                s == text.spec_bytes(),
                s == bytes@,
                toks.text() == s,
                input.text() == s,
                *input == *old(input),
                relabel_outcome(s, pos as int) == deltas_outcome(s, list_start as int),
                pos == old(input).offset(),
                pos <= list_start <= toks.offset() <= s.len(),
                s.len() <= usize::MAX,
                deltas_outcome(s, list_start as int) == after_deltas(
                    deltas_view(deltas@),
                    deltas_outcome(s, toks.offset()),
                ),
            decreases s.len() - toks.offset(),
        {
            let here = toks.position();
            proof {
                lemma_lex_bounds(s, here as int);
                lemma_lex_boundaries(s, here as int);
            }
            let word = match toks.next_token() {
                Ok(Some(t)) => t,
                Ok(None) => {
                    return Err(
                        Error { input: text, position: bytes.len(), kind: ErrorKind::ExpectedLabelDelta },
                    );
                },
                Err(e) => {
                    return Err(e);
                },
            };
            if !matches!(word.kind, TokenKind::Word) {
                return Err(Error { input: text, position: word.start, kind: ErrorKind::ExpectedLabelDelta });
            }
            let delta = match delta_from(text, word.start, word.end) {
                Some(d) => d,
                None => {
                    return Err(Error { input: text, position: word.start, kind: ErrorKind::EmptyLabel });
                },
            };
            let ghost before = deltas_view(deltas@);
            let ghost one = delta@;
            deltas.push(delta);
            assert(deltas_view(deltas@) =~= before + seq![one]);
            let behind_word = toks.position();
            proof {
                lemma_lex_bounds(s, behind_word as int);
            }
            let mut probe = toks;
            match probe.next_token() {
                Ok(Some(t)) => {
                    if matches!(t.kind, TokenKind::Comma) {
                        toks = probe;
                    }
                },
                Ok(None) => {},
                Err(e) => {
                    return Err(e);
                },
            }
            let behind_comma = toks.position();
            proof {
                lemma_lex_bounds(s, behind_comma as int);
            }
            let mut probe = toks;
            match probe.next_token() {
                Ok(Some(t)) => {
                    if matches!(t.kind, TokenKind::Word) && span_is(bytes, t.start, t.end, "and") {
                        toks = probe;
                    }
                },
                Ok(None) => {},
                Err(e) => {
                    return Err(e);
                },
            }
            let behind_and = toks.position();
            proof {
                lemma_lex_bounds(s, behind_and as int);
            }
            let mut probe = toks;
            match probe.next_token() {
                Ok(Some(t)) => {
                    if matches!(t.kind, TokenKind::Dot) || matches!(t.kind, TokenKind::Semi) {
                        *input = probe;
                        return Ok(Some(RelabelCommand(deltas)));
                    }
                },
                Ok(None) => {
                    *input = probe;
                    return Ok(Some(RelabelCommand(deltas)));
                },
                Err(e) => {
                    return Err(e);
                },
            }
            proof {
                lemma_after_deltas(before, seq![one], deltas_outcome(s, behind_and as int));
            }
        }
    }
}

} // verus!
