//! The tokenizer: words, quoted strings and punctuation, with byte offsets.
//!
//! Tokens are separated by ASCII whitespace, which is skipped. Each of the
//! bytes `. , ; ! ? :` is a token by itself. A quote character `"` opens a
//! quoted string, which runs to the next quote character that no backslash
//! escapes; one that is never closed is the only lexical error. Any other
//! byte starts a word, which runs up to the next whitespace, punctuation or
//! quote character. Bytes beyond ASCII are bytes of words.

use vstd::prelude::*;
use vstd::string::*;
use vstd::utf8::*;
use crate::error::{Error, ErrorKind, ErrorView};
use crate::text::{boundary, lemma_boundary_after_ascii};

verus! {

/// The kinds of token.
#[derive(Clone, Copy, Debug, PartialEq, Eq)]
pub enum TokenKind {
    Dot,
    Comma,
    Semi,
    Exclamation,
    Question,
    Colon,
    /// A quoted string; its span includes both quote characters.
    Quote,
    /// A maximal run of bytes that are neither whitespace, a quote character
    /// nor punctuation.
    Word,
}

/// A token and the half-open byte range `[start, end)` that it covers.
#[derive(Clone, Copy, Debug, PartialEq, Eq)]
pub struct Token {
    pub kind: TokenKind,
    pub start: usize,
    pub end: usize,
}

/// ASCII whitespace: space, tab, line feed, vertical tab, form feed and
/// carriage return.
pub open spec fn is_space(b: u8) -> bool {
    b == 0x20 || (0x09 <= b && b <= 0x0d)
}

/// The quote character `"`.
pub open spec fn is_quote(b: u8) -> bool {
    b == 0x22
}

/// The escape character `\`, which inside a quoted string takes the byte
/// behind it along, whatever it is.
pub open spec fn is_escape(b: u8) -> bool {
    b == 0x5c
}

/// The punctuation token that a byte is, if it is one.
pub open spec fn punct_kind(b: u8) -> Option<TokenKind> {
    if b == 0x2e {
        Some(TokenKind::Dot)
    } else if b == 0x2c {
        Some(TokenKind::Comma)
    } else if b == 0x3b {
        Some(TokenKind::Semi)
    } else if b == 0x21 {
        Some(TokenKind::Exclamation)
    } else if b == 0x3f {
        Some(TokenKind::Question)
    } else if b == 0x3a {
        Some(TokenKind::Colon)
    } else {
        None
    }
}

/// A byte that cannot be part of a word.
pub open spec fn is_delimiter(b: u8) -> bool {
    is_space(b) || is_quote(b) || punct_kind(b) is Some
}

/// The first position at or behind `i` that holds no whitespace, or the end
/// of the text.
pub open spec fn skip_space(s: Seq<u8>, i: int) -> int
    decreases s.len() - i,
{
    if 0 <= i < s.len() && is_space(s[i]) {
        skip_space(s, i + 1)
    } else {
        i
    }
}

/// The first position at or behind `i` that holds a delimiter, or the end of
/// the text.
pub open spec fn word_end(s: Seq<u8>, i: int) -> int
    decreases s.len() - i,
{
    if 0 <= i < s.len() && !is_delimiter(s[i]) {
        word_end(s, i + 1)
    } else {
        i
    }
}

/// The position of the quote character that closes a quoted string whose
/// body starts at `i`: the first one at or behind `i` that no escape
/// character takes along.
pub open spec fn quote_close(s: Seq<u8>, i: int) -> Option<int>
    decreases s.len() - i,
{
    if i < 0 || i >= s.len() {
        None
    } else if is_quote(s[i]) {
        Some(i)
    } else if is_escape(s[i]) && i + 1 < s.len() {
        quote_close(s, i + 2)
    } else {
        quote_close(s, i + 1)
    }
}

/// What lexing finds at a position.
pub enum Lexeme {
    /// A token of the given kind over `[start, end)`.
    Token { kind: TokenKind, start: int, end: int },
    /// Nothing but whitespace is left.
    End,
    /// The quoted string opened at `open` is never closed.
    Unterminated { open: int },
}

/// The next token of `s` at or behind `pos`.
///
/// Whitespace is skipped. A punctuation byte is a token by itself. A quote
/// character opens a quoted string that runs to its closing quote character.
/// Anything else starts a word that runs up to the next delimiter.
pub open spec fn lex(s: Seq<u8>, pos: int) -> Lexeme {
    let start = skip_space(s, pos);
    if start >= s.len() {
        Lexeme::End
    } else if punct_kind(s[start]) is Some {
        Lexeme::Token { kind: punct_kind(s[start])->0, start, end: start + 1 }
    } else if is_quote(s[start]) {
        match quote_close(s, start + 1) {
            Some(close) => Lexeme::Token { kind: TokenKind::Quote, start, end: close + 1 },
            None => Lexeme::Unterminated { open: start },
        }
    } else {
        Lexeme::Token { kind: TokenKind::Word, start, end: word_end(s, start) }
    }
}

impl Lexeme {
    /// The lexeme with its offsets moved by `d`.
    pub open spec fn shifted(self, d: int) -> Lexeme {
        match self {
            Lexeme::Token { kind, start, end } => Lexeme::Token {
                kind,
                start: start + d,
                end: end + d,
            },
            Lexeme::End => Lexeme::End,
            Lexeme::Unterminated { open } => Lexeme::Unterminated { open: open + d },
        }
    }
}

/// The text from `p` on.
pub open spec fn rest(s: Seq<u8>, p: int) -> Seq<u8> {
    s.subrange(p, s.len() as int)
}

/// The result `r` of reading a token of the text `s` shows the lexeme `l`.
pub open spec fn shows(r: Result<Option<Token>, Error>, s: Seq<u8>, l: Lexeme) -> bool {
    match l {
        Lexeme::Token { kind, start, end } => r matches Ok(Some(t)) && t == (Token {
            kind,
            start: start as usize,
            end: end as usize,
        }),
        Lexeme::End => r matches Ok(None),
        Lexeme::Unterminated { open } => r matches Err(e) && e@ == (ErrorView {
            text: s,
            position: open,
            kind: ErrorKind::UnterminatedQuote,
        }),
    }
}

/// The position behind what `lex` consumed; an unterminated quoted string
/// consumes nothing.
pub open spec fn lex_end(s: Seq<u8>, pos: int) -> int {
    match lex(s, pos) {
        Lexeme::Token { kind, start, end } => end,
        Lexeme::End => skip_space(s, pos),
        Lexeme::Unterminated { open } => pos,
    }
}

/// `skip_space` stops at the first byte that is no whitespace.
pub proof fn lemma_skip_space(s: Seq<u8>, i: int)
    requires
        0 <= i <= s.len(),
    ensures
        i <= skip_space(s, i) <= s.len(),
        forall|j: int| i <= j < skip_space(s, i) ==> is_space(#[trigger] s[j]),
        skip_space(s, i) < s.len() ==> !is_space(s[skip_space(s, i)]),
    decreases s.len() - i,
{
    if i < s.len() && is_space(s[i]) {
        lemma_skip_space(s, i + 1);
    }
}

/// `word_end` stops at the first delimiter.
pub proof fn lemma_word_end(s: Seq<u8>, i: int)
    requires
        0 <= i <= s.len(),
    ensures
        i <= word_end(s, i) <= s.len(),
        forall|j: int| i <= j < word_end(s, i) ==> !is_delimiter(#[trigger] s[j]),
        word_end(s, i) < s.len() ==> is_delimiter(s[word_end(s, i)]),
    decreases s.len() - i,
{
    if i < s.len() && !is_delimiter(s[i]) {
        lemma_word_end(s, i + 1);
    }
}

/// The closing quote character lies behind the start of the body and is one.
pub proof fn lemma_quote_close(s: Seq<u8>, i: int)
    requires
        0 <= i <= s.len(),
    ensures
        quote_close(s, i) matches Some(c) ==> i <= c < s.len() && is_quote(s[c]),
    decreases s.len() - i,
{
    if i < s.len() && !is_quote(s[i]) {
        if is_escape(s[i]) && i + 1 < s.len() {
            lemma_quote_close(s, i + 2);
        } else {
            lemma_quote_close(s, i + 1);
        }
    }
}

/// A token is not empty, lies behind the position at which lexing started,
/// starts at a byte that is no whitespace and has only whitespace before it.
pub proof fn lemma_lex_bounds(s: Seq<u8>, pos: int)
    requires
        0 <= pos <= s.len(),
    ensures
        pos <= lex_end(s, pos) <= s.len(),
        lex(s, pos) matches Lexeme::Token { kind, start, end } ==> pos <= start < end <= s.len()
            && start == skip_space(s, pos) && !is_space(s[start]),
        lex(s, pos) matches Lexeme::Unterminated { open } ==> pos <= open < s.len() && is_quote(
            s[open],
        ),
        lex(s, pos) is End ==> lex_end(s, pos) == s.len(),
{
    lemma_skip_space(s, pos);
    let start = skip_space(s, pos);
    if start < s.len() {
        lemma_quote_close(s, start + 1);
        lemma_word_end(s, start);
    }
}

/// Lexing valid UTF-8 from a character boundary cuts at character
/// boundaries only.
pub proof fn lemma_lex_boundaries(s: Seq<u8>, pos: int)
    requires
        valid_utf8(s),
        boundary(s, pos),
    ensures
        boundary(s, lex_end(s, pos)),
        lex(s, pos) matches Lexeme::Token { kind, start, end } ==> boundary(s, start) && boundary(
            s,
            end,
        ),
{
    lemma_lex_bounds(s, pos);
    lemma_skip_space(s, pos);
    let start = skip_space(s, pos);
    if start > pos {
        lemma_boundary_after_ascii(s, start - 1);
    }
    if start < s.len() {
        lemma_quote_close(s, start + 1);
        lemma_word_end(s, start);
        if punct_kind(s[start]) is Some {
            lemma_boundary_after_ascii(s, start);
        } else if is_quote(s[start]) {
            if let Some(close) = quote_close(s, start + 1) {
                lemma_boundary_after_ascii(s, close);
            }
        }
    }
}

proof fn lemma_skip_space_rest(s: Seq<u8>, p: int, k: int)
    requires
        0 <= p,
        0 <= k,
        p + k <= s.len(),
    ensures
        skip_space(s, p + k) == p + skip_space(rest(s, p), k),
    decreases s.len() - p - k,
{
    if p + k < s.len() && is_space(s[p + k]) {
        lemma_skip_space_rest(s, p, k + 1);
    }
}

proof fn lemma_word_end_rest(s: Seq<u8>, p: int, k: int)
    requires
        0 <= p,
        0 <= k,
        p + k <= s.len(),
    ensures
        word_end(s, p + k) == p + word_end(rest(s, p), k),
    decreases s.len() - p - k,
{
    if p + k < s.len() && !is_delimiter(s[p + k]) {
        lemma_word_end_rest(s, p, k + 1);
    }
}

proof fn lemma_quote_close_rest(s: Seq<u8>, p: int, k: int)
    requires
        0 <= p,
        0 <= k,
        p + k <= s.len(),
    ensures
        quote_close(s, p + k) == match quote_close(rest(s, p), k) {
            Some(c) => Some(c + p),
            None => None,
        },
    decreases s.len() - p - k,
{
    if p + k < s.len() && !is_quote(s[p + k]) {
        if is_escape(s[p + k]) && p + k + 1 < s.len() {
            lemma_quote_close_rest(s, p, k + 2);
        } else {
            lemma_quote_close_rest(s, p, k + 1);
        }
    }
}

/// A span of the text from `p` on holds the bytes of the span that lies `p`
/// further on in the whole text.
pub proof fn lemma_word_rest(s: Seq<u8>, p: int, start: int, end: int)
    requires
        0 <= p,
        0 <= start <= end,
        p + end <= s.len(),
    ensures
        s.subrange(start + p, end + p) == rest(s, p).subrange(start, end),
{
    assert(s.subrange(start + p, end + p) =~= rest(s, p).subrange(start, end));
}

/// Lexing sees nothing of what stands before the position at which it
/// starts: the token at `p + k` of a text is the token at `k` of the text
/// from `p` on, with its offsets moved by `p`.
pub proof fn lemma_lex_rest(s: Seq<u8>, p: int, k: int)
    requires
        0 <= p,
        0 <= k,
        p + k <= s.len(),
    ensures
        lex(s, p + k) == lex(rest(s, p), k).shifted(p),
        skip_space(s, p + k) == p + skip_space(rest(s, p), k),
        lex_end(s, p + k) == p + lex_end(rest(s, p), k),
{
    let r = rest(s, p);
    lemma_skip_space_rest(s, p, k);
    lemma_skip_space(r, k);
    let start = skip_space(r, k);
    if start < r.len() {
        lemma_quote_close_rest(s, p, start + 1);
        lemma_word_end_rest(s, p, start);
    }
}

/// The texts `a` and `b` hold the same bytes in `[lo, hi)`.
pub open spec fn same_on(a: Seq<u8>, b: Seq<u8>, lo: int, hi: int) -> bool {
    &&& 0 <= lo <= hi
    &&& hi <= a.len()
    &&& hi <= b.len()
    &&& forall|i: int| lo <= i < hi ==> a[i] == b[i]
}

/// Texts that hold the same bytes in a range have the same text in every
/// span of it.
pub proof fn lemma_same_span(a: Seq<u8>, b: Seq<u8>, lo: int, hi: int, start: int, end: int)
    requires
        same_on(a, b, lo, hi),
        lo <= start <= end <= hi,
    ensures
        a.subrange(start, end) == b.subrange(start, end),
{
    assert(a.subrange(start, end) =~= b.subrange(start, end));
}

proof fn lemma_skip_space_local(a: Seq<u8>, b: Seq<u8>, p: int, e: int)
    requires
        same_on(a, b, p, e),
        skip_space(a, p) <= e,
        skip_space(a, p) == e ==> e == b.len() || !is_space(b[e]),
    ensures
        skip_space(b, p) == skip_space(a, p),
    decreases a.len() - p,
{
    if p < a.len() && is_space(a[p]) {
        lemma_skip_space(a, p + 1);
        lemma_skip_space_local(a, b, p + 1, e);
    }
}

proof fn lemma_word_end_local(a: Seq<u8>, b: Seq<u8>, p: int, e: int)
    requires
        same_on(a, b, p, e),
        word_end(a, p) <= e,
        word_end(a, p) == e ==> e == b.len() || is_delimiter(b[e]),
    ensures
        word_end(b, p) == word_end(a, p),
    decreases a.len() - p,
{
    if p < a.len() && !is_delimiter(a[p]) {
        lemma_word_end(a, p + 1);
        lemma_word_end_local(a, b, p + 1, e);
    }
}

proof fn lemma_quote_close_local(a: Seq<u8>, b: Seq<u8>, p: int, e: int)
    requires
        same_on(a, b, p, e),
        quote_close(a, p) matches Some(c) && c < e,
    ensures
        quote_close(b, p) == quote_close(a, p),
    decreases a.len() - p,
{
    if p < a.len() && !is_quote(a[p]) {
        if is_escape(a[p]) && p + 1 < a.len() {
            lemma_quote_close(a, p + 2);
            lemma_quote_close_local(a, b, p + 2, e);
        } else {
            lemma_quote_close(a, p + 1);
            lemma_quote_close_local(a, b, p + 1, e);
        }
    }
}

/// A token depends on its own bytes and, for a word, on the byte behind it:
/// a text that holds the same bytes in `[p, e)` has the same token at `p`
/// where the token ends in that range, and where a word that ends at `e` is
/// followed there by a delimiter or by the end of the text.
pub proof fn lemma_lex_local(a: Seq<u8>, b: Seq<u8>, p: int, e: int)
    requires
        same_on(a, b, p, e),
        lex(a, p) matches Lexeme::Token { kind, start, end } && end <= e && (kind
            == TokenKind::Word && end == e ==> e == b.len() || is_delimiter(b[e])),
    ensures
        lex(b, p) == lex(a, p),
        lex(a, p) matches Lexeme::Token { kind, start, end } && b.subrange(start, end)
            == a.subrange(start, end),
{
    lemma_lex_bounds(a, p);
    lemma_skip_space(a, p);
    let start = skip_space(a, p);
    lemma_skip_space_local(a, b, p, e);
    lemma_quote_close(a, start + 1);
    lemma_word_end(a, start);
    if punct_kind(a[start]) is Some {
    } else if is_quote(a[start]) {
        lemma_quote_close_local(a, b, start + 1, e);
    } else {
        lemma_word_end_local(a, b, start, e);
    }
    lemma_same_span(a, b, p, e, start, lex(a, p)->end);
}

/// Whether the byte is whitespace.
pub fn is_space_byte(b: u8) -> (r: bool)
    ensures
        r == is_space(b),
{
    b == 0x20 || (0x09 <= b && b <= 0x0d)
}

/// The punctuation token that the byte is, if it is one.
pub fn punct_of(b: u8) -> (r: Option<TokenKind>)
    ensures
        r == punct_kind(b),
{
    if b == 0x2e {
        Some(TokenKind::Dot)
    } else if b == 0x2c {
        Some(TokenKind::Comma)
    } else if b == 0x3b {
        Some(TokenKind::Semi)
    } else if b == 0x21 {
        Some(TokenKind::Exclamation)
    } else if b == 0x3f {
        Some(TokenKind::Question)
    } else if b == 0x3a {
        Some(TokenKind::Colon)
    } else {
        None
    }
}

/// Whether the byte cannot be part of a word.
pub fn is_delimiter_byte(b: u8) -> (r: bool)
    ensures
        r == is_delimiter(b),
{
    is_space_byte(b) || b == 0x22 || punct_of(b).is_some()
}

/// A position in a text from which tokens are read. It is a small value that
/// is copied freely: a copy reads the same tokens, and the tokenizer that it
/// was copied from stays where it is.
#[derive(Clone, Copy, Debug)]
pub struct Tokenizer<'a> {
    input: &'a str,
    pos: usize,
}

impl<'a> Tokenizer<'a> {
    #[verifier::type_invariant]
    spec fn inv(self) -> bool {
        boundary(self.input.spec_bytes(), self.pos as int)
    }

    /// The bytes of the whole text.
    pub closed spec fn text(self) -> Seq<u8> {
        self.input.spec_bytes()
    }

    /// The byte offset from which the next token is read.
    pub closed spec fn offset(self) -> int {
        self.pos as int
    }

    /// A tokenizer at the start of `input`.
    pub fn new(input: &'a str) -> (t: Self)
        ensures
            t.text() == input.spec_bytes(),
            t.offset() == 0,
    {
        proof {
            encode_utf8_valid_utf8(input@);
            crate::text::lemma_boundary_is_char_boundary(input.spec_bytes(), 0);
        }
        Tokenizer { input, pos: 0 }
    }

    /// A tokenizer at the byte offset `pos` of `input`: none where `pos` is
    /// not in the text or cuts a character in two.
    pub fn starting_at(input: &'a str, pos: usize) -> (r: Option<Self>)
        ensures
            match r {
                Some(t) => t.text() == input.spec_bytes() && t.offset() == pos && boundary(
                    input.spec_bytes(),
                    pos as int,
                ),
                None => !boundary(input.spec_bytes(), pos as int),
            },
    {
        proof {
            encode_utf8_valid_utf8(input@);
            crate::text::lemma_boundary_is_char_boundary(input.spec_bytes(), pos as int);
        }
        if input.is_char_boundary(pos) {
            Some(Tokenizer { input, pos })
        } else {
            None
        }
    }

    /// A tokenizer at the character boundary `pos` of `input`.
    pub(crate) fn at(input: &'a str, pos: usize) -> (t: Self)
        requires
            boundary(input.spec_bytes(), pos as int),
        ensures
            t.text() == input.spec_bytes(),
            t.offset() == pos,
    {
        Tokenizer { input, pos }
    }

    /// The text that the tokenizer reads.
    pub fn input(&self) -> (s: &'a str)
        ensures
            s.spec_bytes() == self.text(),
    {
        self.input
    }

    /// The current byte offset: one of the text, at a character boundary.
    pub fn position(&self) -> (p: usize)
        ensures
            p == self.offset(),
            valid_utf8(self.text()),
            boundary(self.text(), p as int),
            self.text().len() <= usize::MAX,
    {
        proof {
            use_type_invariant(self);
            encode_utf8_valid_utf8(self.input@);
        }
        let _ = self.input.as_bytes().len();
        self.pos
    }

    /// Reads the next token and moves behind it. At the end of the text the
    /// tokenizer moves there and returns `None`. Where a quoted string is not
    /// closed it stays where it was and reports the opening quote character.
    pub fn next_token(&mut self) -> (r: Result<Option<Token>, Error<'a>>)
        ensures
            final(self).text() == old(self).text(),
            final(self).offset() == lex_end(old(self).text(), old(self).offset()),
            old(self).text().len() <= usize::MAX,
            shows(r, old(self).text(), lex(old(self).text(), old(self).offset())),
    {
        proof {
            use_type_invariant(&*self);
            encode_utf8_valid_utf8(self.input@);
            lemma_lex_bounds(self.input.spec_bytes(), self.pos as int);
            lemma_lex_boundaries(self.input.spec_bytes(), self.pos as int);
        }
        let bytes = self.input.as_bytes();
        let ghost s = bytes@;
        let n: usize = bytes.len();
        let mut start: usize = self.pos;
        while start < n && is_space_byte(bytes[start])
            invariant
                self.pos <= start <= n,
                n == s.len(),
                s == bytes@,
                skip_space(s, self.pos as int) == skip_space(s, start as int),
            decreases n - start,
        {
            start = start + 1;
        }
        if start >= n {
            self.pos = n;
            return Ok(None);
        }
        let b: u8 = bytes[start];
        if let Some(kind) = punct_of(b) {
            self.pos = start + 1;
            return Ok(Some(Token { kind, start, end: start + 1 }));
        }
        if b == 0x22 {
            let mut i: usize = start + 1;
            while i < n && bytes[i] != 0x22
                invariant
                    start < i <= n,
                    n == s.len(),
                    s == bytes@,
                    quote_close(s, start + 1) == quote_close(s, i as int),
                decreases n - i,
            {
                if bytes[i] == 0x5c && i + 1 < n {
                    i = i + 2;
                } else {
                    i = i + 1;
                }
            }
            if i >= n {
                return Err(
                    Error { input: self.input, position: start, kind: ErrorKind::UnterminatedQuote },
                );
            }
            self.pos = i + 1;
            return Ok(Some(Token { kind: TokenKind::Quote, start, end: i + 1 }));
        }
        let mut end: usize = start;
        while end < n && !is_delimiter_byte(bytes[end])
            invariant
                start <= end <= n,
                n == s.len(),
                s == bytes@,
                word_end(s, start as int) == word_end(s, end as int),
            decreases n - end,
        {
            end = end + 1;
        }
        self.pos = end;
        Ok(Some(Token { kind: TokenKind::Word, start, end }))
    }

    /// The next token, without moving.
    pub fn peek_token(&self) -> (r: Result<Option<Token>, Error<'a>>)
        ensures
            self.text().len() <= usize::MAX,
            shows(r, self.text(), lex(self.text(), self.offset())),
    {
        let mut probe = *self;
        probe.next_token()
    }
}

} // verus!
