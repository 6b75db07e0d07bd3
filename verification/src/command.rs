//! Finding the mention of the bot and dispatching the text behind it to the
//! command grammars.
//!
//! A session ([`Input`]) holds the text, the name of the bot, the index of
//! the code in the text, the registered grammars and a cursor. Each call of
//! [`Input::try_parse_command`] looks for the next mention at or behind the
//! cursor and reports what [`dispatch`] says of it.
//!
//! The cursor is left at the mention unless a command matched: a second call
//! then finds the same mention again. A caller that reads a text in a loop
//! stops when a call leaves the cursor where it was.

use vstd::prelude::*;
use vstd::string::*;
use vstd::utf8::*;
use crate::code_block::{ColorCodeBlocks, code_spans, overlaps_any};
use crate::error::{Error, ErrorView};
use crate::grammar::is_word;
use crate::text::{boundary, lemma_boundary_is_char_boundary, span_text};
use crate::token::{TokenKind, Tokenizer, lemma_lex_bounds, lex};

pub mod assign;
pub mod lemmas;
pub mod relabel;
pub mod triage;

verus! {

/// The text of a mention: `@` and the name of the bot.
pub open spec fn mention_text(bot: Seq<u8>) -> Seq<u8> {
    seq![0x40u8] + bot
}

/// The bytes `t` stand in `s` at `i`.
pub open spec fn occurs_at(s: Seq<u8>, t: Seq<u8>, i: int) -> bool {
    0 <= i && i + t.len() <= s.len() && span_text(s, i, i + t.len()) == t
}

/// The first position at or behind `from` at which `t` stands in `s`.
pub open spec fn find_from(s: Seq<u8>, t: Seq<u8>, from: int) -> Option<int>
    decreases s.len() - from,
{
    if from < 0 || from + t.len() > s.len() {
        None
    } else if occurs_at(s, t, from) {
        Some(from)
    } else if from < s.len() {
        find_from(s, t, from + 1)
    } else {
        // Only the empty `t` fits at the end of `s`, and it stands there.
        None
    }
}

/// `find_from` gives the least position at which `t` stands, and none only
/// where there is none.
pub proof fn lemma_find_from(s: Seq<u8>, t: Seq<u8>, from: int)
    requires
        0 <= from,
    ensures
        match find_from(s, t, from) {
            Some(i) => from <= i && occurs_at(s, t, i) && forall|j: int|
                from <= j < i ==> !occurs_at(s, t, j),
            None => forall|j: int| from <= j ==> !occurs_at(s, t, j),
        },
    decreases s.len() - from,
{
    if from + t.len() <= s.len() && !occurs_at(s, t, from) {
        if from < s.len() {
            lemma_find_from(s, t, from + 1);
        } else {
            assert(span_text(s, from, from + t.len()) =~= t);
        }
    }
}

fn occurs(bytes: &[u8], bot: &[u8], i: usize) -> (r: bool)
    requires
        i + 1 + bot@.len() <= bytes@.len(),
    ensures
        r == occurs_at(bytes@, mention_text(bot@), i as int),
{
    let ghost t = mention_text(bot@);
    let ghost found = span_text(bytes@, i as int, i + t.len());
    if bytes[i] != 0x40 {
        assert(found[0] != t[0]);
        return false;
    }
    let n: usize = bytes.len();
    let mut k: usize = 0;
    while k < bot.len()
        invariant
            k <= bot@.len(),
            n == bytes@.len(),
            i + 1 + bot@.len() <= bytes@.len(),
            t == mention_text(bot@),
            found == span_text(bytes@, i as int, i + t.len()),
            bytes@[i as int] == 0x40,
            forall|j: int| 0 <= j < k ==> bytes@[i + 1 + j] == bot@[j],
        decreases bot@.len() - k,
    {
        if bytes[i + 1 + k] != bot[k] {
            assert(found[k + 1] != t[k + 1]);
            return false;
        }
        k = k + 1;
    }
    assert(found =~= t);
    true
}

fn find_trigger(bytes: &[u8], bot: &[u8], from: usize) -> (r: Option<usize>)
    requires
        from <= bytes@.len(),
    ensures
        match find_from(bytes@, mention_text(bot@), from as int) {
            Some(i) => r == Some(i as usize) && from <= i && i + 1 + bot@.len() <= bytes@.len(),
            None => r is None,
        },
        bytes@.len() <= usize::MAX,
{
    let n: usize = bytes.len();
    let m: usize = bot.len();
    if m >= n || from > n - m - 1 {
        return None;
    }
    let last: usize = n - m - 1;
    let mut i: usize = from;
    while i <= last
        invariant
            from <= i <= last + 1,
            last == bytes@.len() - bot@.len() - 1,
            n == bytes@.len(),
            find_from(bytes@, mention_text(bot@), from as int) == find_from(
                bytes@,
                mention_text(bot@),
                i as int,
            ),
        decreases last + 1 - i,
    {
        if occurs(bytes, bot, i) {
            return Some(i);
        }
        i = i + 1;
    }
    None
}

/// The byte offset of the first mention of `bot` in `input`.
pub fn find_commmand_start(input: &str, bot: &str) -> (r: Option<usize>)
    ensures
        match r {
            Some(i) => occurs_at(input.spec_bytes(), mention_text(bot.spec_bytes()), i as int)
                && forall|j: int|
                0 <= j < i ==> !occurs_at(input.spec_bytes(), mention_text(bot.spec_bytes()), j),
            None => forall|j: int|
                !occurs_at(input.spec_bytes(), mention_text(bot.spec_bytes()), j),
        },
        r == match find_from(input.spec_bytes(), mention_text(bot.spec_bytes()), 0) {
            Some(i) => Some(i as usize),
            None => None,
        },
{
    proof {
        lemma_find_from(input.spec_bytes(), mention_text(bot.spec_bytes()), 0);
    }
    find_trigger(input.as_bytes(), bot.as_bytes(), 0)
}

/// What was found behind a mention.
#[derive(Debug, PartialEq, Eq)]
pub enum Command<'a> {
    Relabel(Result<relabel::RelabelCommand, Error<'a>>),
    Assign(Result<assign::AssignCommand, Error<'a>>),
    Triage(Result<triage::TriageCommand, Error<'a>>),
    /// No mention, a mention inside code, or a mention that no grammar
    /// claims.
    NoCommand,
}

/// A command over the views of the command values.
pub enum CommandView {
    Relabel(Result<Seq<relabel::LabelDeltaView>, ErrorView>),
    Assign(Result<assign::AssignCommandView, ErrorView>),
    Triage(Result<triage::TriageCommand, ErrorView>),
    NoCommand,
}

impl CommandView {
    /// The diagnostic of the grammar that found its command malformed.
    pub open spec fn error(self) -> Option<ErrorView> {
        match self {
            CommandView::Relabel(Err(e)) => Some(e),
            CommandView::Assign(Err(e)) => Some(e),
            CommandView::Triage(Err(e)) => Some(e),
            _ => None,
        }
    }

    /// No grammar found its command malformed.
    pub open spec fn ok(self) -> bool {
        match self {
            CommandView::Relabel(r) => r is Ok,
            CommandView::Assign(r) => r is Ok,
            CommandView::Triage(r) => r is Ok,
            CommandView::NoCommand => true,
        }
    }
}

impl<'a> View for Command<'a> {
    type V = CommandView;

    open spec fn view(&self) -> CommandView {
        match self {
            Command::Relabel(Ok(c)) => CommandView::Relabel(Ok(c@)),
            Command::Relabel(Err(e)) => CommandView::Relabel(Err(e@)),
            Command::Assign(Ok(c)) => CommandView::Assign(Ok(c@)),
            Command::Assign(Err(e)) => CommandView::Assign(Err(e@)),
            Command::Triage(Ok(c)) => CommandView::Triage(Ok(*c)),
            Command::Triage(Err(e)) => CommandView::Triage(Err(e@)),
            Command::NoCommand => CommandView::NoCommand,
        }
    }
}

impl<'a> Command<'a> {
    /// Whether this is a well-formed command or none at all.
    pub fn is_ok(&self) -> (r: bool)
        ensures
            r == self@.ok(),
    {
        match self {
            Command::Relabel(r) => r.is_ok(),
            Command::Assign(r) => r.is_ok(),
            Command::Triage(r) => r.is_ok(),
            Command::NoCommand => true,
        }
    }

    /// Whether a grammar found its command malformed.
    pub fn is_err(&self) -> (r: bool)
        ensures
            r == !self@.ok(),
    {
        !self.is_ok()
    }

    /// Whether there is no command.
    pub fn is_none(&self) -> (r: bool)
        ensures
            r == (self@ is NoCommand),
    {
        match self {
            Command::NoCommand => true,
            _ => false,
        }
    }
}

/// The command grammars that can be registered.
#[derive(Clone, Copy, Debug, PartialEq, Eq)]
pub enum Grammar {
    Relabel,
    Assign,
    Triage,
}

/// A grammar's claim on the text behind a mention: what it reports, and
/// where it stopped reading.
pub struct Claim {
    pub command: CommandView,
    pub end: int,
}

/// The claim of the grammar `g` on `s` at `pos`, or none where it declines.
pub open spec fn claim(g: Grammar, s: Seq<u8>, pos: int) -> Option<Claim> {
    match g {
        Grammar::Relabel => {
            let o = relabel::relabel_outcome(s, pos);
            match o.report(s) {
                Some(r) => Some(Claim { command: CommandView::Relabel(r), end: o.end_from(pos) }),
                None => None,
            }
        },
        Grammar::Assign => {
            let o = assign::assign_outcome(s, pos);
            match o.report(s) {
                Some(r) => Some(Claim { command: CommandView::Assign(r), end: o.end_from(pos) }),
                None => None,
            }
        },
        Grammar::Triage => {
            let o = triage::triage_outcome(s, pos);
            match o.report(s) {
                Some(r) => Some(Claim { command: CommandView::Triage(r), end: o.end_from(pos) }),
                None => None,
            }
        },
    }
}

/// The claims of the grammars `gs` on `s` at `pos`, in the order of the
/// grammars.
pub open spec fn claims(gs: Seq<Grammar>, s: Seq<u8>, pos: int) -> Seq<Claim>
    decreases gs.len(),
{
    if gs.len() == 0 {
        Seq::empty()
    } else {
        match claim(gs.last(), s, pos) {
            Some(c) => claims(gs.drop_last(), s, pos).push(c),
            None => claims(gs.drop_last(), s, pos),
        }
    }
}

/// A break of the rules that the session relies on. It says nothing about
/// the text of the command.
#[derive(Clone, Copy, Debug, PartialEq, Eq)]
pub enum Violation {
    /// The mention that the search found is not a word of its own: the name
    /// of the bot is only the start of a longer word, or it holds a byte that
    /// cannot be part of a word.
    Mention,
    /// More than one registered grammar claims the text.
    Ambiguous,
}

/// What one call of the dispatch reports and where it leaves the cursor.
pub struct Step {
    pub result: Result<CommandView, Violation>,
    pub cursor: int,
}

/// The step that the dispatch takes on the text `s` for the bot named `bot`,
/// with the grammars `gs`, from `cursor`.
///
/// Without a mention at or behind the cursor there is no command and the
/// cursor stays. Else the cursor moves to the first mention. The mention has
/// to be a word of its own. Each grammar is tried behind it. More than one
/// claim is a violation. A mention that shares a byte with code gives no
/// command. A single claim is reported, and only if it is a match the cursor
/// moves on, behind the command.
pub open spec fn dispatch(s: Seq<u8>, bot: Seq<u8>, gs: Seq<Grammar>, cursor: int) -> Step {
    match find_from(s, mention_text(bot), cursor) {
        None => Step { result: Ok(CommandView::NoCommand), cursor },
        Some(start) => {
            let mention = lex(s, start);
            let found = claims(gs, s, start + mention_text(bot).len());
            if !is_word(s, mention, mention_text(bot)) {
                Step { result: Err(Violation::Mention), cursor: start }
            } else if found.len() > 1 {
                Step { result: Err(Violation::Ambiguous), cursor: start }
            } else if overlaps_any(code_spans(s), start, start + mention_text(bot).len()) {
                Step { result: Ok(CommandView::NoCommand), cursor: start }
            } else if found.len() == 1 {
                Step {
                    result: Ok(found[0].command),
                    cursor: if found[0].command.ok() {
                        found[0].end
                    } else {
                        start
                    },
                }
            } else {
                Step { result: Ok(CommandView::NoCommand), cursor: start }
            }
        },
    }
}

/// The grammars that a session has unless others are given.
pub open spec fn builtin() -> Seq<Grammar> {
    seq![Grammar::Relabel, Grammar::Assign, Grammar::Triage]
}

/// The pairs in `found` are the claims `want`, each with the tokenizer behind
/// what its grammar consumed of `s`.
pub open spec fn holds_claims(found: Seq<(Tokenizer, Command)>, want: Seq<Claim>, s: Seq<u8>) -> bool {
    &&& found.len() == want.len()
    &&& forall|k: int|
        0 <= k < found.len() ==> (#[trigger] found[k]).1@ == want[k].command && found[k].0.offset()
            == want[k].end && found[k].0.text() == s
}

/// Tries one grammar on a copy of the tokenizer.
fn attempt<'a>(g: Grammar, start_state: &Tokenizer<'a>) -> (r: Option<(Tokenizer<'a>, Command<'a>)>)
    ensures
        match claim(g, start_state.text(), start_state.offset()) {
            Some(c) => r matches Some(pair) && pair.1@ == c.command && pair.0.offset() == c.end
                && pair.0.text() == start_state.text(),
            None => r is None,
        },
{
    let mut tok = *start_state;
    match g {
        Grammar::Relabel => match relabel::RelabelCommand::parse(&mut tok) {
            Ok(None) => None,
            Ok(Some(c)) => Some((tok, Command::Relabel(Ok(c)))),
            Err(e) => Some((tok, Command::Relabel(Err(e)))),
        },
        Grammar::Assign => match assign::AssignCommand::parse(&mut tok) {
            Ok(None) => None,
            Ok(Some(c)) => Some((tok, Command::Assign(Ok(c)))),
            Err(e) => Some((tok, Command::Assign(Err(e)))),
        },
        Grammar::Triage => match triage::TriageCommand::parse(&mut tok) {
            Ok(None) => None,
            Ok(Some(c)) => Some((tok, Command::Triage(Ok(c)))),
            Err(e) => Some((tok, Command::Triage(Err(e)))),
        },
    }
}

/// A session over one text: the text, the name of the bot, the code in the
/// text, the registered grammars and the cursor.
#[derive(Debug)]
pub struct Input<'a> {
    all: &'a str,
    parsed: usize,
    code: ColorCodeBlocks,
    bot: &'a str,
    grammars: Vec<Grammar>,
}

impl<'a> Input<'a> {
    #[verifier::type_invariant]
    spec fn inv(self) -> bool {
        &&& boundary(self.all.spec_bytes(), self.parsed as int)
        &&& self.code@ == code_spans(self.all.spec_bytes())
    }

    /// The bytes of the text.
    pub closed spec fn text(self) -> Seq<u8> {
        self.all.spec_bytes()
    }

    /// The bytes of the name of the bot.
    pub closed spec fn bot(self) -> Seq<u8> {
        self.bot.spec_bytes()
    }

    /// The cursor: the byte offset from which the next mention is sought.
    pub closed spec fn cursor(self) -> int {
        self.parsed as int
    }

    /// The registered grammars, in the order in which they are tried.
    pub closed spec fn grammars(self) -> Seq<Grammar> {
        self.grammars@
    }

    /// What the next call of the dispatch reports and where it leaves the
    /// cursor.
    pub open spec fn next_step(self) -> Step {
        dispatch(self.text(), self.bot(), self.grammars(), self.cursor())
    }

    /// A session over `input` for the bot named `bot`, with the label, the
    /// assignment and the triage grammar, and the cursor at the start.
    pub fn new(input: &'a str, bot: &'a str) -> (r: Input<'a>)
        ensures
            r.text() == input.spec_bytes(),
            r.bot() == bot.spec_bytes(),
            r.cursor() == 0,
            r.grammars() == builtin(),
    {
        let mut grammars: Vec<Grammar> = Vec::new();
        grammars.push(Grammar::Relabel);
        grammars.push(Grammar::Assign);
        grammars.push(Grammar::Triage);
        assert(grammars@ =~= builtin());
        proof {
            encode_utf8_valid_utf8(input@);
            lemma_boundary_is_char_boundary(input.spec_bytes(), 0);
        }
        Input { all: input, parsed: 0, code: ColorCodeBlocks::new(input), bot, grammars }
    }

    /// A session with the given grammars, which are tried in their order.
    /// Nothing is asked of them here: where two of them claim the same text,
    /// the dispatch reports it.
    pub fn with_grammars(input: &'a str, bot: &'a str, grammars: Vec<Grammar>) -> (r: Input<'a>)
        ensures
            r.text() == input.spec_bytes(),
            r.bot() == bot.spec_bytes(),
            r.cursor() == 0,
            r.grammars() == grammars@,
    {
        proof {
            encode_utf8_valid_utf8(input@);
            lemma_boundary_is_char_boundary(input.spec_bytes(), 0);
        }
        Input { all: input, parsed: 0, code: ColorCodeBlocks::new(input), bot, grammars }
    }

    /// The cursor.
    pub fn parsed(&self) -> (p: usize)
        ensures
            p == self.cursor(),
            p <= self.text().len(),
    {
        proof {
            use_type_invariant(self);
        }
        self.parsed
    }

    /// The text from the cursor on.
    pub fn remaining(&self) -> (rest: &'a str)
        ensures
            rest.spec_bytes() == self.text().subrange(self.cursor(), self.text().len() as int),
    {
        proof {
            use_type_invariant(self);
            encode_utf8_valid_utf8(self.all@);
            lemma_boundary_is_char_boundary(self.all.spec_bytes(), self.parsed as int);
        }
        let (_, rest) = self.all.split_at(self.parsed);
        rest
    }

    /// Looks for the next mention and reports what stands behind it, or the
    /// rule that the text or the grammars break.
    pub fn try_parse_command(&mut self) -> (r: Result<Command<'a>, Violation>)
        ensures
            final(self).text() == old(self).text(),
            final(self).bot() == old(self).bot(),
            final(self).grammars() == old(self).grammars(),
            final(self).cursor() == old(self).next_step().cursor,
            old(self).cursor() <= final(self).cursor() <= old(self).text().len(),
            match old(self).next_step().result {
                Ok(v) => r matches Ok(c) && c@ == v,
                Err(e) => r matches Err(x) && x == e,
            },
    {
        proof {
            use_type_invariant(&*self);
            lemmas::lemma_cursor_moves_forward(
                self.text(),
                self.bot(),
                self.grammars(),
                self.cursor(),
            );
        }
        let all = self.all;
        let bytes = all.as_bytes();
        let bot = self.bot.as_bytes();
        let ghost s = bytes@;
        let ghost t = mention_text(bot@);
        let ghost gs = self.grammars@;
        let start = match find_trigger(bytes, bot, self.parsed) {
            Some(p) => p,
            None => {
                return Ok(Command::NoCommand);
            },
        };
        proof {
            lemma_find_from(s, t, self.parsed as int);
            assert(s[start as int] == span_text(s, start as int, start + t.len())[0]);
            lemma_lex_bounds(s, start as int);
        }
        self.parsed = start;
        let mut tok = Tokenizer::at(all, start);
        let mention = match tok.next_token() {
            Ok(Some(m)) => m,
            _ => {
                return Err(Violation::Mention);
            },
        };
        if !matches!(mention.kind, TokenKind::Word) || mention.end - mention.start != bot.len() + 1 {
            return Err(Violation::Mention);
        }
        let ghost pos = start + t.len();
        let start_state = tok;
        let mut success: Vec<(Tokenizer<'a>, Command<'a>)> = Vec::new();
        let mut i: usize = 0;
        while i < self.grammars.len()
            invariant
                i <= gs.len(),
                gs == self.grammars@,
                start_state.text() == s,
                start_state.offset() == pos,
                holds_claims(success@, claims(gs.take(i as int), s, pos), s),
            decreases gs.len() - i,
        {
            let g = self.grammars[i];
            proof {
                assert(gs.take(i + 1).drop_last() =~= gs.take(i as int));
            }
            match attempt(g, &start_state) {
                Some(pair) => {
                    success.push(pair);
                },
                None => {},
            }
            i = i + 1;
        }
        proof {
            assert(gs.take(i as int) =~= gs);
        }
        if success.len() > 1 {
            return Err(Violation::Ambiguous);
        }
        if self.code.overlaps_code(start, mention.end).is_some() {
            return Ok(Command::NoCommand);
        }
        match success.pop() {
            Some((tok, c)) => {
                if c.is_ok() {
                    self.parsed = tok.position();
                }
                Ok(c)
            },
            None => Ok(Command::NoCommand),
        }
    }

    /// Looks for the next mention and reports what stands behind it.
    ///
    /// The mention has to be a word of its own, and at most one grammar may
    /// claim the text: [`Input::try_parse_command`] asks neither.
    pub fn parse_command(&mut self) -> (r: Command<'a>)
        requires
            old(self).next_step().result is Ok,
        ensures
            final(self).text() == old(self).text(),
            final(self).bot() == old(self).bot(),
            final(self).grammars() == old(self).grammars(),
            final(self).cursor() == old(self).next_step().cursor,
            old(self).cursor() <= final(self).cursor() <= old(self).text().len(),
            Ok::<CommandView, Violation>(r@) == old(self).next_step().result,
    {
        match self.try_parse_command() {
            Ok(c) => c,
            Err(_) => Command::NoCommand,
        }
    }
}

} // verus!
