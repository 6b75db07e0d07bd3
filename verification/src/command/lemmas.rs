//! What holds of every step of the dispatch.

use vstd::prelude::*;
use vstd::string::*;
use vstd::utf8::*;
use crate::code_block::{ColorCodeBlocks, code_spans, overlaps_any};
use crate::command::assign::{
    assign_outcome, lemma_assign_bounds, lemma_assign_local, lemma_assign_rest,
};
use crate::command::relabel::{
    is_terminator, lemma_relabel_bounds, lemma_relabel_local, lemma_relabel_rest, relabel_outcome,
};
use crate::command::triage::{
    lemma_triage_bounds, lemma_triage_local, lemma_triage_rest, triage_outcome,
};
use crate::command::{
    Claim, CommandView, Grammar, Step, Violation, builtin, claim, claims, dispatch, find_from,
    lemma_find_from, mention_text, occurs_at,
};
use crate::grammar::is_word;
use crate::token::{is_delimiter, lex, rest, same_on};

verus! {

/// The first mention of `bot` in `s` at or behind `cursor` stands at `start`
/// and is a word of its own.
pub open spec fn mention_at(s: Seq<u8>, bot: Seq<u8>, cursor: int, start: int) -> bool {
    find_from(s, mention_text(bot), cursor) == Some(start) && is_word(s, lex(s, start), mention_text(bot))
}

/// The mention at `start` shares a byte with code.
pub open spec fn in_code(s: Seq<u8>, bot: Seq<u8>, start: int) -> bool {
    overlaps_any(code_spans(s), start, start + mention_text(bot).len())
}

/// Without a mention at or behind the cursor there is no command, and the
/// cursor stays where it is.
pub proof fn lemma_no_mention(s: Seq<u8>, bot: Seq<u8>, gs: Seq<Grammar>, cursor: int)
    requires
        0 <= cursor,
        forall|i: int| cursor <= i ==> !occurs_at(s, mention_text(bot), i),
    ensures
        dispatch(s, bot, gs, cursor) == (Step { result: Ok(CommandView::NoCommand), cursor }),
{
    lemma_find_from(s, mention_text(bot), cursor);
}

/// A mention that shares a byte with code gives no command, whatever stands
/// behind it, and the cursor is left at the mention. Only a violation comes
/// before that.
pub proof fn lemma_mention_in_code(
    s: Seq<u8>,
    bot: Seq<u8>,
    gs: Seq<Grammar>,
    cursor: int,
    start: int,
)
    requires
        mention_at(s, bot, cursor, start),
        in_code(s, bot, start),
        claims(gs, s, start + mention_text(bot).len()).len() <= 1,
    ensures
        dispatch(s, bot, gs, cursor) == (Step {
            result: Ok(CommandView::NoCommand),
            cursor: start,
        }),
{
}

/// Where exactly one grammar claims the text behind a mention outside code
/// and its command is well-formed, the command is reported and the cursor
/// moves to its end.
pub proof fn lemma_match_is_reported(
    s: Seq<u8>,
    bot: Seq<u8>,
    gs: Seq<Grammar>,
    cursor: int,
    start: int,
    c: Claim,
)
    requires
        mention_at(s, bot, cursor, start),
        !in_code(s, bot, start),
        claims(gs, s, start + mention_text(bot).len()) == seq![c],
        c.command.ok(),
    ensures
        dispatch(s, bot, gs, cursor) == (Step { result: Ok(c.command), cursor: c.end }),
{
}

/// Where exactly one grammar claims the text behind a mention outside code
/// and finds it malformed, the error is reported and the cursor is left at
/// the mention.
pub proof fn lemma_error_is_reported(
    s: Seq<u8>,
    bot: Seq<u8>,
    gs: Seq<Grammar>,
    cursor: int,
    start: int,
    c: Claim,
)
    requires
        mention_at(s, bot, cursor, start),
        !in_code(s, bot, start),
        claims(gs, s, start + mention_text(bot).len()) == seq![c],
        !c.command.ok(),
    ensures
        dispatch(s, bot, gs, cursor) == (Step { result: Ok(c.command), cursor: start }),
{
}

/// A claim ends in the text, at or behind the position at which its grammar
/// started.
pub proof fn lemma_claim_bounds(g: Grammar, s: Seq<u8>, pos: int)
    requires
        0 <= pos <= s.len(),
    ensures
        claim(g, s, pos) matches Some(c) ==> pos <= c.end <= s.len() && (c.command.ok() ==> pos
            < c.end) && !(c.command is NoCommand),
        claim(g, s, pos) matches Some(c) ==> (c.command.error() matches Some(e) ==> e.text == s
            && pos <= e.position <= s.len()),
{
    lemma_relabel_bounds(s, pos);
    lemma_assign_bounds(s, pos);
    lemma_triage_bounds(s, pos);
}

/// Every claim ends in the text, at or behind the position at which the
/// grammars started.
pub proof fn lemma_claims_bounds(gs: Seq<Grammar>, s: Seq<u8>, pos: int)
    requires
        0 <= pos <= s.len(),
    ensures
        forall|k: int|
            0 <= k < claims(gs, s, pos).len() ==> pos <= (#[trigger] claims(gs, s, pos)[k]).end
                <= s.len() && !(claims(gs, s, pos)[k].command is NoCommand),
    decreases gs.len(),
{
    if gs.len() > 0 {
        lemma_claims_bounds(gs.drop_last(), s, pos);
        lemma_claim_bounds(gs.last(), s, pos);
    }
}

/// An error that the dispatch reports is one in the text of the session
/// and lies behind the mention.
pub proof fn lemma_error_lies_behind_the_mention(
    s: Seq<u8>,
    bot: Seq<u8>,
    gs: Seq<Grammar>,
    cursor: int,
)
    requires
        0 <= cursor <= s.len(),
    ensures
        ({
            let step = dispatch(s, bot, gs, cursor);
            step.result matches Ok(c) ==> (c.error() matches Some(e) ==> e.text == s && step.cursor
                + mention_text(bot).len() <= e.position <= s.len())
        }),
{
    let t = mention_text(bot);
    lemma_find_from(s, t, cursor);
    match find_from(s, t, cursor) {
        Some(start) => {
            let found = claims(gs, s, start + t.len());
            if found.len() == 1 {
                lemma_claims_errors(gs, s, start + t.len());
            }
        },
        None => {},
    }
}

/// Every error among the claims is one in the text and lies at or behind
/// the position at which the grammars started.
pub proof fn lemma_claims_errors(gs: Seq<Grammar>, s: Seq<u8>, pos: int)
    requires
        0 <= pos <= s.len(),
    ensures
        forall|k: int|
            0 <= k < claims(gs, s, pos).len() ==> ((#[trigger] claims(gs, s, pos)[k]).command.error()
                matches Some(e) ==> e.text == s && pos <= e.position <= s.len() && !claims(
                gs,
                s,
                pos,
            )[k].command.ok()),
    decreases gs.len(),
{
    if gs.len() > 0 {
        lemma_claims_errors(gs.drop_last(), s, pos);
        lemma_claim_bounds(gs.last(), s, pos);
    }
}

/// The cursor never moves back and never leaves the text.
pub proof fn lemma_cursor_moves_forward(s: Seq<u8>, bot: Seq<u8>, gs: Seq<Grammar>, cursor: int)
    requires
        0 <= cursor <= s.len(),
    ensures
        cursor <= dispatch(s, bot, gs, cursor).cursor <= s.len(),
{
    lemma_find_from(s, mention_text(bot), cursor);
    match find_from(s, mention_text(bot), cursor) {
        Some(start) => {
            lemma_claims_bounds(gs, s, start + mention_text(bot).len());
        },
        None => {},
    }
}

/// The cursor moves behind a mention only with a well-formed command. After
/// any other step it stands at the mention, or where it stood when there was
/// none, and the next step is the same again: a caller that reads a text in
/// a loop has to stop there.
pub proof fn lemma_step_without_command_repeats(
    s: Seq<u8>,
    bot: Seq<u8>,
    gs: Seq<Grammar>,
    cursor: int,
)
    requires
        0 <= cursor <= s.len(),
    ensures
        ({
            let step = dispatch(s, bot, gs, cursor);
            let command = (step.result matches Ok(c) && c.ok() && !(c is NoCommand));
            &&& !command ==> dispatch(s, bot, gs, step.cursor) == step
            &&& command ==> (find_from(s, mention_text(bot), cursor) matches Some(start) && start
                + mention_text(bot).len() < step.cursor)
        }),
{
    let t = mention_text(bot);
    lemma_find_from(s, t, cursor);
    match find_from(s, t, cursor) {
        Some(start) => {
            lemma_claims_bounds(gs, s, start + t.len());
            lemma_find_from(s, t, start);
            let found = claims(gs, s, start + t.len());
            if found.len() == 1 {
                lemma_claims_ok_end(gs, s, start + t.len());
            }
        },
        None => {},
    }
}

/// A well-formed claim ends behind the position at which its grammar
/// started.
pub proof fn lemma_claims_ok_end(gs: Seq<Grammar>, s: Seq<u8>, pos: int)
    requires
        0 <= pos <= s.len(),
    ensures
        forall|k: int|
            0 <= k < claims(gs, s, pos).len() && (#[trigger] claims(gs, s, pos)[k]).command.ok()
                ==> pos < claims(gs, s, pos)[k].end,
    decreases gs.len(),
{
    if gs.len() > 0 {
        lemma_claims_ok_end(gs.drop_last(), s, pos);
        lemma_claim_bounds(gs.last(), s, pos);
    }
}

/// A grammar that claims the text has its claim among the claims.
pub proof fn lemma_claim_is_counted(gs: Seq<Grammar>, s: Seq<u8>, pos: int, a: int)
    requires
        0 <= a < gs.len(),
        claim(gs[a], s, pos) is Some,
    ensures
        claims(gs, s, pos).len() >= 1,
    decreases gs.len(),
{
    if a < gs.len() - 1 {
        lemma_claim_is_counted(gs.drop_last(), s, pos, a);
    }
}

/// Two registered grammars that claim the same text make two claims.
pub proof fn lemma_two_claims_are_counted(gs: Seq<Grammar>, s: Seq<u8>, pos: int, a: int, b: int)
    requires
        0 <= a < b < gs.len(),
        claim(gs[a], s, pos) is Some,
        claim(gs[b], s, pos) is Some,
    ensures
        claims(gs, s, pos).len() >= 2,
    decreases gs.len(),
{
    if b < gs.len() - 1 {
        lemma_two_claims_are_counted(gs.drop_last(), s, pos, a, b);
    } else {
        lemma_claim_is_counted(gs.drop_last(), s, pos, a);
    }
}

/// Where two registered grammars claim the text behind a mention, the
/// dispatch reports the ambiguity and picks neither, in code or outside it.
pub proof fn lemma_overlap_is_reported(
    s: Seq<u8>,
    bot: Seq<u8>,
    gs: Seq<Grammar>,
    cursor: int,
    start: int,
    a: int,
    b: int,
)
    requires
        mention_at(s, bot, cursor, start),
        0 <= a < b < gs.len(),
        claim(gs[a], s, start + mention_text(bot).len()) is Some,
        claim(gs[b], s, start + mention_text(bot).len()) is Some,
    ensures
        dispatch(s, bot, gs, cursor) == (Step {
            result: Err(Violation::Ambiguous),
            cursor: start,
        }),
{
    lemma_two_claims_are_counted(gs, s, start + mention_text(bot).len(), a, b);
}

/// What a claim is as a sequence of claims.
pub open spec fn claim_seq(c: Option<Claim>) -> Seq<Claim> {
    match c {
        Some(c) => seq![c],
        None => Seq::empty(),
    }
}

/// The claims of the built-in grammars are those of the label, the
/// assignment and the triage grammar, in this order.
pub proof fn lemma_builtin_claims(s: Seq<u8>, pos: int)
    ensures
        claims(builtin(), s, pos) == claim_seq(claim(Grammar::Relabel, s, pos)) + claim_seq(
            claim(Grammar::Assign, s, pos),
        ) + claim_seq(claim(Grammar::Triage, s, pos)),
{
    let three = builtin();
    let two = seq![Grammar::Relabel, Grammar::Assign];
    let one = seq![Grammar::Relabel];
    let none = Seq::<Grammar>::empty();
    assert(three.drop_last() =~= two);
    assert(two.drop_last() =~= one);
    assert(one.drop_last() =~= none);
    assert(claims(none, s, pos) =~= Seq::<Claim>::empty());
    assert(claims(one, s, pos) =~= claim_seq(claim(Grammar::Relabel, s, pos)));
    assert(claims(two, s, pos) =~= claims(one, s, pos) + claim_seq(claim(Grammar::Assign, s, pos)));
    assert(claims(three, s, pos) =~= claims(two, s, pos) + claim_seq(
        claim(Grammar::Triage, s, pos),
    ));
}

/// The keywords with which the built-in grammars start differ from each
/// other.
pub proof fn lemma_keywords_differ()
    ensures
        "modify".spec_bytes() != "claim".spec_bytes(),
        "modify".spec_bytes() != "release".spec_bytes(),
        "modify".spec_bytes() != "unassign".spec_bytes(),
        "modify".spec_bytes() != "assign".spec_bytes(),
        "modify".spec_bytes() != "triage".spec_bytes(),
        "triage".spec_bytes() != "claim".spec_bytes(),
        "triage".spec_bytes() != "release".spec_bytes(),
        "triage".spec_bytes() != "unassign".spec_bytes(),
        "triage".spec_bytes() != "assign".spec_bytes(),
{
    reveal_strlit("modify");
    reveal_strlit("claim");
    reveal_strlit("release");
    reveal_strlit("unassign");
    reveal_strlit("assign");
    reveal_strlit("triage");
    is_ascii_chars_encode_utf8("modify"@);
    is_ascii_chars_encode_utf8("claim"@);
    is_ascii_chars_encode_utf8("release"@);
    is_ascii_chars_encode_utf8("unassign"@);
    is_ascii_chars_encode_utf8("assign"@);
    is_ascii_chars_encode_utf8("triage"@);
    assert("modify".spec_bytes()[0] == 0x6d);
    assert("assign".spec_bytes()[0] == 0x61);
    assert("triage".spec_bytes()[0] == 0x74);
}

/// At most one of the built-in grammars claims a text: a session that is
/// made with them never meets an ambiguity.
pub proof fn lemma_builtin_exclusive(s: Seq<u8>, pos: int)
    ensures
        claims(builtin(), s, pos).len() <= 1,
        relabel_outcome(s, pos).claimed() ==> !assign_outcome(s, pos).claimed() && !triage_outcome(
            s,
            pos,
        ).claimed(),
        assign_outcome(s, pos).claimed() ==> !triage_outcome(s, pos).claimed(),
{
    lemma_keywords_differ();
    lemma_builtin_claims(s, pos);
}

/// With the built-in grammars, what one of them claims behind a mention
/// outside code is what the dispatch reports: a well-formed command with the
/// cursor behind it, a malformed one with the cursor at the mention.
pub proof fn lemma_builtin_claim_is_reported(
    s: Seq<u8>,
    bot: Seq<u8>,
    cursor: int,
    start: int,
    g: Grammar,
    c: Claim,
)
    requires
        mention_at(s, bot, cursor, start),
        !in_code(s, bot, start),
        claim(g, s, start + mention_text(bot).len()) == Some(c),
    ensures
        dispatch(s, bot, builtin(), cursor) == (Step {
            result: Ok(c.command),
            cursor: if c.command.ok() {
                c.end
            } else {
                start
            },
        }),
{
    let pos = start + mention_text(bot).len();
    lemma_builtin_exclusive(s, pos);
    lemma_builtin_claims(s, pos);
    assert(claims(builtin(), s, pos) =~= seq![c]);
}

/// With the built-in grammars the only violation is a mention that is no
/// word of its own.
pub proof fn lemma_builtin_never_ambiguous(s: Seq<u8>, bot: Seq<u8>, cursor: int)
    ensures
        dispatch(s, bot, builtin(), cursor).result != Err::<CommandView, Violation>(
            Violation::Ambiguous,
        ),
{
    match find_from(s, mention_text(bot), cursor) {
        Some(start) => {
            lemma_builtin_exclusive(s, start + mention_text(bot).len());
        },
        None => {},
    }
}

/// The command that `g` matched on `a` up to `end` is closed there, so that
/// no byte of `b` behind `end` can be part of it: a label command by its dot
/// or semicolon, any other by the end of `b` or a delimiter behind its last
/// word.
pub open spec fn closed_at(g: Grammar, a: Seq<u8>, b: Seq<u8>, end: int) -> bool {
    match g {
        Grammar::Relabel => is_terminator(a[end - 1]),
        _ => end == b.len() || is_delimiter(b[end]),
    }
}

/// A well-formed command depends on its own text only. Where a grammar
/// matches on `a` at `pos`, every text `b` that holds the same bytes from
/// `pos` to the end of the command, in which the command is closed, gives the
/// same claim: what stands before `pos` or behind the command, malformed or
/// not, changes nothing.
pub proof fn lemma_claim_local(g: Grammar, a: Seq<u8>, b: Seq<u8>, pos: int)
    requires
        0 <= pos <= a.len(),
        claim(g, a, pos) matches Some(c) && c.command.ok() && same_on(a, b, pos, c.end)
            && closed_at(g, a, b, c.end),
    ensures
        claim(g, b, pos) == claim(g, a, pos),
{
    match g {
        Grammar::Relabel => lemma_relabel_local(a, b, pos),
        Grammar::Assign => lemma_assign_local(a, b, pos),
        Grammar::Triage => lemma_triage_local(a, b, pos),
    }
}

/// What a grammar finds behind a mention depends on the text from there on
/// and on nothing before it: where the text of `a` from `p` on is the text of
/// `b` from `q` on, each grammar has the same outcome on both, but for the
/// offsets, which lie `q - p` further on in `b`.
pub proof fn lemma_outcomes_ignore_the_text_before(a: Seq<u8>, p: int, b: Seq<u8>, q: int)
    requires
        0 <= p <= a.len(),
        0 <= q <= b.len(),
        rest(a, p) == rest(b, q),
    ensures
        relabel_outcome(b, q) == relabel_outcome(a, p).shifted(q - p),
        assign_outcome(b, q) == assign_outcome(a, p).shifted(q - p),
        triage_outcome(b, q) == triage_outcome(a, p).shifted(q - p),
{
    lemma_relabel_rest(a, p);
    lemma_relabel_rest(b, q);
    lemma_assign_rest(a, p);
    lemma_assign_rest(b, q);
    lemma_triage_rest(a, p);
    lemma_triage_rest(b, q);
}

/// Two indexes of the same text hold the same code ranges, and so answer
/// every query alike.
pub proof fn lemma_index_is_a_function(
    a: ColorCodeBlocks,
    b: ColorCodeBlocks,
    s: Seq<u8>,
    start: int,
    end: int,
)
    requires
        a@ == code_spans(s),
        b@ == code_spans(s),
    ensures
        a@ == b@,
        overlaps_any(a@, start, end) == overlaps_any(b@, start, end),
{
}

} // verus!
