use parser::command::assign::AssignCommand;
use parser::command::relabel::{Label, LabelDelta, RelabelCommand};
use parser::command::triage::{Priority, TriageCommand};
use parser::error::{Error, ErrorKind};
use parser::token::Tokenizer;

type Stopped = (usize, ErrorKind);

fn stopped(e: Error<'_>) -> Stopped {
    (e.position, e.kind)
}

fn assign(input: &str) -> (Result<Option<AssignCommand>, Stopped>, usize) {
    let mut tok = Tokenizer::new(input);
    let r = AssignCommand::parse(&mut tok);
    (r.map_err(stopped), tok.position())
}

fn triage(input: &str) -> (Result<Option<TriageCommand>, Stopped>, usize) {
    let mut tok = Tokenizer::new(input);
    let r = TriageCommand::parse(&mut tok);
    (r.map_err(stopped), tok.position())
}

fn relabel(input: &str) -> (Result<Option<Vec<LabelDelta>>, Stopped>, usize) {
    let mut tok = Tokenizer::new(input);
    let r = RelabelCommand::parse(&mut tok);
    (r.map(|c| c.map(|c| c.0)).map_err(stopped), tok.position())
}

fn add(label: &str) -> LabelDelta {
    LabelDelta::Add(Label(label.to_string()))
}

fn remove(label: &str) -> LabelDelta {
    LabelDelta::Remove(Label(label.to_string()))
}

fn err(position: usize, kind: ErrorKind) -> Stopped {
    (position, kind)
}

#[test]
fn assign_claim() {
    assert_eq!(assign("claim"), (Ok(Some(AssignCommand::Own)), 5));
    assert_eq!(assign("claim."), (Ok(Some(AssignCommand::Own)), 5));
    assert_eq!(assign("  claim this"), (Ok(Some(AssignCommand::Own)), 7));
}

#[test]
fn assign_release() {
    assert_eq!(assign("release"), (Ok(Some(AssignCommand::Release)), 7));
    assert_eq!(assign("unassign, please"), (Ok(Some(AssignCommand::Release)), 8));
}

#[test]
fn assign_user() {
    assert_eq!(
        assign("assign @user"),
        (Ok(Some(AssignCommand::User { username: "user".to_owned() })), 12)
    );
    assert_eq!(
        assign("assign   @a-b_c. Thanks"),
        (Ok(Some(AssignCommand::User { username: "a-b_c".to_owned() })), 15)
    );
}

#[test]
fn assign_user_beyond_ascii() {
    assert_eq!(
        assign("assign @j\u{fc}rgen now"),
        (Ok(Some(AssignCommand::User { username: "j\u{fc}rgen".to_owned() })), 15)
    );
}

#[test]
fn assign_needs_a_mention() {
    assert_eq!(assign("assign @"), (Err(err(7, ErrorKind::MentionUser)), 0));
    assert_eq!(assign("assign user"), (Err(err(7, ErrorKind::MentionUser)), 0));
    assert_eq!(assign("assign"), (Err(err(6, ErrorKind::NoUser)), 0));
    assert_eq!(assign("assign  "), (Err(err(8, ErrorKind::NoUser)), 0));
    assert_eq!(assign("assign . @user"), (Err(err(7, ErrorKind::NoUser)), 0));
    assert_eq!(assign("assign \"@user\""), (Err(err(7, ErrorKind::NoUser)), 0));
}

#[test]
fn assign_reports_a_lexical_error_behind_its_keyword() {
    assert_eq!(assign("assign \"@user"), (Err(err(7, ErrorKind::UnterminatedQuote)), 0));
}

#[test]
fn assign_declines_other_text() {
    assert_eq!(assign(""), (Ok(None), 0));
    assert_eq!(assign("claimed"), (Ok(None), 0));
    assert_eq!(assign("Claim"), (Ok(None), 0));
    assert_eq!(assign("modify labels: +bug"), (Ok(None), 0));
    assert_eq!(assign(". claim"), (Ok(None), 0));
    assert_eq!(assign("\"claim\""), (Ok(None), 0));
    assert_eq!(assign("\"claim"), (Ok(None), 0));
}

#[test]
fn triage_priorities() {
    assert_eq!(triage("triage high"), (Ok(Some(TriageCommand { priority: Priority::High })), 11));
    assert_eq!(
        triage("triage P-high"),
        (Ok(Some(TriageCommand { priority: Priority::High })), 13)
    );
    assert_eq!(
        triage("triage medium."),
        (Ok(Some(TriageCommand { priority: Priority::Medium })), 13)
    );
    assert_eq!(
        triage("triage P-medium"),
        (Ok(Some(TriageCommand { priority: Priority::Medium })), 15)
    );
    assert_eq!(triage("triage low"), (Ok(Some(TriageCommand { priority: Priority::Low })), 10));
    assert_eq!(triage("triage P-low now"), (Ok(Some(TriageCommand { priority: Priority::Low })), 12));
}

#[test]
fn triage_needs_a_priority() {
    assert_eq!(triage("triage"), (Err(err(6, ErrorKind::ExpectedPriority)), 0));
    assert_eq!(triage("triage urgent"), (Err(err(7, ErrorKind::ExpectedPriority)), 0));
    assert_eq!(triage("triage : high"), (Err(err(7, ErrorKind::ExpectedPriority)), 0));
    assert_eq!(triage("triage \"high"), (Err(err(7, ErrorKind::UnterminatedQuote)), 0));
}

#[test]
fn triage_declines_other_text() {
    assert_eq!(triage(""), (Ok(None), 0));
    assert_eq!(triage("claim"), (Ok(None), 0));
    assert_eq!(triage("triaged high"), (Ok(None), 0));
    assert_eq!(triage("\"triage"), (Ok(None), 0));
}

#[test]
fn relabel_simple() {
    assert_eq!(
        relabel("modify labels: +T-compiler -T-lang bug."),
        (Ok(Some(vec![add("T-compiler"), remove("T-lang"), add("bug")])), 39)
    );
}

#[test]
fn relabel_leading_colon() {
    assert_eq!(
        relabel("modify labels:+T-compiler -T-lang bug."),
        (Ok(Some(vec![add("T-compiler"), remove("T-lang"), add("bug")])), 38)
    );
}

#[test]
fn relabel_no_dot() {
    assert_eq!(
        relabel("modify labels to +T-compiler -T-lang bug"),
        (Ok(Some(vec![add("T-compiler"), remove("T-lang"), add("bug")])), 40)
    );
    assert_eq!(relabel("modify labels: bug  "), (Ok(Some(vec![add("bug")])), 20));
}

#[test]
fn relabel_separators() {
    assert_eq!(
        relabel("modify labels: +a, and -b; rest"),
        (Ok(Some(vec![add("a"), remove("b")])), 26)
    );
    assert_eq!(
        relabel("modify labels: a and b, c."),
        (Ok(Some(vec![add("a"), add("b"), add("c")])), 26)
    );
    assert_eq!(relabel("modify labels: a,"), (Ok(Some(vec![add("a")])), 17));
}

#[test]
fn relabel_signed_labels() {
    assert_eq!(
        relabel("modify labels: ++a --b -+c."),
        (Ok(Some(vec![add("+a"), remove("-b"), remove("+c")])), 27)
    );
    assert_eq!(relabel("modify labels to +to."), (Ok(Some(vec![add("to")])), 21));
}

#[test]
fn relabel_label_beyond_ascii() {
    assert_eq!(
        relabel("modify labels: +\u{e9}t\u{e9} -\u{4e16}\u{754c}."),
        (Ok(Some(vec![add("\u{e9}t\u{e9}"), remove("\u{4e16}\u{754c}")])), 30)
    );
}

#[test]
fn relabel_no_separator() {
    assert_eq!(
        relabel("modify labels yep; Labels do in fact exist but this is not a label paragraph."),
        (Err(err(14, ErrorKind::NoSeparator)), 0)
    );
    assert_eq!(relabel("modify labels"), (Err(err(13, ErrorKind::NoSeparator)), 0));
    assert_eq!(relabel("modify labels ."), (Err(err(14, ErrorKind::NoSeparator)), 0));
}

#[test]
fn relabel_misleading_to() {
    assert_eq!(relabel("modify labels to to +x"), (Err(err(17, ErrorKind::MisleadingTo)), 0));
    assert_eq!(relabel("modify labels: to"), (Err(err(15, ErrorKind::MisleadingTo)), 0));
}

#[test]
fn relabel_empty_label() {
    assert_eq!(relabel("modify labels: + testing"), (Err(err(15, ErrorKind::EmptyLabel)), 0));
    assert_eq!(relabel("modify labels: a -"), (Err(err(17, ErrorKind::EmptyLabel)), 0));
}

#[test]
fn relabel_expects_a_delta() {
    assert_eq!(relabel("modify labels:"), (Err(err(14, ErrorKind::ExpectedLabelDelta)), 0));
    assert_eq!(relabel("modify labels: ."), (Err(err(15, ErrorKind::ExpectedLabelDelta)), 0));
    assert_eq!(relabel("modify labels to: a"), (Err(err(16, ErrorKind::ExpectedLabelDelta)), 0));
    assert_eq!(relabel("modify labels: a, , b"), (Err(err(18, ErrorKind::ExpectedLabelDelta)), 0));
    assert_eq!(
        relabel("modify labels: a \"b\" c"),
        (Err(err(17, ErrorKind::ExpectedLabelDelta)), 0)
    );
}

#[test]
fn relabel_reports_a_lexical_error_behind_its_keyword() {
    assert_eq!(relabel("modify \"labels"), (Err(err(7, ErrorKind::UnterminatedQuote)), 0));
    assert_eq!(relabel("modify labels\": +bug."), (Err(err(13, ErrorKind::UnterminatedQuote)), 0));
    assert_eq!(relabel("modify labels: \"bug"), (Err(err(15, ErrorKind::UnterminatedQuote)), 0));
    assert_eq!(
        relabel("modify labels: +bug \"oops"),
        (Err(err(20, ErrorKind::UnterminatedQuote)), 0)
    );
    assert_eq!(
        relabel("modify labels: +bug, \"oops"),
        (Err(err(21, ErrorKind::UnterminatedQuote)), 0)
    );
}

#[test]
fn relabel_declines_other_text() {
    assert_eq!(relabel(""), (Ok(None), 0));
    assert_eq!(relabel("modify"), (Ok(None), 0));
    assert_eq!(relabel("modify something"), (Ok(None), 0));
    assert_eq!(relabel("modify: labels"), (Ok(None), 0));
    assert_eq!(relabel("labels: +bug"), (Ok(None), 0));
    assert_eq!(relabel("\"modify labels"), (Ok(None), 0));
}

#[test]
fn relabel_closed_command_ignores_what_follows() {
    let closed = relabel("modify labels: +bug.");
    assert_eq!(closed, (Ok(Some(vec![add("bug")])), 20));
    assert_eq!(relabel("modify labels: +bug. \"never closed"), closed);
    assert_eq!(relabel("modify labels: +bug.and more labels"), closed);
}

#[test]
fn label_accessors() {
    let delta = remove("bug");
    assert_eq!(delta.label(), &Label("bug".to_string()));
    assert_eq!(delta.label().as_str(), "bug");
    assert_eq!(add("x").label().as_str(), "x");
}

#[test]
fn errors_carry_the_text() {
    let text = "assign @";
    let mut tok = Tokenizer::new(text);
    assert_eq!(
        AssignCommand::parse(&mut tok),
        Err(Error { input: text, position: 7, kind: ErrorKind::MentionUser })
    );
    let text = "triage \"high";
    let mut tok = Tokenizer::new(text);
    assert_eq!(
        TriageCommand::parse(&mut tok),
        Err(Error { input: text, position: 7, kind: ErrorKind::UnterminatedQuote })
    );
    let text = "modify labels: +";
    let mut tok = Tokenizer::new(text);
    assert_eq!(
        RelabelCommand::parse(&mut tok).map(|c| c.map(|c| c.0)),
        Err(Error { input: text, position: 15, kind: ErrorKind::EmptyLabel })
    );
}
