use parser::command::assign::AssignCommand;
use parser::command::relabel::{Label, LabelDelta, RelabelCommand};
use parser::command::triage::{Priority, TriageCommand};
use parser::command::{find_commmand_start, Command, Grammar, Input, Violation};
use parser::error::{Error, ErrorKind};

#[test]
fn errors_outside_command_are_fine() {
    let input =
        "haha\" unterminated quotes @bot modify labels: +bug. Terminating after the command";
    let mut input = Input::new(input, "bot");
    assert!(input.parse_command().is_ok());
}

#[test]
fn code_1() {
    let input = "`@bot modify labels: +bug.`";
    let mut input = Input::new(input, "bot");
    assert!(input.parse_command().is_none());
}

#[test]
fn code_2() {
    let input = "```
    @bot modify labels: +bug.
    ```";
    let mut input = Input::new(input, "bot");
    assert!(input.parse_command().is_none());
}

#[test]
fn move_input_along() {
    let input = "@bot modify labels: +bug. Afterwards, delete the world.";
    let mut input = Input::new(input, "bot");
    let parsed = input.parse_command();
    assert!(parsed.is_ok());
    assert_eq!(input.remaining(), " Afterwards, delete the world.");
}

#[test]
fn move_input_along_1() {
    let input = "@bot modify labels\": +bug. Afterwards, delete the world.";
    let mut input = Input::new(input, "bot");
    assert!(input.parse_command().is_err());
    // don't move input along if parsing the command fails
    assert_eq!(input.parsed(), 0);
}

fn own() -> Command<'static> {
    Command::Assign(Ok(AssignCommand::Own))
}

fn assign_err(input: &str, position: usize, kind: ErrorKind) -> Command<'_> {
    Command::Assign(Err(Error { input, position, kind }))
}

#[test]
fn find_start_of_first_mention() {
    assert_eq!(find_commmand_start("hello @bot", "bot"), Some(6));
    assert_eq!(find_commmand_start("@bot and @bot", "bot"), Some(0));
    assert_eq!(find_commmand_start("x@bot2", "bot"), Some(1));
    assert_eq!(find_commmand_start("@@bot", "bot"), Some(1));
    assert_eq!(find_commmand_start("@", ""), Some(0));
}

#[test]
fn find_start_without_mention() {
    assert_eq!(find_commmand_start("hello bot", "bot"), None);
    assert_eq!(find_commmand_start("@bo", "bot"), None);
    assert_eq!(find_commmand_start("@Bot", "bot"), None);
    assert_eq!(find_commmand_start("", "bot"), None);
    assert_eq!(find_commmand_start("", ""), None);
}

#[test]
fn no_mention_is_no_command() {
    let mut input = Input::new("hello world, no robot here", "bot");
    assert!(input.parse_command().is_none());
    assert_eq!(input.parsed(), 0);
    assert_eq!(input.remaining(), "hello world, no robot here");
}

#[test]
fn no_further_mention_leaves_the_cursor() {
    let mut input = Input::new("@bot claim, and nothing else", "bot");
    assert_eq!(input.parse_command(), own());
    assert_eq!(input.parsed(), 10);
    assert!(input.parse_command().is_none());
    assert_eq!(input.parsed(), 10);
}

#[test]
fn match_moves_behind_the_command() {
    let mut input = Input::new("hey @bot assign @alice, thanks", "bot");
    let found = input.parse_command();
    assert_eq!(found, Command::Assign(Ok(AssignCommand::User { username: "alice".to_owned() })));
    assert_eq!(input.parsed(), 22);
    assert_eq!(input.remaining(), ", thanks");
}

#[test]
fn each_grammar_is_tried() {
    let mut input = Input::new("@bot triage P-high", "bot");
    assert_eq!(input.parse_command(), Command::Triage(Ok(TriageCommand { priority: Priority::High })));
    assert_eq!(input.remaining(), "");
    let mut input = Input::new("@bot modify labels to -bug;", "bot");
    assert_eq!(input.parse_command(), Command::Relabel(Ok(RelabelCommand(vec![LabelDelta::Remove(Label("bug".to_owned()))]))));
    assert_eq!(input.parsed(), 27);
}

#[test]
fn commands_are_read_one_after_the_other() {
    let mut input = Input::new("@bot claim and then @bot triage low. Thanks @bot", "bot");
    assert_eq!(input.parse_command(), own());
    assert_eq!(input.remaining(), " and then @bot triage low. Thanks @bot");
    assert_eq!(input.parse_command(), Command::Triage(Ok(TriageCommand { priority: Priority::Low })));
    assert_eq!(input.remaining(), ". Thanks @bot");
    assert!(input.parse_command().is_none());
    assert_eq!(input.remaining(), "@bot");
    assert!(input.parse_command().is_none());
    assert_eq!(input.remaining(), "@bot");
}

#[test]
fn malformed_command_leaves_the_cursor_at_the_mention() {
    let mut input = Input::new("hi @bot assign", "bot");
    let found = input.parse_command();
    assert!(found.is_err());
    assert_eq!(found, assign_err("hi @bot assign", 14, ErrorKind::NoUser));
    assert_eq!(input.parsed(), 3);
    assert_eq!(input.remaining(), "@bot assign");
}

#[test]
fn unclaimed_mention_leaves_the_cursor_at_the_mention() {
    let mut input = Input::new("x @bot hello", "bot");
    let found = input.parse_command();
    assert!(found.is_none());
    assert!(found.is_ok());
    assert!(!found.is_err());
    assert_eq!(input.parsed(), 2);
}

#[test]
fn punctuation_behind_the_mention_is_no_keyword() {
    let mut input = Input::new("@bot, claim", "bot");
    assert!(input.parse_command().is_none());
    let mut input = Input::new("@bot: claim", "bot");
    assert!(input.parse_command().is_none());
}

#[test]
fn mention_in_inline_code_is_no_command() {
    let mut input = Input::new("write `@bot claim` to claim", "bot");
    assert!(input.parse_command().is_none());
    assert_eq!(input.parsed(), 7);
}

#[test]
fn mention_in_unterminated_fence_is_no_command() {
    let mut input = Input::new("see:\n```\n@bot claim\n", "bot");
    assert!(input.parse_command().is_none());
    assert_eq!(input.parsed(), 9);
}

#[test]
fn malformed_command_in_code_is_no_command() {
    let mut input = Input::new("`@bot assign`", "bot");
    assert!(input.parse_command().is_none());
    assert_eq!(input.parsed(), 1);
}

#[test]
fn mention_that_touches_code_is_a_command() {
    let mut input = Input::new("`code`@bot claim", "bot");
    assert_eq!(input.parse_command(), own());
    let mut input = Input::new("@bot`code` claim", "bot");
    assert!(input.try_parse_command().is_err());
}

#[test]
fn mention_behind_code_is_a_command() {
    let mut input = Input::new("`@bot triage low` but @bot claim", "bot");
    assert!(input.parse_command().is_none());
    assert_eq!(input.parsed(), 1);
}

#[test]
fn text_before_the_mention_is_not_lexed() {
    let mut input = Input::new("\"never closed @bot claim", "bot");
    assert_eq!(input.parse_command(), own());
}

#[test]
fn text_behind_a_closed_command_is_not_lexed() {
    let mut input = Input::new("@bot modify labels: +bug. \"never closed", "bot");
    assert_eq!(input.parse_command(), Command::Relabel(Ok(RelabelCommand(vec![LabelDelta::Add(Label("bug".to_owned()))]))));
    assert_eq!(input.remaining(), " \"never closed");
    let mut input = Input::new("@bot claim \"never closed", "bot");
    assert_eq!(input.parse_command(), own());
    assert_eq!(input.remaining(), " \"never closed");
}

#[test]
fn try_parse_reports_what_parse_reports() {
    let mut input = Input::new("hey @bot assign @alice, thanks", "bot");
    let found = input.try_parse_command().unwrap();
    assert_eq!(found, Command::Assign(Ok(AssignCommand::User { username: "alice".to_owned() })));
    assert_eq!(input.parsed(), 22);
    let mut input = Input::new("nothing", "bot");
    assert!(input.try_parse_command().unwrap().is_none());
}

#[test]
fn mention_that_is_part_of_a_word_is_a_violation() {
    let mut input = Input::new("ask @bot2 claim", "bot");
    assert_eq!(input.try_parse_command().unwrap_err(), Violation::Mention);
    assert_eq!(input.parsed(), 4);
    let mut input = Input::new("@bot-helper claim", "bot");
    assert_eq!(input.try_parse_command().unwrap_err(), Violation::Mention);
}

#[test]
fn bot_name_that_is_no_word_is_a_violation() {
    let mut input = Input::new("@my.bot claim", "my.bot");
    assert_eq!(input.try_parse_command().unwrap_err(), Violation::Mention);
    let mut input = Input::new("@my bot claim", "my bot");
    assert_eq!(input.try_parse_command().unwrap_err(), Violation::Mention);
}

#[test]
fn overlapping_grammars_are_a_violation() {
    let mut input = Input::with_grammars("@bot claim", "bot", vec![Grammar::Assign, Grammar::Assign]);
    assert_eq!(input.try_parse_command().unwrap_err(), Violation::Ambiguous);
    assert_eq!(input.parsed(), 0);
    let mut input = Input::with_grammars(
        "so @bot assign",
        "bot",
        vec![Grammar::Triage, Grammar::Assign, Grammar::Relabel, Grammar::Assign],
    );
    assert_eq!(input.try_parse_command().unwrap_err(), Violation::Ambiguous);
    assert_eq!(input.parsed(), 3);
}

#[test]
fn overlapping_grammars_are_a_violation_in_code_too() {
    let mut input =
        Input::with_grammars("`@bot claim `", "bot", vec![Grammar::Assign, Grammar::Assign]);
    assert_eq!(input.try_parse_command().unwrap_err(), Violation::Ambiguous);
    let mut input = Input::with_grammars("`@bot claim `", "bot", vec![Grammar::Assign]);
    assert!(input.try_parse_command().unwrap().is_none());
}

#[test]
fn overlapping_grammars_that_both_decline_are_fine() {
    let mut input =
        Input::with_grammars("@bot triage low", "bot", vec![Grammar::Assign, Grammar::Assign]);
    assert!(input.try_parse_command().unwrap().is_none());
    let mut input = Input::with_grammars(
        "@bot triage low",
        "bot",
        vec![Grammar::Assign, Grammar::Triage, Grammar::Assign],
    );
    assert_eq!(input.try_parse_command().unwrap(), Command::Triage(Ok(TriageCommand { priority: Priority::Low })));
}

#[test]
fn only_registered_grammars_are_tried() {
    let mut input = Input::with_grammars("@bot claim", "bot", vec![Grammar::Triage]);
    assert!(input.parse_command().is_none());
    let mut input = Input::with_grammars("@bot claim", "bot", vec![]);
    assert!(input.parse_command().is_none());
    assert_eq!(input.parsed(), 0);
}

#[test]
fn built_in_grammars_never_overlap() {
    for text in [
        "@bot claim",
        "@bot release",
        "@bot unassign",
        "@bot assign",
        "@bot assign @x",
        "@bot modify labels: a",
        "@bot modify",
        "@bot modify \"",
        "@bot triage",
        "@bot triage low",
        "@bot \"",
        "@bot",
    ] {
        let mut input = Input::new(text, "bot");
        assert!(input.try_parse_command().is_ok());
    }
}

#[test]
fn command_kinds() {
    assert!(own().is_ok());
    assert!(!own().is_err());
    assert!(!own().is_none());
    let e = assign_err("", 0, ErrorKind::NoUser);
    assert!(!e.is_ok());
    assert!(e.is_err());
    assert!(!e.is_none());
    let t =
        Command::Triage(Err(Error { input: "", position: 0, kind: ErrorKind::ExpectedPriority }));
    assert!(t.is_err());
    let r = Command::Relabel(Err(Error { input: "", position: 0, kind: ErrorKind::NoSeparator }));
    assert!(r.is_err());
    assert!(Command::Relabel(Ok(RelabelCommand(vec![]))).is_ok());
    assert!(Command::NoCommand.is_ok());
    assert!(Command::NoCommand.is_none());
}

#[test]
fn mention_is_case_sensitive() {
    let mut input = Input::new("@Bot claim", "bot");
    assert!(input.parse_command().is_none());
    assert_eq!(input.parsed(), 0);
}

#[test]
fn text_beyond_ascii_around_a_command() {
    let mut input = Input::new("h\u{e9} @bot claim \u{4e16}", "bot");
    assert_eq!(input.parse_command(), own());
    assert_eq!(input.remaining(), " \u{4e16}");
}

#[test]
fn text_before_the_mention_only_moves_the_offsets() {
    let mut plain = Input::new("@bot assign", "bot");
    assert_eq!(plain.parse_command(), assign_err("@bot assign", 11, ErrorKind::NoUser));
    assert_eq!(plain.parsed(), 0);
    let mut moved = Input::new("well, \"@bot assign", "bot");
    assert_eq!(
        moved.parse_command(),
        assign_err("well, \"@bot assign", 18, ErrorKind::NoUser)
    );
    assert_eq!(moved.parsed(), 7);
    let mut plain = Input::new("@bot modify labels: a, b. c", "bot");
    let found = plain.parse_command();
    assert_eq!(plain.parsed(), 25);
    let mut moved = Input::new("\u{fc}ber @bot modify labels: a, b. c", "bot");
    assert_eq!(moved.parse_command(), found);
    assert_eq!(moved.parsed(), 31);
    assert_eq!(moved.remaining(), " c");
}
