//! The decisions of the assignment handler.
//!
//! The handler reads an assignment command from a comment, decides what the
//! author of the comment may do, has it done, and reacts to what the issue
//! tracker answered. Here are the decisions, as functions of what the
//! handler knows at each point.

use vstd::prelude::*;
use vstd::string::*;
use crate::command::assign::AssignCommand;
use crate::command::Command;
use crate::error::Error;
use crate::text::same_text;

verus! {

/// What the handler has the issue tracker do.
#[derive(Clone, Debug, PartialEq, Eq)]
pub enum Action {
    /// Record `user` as the one who claimed the issue and assign it to them.
    Assign { user: String },
    /// Remove the assignees and the record.
    Release,
}

/// What the handler has the issue tracker do, the user as characters.
pub enum ActionView {
    Assign { user: Seq<char> },
    Release,
}

impl View for Action {
    type V = ActionView;

    open spec fn view(&self) -> ActionView {
        match self {
            Action::Assign { user } => ActionView::Assign { user: user@ },
            Action::Release => ActionView::Release,
        }
    }
}

/// Why a command is not carried out.
#[derive(Clone, Copy, Debug, PartialEq, Eq)]
pub enum Refusal {
    /// Someone who is no team member tried to assign another user.
    AssignOther,
    /// Nobody holds the issue that is to be released.
    NotAssigned,
    /// Someone who is no team member tried to release another user's issue.
    ReleaseOther,
}

impl Refusal {
    /// The message for the author of the comment.
    pub fn message(&self) -> (m: &'static str)
        ensures
            m@ == match self {
                Refusal::AssignOther => "Only Rust team members can assign other users"@,
                Refusal::NotAssigned => "Cannot release unassigned issue"@,
                Refusal::ReleaseOther => "Cannot release another user's assignment"@,
            },
    {
        match self {
            Refusal::AssignOther => "Only Rust team members can assign other users",
            Refusal::NotAssigned => "Cannot release unassigned issue",
            Refusal::ReleaseOther => "Cannot release another user's assignment",
        }
    }
}

/// The assignment command among the results of the dispatch: another
/// command, or none, is nothing for this handler, and an assignment command
/// that is malformed is its error.
pub fn select<'a>(found: Command<'a>) -> (r: Result<Option<AssignCommand>, Error<'a>>)
    ensures
        match found {
            Command::Assign(Ok(c)) => r matches Ok(Some(x)) && x == c,
            Command::Assign(Err(e)) => r matches Err(x) && x == e,
            _ => r matches Ok(None),
        },
{
    match found {
        Command::Assign(Ok(c)) => Ok(Some(c)),
        Command::Assign(Err(e)) => Err(e),
        _ => Ok(None),
    }
}

/// What `author` may do with the command.
///
/// Everyone may claim an issue for themselves, by `claim` or by naming
/// themselves. Only a team member may assign somebody else. An issue is
/// released by the one who holds it, or by a team member; `holder` is the one
/// on record.
pub open spec fn decision(
    cmd: AssignCommand,
    author: Seq<char>,
    team_member: bool,
    holder: Option<Seq<char>>,
) -> Result<ActionView, Refusal> {
    match cmd {
        AssignCommand::Own => Ok(ActionView::Assign { user: author }),
        AssignCommand::User { username } => {
            if team_member || username@ == author {
                Ok(ActionView::Assign { user: username@ })
            } else {
                Err(Refusal::AssignOther)
            }
        },
        AssignCommand::Release => match holder {
            None => Err(Refusal::NotAssigned),
            Some(h) => if team_member || h == author {
                Ok(ActionView::Release)
            } else {
                Err(Refusal::ReleaseOther)
            },
        },
    }
}

/// Decides what is done for the command `cmd` in a comment by `author`.
pub fn decide(cmd: AssignCommand, author: &str, team_member: bool, holder: Option<&str>) -> (r:
    Result<Action, Refusal>)
    ensures
        match decision(
            cmd,
            author@,
            team_member,
            match holder {
                Some(h) => Some(h@),
                None => None,
            },
        ) {
            Ok(a) => r matches Ok(x) && x@ == a,
            Err(e) => r == Err::<Action, Refusal>(e),
        },
{
    match cmd {
        AssignCommand::Own => Ok(Action::Assign { user: author.to_owned() }),
        AssignCommand::User { username } => {
            if team_member || same_text(username.as_str(), author) {
                Ok(Action::Assign { user: username })
            } else {
                Err(Refusal::AssignOther)
            }
        },
        AssignCommand::Release => match holder {
            None => Err(Refusal::NotAssigned),
            Some(h) => {
                if team_member || same_text(h, author) {
                    Ok(Action::Release)
                } else {
                    Err(Refusal::ReleaseOther)
                }
            },
        },
    }
}

/// What the issue tracker answered when it was asked to assign the issue.
#[derive(Clone, Copy, Debug, PartialEq, Eq)]
pub enum Assigned {
    Done,
    /// The user cannot be an assignee of this issue.
    InvalidAssignee,
    /// Anything else went wrong.
    Failed,
}

/// What the handler does after that answer.
#[derive(Clone, Debug, PartialEq, Eq)]
pub enum FollowUp {
    Finished,
    /// Assign the issue to the bot instead and put `note` into the issue.
    AssignBot { note: String },
    /// Hand the tracker's error on.
    Abort,
}

/// The note that says for whom the bot holds an issue.
pub open spec fn note_text(user: Seq<char>, comment_url: Seq<char>) -> Seq<char> {
    "This issue has been assigned to @"@ + user + " via [this comment]("@ + comment_url + ")."@
}

/// What the handler does after the issue tracker answered: a user who
/// cannot be an assignee is noted in the issue, which the bot then holds for
/// them.
pub fn follow_up(answer: Assigned, user: &str, comment_url: &str) -> (r: FollowUp)
    ensures
        match answer {
            Assigned::Done => r == FollowUp::Finished,
            Assigned::InvalidAssignee => r matches FollowUp::AssignBot { note } && note@
                == note_text(user@, comment_url@),
            Assigned::Failed => r == FollowUp::Abort,
        },
{
    match answer {
        Assigned::Done => FollowUp::Finished,
        Assigned::InvalidAssignee => {
            let mut note = "This issue has been assigned to @".to_owned();
            note.append(user);
            note.append(" via [this comment](");
            note.append(comment_url);
            note.append(").");
            FollowUp::AssignBot { note }
        },
        Assigned::Failed => FollowUp::Abort,
    }
}

} // verus!
