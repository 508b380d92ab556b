//! The interactive session: which step follows each answer of the user, and
//! the texts shown about a branch.
use vstd::prelude::*;
use vstd::string::{StrSliceExecFns, StringExecFns};
use crate::branch::{branch_views, Branch, BranchView};
use crate::label::{default_branch_name, is_default_branch};
use crate::time::time_text;

verus! {

/// Where the session stands.
#[derive(Clone, Copy, Debug, PartialEq, Eq, Structural)]
pub enum Phase {
    /// The branches are about to be enumerated.
    Listing,
    /// The branches are offered for selection.
    Choosing,
    /// The user is asked whether to delete the branch at `index`.
    Confirming { index: usize },
    /// The session is over.
    Finished,
}

/// What the user or the repository reported.
#[derive(Clone, Copy, Debug, PartialEq, Eq, Structural)]
pub enum Event {
    /// The branches were enumerated afresh.
    Listed,
    /// The user picked the branch at an index, or cancelled (`None`).
    Picked { choice: Option<usize> },
    /// The user answered the deletion question.
    Answered { confirmed: bool },
}

/// What is to be done next.
#[derive(Clone, Copy, Debug, PartialEq, Eq, Structural)]
pub enum Action {
    /// Say that there are no local branches, then enumerate again.
    ReportEmpty,
    /// Offer the branches for selection.
    OfferChoices,
    /// Say that the default or the checked-out branch cannot be deleted,
    /// then enumerate again.
    RefuseProtected { index: usize },
    /// Show the branch's last commit and ask whether to delete it.
    AskToDelete { index: usize },
    /// Delete the branch, show how to restore it, then enumerate again.
    DeleteBranch { index: usize },
    /// Say that the branch was kept, then enumerate again.
    ReportKept { index: usize },
    /// Say that nothing was selected, and end the session successfully.
    ReportCancelled,
    /// The event does not belong to this phase: nothing to do.
    Ignore,
}

/// A branch that this tool refuses to delete: the default branch or the
/// checked-out one.
pub open spec fn protected(b: BranchView) -> bool {
    b.head || b.name == default_branch_name()
}

/// The phase and action that follow `event` in `phase`, over the branches
/// of the latest enumeration.
pub open spec fn next(phase: Phase, branches: Seq<BranchView>, event: Event) -> (Phase, Action) {
    match (phase, event) {
        (Phase::Listing, Event::Listed) => if branches.len() == 0 {
            (Phase::Listing, Action::ReportEmpty)
        } else {
            (Phase::Choosing, Action::OfferChoices)
        },
        (Phase::Choosing, Event::Picked { choice: None }) => (Phase::Finished, Action::ReportCancelled),
        (Phase::Choosing, Event::Picked { choice: Some(i) }) => if i >= branches.len() {
            (Phase::Choosing, Action::OfferChoices)
        } else if protected(branches[i as int]) {
            (Phase::Listing, Action::RefuseProtected { index: i })
        } else {
            (Phase::Confirming { index: i }, Action::AskToDelete { index: i })
        },
        (Phase::Confirming { index: i }, Event::Answered { confirmed }) => if i >= branches.len()
            || protected(branches[i as int]) {
            (Phase::Listing, Action::Ignore)
        } else if confirmed {
            (Phase::Listing, Action::DeleteBranch { index: i })
        } else {
            (Phase::Listing, Action::ReportKept { index: i })
        },
        _ => (phase, Action::Ignore),
    }
}

/// Whether the branch may not be deleted.
pub fn is_protected(branch: &Branch) -> (r: bool)
    ensures
        r == protected(branch@),
{
    branch.is_head() || is_default_branch(branch.name.as_str())
}

/// Advances the session by one event.
pub fn step(phase: Phase, branches: &Vec<Branch>, event: Event) -> (r: (Phase, Action))
    ensures
        r == next(phase, branch_views(branches@), event),
{
    let ghost views = branch_views(branches@);
    match (phase, event) {
        (Phase::Listing, Event::Listed) => if branches.len() == 0 {
            (Phase::Listing, Action::ReportEmpty)
        } else {
            (Phase::Choosing, Action::OfferChoices)
        },
        (Phase::Choosing, Event::Picked { choice: None }) => (Phase::Finished, Action::ReportCancelled),
        (Phase::Choosing, Event::Picked { choice: Some(i) }) => if i >= branches.len() {
            (Phase::Choosing, Action::OfferChoices)
        } else if is_protected(&branches[i]) {
            assert(views[i as int] == branches@[i as int]@);
            (Phase::Listing, Action::RefuseProtected { index: i })
        } else {
            assert(views[i as int] == branches@[i as int]@);
            (Phase::Confirming { index: i }, Action::AskToDelete { index: i })
        },
        (Phase::Confirming { index: i }, Event::Answered { confirmed }) => if i >= branches.len()
            || is_protected(&branches[i]) {
            (Phase::Listing, Action::Ignore)
        } else {
            assert(views[i as int] == branches@[i as int]@);
            if confirmed {
                (Phase::Listing, Action::DeleteBranch { index: i })
            } else {
                (Phase::Listing, Action::ReportKept { index: i })
            }
        },
        _ => (phase, Action::Ignore),
    }
}

/// Picking the default or the checked-out branch is refused at once: no
/// event ever leads to the deletion question or to a deletion of a protected
/// branch, nor of an index outside the listing.
pub proof fn law_protected_never_reach_deletion(phase: Phase, branches: Seq<BranchView>, event: Event)
    ensures
        next(phase, branches, event).1 matches Action::AskToDelete { index } ==> index < branches.len()
            && !protected(branches[index as int]),
        next(phase, branches, event).1 matches Action::DeleteBranch { index } ==> index < branches.len()
            && !protected(branches[index as int]),
        event matches Event::Picked { choice: Some(i) } ==> (phase == Phase::Choosing && i
            < branches.len() && protected(branches[i as int])) ==> next(phase, branches, event) == (
            Phase::Listing,
            Action::RefuseProtected { index: i },
        ),
{
}

/// Declining the deletion question deletes nothing: the session goes back to
/// enumerating an unchanged repository.
pub proof fn law_declining_deletes_nothing(phase: Phase, branches: Seq<BranchView>)
    ensures
        !(next(phase, branches, Event::Answered { confirmed: false }).1 is DeleteBranch),
        phase is Confirming ==> next(phase, branches, Event::Answered { confirmed: false }).0
            == Phase::Listing,
{
}

/// The first seven characters of a commit id, or all of a shorter one.
pub open spec fn abbreviated(id: Seq<char>) -> Seq<char> {
    if id.len() <= 7 {
        id
    } else {
        id.take(7)
    }
}

/// The line that describes a branch's last commit, given the commit time's
/// calendar text.
pub open spec fn summary_text(b: BranchView, time: Seq<char>) -> Seq<char> {
    "Last commit: "@ + abbreviated(b.commit_id) + " - "@ + time + " - "@ + b.message
}

/// The command that recreates a deleted branch at its former tip commit.
pub open spec fn recovery_text(b: BranchView) -> Seq<char> {
    "git checkout -b "@ + b.name + " "@ + b.commit_id
}

/// The abbreviated id of a commit.
pub fn abbreviate(id: &str) -> (r: String)
    ensures
        r@ == abbreviated(id@),
{
    let n = id.unicode_len();
    let end: usize = if n < 7 { n } else { 7 };
    String::from_str(id.substring_char(0, end))
}

/// The line describing the branch's last commit, with `time` as the commit
/// time's text.
pub fn summary_with_time(branch: &Branch, time: &str) -> (r: String)
    ensures
        r@ == summary_text(branch@, time@),
{
    let id = abbreviate(branch.last_commit.id.as_str());
    let r = String::from_str("Last commit: ").concat(id.as_str()).concat(" - ").concat(time).concat(
        " - ",
    ).concat(branch.last_commit.message.as_str());
    assert(r@ =~= summary_text(branch@, time@));
    r
}

/// The line describing the branch's last commit, or `None` where its time
/// lies outside the calendar.
pub fn commit_summary(branch: &Branch) -> (r: Option<String>)
    ensures
        match r {
            Some(s) => exists|t: Seq<char>| time_text(branch@.time) == Some(t) && s@ == summary_text(branch@, t),
            None => time_text(branch@.time) is None,
        },
{
    match branch.last_commit.time.to_text() {
        Some(t) => Some(summary_with_time(branch, t.as_str())),
        None => None,
    }
}

/// The command that would recreate the branch where it pointed.
pub fn recovery_command(branch: &Branch) -> (r: String)
    ensures
        r@ == recovery_text(branch@),
{
    let r = String::from_str("git checkout -b ").concat(branch.name.as_str()).concat(" ").concat(
        branch.last_commit.id.as_str(),
    );
    assert(r@ =~= recovery_text(branch@));
    r
}

} // verus!
