use branch_prune::branch::{list_branches, Branch, EncodingError, RawBranch};
use branch_prune::label::{is_default_branch, render_labels, style_of, LabelStyle};
use branch_prune::order::name_precedes;
use branch_prune::session::{
    abbreviate, commit_summary, is_protected, recovery_command, step, summary_with_time, Action,
    Event, Phase,
};
use branch_prune::time::CommitTime;

const ID_A: &str = "0123456789abcdef0123456789abcdef01234567";

fn raw(name: &str, head: bool) -> RawBranch {
    RawBranch {
        name: name.as_bytes().to_vec(),
        commit_id: ID_A.to_string(),
        message: format!("tip of {}", name).into_bytes(),
        time: CommitTime { seconds: 0, offset_minutes: 0 },
        head,
    }
}

fn names(branches: &[Branch]) -> Vec<String> {
    branches.iter().map(|b| b.name.clone()).collect()
}

fn scenario_repo() -> Vec<RawBranch> {
    vec![raw("master", false), raw("feature-x", true), raw("fix-y", false)]
}

fn green(s: &str) -> String {
    format!("\x1b[32m{}\x1b[0m", s)
}

fn index_of(branches: &[Branch], name: &str) -> usize {
    branches.iter().position(|b| b.name == name).unwrap()
}

#[test]
fn listing_is_sorted_by_name() {
    let raws = vec![raw("zeta", false), raw("alpha", false), raw("Beta", false), raw("al", false)];
    let listed = list_branches(&raws).unwrap();
    assert_eq!(names(&listed), vec!["Beta", "al", "alpha", "zeta"]);
}

#[test]
fn listing_orders_by_bytes_not_by_letters() {
    let raws = vec![raw("é", false), raw("z", false), raw("Z", false)];
    let listed = list_branches(&raws).unwrap();
    assert_eq!(names(&listed), vec!["Z", "z", "é"]);
}

#[test]
fn listing_keeps_commit_snapshot() {
    let mut r = raw("topic", false);
    r.time = CommitTime { seconds: 1_000, offset_minutes: -30 };
    let listed = list_branches(&vec![r]).unwrap();
    assert_eq!(listed[0].last_commit.id, ID_A);
    assert_eq!(listed[0].last_commit.message, "tip of topic");
    assert_eq!(listed[0].last_commit.time, CommitTime { seconds: 1_000, offset_minutes: -30 });
    assert!(!listed[0].is_head());
}

#[test]
fn invalid_name_is_an_encoding_error() {
    let mut bad = raw("x", false);
    bad.name = vec![0x66, 0xff, 0x66];
    let raws = vec![raw("ok", false), bad];
    assert_eq!(list_branches(&raws).err(), Some(EncodingError));
}

#[test]
fn invalid_message_is_an_encoding_error() {
    let mut bad = raw("x", false);
    bad.message = vec![0xc3];
    assert_eq!(list_branches(&vec![bad]).err(), Some(EncodingError));
}

#[test]
fn multibyte_names_decode() {
    let listed = list_branches(&vec![raw("fix-ü", false)]).unwrap();
    assert_eq!(listed[0].name, "fix-ü");
}

#[test]
fn name_order_is_str_order() {
    assert!(name_precedes("a", "b"));
    assert!(name_precedes("a", "a"));
    assert!(name_precedes("", "a"));
    assert!(!name_precedes("ab", "a"));
    assert!(name_precedes("feature-x", "fix-y"));
    assert!(!name_precedes("é", "z"));
}

#[test]
fn labels_mark_current_and_emphasize_default() {
    let listed = list_branches(&scenario_repo()).unwrap();
    assert_eq!(names(&listed), vec!["feature-x", "fix-y", "master"]);
    let labels = render_labels(&listed);
    assert_eq!(labels.len(), 3);
    assert!(labels[0] == "* feature-x" || labels[0] == format!("* {}", green("feature-x")));
    assert_eq!(labels[1], "fix-y");
    assert!(labels[2] == "master" || labels[2] == green("master"));
    assert_eq!(labels.iter().filter(|l| l.starts_with("* ")).count(), 1);
}

#[test]
fn label_styles_follow_branch_roles() {
    let listed = list_branches(&vec![raw("master", true), raw("dev", false)]).unwrap();
    assert_eq!(style_of(&listed[0]), LabelStyle::Plain);
    assert_eq!(style_of(&listed[1]), LabelStyle::Current);
    let listed = list_branches(&vec![raw("master", false)]).unwrap();
    assert_eq!(style_of(&listed[0]), LabelStyle::Default);
}

#[test]
fn default_branch_name_is_master() {
    assert!(is_default_branch("master"));
    assert!(!is_default_branch("maste"));
    assert!(!is_default_branch("master2"));
    assert!(!is_default_branch("main"));
}

#[test]
fn normalized_time_adds_offset_minutes() {
    let t = CommitTime { seconds: 0, offset_minutes: 60 };
    assert_eq!(t.local_seconds(), Some(3_600));
    let t = CommitTime { seconds: 1_700_000_000, offset_minutes: -330 };
    assert_eq!(t.local_seconds(), Some(1_700_000_000 - 19_800));
    let t = CommitTime { seconds: i64::MAX, offset_minutes: 1 };
    assert_eq!(t.local_seconds(), None);
}

#[test]
fn normalized_time_renders_as_calendar_text() {
    let t = CommitTime { seconds: 0, offset_minutes: 60 };
    assert_eq!(t.to_text(), Some("1970-01-01 01:00:00".to_string()));
    let t = CommitTime { seconds: 1_700_000_000, offset_minutes: 120 };
    assert_eq!(t.to_text(), Some("2023-11-15 00:13:20".to_string()));
    let t = CommitTime { seconds: i64::MAX - 10, offset_minutes: 0 };
    assert_eq!(t.to_text(), None);
}

#[test]
fn normalized_time_is_deterministic() {
    let t = CommitTime { seconds: 86_400, offset_minutes: -60 };
    assert_eq!(t.to_text(), t.to_text());
    assert_eq!(t.to_text(), Some("1970-01-01 23:00:00".to_string()));
}

#[test]
fn selecting_protected_branches_is_refused() {
    let listed = list_branches(&scenario_repo()).unwrap();
    for name in ["master", "feature-x"] {
        let i = index_of(&listed, name);
        assert!(is_protected(&listed[i]));
        let (phase, action) = step(Phase::Choosing, &listed, Event::Picked { choice: Some(i) });
        assert_eq!(phase, Phase::Listing);
        assert_eq!(action, Action::RefuseProtected { index: i });
    }
}

#[test]
fn scenario_delete_fix_y() {
    let listed = list_branches(&scenario_repo()).unwrap();
    assert_eq!(step(Phase::Listing, &listed, Event::Listed), (Phase::Choosing, Action::OfferChoices));
    let i = index_of(&listed, "fix-y");
    let (phase, action) = step(Phase::Choosing, &listed, Event::Picked { choice: Some(i) });
    assert_eq!(phase, Phase::Confirming { index: i });
    assert_eq!(action, Action::AskToDelete { index: i });
    let (phase, action) = step(phase, &listed, Event::Answered { confirmed: true });
    assert_eq!(phase, Phase::Listing);
    assert_eq!(action, Action::DeleteBranch { index: i });
    let remaining: Vec<RawBranch> =
        scenario_repo().into_iter().filter(|r| r.name != b"fix-y".to_vec()).collect();
    let relisted = list_branches(&remaining).unwrap();
    assert_eq!(names(&relisted), vec!["feature-x", "master"]);
}

#[test]
fn deleting_leaves_other_records_unchanged() {
    let listed = list_branches(&scenario_repo()).unwrap();
    let remaining: Vec<RawBranch> =
        scenario_repo().into_iter().filter(|r| r.name != b"feature-x".to_vec()).collect();
    let relisted = list_branches(&remaining).unwrap();
    let before: Vec<&Branch> = listed.iter().filter(|b| b.name != "feature-x").collect();
    assert_eq!(before.len(), relisted.len());
    for (a, b) in before.iter().zip(relisted.iter()) {
        assert_eq!(a.name, b.name);
        assert_eq!(a.last_commit.id, b.last_commit.id);
        assert_eq!(a.last_commit.message, b.last_commit.message);
        assert_eq!(a.last_commit.time, b.last_commit.time);
        assert_eq!(a.is_head(), b.is_head());
    }
}

#[test]
fn declining_keeps_the_branch() {
    let listed = list_branches(&scenario_repo()).unwrap();
    let i = index_of(&listed, "fix-y");
    let (phase, action) = step(Phase::Confirming { index: i }, &listed, Event::Answered { confirmed: false });
    assert_eq!(phase, Phase::Listing);
    assert_eq!(action, Action::ReportKept { index: i });
    let relisted = list_branches(&scenario_repo()).unwrap();
    assert_eq!(names(&relisted), names(&listed));
}

#[test]
fn empty_repository_reports_no_branches() {
    let listed = list_branches(&Vec::new()).unwrap();
    assert!(listed.is_empty());
    assert!(render_labels(&listed).is_empty());
    assert_eq!(step(Phase::Listing, &listed, Event::Listed), (Phase::Listing, Action::ReportEmpty));
}

#[test]
fn cancelling_first_prompt_finishes() {
    let listed = list_branches(&scenario_repo()).unwrap();
    let (phase, action) = step(Phase::Choosing, &listed, Event::Picked { choice: None });
    assert_eq!(phase, Phase::Finished);
    assert_eq!(action, Action::ReportCancelled);
}

#[test]
fn out_of_place_events_are_ignored() {
    let listed = list_branches(&scenario_repo()).unwrap();
    assert_eq!(
        step(Phase::Listing, &listed, Event::Answered { confirmed: true }),
        (Phase::Listing, Action::Ignore)
    );
    assert_eq!(step(Phase::Finished, &listed, Event::Listed), (Phase::Finished, Action::Ignore));
    let master = index_of(&listed, "master");
    assert_eq!(
        step(Phase::Confirming { index: master }, &listed, Event::Answered { confirmed: true }),
        (Phase::Listing, Action::Ignore)
    );
    assert_eq!(
        step(Phase::Choosing, &listed, Event::Picked { choice: Some(7) }),
        (Phase::Choosing, Action::OfferChoices)
    );
}

#[test]
fn commit_summary_shows_short_id_time_and_message() {
    let mut r = raw("topic", false);
    r.time = CommitTime { seconds: 0, offset_minutes: 90 };
    let listed = list_branches(&vec![r]).unwrap();
    assert_eq!(
        commit_summary(&listed[0]),
        Some("Last commit: 0123456 - 1970-01-01 01:30:00 - tip of topic".to_string())
    );
    assert_eq!(
        summary_with_time(&listed[0], "then"),
        "Last commit: 0123456 - then - tip of topic"
    );
}

#[test]
fn commit_summary_out_of_calendar_is_none() {
    let mut r = raw("topic", false);
    r.time = CommitTime { seconds: i64::MAX, offset_minutes: 0 };
    let listed = list_branches(&vec![r]).unwrap();
    assert_eq!(commit_summary(&listed[0]), None);
}

#[test]
fn abbreviation_takes_seven_characters() {
    assert_eq!(abbreviate(ID_A), "0123456");
    assert_eq!(abbreviate("abc"), "abc");
    assert_eq!(abbreviate(""), "");
}

#[test]
fn recovery_command_recreates_branch() {
    let listed = list_branches(&vec![raw("fix-y", false)]).unwrap();
    assert_eq!(
        recovery_command(&listed[0]),
        format!("git checkout -b fix-y {}", ID_A)
    );
}
