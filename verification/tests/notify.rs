use workbench::db::PendingEvent;
use workbench::notify::{flush, notices, worth_telling};

fn ev(kind: &str, to: Option<&str>, pr: &str, is_author: bool, is_reviewer: bool) -> PendingEvent {
    PendingEvent {
        kind: kind.to_string(),
        to_state: to.map(str::to_string),
        repo: "acme/api".to_string(),
        number: 412,
        title: "Fix it".to_string(),
        author: Some("octo".to_string()),
        is_author,
        is_reviewer,
        pr_id: pr.to_string(),
    }
}

#[test]
fn only_four_things_interrupt_you() {
    let r = worth_telling(&ev("review_requested", None, "A", false, true)).unwrap();
    assert_eq!(r, (0, "Review requested".to_string(), "@octo — acme/api#412 — Fix it".to_string()));
    let r = worth_telling(&ev("checks", Some("FAILURE"), "A", true, false)).unwrap();
    assert_eq!(r, (1, "Checks failed".to_string(), "Your PR acme/api#412 — Fix it".to_string()));
    assert!(worth_telling(&ev("checks", Some("ERROR"), "A", true, false)).is_some());
    assert!(worth_telling(&ev("checks", Some("FAILURE"), "A", false, true)).is_none());
    assert!(worth_telling(&ev("checks", Some("SUCCESS"), "A", true, false)).is_none());
    let r = worth_telling(&ev("review_decision", Some("CHANGES_REQUESTED"), "A", true, false)).unwrap();
    assert_eq!(r.0, 2);
    assert_eq!(r.1, "Changes requested");
    let r = worth_telling(&ev("review_decision", Some("APPROVED"), "A", true, false)).unwrap();
    assert_eq!((r.0, r.1.as_str()), (3, "Approved"));
    assert!(worth_telling(&ev("review_decision", Some("REVIEW_REQUIRED"), "A", true, false)).is_none());
    let r = worth_telling(&ev("new_comments", Some("4"), "A", false, true)).unwrap();
    assert_eq!(r, (4, "New comments".to_string(), "acme/api#412 — Fix it".to_string()));
    assert!(worth_telling(&ev("new_comments", Some("4"), "A", false, false)).is_none());
    assert!(worth_telling(&ev("new_commits", Some("abc"), "A", true, true)).is_none());
    assert!(worth_telling(&ev("closed", None, "A", true, true)).is_none());
}

#[test]
fn a_review_request_without_an_author_names_only_the_pull_request() {
    let mut e = ev("review_requested", None, "A", false, true);
    e.author = None;
    e.number = -3;
    assert_eq!(worth_telling(&e).unwrap().2, "acme/api#-3 — Fix it");
}

#[test]
fn one_notification_per_pull_request_the_most_important_wins() {
    let pending = vec![
        ev("new_comments", Some("2"), "A", true, false),
        ev("checks", Some("FAILURE"), "A", true, false),
        ev("new_comments", Some("3"), "A", true, false),
        ev("new_commits", None, "B", true, false),
    ];
    let n = notices(&pending);
    assert_eq!(n.len(), 1);
    assert_eq!(n[0].pr_id, "A");
    assert_eq!(n[0].rank, 1);
    assert_eq!(n[0].title, "Checks failed");
}

#[test]
fn sent_in_order_of_importance() {
    let pending = vec![
        ev("new_comments", Some("2"), "A", true, false),
        ev("review_decision", Some("APPROVED"), "B", true, false),
        ev("review_requested", None, "C", false, true),
    ];
    let sent: Vec<String> = flush(&pending, true).into_iter().map(|(t, _)| t).collect();
    assert_eq!(sent, vec!["Review requested", "Approved", "New comments"]);
}

#[test]
fn past_three_one_summary() {
    let pending: Vec<PendingEvent> =
        ["A", "B", "C", "D"].iter().map(|p| ev("review_requested", None, p, false, true)).collect();
    assert_eq!(
        flush(&pending, true),
        vec![("Workbench".to_string(), "4 pull requests changed while you were away".to_string())]
    );
}

#[test]
fn silent_while_you_are_looking() {
    let pending = vec![ev("review_requested", None, "A", false, true)];
    assert!(flush(&pending, false).is_empty());
    assert!(flush(&vec![], true).is_empty());
    assert!(flush(&vec![ev("closed", None, "A", true, true)], true).is_empty());
}
