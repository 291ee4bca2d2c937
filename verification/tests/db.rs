use workbench::db::{
    lane_for, list_pull_requests, needs_you_count, now_secs, secs_from, retire_missing, transitions, unread, EventRecord, PrInput,
    PrState, PullRequestRecord, SyncedRow,
};

fn input(id: &str) -> PrInput {
    PrInput {
        id: id.to_string(),
        repo: "acme/api".to_string(),
        number: 412,
        title: "Fix the flaky test".to_string(),
        url: "https://github.com/acme/api/pull/412".to_string(),
        author: Some("octo".to_string()),
        author_avatar: None,
        is_draft: false,
        additions: 10,
        deletions: 2,
        changed_files: 1,
        comment_count: 3,
        review_decision: Some("REVIEW_REQUIRED".to_string()),
        checks_state: Some("PENDING".to_string()),
        head_oid: Some("abc".to_string()),
        is_author: false,
        is_reviewer: false,
        is_mentioned: false,
        created_at: 1,
        updated_at: 2,
    }
}

fn state_of(pr: &PrInput) -> PrState {
    PrState {
        review_decision: pr.review_decision.clone(),
        checks_state: pr.checks_state.clone(),
        head_oid: pr.head_oid.clone(),
        comment_count: pr.comment_count,
        is_reviewer: pr.is_reviewer,
    }
}

fn kinds(pr_prev: &Option<PrState>, pr: &PrInput) -> Vec<(String, Option<String>, Option<String>)> {
    transitions(pr_prev, pr)
        .into_iter()
        .map(|t| (t.kind, t.from_state, t.to_state))
        .collect()
}

#[test]
fn a_first_sighting_is_silent_unless_it_wants_you() {
    let pr = input("PR_1");
    assert!(transitions(&None, &pr).is_empty());
    let mut wanted = input("PR_1");
    wanted.is_reviewer = true;
    assert_eq!(
        kinds(&None, &wanted),
        vec![("review_requested".to_string(), None, Some("acme/api".to_string()))]
    );
}

#[test]
fn writing_the_same_pull_request_twice_records_nothing() {
    let mut pr = input("PR_1");
    pr.is_reviewer = true;
    assert!(transitions(&Some(state_of(&pr)), &pr).is_empty());
}

#[test]
fn every_noticed_change_is_recorded_in_order() {
    let before = input("PR_1");
    let mut after = input("PR_1");
    after.is_reviewer = true;
    after.review_decision = Some("APPROVED".to_string());
    after.checks_state = Some("FAILURE".to_string());
    after.head_oid = Some("def".to_string());
    after.comment_count = 5;
    after.title = "renamed".to_string();
    assert_eq!(
        kinds(&Some(state_of(&before)), &after),
        vec![
            ("review_requested".to_string(), None, Some("acme/api".to_string())),
            (
                "review_decision".to_string(),
                Some("REVIEW_REQUIRED".to_string()),
                Some("APPROVED".to_string())
            ),
            ("checks".to_string(), Some("PENDING".to_string()), Some("FAILURE".to_string())),
            ("new_commits".to_string(), Some("abc".to_string()), Some("def".to_string())),
            ("new_comments".to_string(), Some("3".to_string()), Some("5".to_string())),
        ]
    );
}

#[test]
fn fewer_comments_and_a_lost_review_request_stay_silent() {
    let mut before = input("PR_1");
    before.is_reviewer = true;
    before.comment_count = 9;
    let after = input("PR_1");
    assert!(transitions(&Some(state_of(&before)), &after).is_empty());
}

#[test]
fn checks_disappearing_is_a_transition() {
    let before = input("PR_1");
    let mut after = input("PR_1");
    after.checks_state = None;
    assert_eq!(
        kinds(&Some(state_of(&before)), &after),
        vec![("checks".to_string(), Some("PENDING".to_string()), None)]
    );
}

#[test]
fn lanes_follow_the_relations() {
    assert_eq!(lane_for(true, true, true), "yours");
    assert_eq!(lane_for(false, true, false), "needs_you");
    assert_eq!(lane_for(false, false, true), "needs_you");
    assert_eq!(lane_for(false, false, false), "watching");
}

#[test]
fn the_badge_counts_what_waits_on_you() {
    let rels = vec![(true, true, false), (false, true, false), (false, false, true), (false, false, false)];
    assert_eq!(needs_you_count(&rels), 2);
    assert_eq!(needs_you_count(&vec![]), 0);
}

#[test]
fn pull_requests_missing_from_a_sync_are_retired() {
    let rows = vec![
        SyncedRow { id: "A".into(), repo: "acme/a".into(), account_id: 1, last_synced_at: 100 },
        SyncedRow { id: "B".into(), repo: "acme/b".into(), account_id: 1, last_synced_at: 200 },
        SyncedRow { id: "C".into(), repo: "acme/c".into(), account_id: 2, last_synced_at: 100 },
        SyncedRow { id: "D".into(), repo: "acme/d".into(), account_id: 1, last_synced_at: 199 },
    ];
    assert_eq!(
        retire_missing(&rows, 1, 200),
        vec![("A".to_string(), "acme/a".to_string()), ("D".to_string(), "acme/d".to_string())]
    );
}

fn event(subject: &str, kind: &str, at: i64) -> EventRecord {
    EventRecord {
        subject_type: "pull_request".to_string(),
        subject_id: subject.to_string(),
        kind: kind.to_string(),
        occurred_at: at,
    }
}

#[test]
fn unread_lists_at_most_six_newer_events() {
    let mut events: Vec<EventRecord> = (0..9).rev().map(|i| event("PR_1", &format!("k{i}"), 100 + i)).collect();
    events.push(EventRecord {
        subject_type: "app".to_string(),
        subject_id: "PR_1".to_string(),
        kind: "connected".to_string(),
        occurred_at: 500,
    });
    events.push(event("PR_2", "checks", 300));
    let got = unread(&events, &"PR_1".to_string(), 101);
    assert_eq!(got, vec!["k8", "k7", "k6", "k5", "k4", "k3"]);
    let got = unread(&events, &"PR_1".to_string(), 105);
    assert_eq!(got, vec!["k8", "k7", "k6"]);
}

#[test]
fn the_desk_list_carries_lanes_and_markers() {
    let rec = |id: &str, a: bool, r: bool, m: bool, opened: Option<i64>| PullRequestRecord {
        id: id.to_string(),
        repo: "acme/api".to_string(),
        number: 1,
        title: "t".to_string(),
        url: "https://github.com/acme/api/pull/1".to_string(),
        author: None,
        author_avatar: None,
        is_draft: false,
        additions: 0,
        deletions: 0,
        changed_files: 0,
        comment_count: 0,
        review_decision: None,
        checks_state: None,
        is_author: a,
        is_reviewer: r,
        is_mentioned: m,
        updated_at: 7,
        opened_at: opened,
    };
    let events = vec![event("X", "checks", 50), event("Y", "new_commits", 40), event("X", "new_comments", 10)];
    let rows = list_pull_requests(vec![rec("X", true, false, false, Some(20)), rec("Y", false, false, true, None)], &events);
    assert_eq!(rows.len(), 2);
    assert_eq!(rows[0].id, "X");
    assert_eq!(rows[0].lane, "yours");
    assert_eq!(rows[0].unread, vec!["checks"]);
    assert_eq!(rows[1].lane, "needs_you");
    assert_eq!(rows[1].unread, vec!["new_commits"]);
}

#[test]
fn opening_a_pull_request_clears_its_card_until_something_newer_happens() {
    let rec = |opened: Option<i64>| PullRequestRecord {
        id: "X".to_string(),
        repo: "acme/api".to_string(),
        number: 1,
        title: "t".to_string(),
        url: "https://github.com/acme/api/pull/1".to_string(),
        author: None,
        author_avatar: None,
        is_draft: false,
        additions: 0,
        deletions: 0,
        changed_files: 0,
        comment_count: 0,
        review_decision: None,
        checks_state: None,
        is_author: true,
        is_reviewer: false,
        is_mentioned: false,
        updated_at: 7,
        opened_at: opened,
    };
    let events = vec![event("X", "checks", 50), event("X", "new_comments", 10)];
    assert_eq!(list_pull_requests(vec![rec(None)], &events)[0].unread, vec!["checks", "new_comments"]);
    assert!(list_pull_requests(vec![rec(Some(50))], &events)[0].unread.is_empty());
    let later = vec![event("X", "approved", 60), event("X", "checks", 50)];
    assert_eq!(list_pull_requests(vec![rec(Some(50))], &later)[0].unread, vec!["approved"]);
}

#[test]
fn the_clock_never_reads_negative() {
    assert!(now_secs() > 0);
}

#[test]
fn a_clock_reading_becomes_unix_seconds() {
    assert_eq!(secs_from(Some(1_700_000_000)), 1_700_000_000);
    assert_eq!(secs_from(Some(0)), 0);
    assert_eq!(secs_from(None), 0, "a clock before the epoch reads as 0");
    assert_eq!(secs_from(Some(u64::MAX)), i64::MAX);
    assert_eq!(secs_from(Some(i64::MAX as u64)), i64::MAX);
}

#[test]
fn the_badge_is_the_needs_you_lane() {
    let rels = vec![(true, false, true), (false, true, true), (false, false, true), (false, false, false)];
    let in_lane = rels.iter().filter(|(a, r, m)| lane_for(*a, *r, *m) == "needs_you").count() as i64;
    assert_eq!(needs_you_count(&rels), in_lane);
}
