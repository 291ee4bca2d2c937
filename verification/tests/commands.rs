use workbench::commands::{check_external, desk, search_query, view, visible_orgs};
use workbench::db::{Note, PullRequestRow};
use workbench::error::Error;

fn row(id: &str, lane: &str) -> PullRequestRow {
    PullRequestRow {
        id: id.to_string(),
        repo: "acme/api".to_string(),
        number: 1,
        title: "t".to_string(),
        url: "https://github.com/acme/api/pull/1".to_string(),
        author: None,
        author_avatar: None,
        is_draft: false,
        additions: 0,
        deletions: 0,
        changed_files: 0,
        comment_count: 0,
        review_decision: None,
        checks_state: None,
        is_author: false,
        is_reviewer: false,
        is_mentioned: false,
        updated_at: 0,
        lane: lane.to_string(),
        unread: vec![],
    }
}

#[test]
fn the_desk_has_three_lanes() {
    let rows = vec![row("A", "yours"), row("B", "needs_you"), row("C", "watching"), row("D", "needs_you")];
    let v = desk(rows, Some(42), &Some("acme,umbrella".to_string()), &Some("Ov23li".to_string()), "https://github.com");
    let ids = |rs: &Vec<PullRequestRow>| rs.iter().map(|r| r.id.clone()).collect::<Vec<_>>();
    assert_eq!(ids(&v.needs_you), vec!["B", "D"]);
    assert_eq!(ids(&v.yours), vec!["A"]);
    assert_eq!(ids(&v.watching), vec!["C"]);
    assert_eq!(v.last_synced_at, Some(42));
    assert_eq!(v.visible_orgs, vec!["acme", "umbrella"]);
    assert_eq!(
        v.org_access_url.as_deref(),
        Some("https://github.com/settings/connections/applications/Ov23li")
    );
    let v = desk(vec![], None, &Some(String::new()), &None, "https://github.com");
    assert!(v.visible_orgs.is_empty());
    assert_eq!(v.org_access_url, None);
}

#[test]
fn organisations_split_on_commas() {
    assert_eq!(visible_orgs(&None), Vec::<String>::new());
    assert_eq!(visible_orgs(&Some("a,,b,".to_string())), vec!["a", "", "b", ""]);
    assert_eq!(visible_orgs(&Some("solo".to_string())), vec!["solo"]);
}

#[test]
fn a_note_with_its_footer() {
    let n = Note { day: "2000-01-01".to_string(), body: "- [x] a\n- [ ] b".to_string(), updated_at: 9 };
    let v = view(n, (Some("1999-12-31".to_string()), None), "2000-01-01");
    assert!(v.is_today);
    assert_eq!((v.done, v.open), (1, 1));
    assert_eq!(v.previous_day.as_deref(), Some("1999-12-31"));
    assert_eq!(v.next_day, None);
    assert_eq!(v.updated_at, 9);
}

#[test]
fn blank_searches_find_nothing() {
    assert_eq!(search_query("  \t"), None);
    assert_eq!(search_query("  release ").as_deref(), Some("release"));
}

#[test]
fn only_https_is_opened() {
    assert!(check_external("https://github.com/acme/api/pull/1").is_ok());
    match check_external("file:///etc/passwd") {
        Err(Error::Message(m)) => assert_eq!(m, "refusing to open a non-https URL"),
        _ => panic!("refused"),
    }
}
