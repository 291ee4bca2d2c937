use workbench::db::PrInput;
use workbench::github::{
    Author, Commit, CommitNode, Commits, Count, DeskData, Organizations, PullRequest, Repository, SearchResult,
    StatusCheckRollup, Viewer2,
};
use workbench::sync::{collect, epoch, is_first_sync, merged_pull_requests, to_input};

fn pr(id: &str) -> PullRequest {
    PullRequest {
        id: id.to_string(),
        number: 7,
        title: "Add the thing".to_string(),
        url: "https://github.com/acme/api/pull/7".to_string(),
        is_draft: true,
        additions: 5,
        deletions: 4,
        changed_files: 3,
        created_at: "2024-01-01T00:00:00Z".to_string(),
        updated_at: "2024-01-01T01:00:00+01:00".to_string(),
        review_decision: Some("APPROVED".to_string()),
        author: Some(Author { login: "octo".to_string(), avatar_url: Some("https://a/o.png".to_string()) }),
        repository: Repository { name_with_owner: "acme/api".to_string() },
        comments: Count { total_count: 2 },
        commits: Commits {
            nodes: vec![CommitNode {
                commit: Commit {
                    oid: "abc".to_string(),
                    status_check_rollup: Some(StatusCheckRollup { state: Some("SUCCESS".to_string()) }),
                },
            }],
        },
    }
}

#[test]
fn timestamps_are_read_as_seconds() {
    assert_eq!(epoch("2024-01-01T00:00:00Z"), 1704067200);
    assert_eq!(epoch("2024-01-01T01:00:00+01:00"), 1704067200);
    assert_eq!(epoch("not a time"), 0);
    assert_eq!(epoch(""), 0);
}

#[test]
fn a_pull_request_becomes_an_input() {
    let i = to_input(&pr("A"), false, true, false);
    assert_eq!(i.id, "A");
    assert_eq!(i.repo, "acme/api");
    assert_eq!(i.author.as_deref(), Some("octo"));
    assert_eq!(i.author_avatar.as_deref(), Some("https://a/o.png"));
    assert_eq!(i.checks_state.as_deref(), Some("SUCCESS"));
    assert_eq!(i.head_oid.as_deref(), Some("abc"));
    assert_eq!(i.comment_count, 2);
    assert_eq!((i.additions, i.deletions, i.changed_files, i.is_draft), (5, 4, 3, true));
    assert_eq!((i.is_author, i.is_reviewer, i.is_mentioned), (false, true, false));
    assert_eq!((i.created_at, i.updated_at), (1704067200, 1704067200));
}

#[test]
fn a_pull_request_in_several_sets_is_merged() {
    let mut map: Vec<PrInput> = Vec::new();
    collect(&mut map, vec![pr("A"), pr("B")], true, false, false);
    collect(&mut map, vec![pr("B"), pr("C"), pr("C")], false, false, true);
    assert_eq!(map.len(), 3);
    let flags: Vec<(String, bool, bool, bool)> =
        map.iter().map(|p| (p.id.clone(), p.is_author, p.is_reviewer, p.is_mentioned)).collect();
    assert_eq!(
        flags,
        vec![
            ("A".to_string(), true, false, false),
            ("B".to_string(), true, false, true),
            ("C".to_string(), false, false, true),
        ]
    );
}

#[test]
fn the_desk_merges_all_four_searches() {
    let data = DeskData {
        viewer: Viewer2 { organizations: Organizations { nodes: vec![] } },
        mine: SearchResult { nodes: vec![pr("A")] },
        reviewing: SearchResult { nodes: vec![pr("B"), pr("A")] },
        mentioned: SearchResult { nodes: vec![pr("B")] },
        involved: SearchResult { nodes: vec![pr("D")] },
        rate_limit: None,
    };
    let merged = merged_pull_requests(data);
    let flags: Vec<(String, bool, bool, bool)> =
        merged.iter().map(|p| (p.id.clone(), p.is_author, p.is_reviewer, p.is_mentioned)).collect();
    assert_eq!(
        flags,
        vec![
            ("A".to_string(), true, true, false),
            ("B".to_string(), false, true, true),
            ("D".to_string(), false, false, false),
        ]
    );
}

#[test]
fn only_the_first_sync_is_silenced() {
    assert!(is_first_sync(None));
    assert!(!is_first_sync(Some(1)));
}
