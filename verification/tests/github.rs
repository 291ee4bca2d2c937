use workbench::error::Error;
use workbench::github::{
    desk_failure, desk_result, desk_searches, org_logins, rate_usage, viewer_failure, Author, Commit, CommitNode,
    Commits, Count, DeskData, OrgNode, Organizations, PullRequest, RateLimit, Repository, SearchResult,
    StatusCheckRollup, Viewer2,
};

pub fn pr(id: &str, commits: Vec<CommitNode>) -> PullRequest {
    PullRequest {
        id: id.to_string(),
        number: 7,
        title: "Add the thing".to_string(),
        url: "https://github.com/acme/api/pull/7".to_string(),
        is_draft: false,
        additions: 1,
        deletions: 0,
        changed_files: 1,
        created_at: "2024-01-01T00:00:00Z".to_string(),
        updated_at: "2024-01-02T00:00:00Z".to_string(),
        review_decision: None,
        author: Some(Author { login: "octo".to_string(), avatar_url: None }),
        repository: Repository { name_with_owner: "acme/api".to_string() },
        comments: Count { total_count: 0 },
        commits: Commits { nodes: commits },
    }
}

fn node(oid: &str, state: Option<Option<&str>>) -> CommitNode {
    CommitNode {
        commit: Commit {
            oid: oid.to_string(),
            status_check_rollup: state.map(|s| StatusCheckRollup { state: s.map(str::to_string) }),
        },
    }
}

fn github_message(e: Error) -> String {
    match e {
        Error::GitHub(m) => m,
        _ => panic!("expected a GitHub error"),
    }
}

#[test]
fn the_head_commit_gives_oid_and_checks() {
    let p = pr("A", vec![node("abc", Some(Some("FAILURE")))]);
    assert_eq!(p.head_oid(), Some("abc"));
    assert_eq!(p.checks_state(), Some("FAILURE"));
    let p = pr("A", vec![node("abc", None)]);
    assert_eq!(p.checks_state(), None);
    let p = pr("A", vec![node("abc", Some(None))]);
    assert_eq!(p.checks_state(), None);
    let p = pr("A", vec![]);
    assert_eq!(p.head_oid(), None);
    assert_eq!(p.checks_state(), None);
}

#[test]
fn a_saml_403_is_explained() {
    let m = github_message(viewer_failure(403, "403 Forbidden", "Resource protected by organization SAML enforcement"));
    assert!(m.starts_with("this organisation requires SSO"));
    let m = github_message(viewer_failure(403, "403 Forbidden", "nope"));
    assert_eq!(m, "403 from GitHub — nope");
    let m = github_message(viewer_failure(500, "500 Internal Server Error", "oops"));
    assert_eq!(m, "500 Internal Server Error — oops");
}

#[test]
fn a_rejected_token_is_said_plainly() {
    let m = github_message(desk_failure(401, "401 Unauthorized", "Bad credentials"));
    assert_eq!(m, "your token was rejected — sign out and reconnect");
    let m = github_message(desk_failure(502, "502 Bad Gateway", ""));
    assert_eq!(m, "502 Bad Gateway — ");
}

fn desk_data() -> DeskData {
    DeskData {
        viewer: Viewer2 {
            organizations: Organizations {
                nodes: vec![OrgNode { login: "acme".to_string() }, OrgNode { login: "umbrella".to_string() }],
            },
        },
        mine: SearchResult { nodes: vec![] },
        reviewing: SearchResult { nodes: vec![] },
        mentioned: SearchResult { nodes: vec![] },
        involved: SearchResult { nodes: vec![] },
        rate_limit: Some(RateLimit { cost: 1, remaining: 4999 }),
    }
}

#[test]
fn partial_data_beats_nothing() {
    let errors = vec!["org one blocks".to_string(), "org two blocks".to_string()];
    assert!(desk_result(Some(desk_data()), &errors).is_ok());
    match desk_result(None, &errors) {
        Err(e) => assert_eq!(github_message(e), "org one blocks; org two blocks"),
        Ok(_) => panic!("no data is an error"),
    }
}

#[test]
fn the_desk_searches() {
    let (mine, reviewing, mentioned, involved) = desk_searches("octo");
    assert_eq!(mine, "is:open is:pr archived:false author:octo");
    assert_eq!(reviewing, "is:open is:pr archived:false review-requested:octo");
    assert_eq!(mentioned, "is:open is:pr archived:false mentions:octo");
    assert_eq!(involved, "is:open is:pr archived:false involves:octo -author:octo");
}

#[test]
fn rate_and_orgs() {
    let d = desk_data();
    assert_eq!(rate_usage(&d.rate_limit), (1, 4999));
    assert_eq!(rate_usage(&None), (0, 0));
    assert_eq!(org_logins(&d), vec!["acme".to_string(), "umbrella".to_string()]);
}
