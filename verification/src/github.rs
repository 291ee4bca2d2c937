//! What GitHub sends back, and how the app reads it.
//!
//! The Desk is one GraphQL round trip: four aliased searches sharing a
//! fragment. The requests themselves are made by the application shell.

use vstd::prelude::*;
use crate::error::Error;
use crate::text::{contains, contains_text, decimal, decimal_string, join, joined, texts};

verus! {

pub struct Viewer {
    pub login: String,
    pub name: Option<String>,
    pub avatar_url: Option<String>,
}

pub struct Author {
    pub login: String,
    pub avatar_url: Option<String>,
}

pub struct Repository {
    pub name_with_owner: String,
}

pub struct Count {
    pub total_count: i64,
}

pub struct StatusCheckRollup {
    pub state: Option<String>,
}

pub struct Commit {
    pub oid: String,
    pub status_check_rollup: Option<StatusCheckRollup>,
}

pub struct CommitNode {
    pub commit: Commit,
}

pub struct Commits {
    pub nodes: Vec<CommitNode>,
}

pub struct PullRequest {
    pub id: String,
    pub number: i64,
    pub title: String,
    pub url: String,
    pub is_draft: bool,
    pub additions: i64,
    pub deletions: i64,
    pub changed_files: i64,
    pub created_at: String,
    pub updated_at: String,
    pub review_decision: Option<String>,
    pub author: Option<Author>,
    pub repository: Repository,
    pub comments: Count,
    pub commits: Commits,
}

/// The head commit's id: that of the last commit, the only one requested.
pub open spec fn head_oid_spec(pr: PullRequest) -> Option<Seq<char>> {
    if pr.commits.nodes@.len() > 0 {
        Some(pr.commits.nodes@[0].commit.oid@)
    } else {
        None
    }
}

/// The check rollup state of the head commit, when there is one.
pub open spec fn checks_state_spec(pr: PullRequest) -> Option<Seq<char>> {
    if pr.commits.nodes@.len() > 0 {
        match pr.commits.nodes@[0].commit.status_check_rollup {
            Some(r) => match r.state {
                Some(s) => Some(s@),
                None => None,
            },
            None => None,
        }
    } else {
        None
    }
}

impl PullRequest {
    pub fn head_oid(&self) -> (r: Option<&str>)
        ensures
            r matches Some(s) ==> head_oid_spec(*self) == Some(s@),
            r is None ==> head_oid_spec(*self) is None,
    {
        if self.commits.nodes.len() > 0 {
            Some(self.commits.nodes[0].commit.oid.as_str())
        } else {
            None
        }
    }

    /// SUCCESS | FAILURE | PENDING | ERROR | EXPECTED, or None when the repo
    /// has no checks configured at all.
    pub fn checks_state(&self) -> (r: Option<&str>)
        ensures
            r matches Some(s) ==> checks_state_spec(*self) == Some(s@),
            r is None ==> checks_state_spec(*self) is None,
    {
        if self.commits.nodes.len() > 0 {
            match &self.commits.nodes[0].commit.status_check_rollup {
                Some(r) => match &r.state {
                    Some(s) => Some(s.as_str()),
                    None => None,
                },
                None => None,
            }
        } else {
            None
        }
    }
}

pub struct SearchResult {
    pub nodes: Vec<PullRequest>,
}

pub struct RateLimit {
    pub cost: i64,
    pub remaining: i64,
}

pub struct OrgNode {
    pub login: String,
}

pub struct Organizations {
    pub nodes: Vec<OrgNode>,
}

pub struct Viewer2 {
    pub organizations: Organizations,
}

pub struct DeskData {
    pub viewer: Viewer2,
    pub mine: SearchResult,
    pub reviewing: SearchResult,
    pub mentioned: SearchResult,
    pub involved: SearchResult,
    pub rate_limit: Option<RateLimit>,
}

/// "{status} — {body}".
pub open spec fn status_line(status: Seq<char>, body: Seq<char>) -> Seq<char> {
    status + " — "@ + body
}

fn status_message(status: &str, body: &str) -> (r: String)
    ensures
        r@ == status_line(status@, body@),
{
    let mut s = String::from_str(status);
    s.append(" — ");
    s.append(body);
    s
}

/// The error for a failed `/user` request, from its status code, the
/// status as displayed ("403 Forbidden"), and the response body.
pub open spec fn viewer_failure_spec(code: u16, status: Seq<char>, body: Seq<char>) -> Seq<char> {
    if code == 403 {
        if contains_text(body, "SAML"@) || contains_text(body, "saml"@) {
            "this organisation requires SSO — authorise the token for it in GitHub, then reconnect"@
        } else {
            "403 from GitHub — "@ + body
        }
    } else {
        status_line(status, body)
    }
}

/// Why reading `/user` failed. A 403 is almost always SAML: the token is
/// valid but not authorised for the organisation, and saying so plainly
/// beats showing an empty app.
pub fn viewer_failure(code: u16, status: &str, body: &str) -> (r: Error)
    ensures
        r matches Error::GitHub(m) && m@ == viewer_failure_spec(code, status@, body@),
{
    if code == 403 {
        if contains(body, "SAML") || contains(body, "saml") {
            return Error::GitHub(String::from_str(
                "this organisation requires SSO — authorise the token for it in GitHub, then reconnect",
            ));
        }
        let mut s = String::from_str("403 from GitHub — ");
        s.append(body);
        return Error::GitHub(s);
    }
    Error::GitHub(status_message(status, body))
}

/// The error for a failed Desk request.
pub open spec fn desk_failure_spec(code: u16, status: Seq<char>, body: Seq<char>) -> Seq<char> {
    if code == 401 {
        "your token was rejected — sign out and reconnect"@
    } else {
        status_line(status, body)
    }
}

/// Why the Desk request failed: a rejected token is said plainly.
pub fn desk_failure(code: u16, status: &str, body: &str) -> (r: Error)
    ensures
        r matches Error::GitHub(m) && m@ == desk_failure_spec(code, status@, body@),
{
    if code == 401 {
        Error::GitHub(String::from_str("your token was rejected — sign out and reconnect"))
    } else {
        Error::GitHub(status_message(status, body))
    }
}

/// GitHub answers 200 with partial data when one organisation blocks the
/// token (SAML, usually): showing the rest beats showing nothing. Only when
/// there is no data at all do the error messages become the error.
pub fn desk_result(data: Option<DeskData>, errors: &Vec<String>) -> (r: Result<DeskData, Error>)
    ensures
        data matches Some(d) ==> r == Ok::<DeskData, Error>(d),
        data is None ==> (r matches Err(Error::GitHub(m)) && m@ == joined(texts(errors@), "; "@)),
{
    match data {
        Some(d) => Ok(d),
        None => Err(Error::GitHub(join(errors, "; "))),
    }
}

/// The four searches of the Desk query, for `login`: the pull requests you
/// opened, those awaiting your review, those mentioning you, and everything
/// else you are involved in. `archived:false` keeps dead repositories out;
/// `-author:` stops your own being counted twice.
pub open spec fn desk_searches_spec(login: Seq<char>) -> (Seq<char>, Seq<char>, Seq<char>, Seq<char>) {
    (
        "is:open is:pr archived:false author:"@ + login,
        "is:open is:pr archived:false review-requested:"@ + login,
        "is:open is:pr archived:false mentions:"@ + login,
        "is:open is:pr archived:false involves:"@ + login + " -author:"@ + login,
    )
}

fn prefixed(prefix: &str, login: &str) -> (r: String)
    ensures
        r@ == prefix@ + login@,
{
    let mut s = String::from_str(prefix);
    s.append(login);
    s
}

/// The search strings of the Desk query (mine, reviewing, mentioned, involved).
pub fn desk_searches(login: &str) -> (r: (String, String, String, String))
    ensures
        (r.0@, r.1@, r.2@, r.3@) == desk_searches_spec(login@),
{
    let mut involved = prefixed("is:open is:pr archived:false involves:", login);
    involved.append(" -author:");
    involved.append(login);
    (
        prefixed("is:open is:pr archived:false author:", login),
        prefixed("is:open is:pr archived:false review-requested:", login),
        prefixed("is:open is:pr archived:false mentions:", login),
        involved,
    )
}

/// The cost and remaining budget a Desk response reports, or (0, 0).
pub fn rate_usage(rate_limit: &Option<RateLimit>) -> (r: (i64, i64))
    ensures
        rate_limit matches Some(l) ==> r == (l.cost, l.remaining),
        rate_limit is None ==> r == (0i64, 0i64),
{
    match rate_limit {
        Some(l) => (l.cost, l.remaining),
        None => (0, 0),
    }
}

/// The organisations the token can see.
pub fn org_logins(data: &DeskData) -> (r: Vec<String>)
    ensures
        texts(r@) == data.viewer.organizations.nodes@.map_values(|o: OrgNode| o.login@),
{
    let nodes = &data.viewer.organizations.nodes;
    let mut out: Vec<String> = Vec::new();
    let mut i: usize = 0;
    while i < nodes.len()
        invariant
            i <= nodes@.len(),
            nodes == &data.viewer.organizations.nodes,
            texts(out@) == nodes@.take(i as int).map_values(|o: OrgNode| o.login@),
        decreases nodes@.len() - i,
    {
        let ghost before = texts(out@);
        out.push(nodes[i].login.clone());
        assert(texts(out@) =~= before.push(nodes@[i as int].login@));
        assert(nodes@.take(i + 1) =~= nodes@.take(i as int).push(nodes@[i as int]));
        assert(texts(out@) =~= nodes@.take(i + 1).map_values(|o: OrgNode| o.login@));
        i = i + 1;
    }
    assert(nodes@.take(i as int) =~= nodes@);
    out
}

} // verus!
