//! One sync: what the Desk response comes to as pull requests to write.
//!
//! Nothing here decides what to *show* — lanes are computed at read time —
//! and nothing here sends a notification. The application shell fetches the
//! Desk and writes what is decided here.

use vstd::prelude::*;
use crate::db::PrInput;
use crate::github::{checks_state_spec, head_oid_spec, DeskData, PullRequest};

verus! {

/// Settings key under which the time of the last Desk sync is kept.
pub const DESK_KEY: &'static str = "desk";

/// Settings key under which the organisations the token can see are kept,
/// comma-separated.
pub const VISIBLE_ORGS_KEY: &'static str = "visible_orgs";

/// What one sync did.
pub struct SyncOutcome {
    pub pull_requests: usize,
    pub events: usize,
    pub retired: usize,
    pub cost: i64,
    pub remaining: i64,
    pub synced_at: i64,
}

/// Connecting an account should not fire a notification for every review
/// already waiting on you: the first sync (no sync time stored yet) records
/// everything and marks it all as already told.
pub fn is_first_sync(last_synced_at: Option<i64>) -> (r: bool)
    ensures
        r == (last_synced_at is None),
{
    last_synced_at.is_none()
}

/// The Unix time an RFC 3339 timestamp denotes, as
/// `chrono::DateTime::parse_from_rfc3339` reads it (`None` when it does not
/// parse).
pub uninterp spec fn rfc3339_seconds(text: Seq<char>) -> Option<i64>;

/// Parses with `chrono::DateTime::parse_from_rfc3339` and takes the
/// `timestamp` of what it parsed; `None` when the text does not parse. The
/// value depends on the text alone.
#[verifier::external_body]
fn parse_rfc3339(iso: &str) -> (r: Option<i64>)
    ensures
        r == rfc3339_seconds(iso@),
{
    match chrono::DateTime::parse_from_rfc3339(iso) {
        Ok(d) => Some(d.timestamp()),
        Err(_) => None,
    }
}

/// The Unix time of a timestamp, 0 when it does not parse.
pub open spec fn epoch_spec(iso: Seq<char>) -> i64 {
    match rfc3339_seconds(iso) {
        Some(t) => t,
        None => 0,
    }
}

/// Seconds since the epoch for a GitHub timestamp; 0 when unreadable.
pub fn epoch(iso: &str) -> (r: i64)
    ensures
        r == epoch_spec(iso@),
{
    match parse_rfc3339(iso) {
        Some(t) => t,
        None => 0,
    }
}

/// The pull request as it is written, with the given relations to you.
pub open spec fn to_input_spec(pr: PullRequest, is_author: bool, is_reviewer: bool, is_mentioned: bool) -> PrInput {
    PrInput {
        id: pr.id,
        repo: pr.repository.name_with_owner,
        number: pr.number,
        title: pr.title,
        url: pr.url,
        author: match pr.author {
            Some(a) => Some(a.login),
            None => None,
        },
        author_avatar: match pr.author {
            Some(a) => a.avatar_url,
            None => None,
        },
        is_draft: pr.is_draft,
        additions: pr.additions,
        deletions: pr.deletions,
        changed_files: pr.changed_files,
        comment_count: pr.comments.total_count,
        review_decision: pr.review_decision,
        checks_state: None,
        head_oid: None,
        is_author,
        is_reviewer,
        is_mentioned,
        created_at: epoch_spec(pr.created_at@),
        updated_at: epoch_spec(pr.updated_at@),
    }
}

/// `r` is `pr` as written: every field as `to_input_spec` gives it, with the
/// head commit's id and check state.
pub open spec fn is_input_of(r: PrInput, pr: PullRequest, is_author: bool, is_reviewer: bool, is_mentioned: bool) -> bool {
    &&& r == PrInput { checks_state: r.checks_state, head_oid: r.head_oid, ..to_input_spec(pr, is_author, is_reviewer, is_mentioned) }
    &&& r.checks_state.deep_view() == checks_state_spec(pr)
    &&& r.head_oid.deep_view() == head_oid_spec(pr)
}

fn opt_str_to_string(s: Option<&str>) -> (r: Option<String>)
    ensures
        r.deep_view() == match s {
            Some(x) => Some(x@),
            None => None::<Seq<char>>,
        },
{
    match s {
        Some(x) => Some(String::from_str(x)),
        None => None,
    }
}

/// What a sync writes for a pull request, given its relations to you.
pub fn to_input(pr: &PullRequest, is_author: bool, is_reviewer: bool, is_mentioned: bool) -> (r: PrInput)
    ensures
        is_input_of(r, *pr, is_author, is_reviewer, is_mentioned),
{
    let author = match &pr.author {
        Some(a) => Some(a.login.clone()),
        None => None,
    };
    let author_avatar = match &pr.author {
        Some(a) => crate::text::opt_text_clone(&a.avatar_url),
        None => None,
    };
    PrInput {
        id: pr.id.clone(),
        repo: pr.repository.name_with_owner.clone(),
        number: pr.number,
        title: pr.title.clone(),
        url: pr.url.clone(),
        author,
        author_avatar,
        is_draft: pr.is_draft,
        additions: pr.additions,
        deletions: pr.deletions,
        changed_files: pr.changed_files,
        comment_count: pr.comments.total_count,
        review_decision: crate::text::opt_text_clone(&pr.review_decision),
        checks_state: opt_str_to_string(pr.checks_state()),
        head_oid: opt_str_to_string(pr.head_oid()),
        is_author,
        is_reviewer,
        is_mentioned,
        created_at: epoch(pr.created_at.as_str()),
        updated_at: epoch(pr.updated_at.as_str()),
    }
}


/// What is written for a pull request is the pull request as GitHub gave it:
/// each field carried over unchanged (its review decision among them), the
/// author's login and avatar, the head commit's id and check state when it
/// has a commit, both timestamps as Unix time, and your relations as given.
pub proof fn lemma_input_is_the_pull_request(r: PrInput, pr: PullRequest, is_author: bool, is_reviewer: bool, is_mentioned: bool)
    requires
        is_input_of(r, pr, is_author, is_reviewer, is_mentioned),
    ensures
        r.id@ == pr.id@,
        r.repo@ == pr.repository.name_with_owner@,
        r.number == pr.number,
        r.title@ == pr.title@,
        r.url@ == pr.url@,
        r.is_draft == pr.is_draft,
        r.additions == pr.additions,
        r.deletions == pr.deletions,
        r.changed_files == pr.changed_files,
        r.comment_count == pr.comments.total_count,
        r.review_decision.deep_view() == pr.review_decision.deep_view(),
        pr.author matches Some(a) ==> r.author.deep_view() == Some(a.login@)
            && r.author_avatar.deep_view() == a.avatar_url.deep_view(),
        pr.author is None ==> r.author is None && r.author_avatar is None,
        pr.commits.nodes@.len() > 0 ==> r.head_oid.deep_view() == Some(pr.commits.nodes@[0].commit.oid@),
        pr.commits.nodes@.len() > 0 ==> r.checks_state.deep_view() == match pr.commits.nodes@[0].commit.status_check_rollup {
            Some(c) => c.state.deep_view(),
            None => None,
        },
        pr.commits.nodes@.len() == 0 ==> r.head_oid is None && r.checks_state is None,
        r.is_author == is_author,
        r.is_reviewer == is_reviewer,
        r.is_mentioned == is_mentioned,
        r.created_at == epoch_spec(pr.created_at@),
        r.updated_at == epoch_spec(pr.updated_at@),
{
    if pr.commits.nodes@.len() > 0 {
        match pr.commits.nodes@[0].commit.status_check_rollup {
            Some(c) => {
                match c.state {
                    Some(st) => {},
                    None => {},
                }
            },
            None => {},
        }
    }
}

/// The ids of the pull requests gathered so far.
pub open spec fn ids(m: Seq<PrInput>) -> Seq<Seq<char>> {
    m.map_values(|p: PrInput| p.id@)
}

/// No pull request is gathered twice.
pub open spec fn unique_ids(m: Seq<PrInput>) -> bool {
    forall|i: int, j: int| 0 <= i < j < m.len() ==> (#[trigger] m[i]).id@ != (#[trigger] m[j]).id@
}

/// Pull request `id` is among `prs`.
pub open spec fn listed(prs: Seq<PullRequest>, id: Seq<char>) -> bool {
    exists|i: int| 0 <= i < prs.len() && (#[trigger] prs[i]).id@ == id
}

/// The first sighting of each pull request in `prs` whose id is not
/// already `known`, in order.
pub open spec fn fresh_prs(known: Seq<Seq<char>>, prs: Seq<PullRequest>) -> Seq<PullRequest>
    decreases prs.len(),
{
    if prs.len() == 0 {
        Seq::empty()
    } else {
        let rest = fresh_prs(known, prs.drop_last());
        let id = prs.last().id@;
        if known.contains(id) || rest.map_values(|p: PullRequest| p.id@).contains(id) {
            rest
        } else {
            rest.push(prs.last())
        }
    }
}

/// `p` with the given relations added to those it already has.
pub open spec fn with_relations(p: PrInput, is_author: bool, is_reviewer: bool, is_mentioned: bool) -> PrInput {
    PrInput {
        is_author: p.is_author || is_author,
        is_reviewer: p.is_reviewer || is_reviewer,
        is_mentioned: p.is_mentioned || is_mentioned,
        ..p
    }
}

/// `map` is `old` after gathering `prs` with the given relations.
pub open spec fn gathered(
    map: Seq<PrInput>,
    old: Seq<PrInput>,
    prs: Seq<PullRequest>,
    is_author: bool,
    is_reviewer: bool,
    is_mentioned: bool,
) -> bool {
    let fresh = fresh_prs(ids(old), prs);
    &&& map.len() == old.len() + fresh.len()
    &&& forall|j: int| 0 <= j < old.len() ==> #[trigger] map[j] == if listed(prs, old[j].id@) {
        with_relations(old[j], is_author, is_reviewer, is_mentioned)
    } else {
        old[j]
    }
    &&& forall|k: int| 0 <= k < fresh.len() ==> is_input_of(
        #[trigger] map[old.len() + k],
        fresh[k],
        is_author,
        is_reviewer,
        is_mentioned,
    )
}

fn position(map: &Vec<PrInput>, id: &String) -> (r: Option<usize>)
    ensures
        r matches Some(j) ==> j < map@.len() && map@[j as int].id@ == id@,
        r is None ==> !ids(map@).contains(id@),
{
    let mut i: usize = 0;
    while i < map.len()
        invariant
            i <= map@.len(),
            forall|k: int| 0 <= k < i ==> map@[k].id@ != id@,
        decreases map@.len() - i,
    {
        if map[i].id == *id {
            return Some(i);
        }
        i = i + 1;
    }
    proof {
        if ids(map@).contains(id@) {
            let k = choose|k: int| 0 <= k < ids(map@).len() && ids(map@)[k] == id@;
            assert(map@[k].id@ == id@);
        }
    }
    None
}

/// A pull request can arrive in several result sets at once — yours *and*
/// mentioned, say. Gathers `prs` into `map`, merging on id and adding the
/// relations together.
pub fn collect(
    map: &mut Vec<PrInput>,
    prs: Vec<PullRequest>,
    is_author: bool,
    is_reviewer: bool,
    is_mentioned: bool,
)
    requires
        unique_ids(old(map)@),
    ensures
        unique_ids(final(map)@),
        gathered(final(map)@, old(map)@, prs@, is_author, is_reviewer, is_mentioned),
{
    let ghost start = map@;
    let ghost known = ids(start);
    let mut i: usize = 0;
    assert(prs@.take(0) =~= Seq::<PullRequest>::empty());
    while i < prs.len()
        invariant
            i <= prs@.len(),
            known == ids(start),
            unique_ids(map@),
            gathered(map@, start, prs@.take(i as int), is_author, is_reviewer, is_mentioned),
        decreases prs@.len() - i,
    {
        let pr = &prs[i];
        let ghost before = map@;
        let ghost pre = prs@.take(i as int);
        let ghost post = prs@.take(i + 1);
        let ghost fresh = fresh_prs(known, pre);
        assert(post.drop_last() =~= pre);
        assert(post.last() == *pr);
        assert forall|j: int| 0 <= j < start.len() && start[j].id@ != pr.id@ implies
            listed(post, start[j].id@) == listed(pre, #[trigger] start[j].id@) by {
            if listed(post, start[j].id@) {
                let w = choose|w: int| 0 <= w < post.len() && (#[trigger] post[w]).id@ == start[j].id@;
                assert(w < pre.len());
                assert(pre[w] == post[w]);
            }
            if listed(pre, start[j].id@) {
                let w = choose|w: int| 0 <= w < pre.len() && (#[trigger] pre[w]).id@ == start[j].id@;
                assert(post[w] == pre[w]);
            }
        }
        assert(listed(post, pr.id@)) by {
            assert(post[i as int].id@ == pr.id@);
        }
        match position(map, &pr.id) {
            Some(j) => {
                let mut entry = map[j].clone_input();
                entry.is_author = entry.is_author || is_author;
                entry.is_reviewer = entry.is_reviewer || is_reviewer;
                entry.is_mentioned = entry.is_mentioned || is_mentioned;
                map.set(j, entry);
                proof {
                    if j < start.len() {
                        assert(known.contains(pr.id@)) by {
                            assert(known[j as int] == start[j as int].id@);
                        }
                    } else {
                        let k = j - start.len();
                        assert(is_input_of(before[start.len() + k], fresh[k as int], is_author, is_reviewer, is_mentioned));
                        assert(before[start.len() + k].id == fresh[k as int].id);
                        assert(fresh.map_values(|p: PullRequest| p.id@).contains(pr.id@)) by {
                            assert(fresh.map_values(|p: PullRequest| p.id@)[k as int] == pr.id@);
                        }
                    }
                    assert(fresh_prs(known, post) == fresh);
                    assert forall|a: int, b: int| 0 <= a < b < map@.len() implies (#[trigger] map@[a]).id@ != (#[trigger] map@[b]).id@ by {
                        assert(map@[a].id@ == before[a].id@);
                        assert(map@[b].id@ == before[b].id@);
                    }
                    assert forall|q: int| 0 <= q < start.len() implies #[trigger] map@[q] == if listed(post, start[q].id@) {
                        with_relations(start[q], is_author, is_reviewer, is_mentioned)
                    } else {
                        start[q]
                    } by {
                        if start[q].id@ == pr.id@ {
                            assert(q == j) by {
                                if q != j {
                                    assert(before[q].id@ == start[q].id@);
                                }
                            }
                        }
                    }
                }
            },
            None => {
                let entry = to_input(pr, is_author, is_reviewer, is_mentioned);
                map.push(entry);
                proof {
                    assert(!known.contains(pr.id@)) by {
                        if known.contains(pr.id@) {
                            let q = choose|q: int| 0 <= q < known.len() && known[q] == pr.id@;
                            assert(ids(before)[q] == pr.id@);
                        }
                    }
                    assert(!fresh.map_values(|p: PullRequest| p.id@).contains(pr.id@)) by {
                        let fids = fresh.map_values(|p: PullRequest| p.id@);
                        if fids.contains(pr.id@) {
                            let q = choose|q: int| 0 <= q < fids.len() && #[trigger] fids[q] == pr.id@;
                            assert(ids(before)[start.len() + q] == pr.id@);
                        }
                    }
                    assert(fresh_prs(known, post) == fresh.push(*pr));
                    assert forall|a: int, b: int| 0 <= a < b < map@.len() implies (#[trigger] map@[a]).id@ != (#[trigger] map@[b]).id@ by {
                        if b == map@.len() - 1 {
                            assert(ids(before)[a] == before[a].id@);
                        }
                    }
                    assert forall|q: int| 0 <= q < start.len() implies #[trigger] map@[q] == if listed(post, start[q].id@) {
                        with_relations(start[q], is_author, is_reviewer, is_mentioned)
                    } else {
                        start[q]
                    } by {
                        assert(map@[q] == before[q]);
                        assert(start[q].id@ != pr.id@) by {
                            assert(known[q] == start[q].id@);
                        }
                    }
                    assert forall|k: int| 0 <= k < fresh.len() + 1 implies is_input_of(
                        #[trigger] map@[start.len() + k],
                        fresh.push(*pr)[k],
                        is_author,
                        is_reviewer,
                        is_mentioned,
                    ) by {
                        if k < fresh.len() {
                            assert(map@[start.len() + k] == before[start.len() + k]);
                        }
                    }
                }
            },
        }
        i = i + 1;
    }
    assert(prs@.take(i as int) =~= prs@);
}


/// Every pull request of the Desk, once each: your own first, then those
/// awaiting your review, those mentioning you, and those you are otherwise
/// involved in, each carrying every relation it was found under.
pub fn merged_pull_requests(data: DeskData) -> (r: Vec<PrInput>)
    ensures
        unique_ids(r@),
        exists|m1: Seq<PrInput>, m2: Seq<PrInput>, m3: Seq<PrInput>| {
            &&& gathered(m1, Seq::empty(), data.mine.nodes@, true, false, false)
            &&& gathered(m2, m1, data.reviewing.nodes@, false, true, false)
            &&& gathered(m3, m2, data.mentioned.nodes@, false, false, true)
            &&& gathered(r@, m3, data.involved.nodes@, false, false, false)
        },
{
    let ghost d = data;
    let mut map: Vec<PrInput> = Vec::new();
    assert(map@ =~= Seq::<PrInput>::empty());
    collect(&mut map, data.mine.nodes, true, false, false);
    let ghost m1 = map@;
    collect(&mut map, data.reviewing.nodes, false, true, false);
    let ghost m2 = map@;
    collect(&mut map, data.mentioned.nodes, false, false, true);
    let ghost m3 = map@;
    collect(&mut map, data.involved.nodes, false, false, false);
    assert(gathered(m1, Seq::empty(), d.mine.nodes@, true, false, false));
    map
}


/// What `fresh_prs` keeps: pull requests of `prs` not already `known`, and
/// every one of `prs` is either known or kept.
proof fn lemma_fresh_prs(known: Seq<Seq<char>>, prs: Seq<PullRequest>)
    ensures
        forall|k: int| 0 <= k < fresh_prs(known, prs).len() ==> listed(prs, (#[trigger] fresh_prs(known, prs)[k]).id@)
            && !known.contains(fresh_prs(known, prs)[k].id@),
        forall|id: Seq<char>| #[trigger] listed(prs, id) ==> known.contains(id)
            || fresh_prs(known, prs).map_values(|p: PullRequest| p.id@).contains(id),
    decreases prs.len(),
{
    if prs.len() > 0 {
        let pre = prs.drop_last();
        lemma_fresh_prs(known, pre);
        let rest = fresh_prs(known, pre);
        let f = fresh_prs(known, prs);
        let last = prs.len() - 1;
        assert forall|k: int| 0 <= k < pre.len() implies #[trigger] pre[k] == prs[k] by {}
        assert forall|id: Seq<char>| #[trigger] listed(pre, id) implies listed(prs, id) by {
            let k = choose|k: int| 0 <= k < pre.len() && (#[trigger] pre[k]).id@ == id;
            assert(prs[k] == pre[k]);
        }
        assert forall|k: int| 0 <= k < f.len() implies listed(prs, (#[trigger] f[k]).id@) && !known.contains(f[k].id@) by {
            if k < rest.len() {
                assert(f[k] == rest[k]);
                assert(listed(pre, rest[k].id@));
            } else {
                assert(f[k] == prs[last]);
            }
        }
        assert forall|id: Seq<char>| #[trigger] listed(prs, id) implies known.contains(id)
            || f.map_values(|p: PullRequest| p.id@).contains(id) by {
            let k = choose|k: int| 0 <= k < prs.len() && (#[trigger] prs[k]).id@ == id;
            let rids = rest.map_values(|p: PullRequest| p.id@);
            let fids = f.map_values(|p: PullRequest| p.id@);
            if k < last {
                assert(pre[k] == prs[k]);
                assert(listed(pre, id));
                if rids.contains(id) {
                    let q = choose|q: int| 0 <= q < rids.len() && rids[q] == id;
                    assert(f[q] == rest[q]);
                    assert(fids[q] == id);
                }
            } else {
                if !known.contains(id) && !rids.contains(id) {
                    assert(f == rest.push(prs.last()));
                    assert(fids[rest.len() as int] == id);
                } else if rids.contains(id) {
                    let q = choose|q: int| 0 <= q < rids.len() && rids[q] == id;
                    assert(f[q] == rest[q]);
                    assert(fids[q] == id);
                }
            }
        }
    }
}

/// One gathering step: the ids gathered are those seen before and those
/// listed now, and each relation is the one held before or, for the
/// relation being gathered, being listed now.
proof fn lemma_gather_step(
    map: Seq<PrInput>,
    old: Seq<PrInput>,
    prs: Seq<PullRequest>,
    a: bool,
    rv: bool,
    m: bool,
    seen: spec_fn(Seq<char>) -> bool,
    fa: spec_fn(Seq<char>) -> bool,
    fr: spec_fn(Seq<char>) -> bool,
    fm: spec_fn(Seq<char>) -> bool,
)
    requires
        gathered(map, old, prs, a, rv, m),
        forall|id: Seq<char>| seen(id) <==> #[trigger] ids(old).contains(id),
        forall|j: int| 0 <= j < old.len() ==> (#[trigger] old[j]).is_author == fa(old[j].id@)
            && old[j].is_reviewer == fr(old[j].id@) && old[j].is_mentioned == fm(old[j].id@),
        forall|id: Seq<char>| #![trigger fa(id)] #![trigger fr(id)] #![trigger fm(id)] fa(id) || fr(id) || fm(id) ==> seen(id),
    ensures
        forall|id: Seq<char>| (seen(id) || listed(prs, id)) <==> #[trigger] ids(map).contains(id),
        forall|j: int| 0 <= j < map.len() ==> {
            &&& (#[trigger] map[j]).is_author == (fa(map[j].id@) || (a && listed(prs, map[j].id@)))
            &&& map[j].is_reviewer == (fr(map[j].id@) || (rv && listed(prs, map[j].id@)))
            &&& map[j].is_mentioned == (fm(map[j].id@) || (m && listed(prs, map[j].id@)))
        },
{
    let fresh = fresh_prs(ids(old), prs);
    lemma_fresh_prs(ids(old), prs);
    assert forall|j: int| 0 <= j < map.len() implies {
        &&& (#[trigger] map[j]).is_author == (fa(map[j].id@) || (a && listed(prs, map[j].id@)))
        &&& map[j].is_reviewer == (fr(map[j].id@) || (rv && listed(prs, map[j].id@)))
        &&& map[j].is_mentioned == (fm(map[j].id@) || (m && listed(prs, map[j].id@)))
    } by {
        if j < old.len() {
            assert(map[j].id@ == old[j].id@);
        } else {
            let k = j - old.len();
            assert(is_input_of(map[old.len() + k], fresh[k], a, rv, m));
            assert(map[j].id@ == fresh[k].id@);
            assert(!ids(old).contains(fresh[k].id@));
        }
    }
    assert forall|id: Seq<char>| (seen(id) || listed(prs, id)) <==> #[trigger] ids(map).contains(id) by {
        if ids(map).contains(id) {
            let j = choose|j: int| 0 <= j < ids(map).len() && ids(map)[j] == id;
            if j < old.len() {
                assert(map[j].id@ == old[j].id@);
                assert(ids(old)[j] == id);
                assert(ids(old).contains(id));
            } else {
                let k = j - old.len();
                assert(is_input_of(map[old.len() + k], fresh[k], a, rv, m));
                assert(listed(prs, fresh[k].id@));
            }
        }
        if seen(id) {
            assert(ids(old).contains(id));
            let j = choose|j: int| 0 <= j < ids(old).len() && ids(old)[j] == id;
            assert(map[j].id@ == old[j].id@);
            assert(ids(map)[j] == id);
        } else if listed(prs, id) {
            let fids = fresh.map_values(|p: PullRequest| p.id@);
            if ids(old).contains(id) {
                let j = choose|j: int| 0 <= j < ids(old).len() && ids(old)[j] == id;
                assert(map[j].id@ == old[j].id@);
                assert(ids(map)[j] == id);
            } else {
                let k = choose|k: int| 0 <= k < fids.len() && fids[k] == id;
                assert(is_input_of(map[old.len() + k], fresh[k], a, rv, m));
                assert(ids(map)[old.len() + k] == id);
            }
        }
    }
}

/// Pull request `id` turns up in one of the Desk's four searches.
pub open spec fn found_in(data: DeskData, id: Seq<char>) -> bool {
    listed(data.mine.nodes@, id) || listed(data.reviewing.nodes@, id) || listed(data.mentioned.nodes@, id)
        || listed(data.involved.nodes@, id)
}

/// The merge of the four searches holds every pull request any of them
/// found and no other, and each carries exactly the relations it was found
/// under: yours when your own search lists it, review requested when the
/// review search lists it, mentioned when the mention search lists it —
/// whichever searches it turned up in, in whatever order.
pub proof fn lemma_relations_are_where_found(data: DeskData, r: Seq<PrInput>)
    requires
        exists|m1: Seq<PrInput>, m2: Seq<PrInput>, m3: Seq<PrInput>| {
            &&& gathered(m1, Seq::empty(), data.mine.nodes@, true, false, false)
            &&& gathered(m2, m1, data.reviewing.nodes@, false, true, false)
            &&& gathered(m3, m2, data.mentioned.nodes@, false, false, true)
            &&& gathered(r, m3, data.involved.nodes@, false, false, false)
        },
    ensures
        forall|id: Seq<char>| #[trigger] ids(r).contains(id) <==> found_in(data, id),
        forall|i: int| 0 <= i < r.len() ==> {
            &&& (#[trigger] r[i]).is_author == listed(data.mine.nodes@, r[i].id@)
            &&& r[i].is_reviewer == listed(data.reviewing.nodes@, r[i].id@)
            &&& r[i].is_mentioned == listed(data.mentioned.nodes@, r[i].id@)
        },
{
    let (m1, m2, m3) = choose|m1: Seq<PrInput>, m2: Seq<PrInput>, m3: Seq<PrInput>| {
        &&& gathered(m1, Seq::empty(), data.mine.nodes@, true, false, false)
        &&& gathered(m2, m1, data.reviewing.nodes@, false, true, false)
        &&& gathered(m3, m2, data.mentioned.nodes@, false, false, true)
        &&& gathered(r, m3, data.involved.nodes@, false, false, false)
    };
    let mine = data.mine.nodes@;
    let rev = data.reviewing.nodes@;
    let men = data.mentioned.nodes@;
    let inv = data.involved.nodes@;
    let none = |id: Seq<char>| false;
    assert forall|id: Seq<char>| none(id) <==> #[trigger] ids(Seq::<PrInput>::empty()).contains(id) by {
        assert(ids(Seq::<PrInput>::empty()).len() == 0);
    }
    lemma_gather_step(m1, Seq::empty(), mine, true, false, false, none, none, none, none);
    let s1 = |id: Seq<char>| listed(mine, id);
    lemma_gather_step(m2, m1, rev, false, true, false, s1, s1, none, none);
    let s2 = |id: Seq<char>| listed(mine, id) || listed(rev, id);
    let r2 = |id: Seq<char>| listed(rev, id);
    lemma_gather_step(m3, m2, men, false, false, true, s2, s1, r2, none);
    let s3 = |id: Seq<char>| listed(mine, id) || listed(rev, id) || listed(men, id);
    let t3 = |id: Seq<char>| listed(men, id);
    lemma_gather_step(r, m3, inv, false, false, false, s3, s1, r2, t3);
}

} // verus!
