//! The records the app keeps, and the rules that turn them into lanes, events
//! and the "what changed since you looked" markers.
//!
//! The database itself is the app's persistent storage and is driven from the
//! application shell; everything decided about its contents is decided here.

use vstd::prelude::*;
use std::time::Duration;
use crate::text::{texts, decimal, decimal_string, opt_text_clone, opt_text_eq, same_text};

verus! {

/// The signed-in account.
pub struct Account {
    pub id: i64,
    pub login: String,
    pub name: Option<String>,
    pub avatar_url: Option<String>,
    pub host: String,
    pub provider: String,
    pub connected_at: i64,
}

/// An unnotified event, with enough of its pull request to write a sentence.
pub struct PendingEvent {
    pub kind: String,
    pub to_state: Option<String>,
    pub repo: String,
    pub number: i64,
    pub title: String,
    pub author: Option<String>,
    pub is_author: bool,
    pub is_reviewer: bool,
    pub pr_id: String,
}

/// A daily note.
pub struct Note {
    pub day: String,
    pub body: String,
    pub updated_at: i64,
}

/// How long after the Unix epoch the system clock reads, by
/// `UNIX_EPOCH.elapsed()`; `None` when it reads before the epoch (the error
/// of `elapsed`). It reads the clock, so nothing is known of the value.
#[verifier::external_body]
fn since_epoch() -> Option<Duration> {
    match std::time::UNIX_EPOCH.elapsed() {
        Ok(d) => Some(d),
        Err(_) => None,
    }
}

/// The whole seconds of a duration, by `Duration::as_secs`. A `Duration` is
/// opaque here, so nothing is stated of the value.
#[verifier::external_body]
fn whole_secs(d: &Duration) -> u64 {
    d.as_secs()
}

/// Unix time from a clock reading in whole seconds since the epoch: the
/// seconds, capped at `i64::MAX`, or 0 for a clock that reads before the
/// epoch (`None`).
pub fn secs_from(reading: Option<u64>) -> (r: i64)
    ensures
        reading matches Some(s) ==> r == (if s <= i64::MAX { s as i64 } else { i64::MAX }),
        reading is None ==> r == 0,
        r >= 0,
{
    match reading {
        Some(s) => if s <= i64::MAX as u64 {
            s as i64
        } else {
            i64::MAX
        },
        None => 0,
    }
}

/// Seconds since the Unix epoch, by the system clock: `secs_from` of the
/// clock's reading, so 0 if the clock reads before the epoch, and never
/// negative.
pub fn now_secs() -> (r: i64)
    ensures
        r >= 0,
{
    let reading = match since_epoch() {
        Some(d) => Some(whole_secs(&d)),
        None => None,
    };
    secs_from(reading)
}

/// What a sync wants to write. Separate from the GitHub response type so the
/// database layer never depends on the shape of the API.
pub struct PrInput {
    pub id: String,
    pub repo: String,
    pub number: i64,
    pub title: String,
    pub url: String,
    pub author: Option<String>,
    pub author_avatar: Option<String>,
    pub is_draft: bool,
    pub additions: i64,
    pub deletions: i64,
    pub changed_files: i64,
    pub comment_count: i64,
    pub review_decision: Option<String>,
    pub checks_state: Option<String>,
    pub head_oid: Option<String>,
    pub is_author: bool,
    pub is_reviewer: bool,
    pub is_mentioned: bool,
    pub created_at: i64,
    pub updated_at: i64,
}

impl PrInput {
    /// A copy of this input.
    pub fn clone_input(&self) -> (r: PrInput)
        ensures
            r == *self,
    {
        PrInput {
            id: self.id.clone(),
            repo: self.repo.clone(),
            number: self.number,
            title: self.title.clone(),
            url: self.url.clone(),
            author: opt_text_clone(&self.author),
            author_avatar: opt_text_clone(&self.author_avatar),
            is_draft: self.is_draft,
            additions: self.additions,
            deletions: self.deletions,
            changed_files: self.changed_files,
            comment_count: self.comment_count,
            review_decision: opt_text_clone(&self.review_decision),
            checks_state: opt_text_clone(&self.checks_state),
            head_oid: opt_text_clone(&self.head_oid),
            is_author: self.is_author,
            is_reviewer: self.is_reviewer,
            is_mentioned: self.is_mentioned,
            created_at: self.created_at,
            updated_at: self.updated_at,
        }
    }
}

/// The fields of a stored pull request that a change is worth noticing on.
/// Everything else (title edits, line counts) updates silently.
pub struct PrState {
    pub review_decision: Option<String>,
    pub checks_state: Option<String>,
    pub head_oid: Option<String>,
    pub comment_count: i64,
    pub is_reviewer: bool,
}

/// One transition to append to the event log: its kind and the states it
/// moved between.
pub struct Transition {
    pub kind: String,
    pub from_state: Option<String>,
    pub to_state: Option<String>,
}

/// The content of a transition.
pub type TransitionView = (Seq<char>, Option<Seq<char>>, Option<Seq<char>>);

impl View for Transition {
    type V = TransitionView;

    open spec fn view(&self) -> TransitionView {
        (self.kind@, self.from_state.deep_view(), self.to_state.deep_view())
    }
}

/// The state a stored row holds once `pr` has been written.
pub open spec fn state_after(pr: PrInput) -> PrState {
    PrState {
        review_decision: pr.review_decision,
        checks_state: pr.checks_state,
        head_oid: pr.head_oid,
        comment_count: pr.comment_count,
        is_reviewer: pr.is_reviewer,
    }
}

/// `seq![x]` when `cond` holds, else nothing.
pub open spec fn when(cond: bool, x: TransitionView) -> Seq<TransitionView> {
    if cond {
        seq![x]
    } else {
        Seq::empty()
    }
}

/// Every transition worth recording when `pr` is written over `previous`
/// (`None` on a first sighting), in the order they are appended.
pub open spec fn transitions_spec(previous: Option<PrState>, pr: PrInput) -> Seq<TransitionView> {
    let requested: TransitionView = ("review_requested"@, None, Some(pr.repo@));
    match previous {
        None => when(pr.is_reviewer, requested),
        Some(prev) => {
            when(!prev.is_reviewer && pr.is_reviewer, requested)
            + when(
                !same_text(prev.review_decision, pr.review_decision),
                ("review_decision"@, prev.review_decision.deep_view(), pr.review_decision.deep_view()),
            )
            + when(
                !same_text(prev.checks_state, pr.checks_state),
                ("checks"@, prev.checks_state.deep_view(), pr.checks_state.deep_view()),
            )
            + when(
                !same_text(prev.head_oid, pr.head_oid),
                ("new_commits"@, prev.head_oid.deep_view(), pr.head_oid.deep_view()),
            )
            + when(
                pr.comment_count > prev.comment_count,
                ("new_comments"@, Some(decimal(prev.comment_count as int)), Some(decimal(pr.comment_count as int))),
            )
        },
    }
}

/// Writing a pull request again, unchanged, records nothing: a transition is
/// recorded once, so a notification can never fire twice for it.
pub proof fn lemma_rewrite_is_silent(pr: PrInput)
    ensures
        transitions_spec(Some(state_after(pr)), pr).len() == 0,
{
    assert(transitions_spec(Some(state_after(pr)), pr) =~= Seq::<TransitionView>::empty());
}

/// A first sighting records at most one transition, and only when a review
/// is requested of you: connecting a busy account fires nothing else.
pub proof fn lemma_first_sighting_is_quiet(pr: PrInput)
    ensures
        transitions_spec(None, pr).len() == if pr.is_reviewer { 1int } else { 0int },
        pr.is_reviewer ==> transitions_spec(None, pr)[0].0 == "review_requested"@,
{
}

/// The views of a list of transitions.
pub open spec fn transition_views(ts: Seq<Transition>) -> Seq<TransitionView> {
    ts.map_values(|t: Transition| t@)
}

fn push_transition(
    out: &mut Vec<Transition>,
    kind: &str,
    from_state: Option<String>,
    to_state: Option<String>,
)
    ensures
        transition_views(final(out)@) == transition_views(old(out)@).push(
            (kind@, from_state.deep_view(), to_state.deep_view()),
        ),
{
    let t = Transition { kind: String::from_str(kind), from_state, to_state };
    out.push(t);
    assert(transition_views(out@) =~= transition_views(old(out)@).push(t@));
}

/// The diff engine: the transitions to append, in order, when `pr` is written
/// over a stored row whose noticed state was `previous` (`None` when the pull
/// request has never been seen).
///
/// A first sighting is only worth an event if it actually wants you —
/// otherwise the first sync of a busy account would fire fifty of them.
pub fn transitions(previous: &Option<PrState>, pr: &PrInput) -> (r: Vec<Transition>)
    ensures
        transition_views(r@) == transitions_spec(*previous, *pr),
{
    let mut out: Vec<Transition> = Vec::new();
    match previous {
        None => {
            if pr.is_reviewer {
                push_transition(&mut out, "review_requested", None, Some(pr.repo.clone()));
            }
            assert(transition_views(out@) =~= transitions_spec(*previous, *pr));
        },
        Some(prev) => {
            let ghost v0 = transition_views(out@);
            if !prev.is_reviewer && pr.is_reviewer {
                push_transition(&mut out, "review_requested", None, Some(pr.repo.clone()));
            }
            let ghost v1 = transition_views(out@);
            assert(v1 =~= v0 + when(!prev.is_reviewer && pr.is_reviewer, ("review_requested"@, None, Some(pr.repo@))));
            if !opt_text_eq(&prev.review_decision, &pr.review_decision) {
                push_transition(
                    &mut out,
                    "review_decision",
                    opt_text_clone(&prev.review_decision),
                    opt_text_clone(&pr.review_decision),
                );
            }
            let ghost v2 = transition_views(out@);
            assert(v2 =~= v1 + when(
                !same_text(prev.review_decision, pr.review_decision),
                ("review_decision"@, prev.review_decision.deep_view(), pr.review_decision.deep_view()),
            ));
            if !opt_text_eq(&prev.checks_state, &pr.checks_state) {
                push_transition(
                    &mut out,
                    "checks",
                    opt_text_clone(&prev.checks_state),
                    opt_text_clone(&pr.checks_state),
                );
            }
            let ghost v3 = transition_views(out@);
            assert(v3 =~= v2 + when(
                !same_text(prev.checks_state, pr.checks_state),
                ("checks"@, prev.checks_state.deep_view(), pr.checks_state.deep_view()),
            ));
            if !opt_text_eq(&prev.head_oid, &pr.head_oid) {
                push_transition(
                    &mut out,
                    "new_commits",
                    opt_text_clone(&prev.head_oid),
                    opt_text_clone(&pr.head_oid),
                );
            }
            let ghost v4 = transition_views(out@);
            assert(v4 =~= v3 + when(
                !same_text(prev.head_oid, pr.head_oid),
                ("new_commits"@, prev.head_oid.deep_view(), pr.head_oid.deep_view()),
            ));
            if pr.comment_count > prev.comment_count {
                push_transition(
                    &mut out,
                    "new_comments",
                    Some(decimal_string(prev.comment_count)),
                    Some(decimal_string(pr.comment_count)),
                );
            }
            let ghost v5 = transition_views(out@);
            assert(v5 =~= v4 + when(
                pr.comment_count > prev.comment_count,
                ("new_comments"@, Some(decimal(prev.comment_count as int)), Some(decimal(pr.comment_count as int))),
            ));
            assert(v0 =~= Seq::<TransitionView>::empty());
            assert(v5 =~= transitions_spec(*previous, *pr));
        },
    }
    out
}


// ---------------------------------------------------------------------------
// Lanes
// ---------------------------------------------------------------------------

/// Which lane a pull request belongs in, from its relation flags alone.
pub open spec fn lane_spec(is_author: bool, is_reviewer: bool, is_mentioned: bool) -> Seq<char> {
    if is_author {
        "yours"@
    } else if is_reviewer || is_mentioned {
        "needs_you"@
    } else {
        "watching"@
    }
}

/// Which lane this belongs in — computed at read time, never stored, so the
/// rules can change without a migration or a re-sync.
pub fn lane_for(is_author: bool, is_reviewer: bool, is_mentioned: bool) -> (r: &'static str)
    ensures
        r@ == lane_spec(is_author, is_reviewer, is_mentioned),
{
    if is_author {
        "yours"
    } else if is_reviewer || is_mentioned {
        "needs_you"
    } else {
        "watching"
    }
}

/// Whether a pull request with these relations is actively waiting on you.
pub open spec fn waits_on_you(rel: (bool, bool, bool)) -> bool {
    !rel.0 && (rel.1 || rel.2)
}

/// How many of `rels` (yours, review requested, mentioned) are waiting on you.
pub open spec fn waiting_count(rels: Seq<(bool, bool, bool)>) -> nat
    decreases rels.len(),
{
    if rels.len() == 0 {
        0
    } else {
        waiting_count(rels.drop_last()) + if waits_on_you(rels.last()) {
            1nat
        } else {
            0nat
        }
    }
}

/// How many of `rels` belong in `lane`.
pub open spec fn lane_count(rels: Seq<(bool, bool, bool)>, lane: Seq<char>) -> nat
    decreases rels.len(),
{
    if rels.len() == 0 {
        0
    } else {
        lane_count(rels.drop_last(), lane) + if lane_spec(rels.last().0, rels.last().1, rels.last().2) == lane {
            1nat
        } else {
            0nat
        }
    }
}

/// The three lane names differ.
pub proof fn lemma_lanes_differ()
    ensures
        "yours"@ != "needs_you"@,
        "yours"@ != "watching"@,
        "needs_you"@ != "watching"@,
{
    reveal_strlit("yours");
    reveal_strlit("needs_you");
    reveal_strlit("watching");
    assert("yours"@[0] != "needs_you"@[0]);
    assert("yours"@[0] != "watching"@[0]);
    assert("needs_you"@[0] != "watching"@[0]);
}

/// The tray badge counts exactly the pull requests in the "needs you" lane.
pub proof fn lemma_badge_is_the_needs_you_lane(rels: Seq<(bool, bool, bool)>)
    ensures
        waiting_count(rels) == lane_count(rels, "needs_you"@),
    decreases rels.len(),
{
    lemma_lanes_differ();
    if rels.len() > 0 {
        lemma_badge_is_the_needs_you_lane(rels.drop_last());
    }
}

/// The lane of every combination of relations: a pull request you opened
/// is always yours and never counts as waiting on you, even where you are
/// also asked to review it or mentioned in it; one you did not open that
/// asks your review or mentions you needs you and waits on you; anything
/// else you only watch.
pub proof fn lemma_lane_by_relations(is_author: bool, is_reviewer: bool, is_mentioned: bool)
    ensures
        is_author ==> lane_spec(is_author, is_reviewer, is_mentioned) == "yours"@
            && !waits_on_you((is_author, is_reviewer, is_mentioned)),
        !is_author && (is_reviewer || is_mentioned) ==> lane_spec(is_author, is_reviewer, is_mentioned) == "needs_you"@
            && waits_on_you((is_author, is_reviewer, is_mentioned)),
        !is_author && !is_reviewer && !is_mentioned ==> lane_spec(is_author, is_reviewer, is_mentioned) == "watching"@
            && !waits_on_you((is_author, is_reviewer, is_mentioned)),
{
}

/// The badge number counts, one by one, the pull requests you did not open
/// that ask your review or mention you: none of an empty list, and one more
/// for each such pull request added.
pub proof fn lemma_waiting_count_counts(rels: Seq<(bool, bool, bool)>, rel: (bool, bool, bool))
    ensures
        waiting_count(Seq::empty()) == 0,
        waiting_count(rels.push(rel)) == waiting_count(rels) + if !rel.0 && (rel.1 || rel.2) {
            1nat
        } else {
            0nat
        },
        waiting_count(rels) <= rels.len(),
    decreases rels.len(),
{
    assert(rels.push(rel).drop_last() =~= rels);
    if rels.len() > 0 {
        lemma_waiting_count_counts(rels.drop_last(), rels.last());
        assert(rels.drop_last().push(rels.last()) =~= rels);
    }
}

/// How many pull requests are actively waiting on you — the tray badge number.
/// `relations` holds the (yours, review requested, mentioned) flags of each of the
/// account's pull requests.
pub fn needs_you_count(relations: &Vec<(bool, bool, bool)>) -> (r: i64)
    requires
        relations@.len() <= i64::MAX,
    ensures
        r == waiting_count(relations@),
{
    let mut n: i64 = 0;
    let mut i: usize = 0;
    while i < relations.len()
        invariant
            i <= relations@.len() <= i64::MAX,
            n == waiting_count(relations@.take(i as int)),
            n <= i,
        decreases relations@.len() - i,
    {
        let rel = relations[i];
        assert(relations@.take(i + 1).drop_last() =~= relations@.take(i as int));
        if !rel.0 && (rel.1 || rel.2) {
            n = n + 1;
        }
        i = i + 1;
    }
    assert(relations@.take(i as int) =~= relations@);
    n
}

// ---------------------------------------------------------------------------
// Retiring pull requests that stopped coming back
// ---------------------------------------------------------------------------

/// A stored pull request as far as retiring goes.
pub struct SyncedRow {
    pub id: String,
    pub repo: String,
    pub account_id: i64,
    pub last_synced_at: i64,
}

/// Whether a stored row was missing from the sync that finished at `synced_at`.
pub open spec fn is_gone(row: SyncedRow, account_id: i64, synced_at: i64) -> bool {
    row.account_id == account_id && row.last_synced_at < synced_at
}

/// The (id, repo) of every gone row, in order.
pub open spec fn gone_spec(rows: Seq<SyncedRow>, account_id: i64, synced_at: i64) -> Seq<(Seq<char>, Seq<char>)>
    decreases rows.len(),
{
    if rows.len() == 0 {
        Seq::empty()
    } else {
        let rest = gone_spec(rows.drop_last(), account_id, synced_at);
        if is_gone(rows.last(), account_id, synced_at) {
            rest.push((rows.last().id@, rows.last().repo@))
        } else {
            rest
        }
    }
}

/// A pull request that stopped coming back from GitHub was merged or closed:
/// these are the rows to record as closed and then drop.
pub fn retire_missing(rows: &Vec<SyncedRow>, account_id: i64, synced_at: i64) -> (r: Vec<(String, String)>)
    ensures
        r@.map_values(|p: (String, String)| (p.0@, p.1@)) == gone_spec(rows@, account_id, synced_at),
{
    let mut out: Vec<(String, String)> = Vec::new();
    let mut i: usize = 0;
    while i < rows.len()
        invariant
            i <= rows@.len(),
            out@.map_values(|p: (String, String)| (p.0@, p.1@)) == gone_spec(rows@.take(i as int), account_id, synced_at),
        decreases rows@.len() - i,
    {
        let row = &rows[i];
        assert(rows@.take(i + 1).drop_last() =~= rows@.take(i as int));
        let ghost before = out@;
        if row.account_id == account_id && row.last_synced_at < synced_at {
            out.push((row.id.clone(), row.repo.clone()));
            assert(out@.map_values(|p: (String, String)| (p.0@, p.1@)) =~= before.map_values(|p: (String, String)| (p.0@, p.1@)).push((row.id@, row.repo@)));
        }
        i = i + 1;
    }
    assert(rows@.take(i as int) =~= rows@);
    out
}


// ---------------------------------------------------------------------------
// Listing the Desk
// ---------------------------------------------------------------------------

/// A stored pull request as the Desk reads it, with when you last opened it.
pub struct PullRequestRecord {
    pub id: String,
    pub repo: String,
    pub number: i64,
    pub title: String,
    pub url: String,
    pub author: Option<String>,
    pub author_avatar: Option<String>,
    pub is_draft: bool,
    pub additions: i64,
    pub deletions: i64,
    pub changed_files: i64,
    pub comment_count: i64,
    pub review_decision: Option<String>,
    pub checks_state: Option<String>,
    pub is_author: bool,
    pub is_reviewer: bool,
    pub is_mentioned: bool,
    pub updated_at: i64,
    pub opened_at: Option<i64>,
}

/// One row of the event log, as far as the unread markers need it.
pub struct EventRecord {
    pub subject_type: String,
    pub subject_id: String,
    pub kind: String,
    pub occurred_at: i64,
}

/// A pull request as the Desk shows it.
pub struct PullRequestRow {
    pub id: String,
    pub repo: String,
    pub number: i64,
    pub title: String,
    pub url: String,
    pub author: Option<String>,
    pub author_avatar: Option<String>,
    pub is_draft: bool,
    pub additions: i64,
    pub deletions: i64,
    pub changed_files: i64,
    pub comment_count: i64,
    pub review_decision: Option<String>,
    pub checks_state: Option<String>,
    pub is_author: bool,
    pub is_reviewer: bool,
    pub is_mentioned: bool,
    pub updated_at: i64,
    /// Which lane this belongs in — computed here, never stored.
    pub lane: String,
    /// Transitions since you last opened it, newest first.
    pub unread: Vec<String>,
}

/// The most transitions a card lists.
pub const UNREAD_LIMIT: usize = 6;

/// Whether an event is about pull request `id` and happened after `since`.
pub open spec fn is_unread_for(e: EventRecord, id: Seq<char>, since: int) -> bool {
    e.subject_type@ == "pull_request"@ && e.subject_id@ == id && e.occurred_at > since
}

/// The kinds of all events about `id` after `since`, in log order.
pub open spec fn unread_kinds(events: Seq<EventRecord>, id: Seq<char>, since: int) -> Seq<Seq<char>>
    decreases events.len(),
{
    if events.len() == 0 {
        Seq::empty()
    } else {
        let rest = unread_kinds(events.drop_last(), id, since);
        if is_unread_for(events.last(), id, since) {
            rest.push(events.last().kind@)
        } else {
            rest
        }
    }
}

/// At most the first `UNREAD_LIMIT` entries.
pub open spec fn first_few<A>(s: Seq<A>) -> Seq<A> {
    if s.len() <= UNREAD_LIMIT {
        s
    } else {
        s.take(UNREAD_LIMIT as int)
    }
}

/// "What changed since you looked": the kinds of the first `UNREAD_LIMIT`
/// events about pull request `id` that occurred after `since`, taken from
/// `events` in the order given (the log, newest first).
pub fn unread(events: &Vec<EventRecord>, id: &String, since: i64) -> (r: Vec<String>)
    ensures
        texts(r@) == first_few(unread_kinds(events@, id@, since as int)),
{
    let mut out: Vec<String> = Vec::new();
    let pull_request = String::from_str("pull_request");
    let mut i: usize = 0;
    while i < events.len()
        invariant
            i <= events@.len(),
            pull_request@ == "pull_request"@,
            texts(out@) == first_few(unread_kinds(events@.take(i as int), id@, since as int)),
        decreases events@.len() - i,
    {
        let e = &events[i];
        assert(events@.take(i + 1).drop_last() =~= events@.take(i as int));
        let ghost all = unread_kinds(events@.take(i as int), id@, since as int);
        if e.subject_type == pull_request && e.subject_id == *id && e.occurred_at > since {
            let ghost before = out@;
            if out.len() < UNREAD_LIMIT {
                out.push(e.kind.clone());
                assert(texts(out@) =~= texts(before).push(e.kind@));
                assert(all.len() < UNREAD_LIMIT);
                assert(first_few(all.push(e.kind@)) =~= all.push(e.kind@));
            } else {
                assert(first_few(all.push(e.kind@)) =~= first_few(all));
            }
        }
        i = i + 1;
    }
    assert(events@.take(i as int) =~= events@);
    out
}

/// `row` shows `record`, in the lane its flags put it, with the unread
/// markers that `events` (newest first) hold for it.
pub open spec fn shows(row: PullRequestRow, record: PullRequestRecord, events: Seq<EventRecord>) -> bool {
    &&& row.id == record.id
    &&& row.repo == record.repo
    &&& row.number == record.number
    &&& row.title == record.title
    &&& row.url == record.url
    &&& row.author == record.author
    &&& row.author_avatar == record.author_avatar
    &&& row.is_draft == record.is_draft
    &&& row.additions == record.additions
    &&& row.deletions == record.deletions
    &&& row.changed_files == record.changed_files
    &&& row.comment_count == record.comment_count
    &&& row.review_decision == record.review_decision
    &&& row.checks_state == record.checks_state
    &&& row.is_author == record.is_author
    &&& row.is_reviewer == record.is_reviewer
    &&& row.is_mentioned == record.is_mentioned
    &&& row.updated_at == record.updated_at
    &&& row.lane@ == lane_spec(record.is_author, record.is_reviewer, record.is_mentioned)
    &&& texts(row.unread@) == first_few(unread_kinds(
        events,
        record.id@,
        match record.opened_at {
            Some(t) => t as int,
            None => 0,
        },
    ))
}

/// Nothing is unread exactly when no event about `id` came after `since`.
proof fn lemma_unread_empty(events: Seq<EventRecord>, id: Seq<char>, since: int)
    ensures
        unread_kinds(events, id, since).len() == 0
            <==> forall|i: int| 0 <= i < events.len() ==> !is_unread_for(#[trigger] events[i], id, since),
    decreases events.len(),
{
    if events.len() > 0 {
        let pre = events.drop_last();
        lemma_unread_empty(pre, id, since);
        assert forall|i: int| 0 <= i < pre.len() implies pre[i] == events[i] by {}
        assert(events[events.len() - 1] == events.last());
        if (forall|i: int| 0 <= i < pre.len() ==> !is_unread_for(#[trigger] pre[i], id, since)) {
            assert forall|i: int| 0 <= i < events.len() - 1 implies !is_unread_for(#[trigger] events[i], id, since) by {
                assert(pre[i] == events[i]);
            }
        } else {
            let j = choose|j: int| 0 <= j < pre.len() && is_unread_for(#[trigger] pre[j], id, since);
            assert(is_unread_for(events[j], id, since));
        }
    }
}

/// The markers of a card are the kinds of exactly the events about that
/// pull request that occurred after `since`, in the log's order: no event
/// about another subject, and none from before.
pub proof fn lemma_unread_is_the_newer_events(events: Seq<EventRecord>, id: Seq<char>, since: int)
    ensures
        unread_kinds(events, id, since) == events.filter(|e: EventRecord|
            e.subject_type@ == "pull_request"@ && e.subject_id@ == id && e.occurred_at > since).map_values(
            |e: EventRecord| e.kind@),
    decreases events.len(),
{
    reveal_with_fuel(Seq::filter, 2);
    let p = |e: EventRecord| e.subject_type@ == "pull_request"@ && e.subject_id@ == id && e.occurred_at > since;
    if events.len() == 0 {
        assert(events.filter(p) =~= Seq::<EventRecord>::empty());
        assert(unread_kinds(events, id, since) =~= Seq::<Seq<char>>::empty());
    } else {
        lemma_unread_is_the_newer_events(events.drop_last(), id, since);
        let f = events.drop_last().filter(p);
        if p(events.last()) {
            assert(events.filter(p) == f.push(events.last()));
            assert(f.push(events.last()).map_values(|e: EventRecord| e.kind@)
                =~= f.map_values(|e: EventRecord| e.kind@).push(events.last().kind@));
        } else {
            assert(events.filter(p) == f);
        }
    }
}

/// Opening a pull request at `t` clears its card: shown with `t` as its
/// opening time, it lists no unread markers until an event about it occurs
/// after `t`, and once one has, the card lists it again.
pub proof fn lemma_opening_clears_unread(row: PullRequestRow, record: PullRequestRecord, events: Seq<EventRecord>, t: i64)
    requires
        record.opened_at == Some(t),
        shows(row, record, events),
    ensures
        (forall|i: int| 0 <= i < events.len() ==> !is_unread_for(#[trigger] events[i], record.id@, t as int))
            ==> row.unread@.len() == 0,
        (exists|i: int| 0 <= i < events.len() && is_unread_for(#[trigger] events[i], record.id@, t as int))
            ==> row.unread@.len() > 0,
{
    lemma_unread_empty(events, record.id@, t as int);
    let k = unread_kinds(events, record.id@, t as int);
    assert(texts(row.unread@).len() == row.unread@.len());
    if k.len() > 0 {
        assert(first_few(k).len() > 0);
    } else {
        assert(first_few(k).len() == 0);
    }
}

/// The Desk's pull requests, in the order stored (most recently updated
/// first), each with its lane and its unread markers.
pub fn list_pull_requests(records: Vec<PullRequestRecord>, events: &Vec<EventRecord>) -> (r: Vec<PullRequestRow>)
    ensures
        r@.len() == records@.len(),
        forall|i: int| 0 <= i < r@.len() ==> shows(#[trigger] r@[i], records@[i], events@),
{
    let ghost recs = records@;
    let mut out: Vec<PullRequestRow> = Vec::new();
    let mut records = records;
    while records.len() > 0
        invariant
            out@.len() + records@.len() == recs.len(),
            records@ == recs.skip(out@.len() as int),
            forall|i: int| 0 <= i < out@.len() ==> shows(#[trigger] out@[i], recs[i], events@),
        decreases records@.len(),
    {
        let ghost k = out@.len();
        let rec = records.remove(0);
        assert(rec == recs[k as int]);
        assert(records@ =~= recs.skip((k + 1) as int));
        let since = match rec.opened_at {
            Some(t) => t,
            None => 0,
        };
        let unread = unread(events, &rec.id, since);
        let lane = String::from_str(lane_for(rec.is_author, rec.is_reviewer, rec.is_mentioned));
        let row = PullRequestRow {
            id: rec.id,
            repo: rec.repo,
            number: rec.number,
            title: rec.title,
            url: rec.url,
            author: rec.author,
            author_avatar: rec.author_avatar,
            is_draft: rec.is_draft,
            additions: rec.additions,
            deletions: rec.deletions,
            changed_files: rec.changed_files,
            comment_count: rec.comment_count,
            review_decision: rec.review_decision,
            checks_state: rec.checks_state,
            is_author: rec.is_author,
            is_reviewer: rec.is_reviewer,
            is_mentioned: rec.is_mentioned,
            updated_at: rec.updated_at,
            lane,
            unread,
        };
        out.push(row);
    }
    out
}

} // verus!
