//! Which transitions are worth interrupting you for, and how a backlog of
//! them becomes at most a handful of notifications.

use vstd::prelude::*;
use crate::db::PendingEvent;
use crate::text::{count_string, decimal, decimal_string};

verus! {

/// "owner/repo#12 — title".
pub open spec fn subject_spec(e: PendingEvent) -> Seq<char> {
    e.repo@ + "#"@ + decimal(e.number as int) + " — "@ + e.title@
}

/// Whether `to` holds exactly `lit`.
pub open spec fn is_text(to: Option<String>, lit: Seq<char>) -> bool {
    to matches Some(t) && t@ == lit
}

/// The rank (lower is more important), title and body of the notification
/// an event deserves, or `None` when it should stay silent.
pub open spec fn worth_telling_spec(e: PendingEvent) -> Option<(u8, Seq<char>, Seq<char>)> {
    let subject = subject_spec(e);
    if e.kind@ == "review_requested"@ {
        Some((
            0u8,
            "Review requested"@,
            match e.author {
                Some(a) => "@"@ + a@ + " — "@ + subject,
                None => subject,
            },
        ))
    } else if e.kind@ == "checks"@ && e.is_author && (is_text(e.to_state, "FAILURE"@) || is_text(e.to_state, "ERROR"@)) {
        Some((1u8, "Checks failed"@, "Your PR "@ + subject))
    } else if e.kind@ == "review_decision"@ && e.is_author && is_text(e.to_state, "CHANGES_REQUESTED"@) {
        Some((2u8, "Changes requested"@, "Your PR "@ + subject))
    } else if e.kind@ == "review_decision"@ && e.is_author && is_text(e.to_state, "APPROVED"@) {
        Some((3u8, "Approved"@, "Your PR "@ + subject))
    } else if e.kind@ == "new_comments"@ && (e.is_author || e.is_reviewer) {
        Some((4u8, "New comments"@, subject))
    } else {
        None
    }
}

fn text_is(s: &String, lit: &str) -> (r: bool)
    ensures
        r == (s@ == lit@),
{
    *s == String::from_str(lit)
}

fn opt_text_is(s: &Option<String>, lit: &str) -> (r: bool)
    ensures
        r == is_text(*s, lit@),
{
    match s {
        Some(t) => text_is(t, lit),
        None => false,
    }
}

fn subject(e: &PendingEvent) -> (r: String)
    ensures
        r@ == subject_spec(*e),
{
    let mut s = e.repo.clone();
    s.append("#");
    let n = decimal_string(e.number);
    s.append(n.as_str());
    s.append(" — ");
    s.append(e.title.as_str());
    s
}

fn prefixed(prefix: &str, rest: &String) -> (r: String)
    ensures
        r@ == prefix@ + rest@,
{
    let mut s = String::from_str(prefix);
    s.append(rest.as_str());
    s
}

/// Only four things are worth interrupting you for: a review requested of
/// you, your pull request's checks going red, your pull request being
/// approved or having changes requested, and new comments where you are
/// involved. Everything else is recorded and shown on the card, but silent.
pub fn worth_telling(e: &PendingEvent) -> (r: Option<(u8, String, String)>)
    ensures
        r matches Some(t) ==> worth_telling_spec(*e) == Some((t.0, t.1@, t.2@)),
        r is None ==> worth_telling_spec(*e) is None,
{
    let subject = subject(e);
    if text_is(&e.kind, "review_requested") {
        let body = match &e.author {
            Some(a) => {
                let mut s = prefixed("@", a);
                s.append(" — ");
                s.append(subject.as_str());
                s
            },
            None => subject,
        };
        Some((0, String::from_str("Review requested"), body))
    } else if text_is(&e.kind, "checks") && e.is_author && (opt_text_is(&e.to_state, "FAILURE")
        || opt_text_is(&e.to_state, "ERROR")) {
        Some((1, String::from_str("Checks failed"), prefixed("Your PR ", &subject)))
    } else if text_is(&e.kind, "review_decision") && e.is_author && opt_text_is(&e.to_state, "CHANGES_REQUESTED") {
        Some((2, String::from_str("Changes requested"), prefixed("Your PR ", &subject)))
    } else if text_is(&e.kind, "review_decision") && e.is_author && opt_text_is(&e.to_state, "APPROVED") {
        Some((3, String::from_str("Approved"), prefixed("Your PR ", &subject)))
    } else if text_is(&e.kind, "new_comments") && (e.is_author || e.is_reviewer) {
        Some((4, String::from_str("New comments"), subject))
    } else {
        None
    }
}


/// The notification chosen for one pull request.
pub struct Notice {
    pub pr_id: String,
    pub rank: u8,
    pub title: String,
    pub body: String,
}

/// The content of a notice.
pub type NoticeView = (Seq<char>, u8, Seq<char>, Seq<char>);

impl View for Notice {
    type V = NoticeView;

    open spec fn view(&self) -> NoticeView {
        (self.pr_id@, self.rank, self.title@, self.body@)
    }
}

/// The views of a list of notices.
pub open spec fn notice_views(v: Seq<Notice>) -> Seq<NoticeView> {
    v.map_values(|n: Notice| n@)
}

/// The position of the first notice about `id`, if any.
pub open spec fn position_of(best: Seq<NoticeView>, id: Seq<char>) -> Option<int>
    decreases best.len(),
{
    if best.len() == 0 {
        None
    } else {
        match position_of(best.drop_last(), id) {
            Some(j) => Some(j),
            None => if best.last().0 == id {
                Some(best.len() - 1)
            } else {
                None
            },
        }
    }
}

/// Folds one worthy event into the per-PR choice: a pull request keeps the
/// most important notification seen for it (the earliest among equals), in
/// the place where it first appeared.
pub open spec fn fold_in(best: Seq<NoticeView>, n: NoticeView) -> Seq<NoticeView> {
    match position_of(best, n.0) {
        Some(j) => if n.1 < best[j].1 {
            best.update(j, n)
        } else {
            best
        },
        None => best.push(n),
    }
}

/// One notice per pull request, from the events in order.
pub open spec fn notices_spec(pending: Seq<PendingEvent>) -> Seq<NoticeView>
    decreases pending.len(),
{
    if pending.len() == 0 {
        Seq::empty()
    } else {
        let best = notices_spec(pending.drop_last());
        let e = pending.last();
        match worth_telling_spec(e) {
            Some(t) => fold_in(best, (e.pr_id@, t.0, t.1, t.2)),
            None => best,
        }
    }
}

fn position(best: &Vec<Notice>, id: &String) -> (r: Option<usize>)
    ensures
        r matches Some(j) ==> position_of(notice_views(best@), id@) == Some(j as int) && j < best@.len(),
        r is None ==> position_of(notice_views(best@), id@) is None,
{
    let mut i: usize = 0;
    while i < best.len()
        invariant
            i <= best@.len(),
            position_of(notice_views(best@).take(i as int), id@) is None,
        decreases best@.len() - i,
    {
        assert(notice_views(best@).take(i + 1).drop_last() =~= notice_views(best@).take(i as int));
        if best[i].pr_id == *id {
            proof { lemma_position_extends(notice_views(best@), id@, i as int); }
            return Some(i);
        }
        i = i + 1;
    }
    assert(notice_views(best@).take(i as int) =~= notice_views(best@));
    None
}

proof fn lemma_position_extends(s: Seq<NoticeView>, id: Seq<char>, i: int)
    requires
        0 <= i < s.len(),
        position_of(s.take(i), id) is None,
        s[i].0 == id,
    ensures
        position_of(s, id) == Some(i),
    decreases s.len(),
{
    if i == s.len() - 1 {
        assert(s.drop_last() =~= s.take(i));
    } else {
        assert(s.drop_last().take(i) =~= s.take(i));
        lemma_position_extends(s.drop_last(), id, i);
    }
}

/// One notification per pull request, not per event: twelve check updates
/// on one pull request is one thing happening, not twelve. Each pull request
/// keeps the most important notification its events deserve.
pub fn notices(pending: &Vec<PendingEvent>) -> (r: Vec<Notice>)
    ensures
        notice_views(r@) == notices_spec(pending@),
{
    let mut best: Vec<Notice> = Vec::new();
    let mut i: usize = 0;
    while i < pending.len()
        invariant
            i <= pending@.len(),
            notice_views(best@) == notices_spec(pending@.take(i as int)),
        decreases pending@.len() - i,
    {
        let e = &pending[i];
        assert(pending@.take(i + 1).drop_last() =~= pending@.take(i as int));
        match worth_telling(e) {
            Some((rank, title, body)) => {
                let ghost before = notice_views(best@);
                let n = Notice { pr_id: e.pr_id.clone(), rank, title, body };
                assert(n@ == (e.pr_id@, rank, title@, body@));
                match position(&best, &e.pr_id) {
                    Some(j) => {
                        if rank < best[j].rank {
                            best.set(j, n);
                            assert(notice_views(best@) =~= before.update(j as int, n@));
                        }
                    },
                    None => {
                        best.push(n);
                        assert(notice_views(best@) =~= before.push(n@));
                    },
                }
            },
            None => {},
        }
        i = i + 1;
    }
    assert(pending@.take(i as int) =~= pending@);
    best
}


/// The notices of rank `k`, in order.
pub open spec fn with_rank(best: Seq<NoticeView>, k: u8) -> Seq<NoticeView>
    decreases best.len(),
{
    if best.len() == 0 {
        Seq::empty()
    } else {
        let rest = with_rank(best.drop_last(), k);
        if best.last().1 == k {
            rest.push(best.last())
        } else {
            rest
        }
    }
}

/// The notices ordered by rank, keeping the order of equals: a stable sort,
/// since every rank is one of 0 through 4.
pub open spec fn by_rank(best: Seq<NoticeView>) -> Seq<NoticeView> {
    with_rank(best, 0) + with_rank(best, 1) + with_rank(best, 2) + with_rank(best, 3) + with_rank(best, 4)
}

/// The most separate notifications sent at once; past this, one summary.
pub const MAX_SEPARATE: usize = 3;

/// The (title, body) of every notification to show, in order.
pub open spec fn flush_spec(pending: Seq<PendingEvent>, send_them: bool) -> Seq<(Seq<char>, Seq<char>)> {
    let best = notices_spec(pending);
    if !send_them || best.len() == 0 {
        Seq::empty()
    } else if best.len() > MAX_SEPARATE {
        seq![("Workbench"@, decimal(best.len() as int) + " pull requests changed while you were away"@)]
    } else {
        by_rank(best).map_values(|n: NoticeView| (n.2, n.3))
    }
}

fn ranked(best: &Vec<Notice>, k: u8, out: &mut Vec<(String, String)>)
    ensures
        final(out)@.map_values(|p: (String, String)| (p.0@, p.1@))
            == old(out)@.map_values(|p: (String, String)| (p.0@, p.1@))
            + with_rank(notice_views(best@), k).map_values(|n: NoticeView| (n.2, n.3)),
{
    let ghost start = old(out)@.map_values(|p: (String, String)| (p.0@, p.1@));
    let mut i: usize = 0;
    while i < best.len()
        invariant
            i <= best@.len(),
            out@.map_values(|p: (String, String)| (p.0@, p.1@))
                == start + with_rank(notice_views(best@).take(i as int), k).map_values(|n: NoticeView| (n.2, n.3)),
        decreases best@.len() - i,
    {
        assert(notice_views(best@).take(i + 1).drop_last() =~= notice_views(best@).take(i as int));
        let ghost before = out@.map_values(|p: (String, String)| (p.0@, p.1@));
        let ghost w = with_rank(notice_views(best@).take(i as int), k);
        if best[i].rank == k {
            out.push((best[i].title.clone(), best[i].body.clone()));
            assert(out@.map_values(|p: (String, String)| (p.0@, p.1@)) =~= before.push((best@[i as int].title@, best@[i as int].body@)));
            assert(w.push(notice_views(best@)[i as int]).map_values(|n: NoticeView| (n.2, n.3))
                =~= w.map_values(|n: NoticeView| (n.2, n.3)).push((best@[i as int].title@, best@[i as int].body@)));
        }
        i = i + 1;
    }
    assert(notice_views(best@).take(i as int) =~= notice_views(best@));
}

/// Turns the outstanding event log into at most a handful of notifications:
/// the (title, body) of each, in the order to show them.
///
/// `send_them` is false when you are already looking at the app — the Desk's
/// own markers say the same thing without a banner over your editor.
pub fn flush(pending: &Vec<PendingEvent>, send_them: bool) -> (r: Vec<(String, String)>)
    ensures
        r@.map_values(|p: (String, String)| (p.0@, p.1@)) == flush_spec(pending@, send_them),
{
    let mut out: Vec<(String, String)> = Vec::new();
    if !send_them || pending.len() == 0 {
        if send_them {
            proof { lemma_no_events_no_notices(pending@); }
        }
        assert(out@.map_values(|p: (String, String)| (p.0@, p.1@)) =~= flush_spec(pending@, send_them));
        return out;
    }
    let best = notices(pending);
    if best.len() == 0 {
        assert(out@.map_values(|p: (String, String)| (p.0@, p.1@)) =~= flush_spec(pending@, send_them));
        return out;
    }
    if best.len() > MAX_SEPARATE {
        let mut body = count_string(best.len());
        body.append(" pull requests changed while you were away");
        out.push((String::from_str("Workbench"), body));
        assert(out@.map_values(|p: (String, String)| (p.0@, p.1@)) =~= flush_spec(pending@, send_them));
        return out;
    }
    let ghost bv = notice_views(best@);
    ranked(&best, 0, &mut out);
    ranked(&best, 1, &mut out);
    ranked(&best, 2, &mut out);
    ranked(&best, 3, &mut out);
    ranked(&best, 4, &mut out);
    assert(by_rank(bv).map_values(|n: NoticeView| (n.2, n.3)) =~=
        with_rank(bv, 0).map_values(|n: NoticeView| (n.2, n.3))
        + with_rank(bv, 1).map_values(|n: NoticeView| (n.2, n.3))
        + with_rank(bv, 2).map_values(|n: NoticeView| (n.2, n.3))
        + with_rank(bv, 3).map_values(|n: NoticeView| (n.2, n.3))
        + with_rank(bv, 4).map_values(|n: NoticeView| (n.2, n.3)));
    out
}

proof fn lemma_no_events_no_notices(pending: Seq<PendingEvent>)
    requires
        pending.len() == 0,
    ensures
        notices_spec(pending).len() == 0,
{
}


proof fn lemma_position_of(best: Seq<NoticeView>, id: Seq<char>)
    ensures
        position_of(best, id) matches Some(j) ==> 0 <= j < best.len() && best[j].0 == id,
        position_of(best, id) is None ==> forall|k: int| 0 <= k < best.len() ==> (#[trigger] best[k]).0 != id,
    decreases best.len(),
{
    if best.len() > 0 {
        lemma_position_of(best.drop_last(), id);
        assert forall|k: int| 0 <= k < best.len() - 1 implies best[k] == (#[trigger] best.drop_last()[k]) by {}
        if position_of(best, id) is None {
            assert forall|k: int| 0 <= k < best.len() implies (#[trigger] best[k]).0 != id by {
                if k < best.len() - 1 {
                    assert(best[k] == best.drop_last()[k]);
                }
            }
        }
    }
}

/// The rank of the notification an event deserves (0 when it deserves none).
pub open spec fn told_rank(e: PendingEvent) -> u8 {
    match worth_telling_spec(e) {
        Some(t) => t.0,
        None => 0,
    }
}

/// No two notices are about the same pull request.
pub open spec fn one_per_pull_request(best: Seq<NoticeView>) -> bool {
    forall|i: int, j: int| 0 <= i < j < best.len() ==> (#[trigger] best[i]).0 != (#[trigger] best[j]).0
}

/// Every rank is one of the five there are.
pub open spec fn ranks_known(best: Seq<NoticeView>) -> bool {
    forall|i: int| 0 <= i < best.len() ==> (#[trigger] best[i]).1 <= 4
}

/// The notice kept for each pull request is at least as important as any
/// notification an event about it deserves.
pub open spec fn most_important_kept(best: Seq<NoticeView>, pending: Seq<PendingEvent>) -> bool {
    forall|i: int, k: int|
        0 <= i < best.len() && 0 <= k < pending.len() && (#[trigger] pending[k]).pr_id@ == (#[trigger] best[i]).0
            && worth_telling_spec(pending[k]) is Some ==> best[i].1 <= told_rank(pending[k])
}

/// Every event that deserves a notification is represented by one.
pub open spec fn every_pull_request_told(best: Seq<NoticeView>, pending: Seq<PendingEvent>) -> bool {
    forall|k: int| 0 <= k < pending.len() && worth_telling_spec(#[trigger] pending[k]) is Some
        ==> exists|i: int| 0 <= i < best.len() && (#[trigger] best[i]).0 == pending[k].pr_id@
}

/// Only four things are worth interrupting you for.
pub proof fn lemma_only_four_things(e: PendingEvent)
    ensures
        worth_telling_spec(e) is Some ==> e.kind@ == "review_requested"@ || e.kind@ == "checks"@
            || e.kind@ == "review_decision"@ || e.kind@ == "new_comments"@,
        worth_telling_spec(e) matches Some(t) ==> t.0 <= 4,
{
}

/// One notification per pull request — the most important its events
/// deserve — and one for every pull request with an event worth telling.
pub proof fn lemma_coalescing(pending: Seq<PendingEvent>)
    ensures
        one_per_pull_request(notices_spec(pending)),
        ranks_known(notices_spec(pending)),
        most_important_kept(notices_spec(pending), pending),
        every_pull_request_told(notices_spec(pending), pending),
    decreases pending.len(),
{
    if pending.len() > 0 {
        let pre = pending.drop_last();
        lemma_coalescing(pre);
        let best = notices_spec(pre);
        let e = pending.last();
        let last = pending.len() - 1;
        assert forall|k: int| 0 <= k < pre.len() implies #[trigger] pending[k] == pre[k] by {}
        match worth_telling_spec(e) {
            Some(t) => {
                let n: NoticeView = (e.pr_id@, t.0, t.1, t.2);
                lemma_position_of(best, n.0);
                let after = fold_in(best, n);
                assert(after == notices_spec(pending));
                assert(one_per_pull_request(after));
                assert(ranks_known(after));
                assert forall|i: int, k: int|
                    0 <= i < after.len() && 0 <= k < pending.len() && (#[trigger] pending[k]).pr_id@ == (#[trigger] after[i]).0
                        && worth_telling_spec(pending[k]) is Some implies after[i].1 <= told_rank(pending[k]) by {
                    if k < last {
                        assert(pending[k] == pre[k]);
                        match position_of(best, n.0) {
                            Some(j) => {
                                if i == j && n.1 < best[j].1 {
                                    assert(best[j].1 <= told_rank(pre[k]));
                                } else {
                                    assert(after[i] == best[i]);
                                }
                            },
                            None => {
                                if i < best.len() {
                                    assert(after[i] == best[i]);
                                } else {
                                    assert(after[i] == n);
                                    assert(pre[k].pr_id@ == n.0);
                                    assert(exists|q: int| 0 <= q < best.len() && (#[trigger] best[q]).0 == pre[k].pr_id@);
                                    let q = choose|q: int| 0 <= q < best.len() && (#[trigger] best[q]).0 == pre[k].pr_id@;
                                    assert(best[q].0 != n.0);
                                }
                            },
                        }
                    } else {
                        assert(pending[k] == e);
                        match position_of(best, n.0) {
                            Some(j) => {
                                if i != j {
                                    assert(after[i] == best[i]);
                                    assert(best[i].0 == best[j].0);
                                }
                            },
                            None => {
                                if i < best.len() {
                                    assert(after[i] == best[i]);
                                }
                            },
                        }
                    }
                }
                assert forall|k: int| 0 <= k < pending.len() && worth_telling_spec(#[trigger] pending[k]) is Some
                    implies exists|i: int| 0 <= i < after.len() && (#[trigger] after[i]).0 == pending[k].pr_id@ by {
                    if k < last {
                        assert(pending[k] == pre[k]);
                        let q = choose|q: int| 0 <= q < best.len() && (#[trigger] best[q]).0 == pre[k].pr_id@;
                        assert(after[q].0 == best[q].0);
                    } else {
                        match position_of(best, n.0) {
                            Some(j) => {
                                assert(after[j].0 == n.0);
                            },
                            None => {
                                assert(after[best.len() as int] == n);
                            },
                        }
                    }
                }
            },
            None => {
                assert(notices_spec(pending) == best);
                assert forall|k: int| 0 <= k < pending.len() && worth_telling_spec(#[trigger] pending[k]) is Some
                    implies exists|i: int| 0 <= i < best.len() && (#[trigger] best[i]).0 == pending[k].pr_id@ by {
                    assert(k < last);
                    assert(pending[k] == pre[k]);
                }
                assert forall|i: int, k: int|
                    0 <= i < best.len() && 0 <= k < pending.len() && (#[trigger] pending[k]).pr_id@ == (#[trigger] best[i]).0
                        && worth_telling_spec(pending[k]) is Some implies best[i].1 <= told_rank(pending[k]) by {
                    assert(k < last);
                    assert(pending[k] == pre[k]);
                }
            },
        }
    }
}

proof fn lemma_ranks_cover(best: Seq<NoticeView>)
    requires
        ranks_known(best),
    ensures
        by_rank(best).len() == best.len(),
    decreases best.len(),
{
    if best.len() > 0 {
        lemma_ranks_cover(best.drop_last());
        assert(best.last().1 <= 4);
    }
}

/// Nothing outstanding, nothing sent — which is how the first sync, whose
/// backlog is marked as told, stays silent.
pub proof fn lemma_nothing_pending_nothing_sent(send_them: bool)
    ensures
        flush_spec(Seq::empty(), send_them).len() == 0,
{
}

/// Never a notification while you are looking at the app.
pub proof fn lemma_silent_while_looking(pending: Seq<PendingEvent>)
    ensures
        flush_spec(pending, false).len() == 0,
{
}

/// Never more than three notifications at once: past three pull requests,
/// one summary says how many changed.
pub proof fn lemma_never_a_stack_of_banners(pending: Seq<PendingEvent>, send_them: bool)
    ensures
        flush_spec(pending, send_them).len() <= MAX_SEPARATE,
        notices_spec(pending).len() > MAX_SEPARATE && send_them ==> flush_spec(pending, send_them).len() == 1,
        notices_spec(pending).len() <= MAX_SEPARATE && send_them
            ==> flush_spec(pending, send_them).len() == notices_spec(pending).len(),
{
    lemma_coalescing(pending);
    lemma_ranks_cover(notices_spec(pending));
}


/// What each kind of event is worth, over every event. A review requested of
/// you is always told, naming who asked; checks going red and a review
/// decision (changes requested, or approved) are told only of a pull request
/// you opened; new comments only where you opened or review it; anything
/// else never.
pub proof fn lemma_what_is_worth_telling(e: PendingEvent)
    ensures
        ({
            let subject = e.repo@ + "#"@ + decimal(e.number as int) + " — "@ + e.title@;
            &&& e.kind@ == "review_requested"@ ==> worth_telling_spec(e) == Some((0u8, "Review requested"@,
                    match e.author {
                        Some(a) => "@"@ + a@ + " — "@ + subject,
                        None => subject,
                    }))
            &&& e.kind@ == "checks"@ ==> (worth_telling_spec(e) is Some
                    <==> e.is_author && (is_text(e.to_state, "FAILURE"@) || is_text(e.to_state, "ERROR"@)))
            &&& e.kind@ == "checks"@ && worth_telling_spec(e) is Some
                    ==> worth_telling_spec(e) == Some((1u8, "Checks failed"@, "Your PR "@ + subject))
            &&& e.kind@ == "review_decision"@ ==> (worth_telling_spec(e) is Some
                    <==> e.is_author && (is_text(e.to_state, "CHANGES_REQUESTED"@) || is_text(e.to_state, "APPROVED"@)))
            &&& e.kind@ == "review_decision"@ && e.is_author && is_text(e.to_state, "CHANGES_REQUESTED"@)
                    ==> worth_telling_spec(e) == Some((2u8, "Changes requested"@, "Your PR "@ + subject))
            &&& e.kind@ == "review_decision"@ && e.is_author && is_text(e.to_state, "APPROVED"@)
                    ==> worth_telling_spec(e) == Some((3u8, "Approved"@, "Your PR "@ + subject))
            &&& e.kind@ == "new_comments"@ ==> (worth_telling_spec(e) is Some <==> e.is_author || e.is_reviewer)
            &&& e.kind@ == "new_comments"@ && (e.is_author || e.is_reviewer)
                    ==> worth_telling_spec(e) == Some((4u8, "New comments"@, subject))
            &&& e.kind@ != "review_requested"@ && e.kind@ != "checks"@ && e.kind@ != "review_decision"@
                    && e.kind@ != "new_comments"@ ==> worth_telling_spec(e) is None
        }),
{
    reveal_strlit("review_requested");
    reveal_strlit("checks");
    reveal_strlit("review_decision");
    reveal_strlit("new_comments");
    reveal_strlit("FAILURE");
    reveal_strlit("ERROR");
    reveal_strlit("CHANGES_REQUESTED");
    reveal_strlit("APPROVED");
    assert("review_requested"@.len() == 16);
    assert("checks"@.len() == 6);
    assert("review_decision"@.len() == 15);
    assert("new_comments"@.len() == 12);
    assert("CHANGES_REQUESTED"@.len() == 17);
    assert("APPROVED"@.len() == 8);
}

/// A banner that says "Your PR" is only ever about a pull request you
/// opened: checks and review decisions on anyone else's stay silent.
pub proof fn lemma_your_pr_is_yours(e: PendingEvent)
    ensures
        (e.kind@ == "checks"@ || e.kind@ == "review_decision"@) && worth_telling_spec(e) is Some ==> e.is_author,
        worth_telling_spec(e) matches Some(t) && 1 <= t.0 <= 3 ==> e.is_author,
{
    lemma_what_is_worth_telling(e);
}

/// The pull requests with at least one event worth telling.
pub open spec fn told_pull_requests(pending: Seq<PendingEvent>) -> Set<Seq<char>> {
    Set::new(|id: Seq<char>| exists|k: int| 0 <= k < pending.len() && (#[trigger] pending[k]).pr_id@ == id
        && worth_telling_spec(pending[k]) is Some)
}

/// Every notice stands for a pull request with an event worth telling.
proof fn lemma_notices_come_from_events(pending: Seq<PendingEvent>)
    ensures
        forall|i: int| 0 <= i < notices_spec(pending).len() ==> exists|k: int| 0 <= k < pending.len()
            && (#[trigger] pending[k]).pr_id@ == (#[trigger] notices_spec(pending)[i]).0 && worth_telling_spec(pending[k]) is Some,
    decreases pending.len(),
{
    if pending.len() > 0 {
        let pre = pending.drop_last();
        lemma_notices_come_from_events(pre);
        let best = notices_spec(pre);
        let e = pending.last();
        let last = pending.len() - 1;
        assert forall|k: int| 0 <= k < pre.len() implies #[trigger] pending[k] == pre[k] by {}
        match worth_telling_spec(e) {
            Some(t) => {
                let n: NoticeView = (e.pr_id@, t.0, t.1, t.2);
                lemma_position_of(best, n.0);
                let after = fold_in(best, n);
                assert forall|i: int| 0 <= i < after.len() implies exists|k: int| 0 <= k < pending.len()
                    && (#[trigger] pending[k]).pr_id@ == (#[trigger] after[i]).0 && worth_telling_spec(pending[k]) is Some by {
                    assert(pending[last] == e);
                    if i < best.len() && after[i].0 == best[i].0 {
                        let k = choose|k: int| 0 <= k < pre.len() && (#[trigger] pre[k]).pr_id@ == best[i].0
                            && worth_telling_spec(pre[k]) is Some;
                        assert(pending[k] == pre[k]);
                    } else {
                        assert(after[i].0 == n.0);
                    }
                }
            },
            None => {
                assert forall|i: int| 0 <= i < best.len() implies exists|k: int| 0 <= k < pending.len()
                    && (#[trigger] pending[k]).pr_id@ == (#[trigger] best[i]).0 && worth_telling_spec(pending[k]) is Some by {
                    let k = choose|k: int| 0 <= k < pre.len() && (#[trigger] pre[k]).pr_id@ == best[i].0
                        && worth_telling_spec(pre[k]) is Some;
                    assert(pending[k] == pre[k]);
                }
            },
        }
    }
}

/// One notice per pull request: there are exactly as many notices as pull
/// requests with an event worth telling, however many events each has and
/// however many deserve nothing.
pub proof fn lemma_one_notice_per_told_pull_request(pending: Seq<PendingEvent>)
    ensures
        told_pull_requests(pending).finite(),
        notices_spec(pending).len() == told_pull_requests(pending).len(),
{
    let best = notices_spec(pending);
    let ids = best.map_values(|n: NoticeView| n.0);
    lemma_coalescing(pending);
    lemma_notices_come_from_events(pending);
    assert(ids.no_duplicates()) by {
        assert forall|i: int, j: int| 0 <= i < ids.len() && 0 <= j < ids.len() && i != j implies ids[i] != ids[j] by {
            if i < j {
                assert(best[i].0 != best[j].0);
            } else {
                assert(best[j].0 != best[i].0);
            }
        }
    }
    ids.unique_seq_to_set();
    vstd::seq_lib::seq_to_set_is_finite(ids);
    assert(ids.to_set() =~= told_pull_requests(pending)) by {
        assert forall|id: Seq<char>| ids.to_set().contains(id) implies told_pull_requests(pending).contains(id) by {
            let i = choose|i: int| 0 <= i < ids.len() && ids[i] == id;
            assert(ids[i] == best[i].0);
            let k = choose|k: int| 0 <= k < pending.len()
                && (#[trigger] pending[k]).pr_id@ == best[i].0 && worth_telling_spec(pending[k]) is Some;
        }
        assert forall|id: Seq<char>| told_pull_requests(pending).contains(id) implies ids.to_set().contains(id) by {
            let k = choose|k: int| 0 <= k < pending.len() && (#[trigger] pending[k]).pr_id@ == id
                && worth_telling_spec(pending[k]) is Some;
            let i = choose|i: int| 0 <= i < best.len() && (#[trigger] best[i]).0 == pending[k].pr_id@;
            assert(ids[i] == id);
        }
    }
}

/// Past three pull requests, the one summary sent counts pull requests, not
/// events: its number is how many pull requests have an event worth telling.
/// At three or fewer, each gets a notification of its own.
pub proof fn lemma_summary_counts_pull_requests(pending: Seq<PendingEvent>, send_them: bool)
    ensures
        send_them && told_pull_requests(pending).len() > MAX_SEPARATE ==> flush_spec(pending, send_them)
            == seq![("Workbench"@, decimal(told_pull_requests(pending).len() as int)
                + " pull requests changed while you were away"@)],
        send_them && told_pull_requests(pending).len() <= MAX_SEPARATE
            ==> flush_spec(pending, send_them).len() == told_pull_requests(pending).len(),
{
    lemma_one_notice_per_told_pull_request(pending);
    lemma_never_a_stack_of_banners(pending, send_them);
}


proof fn lemma_with_rank_is_rank(best: Seq<NoticeView>, k: u8)
    ensures
        forall|i: int| 0 <= i < with_rank(best, k).len() ==> (#[trigger] with_rank(best, k)[i]).1 == k,
    decreases best.len(),
{
    if best.len() > 0 {
        lemma_with_rank_is_rank(best.drop_last(), k);
        let rest = with_rank(best.drop_last(), k);
        assert forall|i: int| 0 <= i < with_rank(best, k).len() implies (#[trigger] with_rank(best, k)[i]).1 == k by {
            if i < rest.len() {
                assert(with_rank(best, k)[i] == rest[i]);
            }
        }
    }
}

proof fn lemma_by_rank_keeps_notices(best: Seq<NoticeView>)
    requires
        ranks_known(best),
    ensures
        by_rank(best).to_multiset() == best.to_multiset(),
    decreases best.len(),
{
    broadcast use vstd::multiset::group_multiset_axioms, vstd::seq_lib::lemma_multiset_commutative,
        vstd::seq_lib::to_multiset_build;

    if best.len() == 0 {
        assert(by_rank(best) =~= Seq::<NoticeView>::empty());
        assert(best =~= Seq::<NoticeView>::empty());
        assert(by_rank(best).to_multiset() =~= best.to_multiset());
    } else {
        let pre = best.drop_last();
        let n = best.last();
        assert(ranks_known(pre)) by {
            assert forall|i: int| 0 <= i < pre.len() implies (#[trigger] pre[i]).1 <= 4 by {
                assert(pre[i] == best[i]);
            }
        }
        lemma_by_rank_keeps_notices(pre);
        assert(n.1 <= 4) by {
            assert(best[best.len() - 1] == n);
        }
        assert(pre.push(n) =~= best);
        let w0 = with_rank(pre, 0);
        let w1 = with_rank(pre, 1);
        let w2 = with_rank(pre, 2);
        let w3 = with_rank(pre, 3);
        let w4 = with_rank(pre, 4);
        assert(by_rank(pre).to_multiset() =~= w0.to_multiset().add(w1.to_multiset()).add(w2.to_multiset())
            .add(w3.to_multiset()).add(w4.to_multiset()));
        let v0 = with_rank(best, 0);
        let v1 = with_rank(best, 1);
        let v2 = with_rank(best, 2);
        let v3 = with_rank(best, 3);
        let v4 = with_rank(best, 4);
        assert(by_rank(best).to_multiset() =~= v0.to_multiset().add(v1.to_multiset()).add(v2.to_multiset())
            .add(v3.to_multiset()).add(v4.to_multiset()));
        assert(best.drop_last() == pre);
        assert(v0 == (if n.1 == 0 { w0.push(n) } else { w0 }));
        assert(v1 == (if n.1 == 1 { w1.push(n) } else { w1 }));
        assert(v2 == (if n.1 == 2 { w2.push(n) } else { w2 }));
        assert(v3 == (if n.1 == 3 { w3.push(n) } else { w3 }));
        assert(v4 == (if n.1 == 4 { w4.push(n) } else { w4 }));
        assert(best.to_multiset() =~= pre.to_multiset().insert(n));
        assert(by_rank(best).to_multiset() =~= by_rank(pre).to_multiset().insert(n));
        assert(by_rank(best).to_multiset() =~= best.to_multiset());
    }
}

/// Most important first: when each pull request gets a notification of its
/// own, they are sent in order of importance — review requests, then failed
/// checks, changes requested, approvals, and comments — the same notices and
/// no others.
pub proof fn lemma_most_important_first(pending: Seq<PendingEvent>, send_them: bool)
    ensures
        forall|i: int, j: int| 0 <= i < j < by_rank(notices_spec(pending)).len()
            ==> (#[trigger] by_rank(notices_spec(pending))[i]).1 <= (#[trigger] by_rank(notices_spec(pending))[j]).1,
        by_rank(notices_spec(pending)).to_multiset() == notices_spec(pending).to_multiset(),
        send_them && 0 < notices_spec(pending).len() <= MAX_SEPARATE ==> flush_spec(pending, send_them)
            == by_rank(notices_spec(pending)).map_values(|n: NoticeView| (n.2, n.3)),
{
    let best = notices_spec(pending);
    lemma_coalescing(pending);
    lemma_by_rank_keeps_notices(best);
    lemma_with_rank_is_rank(best, 0);
    lemma_with_rank_is_rank(best, 1);
    lemma_with_rank_is_rank(best, 2);
    lemma_with_rank_is_rank(best, 3);
    lemma_with_rank_is_rank(best, 4);
    let w0 = with_rank(best, 0);
    let w1 = with_rank(best, 1);
    let w2 = with_rank(best, 2);
    let w3 = with_rank(best, 3);
    let w4 = with_rank(best, 4);
    let s = by_rank(best);
    let c1 = w0.len() as int;
    let c2 = c1 + w1.len();
    let c3 = c2 + w2.len();
    let c4 = c3 + w3.len();
    assert forall|i: int| 0 <= i < s.len() implies (#[trigger] s[i]).1 == (if i < c1 { 0u8 } else if i < c2 { 1u8 }
        else if i < c3 { 2u8 } else if i < c4 { 3u8 } else { 4u8 }) by {
        if i < c1 {
            assert(s[i] == w0[i]);
        } else if i < c2 {
            assert(s[i] == w1[i - c1]);
        } else if i < c3 {
            assert(s[i] == w2[i - c2]);
        } else if i < c4 {
            assert(s[i] == w3[i - c3]);
        } else {
            assert(s[i] == w4[i - c4]);
        }
    }
    assert forall|i: int, j: int| 0 <= i < j < s.len() implies (#[trigger] s[i]).1 <= (#[trigger] s[j]).1 by {
        assert(s[i].1 == (if i < c1 { 0u8 } else if i < c2 { 1u8 } else if i < c3 { 2u8 } else if i < c4 { 3u8 } else { 4u8 }));
        assert(s[j].1 == (if j < c1 { 0u8 } else if j < c2 { 1u8 } else if j < c3 { 2u8 } else if j < c4 { 3u8 } else { 4u8 }));
    }
}

} // verus!
