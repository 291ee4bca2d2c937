//! What the webview is shown: the Desk's lanes, a note with its footer, the
//! settings page — and what it may ask for.

use vstd::prelude::*;
use crate::db::{lane_spec, Account, Note, PullRequestRow};
use crate::error::Error;
use crate::notes::{done_count, lines_spec, open_count, tally};
use crate::text::{chars_of, concat, string_of, texts, trim, trim_text, starts_with_text};

verus! {

pub struct AppInfo {
    pub version: String,
    pub db_path: String,
    pub schema_version: i64,
    pub api_base: String,
    pub web_base: String,
    pub provider: String,
    pub client_id_configured: bool,
}

pub struct DeskView {
    pub needs_you: Vec<PullRequestRow>,
    pub yours: Vec<PullRequestRow>,
    pub watching: Vec<PullRequestRow>,
    pub last_synced_at: Option<i64>,
    /// Organisations this token can actually see. An org you work in that is
    /// missing here has not approved the app, and its pull requests will be
    /// absent from search with no error of any kind.
    pub visible_orgs: Vec<String>,
    /// Where to go and fix that.
    pub org_access_url: Option<String>,
}

/// The rows of `rows` in lane `lane`, in order.
pub open spec fn in_lane(rows: Seq<PullRequestRow>, lane: Seq<char>) -> Seq<PullRequestRow>
    decreases rows.len(),
{
    if rows.len() == 0 {
        Seq::empty()
    } else {
        let rest = in_lane(rows.drop_last(), lane);
        if rows.last().lane@ == lane {
            rest.push(rows.last())
        } else {
            rest
        }
    }
}

/// The rows in neither of the two named lanes, in order.
pub open spec fn elsewhere(rows: Seq<PullRequestRow>) -> Seq<PullRequestRow>
    decreases rows.len(),
{
    if rows.len() == 0 {
        Seq::empty()
    } else {
        let rest = elsewhere(rows.drop_last());
        if rows.last().lane@ != "needs_you"@ && rows.last().lane@ != "yours"@ {
            rest.push(rows.last())
        } else {
            rest
        }
    }
}

/// Every pull request is shown in exactly one lane: the three lanes
/// together hold as many rows as there are.
pub proof fn lemma_lanes_partition(rows: Seq<PullRequestRow>)
    ensures
        in_lane(rows, "needs_you"@).len() + in_lane(rows, "yours"@).len() + elsewhere(rows).len() == rows.len(),
    decreases rows.len(),
{
    crate::db::lemma_lanes_differ();
    if rows.len() > 0 {
        lemma_lanes_partition(rows.drop_last());
    }
}

/// The pieces of `s` between commas, after the partial piece `cur`, as
/// `str::split(',')` yields them.
pub open spec fn split_commas(s: Seq<char>, cur: Seq<char>) -> Seq<Seq<char>>
    decreases s.len(),
{
    if s.len() == 0 {
        seq![cur]
    } else if s[0] == ',' {
        seq![cur] + split_commas(s.drop_first(), Seq::empty())
    } else {
        split_commas(s.drop_first(), cur.push(s[0]))
    }
}

/// The organisations a stored setting lists: none when the setting is
/// missing or empty, else its comma-separated pieces.
pub open spec fn orgs_spec(setting: Option<Seq<char>>) -> Seq<Seq<char>> {
    match setting {
        Some(s) => if s.len() == 0 {
            Seq::empty()
        } else {
            split_commas(s, Seq::empty())
        },
        None => Seq::empty(),
    }
}

/// The organisations listed in the stored setting.
pub fn visible_orgs(setting: &Option<String>) -> (r: Vec<String>)
    ensures
        texts(r@) == orgs_spec(setting.deep_view()),
{
    let mut out: Vec<String> = Vec::new();
    match setting {
        None => {
            assert(texts(out@) =~= Seq::<Seq<char>>::empty());
            out
        },
        Some(s) => {
            let v = chars_of(s.as_str());
            if v.len() == 0 {
                assert(texts(out@) =~= Seq::<Seq<char>>::empty());
                return out;
            }
            let mut cur: Vec<char> = Vec::new();
            let mut i: usize = 0;
            assert(v@.skip(0) =~= v@);
            assert(texts(out@) =~= Seq::<Seq<char>>::empty());
            while i < v.len()
                invariant
                    i <= v@.len(),
                    v@ == s@,
                    v@.len() > 0,
                    texts(out@) + split_commas(v@.skip(i as int), cur@) == split_commas(v@, Seq::empty()),
                decreases v@.len() - i,
            {
                let c = v[i];
                let ghost rest = v@.skip(i as int);
                let ghost cv = cur@;
                let ghost before = texts(out@);
                assert(rest.drop_first() =~= v@.skip(i + 1));
                if c == ',' {
                    let piece = string_of(cur.as_slice());
                    out.push(piece);
                    cur = Vec::new();
                    assert(texts(out@) =~= before.push(cv));
                    assert(split_commas(rest, cv) == seq![cv] + split_commas(v@.skip(i + 1), Seq::empty()));
                    assert(before + split_commas(rest, cv) =~= texts(out@) + split_commas(v@.skip(i + 1), cur@));
                } else {
                    cur.push(c);
                    assert(split_commas(rest, cv) == split_commas(v@.skip(i + 1), cur@));
                }
                i = i + 1;
            }
            assert(v@.skip(i as int) =~= Seq::<char>::empty());
            let ghost before = texts(out@);
            let ghost cv = cur@;
            out.push(string_of(cur.as_slice()));
            assert(texts(out@) =~= before.push(cv));
            assert(texts(out@) =~= orgs_spec(setting.deep_view()));
            out
        },
    }
}

/// Where the organisation-access settings of the app live.
pub open spec fn org_access_url_spec(web_base: Seq<char>, client_id: Seq<char>) -> Seq<char> {
    web_base + "/settings/connections/applications/"@ + client_id
}

impl DeskView {
    /// The Desk when no account is connected: empty.
    pub fn empty() -> (r: DeskView)
        ensures
            r.needs_you@.len() == 0,
            r.yours@.len() == 0,
            r.watching@.len() == 0,
            r.last_synced_at is None,
            r.visible_orgs@.len() == 0,
            r.org_access_url is None,
    {
        DeskView {
            needs_you: Vec::new(),
            yours: Vec::new(),
            watching: Vec::new(),
            last_synced_at: None,
            visible_orgs: Vec::new(),
            org_access_url: None,
        }
    }
}

/// The Desk: every pull request in its lane, in the order given, with when
/// it was last synced, the organisations the token can see (from the stored
/// setting), and, when a client ID is configured, where to grant access.
pub fn desk(
    rows: Vec<PullRequestRow>,
    last_synced_at: Option<i64>,
    orgs_setting: &Option<String>,
    client_id: &Option<String>,
    web_base: &str,
) -> (r: DeskView)
    ensures
        r.needs_you@ == in_lane(rows@, "needs_you"@),
        r.yours@ == in_lane(rows@, "yours"@),
        r.watching@ == elsewhere(rows@),
        r.last_synced_at == last_synced_at,
        texts(r.visible_orgs@) == orgs_spec(orgs_setting.deep_view()),
        client_id matches Some(id) ==> (r.org_access_url matches Some(u) && u@ == org_access_url_spec(web_base@, id@)),
        client_id is None ==> r.org_access_url is None,
{
    let ghost all = rows@;
    let needs = String::from_str("needs_you");
    let yours_lane = String::from_str("yours");
    let mut needs_you: Vec<PullRequestRow> = Vec::new();
    let mut yours: Vec<PullRequestRow> = Vec::new();
    let mut watching: Vec<PullRequestRow> = Vec::new();
    let mut rows = rows;
    assert(rows@.len() == rows.len());
    let mut k: usize = 0;
    assert(all.take(0) =~= Seq::<PullRequestRow>::empty());
    proof {
        reveal_strlit("needs_you");
        reveal_strlit("yours");
        assert("needs_you"@ != "yours"@) by {
            assert("needs_you"@[0] != "yours"@[0]);
        }
    }
    while rows.len() > 0
        invariant
            "needs_you"@ != "yours"@,
            all.len() <= usize::MAX,
            needs@ == "needs_you"@,
            yours_lane@ == "yours"@,
            k + rows@.len() == all.len(),
            rows@ == all.skip(k as int),
            needs_you@ == in_lane(all.take(k as int), "needs_you"@),
            yours@ == in_lane(all.take(k as int), "yours"@),
            watching@ == elsewhere(all.take(k as int)),
        decreases rows@.len(),
    {
        let pr = rows.remove(0);
        assert(pr == all[k as int]);
        assert(all.take(k + 1).drop_last() =~= all.take(k as int));
        assert(rows@ =~= all.skip(k + 1));
        if pr.lane == needs {
            needs_you.push(pr);
        } else if pr.lane == yours_lane {
            yours.push(pr);
        } else {
            watching.push(pr);
        }
        k = k + 1;
    }
    assert(all.take(k as int) =~= all);
    let org_access_url = match client_id {
        Some(id) => {
            let mut u = concat(web_base, "/settings/connections/applications/");
            u.append(id.as_str());
            Some(u)
        },
        None => None,
    };
    DeskView {
        needs_you,
        yours,
        watching,
        last_synced_at,
        visible_orgs: visible_orgs(orgs_setting),
        org_access_url,
    }
}

pub struct NoteView {
    pub day: String,
    pub body: String,
    pub updated_at: i64,
    pub is_today: bool,
    pub previous_day: Option<String>,
    pub next_day: Option<String>,
    pub done: usize,
    pub open: usize,
}

/// A note as the Today pane shows it, with the days either side of it
/// (`neighbours`) and its todo counts.
pub fn view(note: Note, neighbours: (Option<String>, Option<String>), today: &str) -> (r: NoteView)
    ensures
        r.day == note.day,
        r.body == note.body,
        r.updated_at == note.updated_at,
        r.is_today == (note.day@ == today@),
        r.previous_day == neighbours.0,
        r.next_day == neighbours.1,
        r.done == done_count(lines_spec(note.body@)),
        r.open == open_count(lines_spec(note.body@)),
{
    let (done, open) = tally(note.body.as_str());
    let is_today = note.day == String::from_str(today);
    NoteView {
        is_today,
        previous_day: neighbours.0,
        next_day: neighbours.1,
        done,
        open,
        day: note.day,
        body: note.body,
        updated_at: note.updated_at,
    }
}

/// What to search notes for: the trimmed query, or nothing at all when it
/// is blank.
pub fn search_query(query: &str) -> (r: Option<String>)
    ensures
        r matches Some(q) ==> q@ == trim(query@) && q@.len() > 0,
        r is None ==> trim(query@).len() == 0,
{
    let t = trim_text(query);
    if t.as_str().is_empty() {
        None
    } else {
        Some(t)
    }
}

/// Only ever an https URL the app produced; anything else is refused, so a
/// compromised page cannot use this as a generic launcher.
pub fn check_external(url: &str) -> (r: Result<(), Error>)
    ensures
        r is Ok <==> crate::notes::starts_with(url@, "https://"@),
        r matches Err(Error::Message(m)) ==> m@ == "refusing to open a non-https URL"@,
        r is Err ==> r matches Err(Error::Message(_)),
{
    if starts_with_text(url, "https://") {
        Ok(())
    } else {
        Err(Error::msg("refusing to open a non-https URL"))
    }
}

pub struct Settings {
    /// Where notes are written. `None` means the app's own database.
    pub notes_dir: Option<String>,
    /// Shown so it is obvious what "app storage" actually means on disk.
    pub db_path: String,
    pub version: String,
    pub schema_version: i64,
    pub api_base: String,
    pub account: Option<Account>,
}

} // verus!
