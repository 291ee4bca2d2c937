//! What the app remembers while it runs: where your attention is, which
//! drives the polling cadence, and the access token once it has been read.

use vstd::prelude::*;

verus! {

/// The access token, held in memory for the life of the process.
pub struct CachedToken {
    host: String,
    login: String,
    secret: String,
}

/// The app's in-memory state.
pub struct AppState {
    token: Option<CachedToken>,
    /// Is the window in front right now?
    focused: bool,
    /// When it last was — how we tell "in the background" from "gone for lunch".
    last_focus_at: i64,
}

/// Poll interval while you are looking at the app, in seconds.
pub const FOCUSED_INTERVAL: u64 = 60;
/// Poll interval while the app is in the background, in seconds.
pub const BACKGROUND_INTERVAL: u64 = 300;
/// Poll interval once you have been away a while, in seconds.
pub const AWAY_INTERVAL: u64 = 900;
/// How long away (seconds) counts as gone rather than in the background.
pub const AWAY_AFTER: i64 = 900;

/// The cadence: 60 s while focused, 5 min in the background, 15 min once
/// you have been away a quarter of an hour.
pub open spec fn interval_spec(focused: bool, last_focus_at: int, now: int) -> u64 {
    if focused {
        FOCUSED_INTERVAL
    } else if now - last_focus_at >= AWAY_AFTER {
        AWAY_INTERVAL
    } else {
        BACKGROUND_INTERVAL
    }
}

/// The token `token_for` hands back for (`host`, `login`): the cached one
/// when it belongs to that account.
pub open spec fn token_for_spec(cached: Option<(Seq<char>, Seq<char>, Seq<char>)>, host: Seq<char>, login: Seq<char>) -> Option<Seq<char>> {
    match cached {
        Some(c) => if c.0 == host && c.1 == login {
            Some(c.2)
        } else {
            None
        },
        None => None,
    }
}

/// GitHub's GraphQL budget, in points per hour.
pub const HOURLY_BUDGET: u64 = 5000;
/// What one sync of the Desk costs, in points.
pub const SYNC_COST: u64 = 2;

/// Even the fastest cadence spends under 2.5% of the hourly budget: at most
/// one sync a minute, two points each, 120 of 5,000.
pub proof fn lemma_sync_budget(focused: bool, last_focus_at: int, now: int)
    ensures
        interval_spec(focused, last_focus_at, now) >= FOCUSED_INTERVAL,
        (3600int / (interval_spec(focused, last_focus_at, now) as int)) * SYNC_COST * 1000 < 25 * HOURLY_BUDGET,
{
    let i = interval_spec(focused, last_focus_at, now) as int;
    assert(3600int / i <= 60) by (nonlinear_arith)
        requires
            i >= 60,
    ;
}

/// What is remembered is what is handed back, for that account only.
pub proof fn lemma_remembered_token(host: Seq<char>, login: Seq<char>, secret: Seq<char>, other_host: Seq<char>, other_login: Seq<char>)
    ensures
        token_for_spec(Some((host, login, secret)), host, login) == Some(secret),
        (other_host != host || other_login != login) ==> token_for_spec(Some((host, login, secret)), other_host, other_login) is None,
        token_for_spec(None, other_host, other_login) is None,
{
}

impl AppState {
    /// The cached (host, login, secret), if any.
    pub closed spec fn cached(&self) -> Option<(Seq<char>, Seq<char>, Seq<char>)> {
        match self.token {
            Some(t) => Some((t.host@, t.login@, t.secret@)),
            None => None,
        }
    }

    pub closed spec fn focused_spec(&self) -> bool {
        self.focused
    }

    pub closed spec fn last_focus_spec(&self) -> i64 {
        self.last_focus_at
    }

    /// A fresh start at Unix time `now`: focused, nothing cached.
    pub fn new(now: i64) -> (r: AppState)
        ensures
            r.focused_spec(),
            r.last_focus_spec() == now,
            r.cached() is None,
    {
        AppState { token: None, focused: true, last_focus_at: now }
    }

    /// The window gained or lost focus at Unix time `now`.
    pub fn set_focused(&mut self, focused: bool, now: i64)
        ensures
            final(self).focused_spec() == focused,
            final(self).last_focus_spec() == if focused { old(self).last_focus_spec() } else { now },
            final(self).cached() == old(self).cached(),
    {
        self.focused = focused;
        if !focused {
            self.last_focus_at = now;
        }
    }

    pub fn is_focused(&self) -> (r: bool)
        ensures
            r == self.focused_spec(),
    {
        self.focused
    }

    /// When the window last lost focus (or when the app started).
    pub fn last_focus_at(&self) -> (r: i64)
        ensures
            r == self.last_focus_spec(),
    {
        self.last_focus_at
    }

    /// Poll fast enough that the Desk is current when you look at it, slow
    /// enough to be invisible in the rate limit. In seconds, at Unix time `now`.
    pub fn poll_interval(&self, now: i64) -> (r: u64)
        requires
            i64::MIN <= now - self.last_focus_spec() <= i64::MAX,
        ensures
            r == interval_spec(self.focused_spec(), self.last_focus_spec() as int, now as int),
    {
        if self.focused {
            return FOCUSED_INTERVAL;
        }
        let away = now - self.last_focus_at;
        if away >= AWAY_AFTER {
            AWAY_INTERVAL
        } else {
            BACKGROUND_INTERVAL
        }
    }

    /// The token held for this account, if it is the one held. When this is
    /// `None` the keychain is read once and the token remembered, so there is
    /// at most one keychain read per launch.
    pub fn token_for(&self, host: &str, login: &str) -> (r: Option<String>)
        ensures
            r.deep_view() == token_for_spec(self.cached(), host@, login@),
    {
        match &self.token {
            Some(t) => {
                if t.host == String::from_str(host) && t.login == String::from_str(login) {
                    Some(t.secret.clone())
                } else {
                    None
                }
            },
            None => None,
        }
    }

    /// Called on sign-in, so a fresh connection never reads the keychain back.
    pub fn remember_token(&mut self, host: &str, login: &str, secret: &str)
        ensures
            final(self).cached() == Some((host@, login@, secret@)),
            final(self).focused_spec() == old(self).focused_spec(),
            final(self).last_focus_spec() == old(self).last_focus_spec(),
    {
        self.token = Some(CachedToken {
            host: String::from_str(host),
            login: String::from_str(login),
            secret: String::from_str(secret),
        });
    }

    pub fn forget_token(&mut self)
        ensures
            final(self).cached() is None,
            final(self).focused_spec() == old(self).focused_spec(),
            final(self).last_focus_spec() == old(self).last_focus_spec(),
    {
        self.token = None;
    }
}

} // verus!
