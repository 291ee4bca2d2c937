//! Signing in with the OAuth device flow: what GitHub's answers mean, and
//! the polling that waits for you to approve the app.
//!
//! The requests are made by the application shell; the decisions are here.

use vstd::prelude::*;
use crate::error::Error;

verus! {

/// What the user needs to see to approve the app. `device_code` never
/// crosses into the webview — it is a bearer of the pending grant.
pub struct DeviceStart {
    pub user_code: String,
    pub verification_uri: String,
    pub expires_in: u64,
    pub device_code: String,
    pub interval: u64,
}

/// An access token, with what GitHub Apps add to it.
pub struct AuthToken {
    pub access_token: String,
    /// GitHub Apps issue expiring user tokens; OAuth apps do not.
    pub refresh_token: Option<String>,
    pub expires_at: Option<i64>,
}

pub enum PollOutcome {
    Pending,
    /// GitHub asks us to back off; the caller widens its interval.
    SlowDown,
    Granted(Box<AuthToken>),
    Denied,
    Expired,
}

/// GitHub's answer to starting the device flow.
pub struct StartResponse {
    pub device_code: String,
    pub user_code: String,
    pub verification_uri: String,
    pub expires_in: u64,
    pub interval: u64,
}

/// GitHub's answer to a poll of the token endpoint. It returns 200 for both
/// success and failure; the shape tells you which.
pub struct TokenResponse {
    pub access_token: Option<String>,
    pub refresh_token: Option<String>,
    pub expires_in: Option<i64>,
    pub error: Option<String>,
    pub error_description: Option<String>,
}

/// Never poll faster than this many seconds, or GitHub starts answering
/// `slow_down`.
pub const MIN_INTERVAL: u64 = 5;

/// What to show and how to poll, from GitHub's answer.
pub fn device_start(start: StartResponse) -> (r: DeviceStart)
    ensures
        r.user_code == start.user_code,
        r.verification_uri == start.verification_uri,
        r.expires_in == start.expires_in,
        r.device_code == start.device_code,
        r.interval == if start.interval < MIN_INTERVAL { MIN_INTERVAL } else { start.interval },
{
    DeviceStart {
        user_code: start.user_code,
        verification_uri: start.verification_uri,
        expires_in: start.expires_in,
        device_code: start.device_code,
        interval: if start.interval < MIN_INTERVAL { MIN_INTERVAL } else { start.interval },
    }
}

/// `e` holds exactly `lit`.
pub open spec fn error_is(e: Option<String>, lit: Seq<char>) -> bool {
    e matches Some(s) && s@ == lit
}

fn error_eq(e: &Option<String>, lit: &str) -> (r: bool)
    ensures
        r == error_is(*e, lit@),
{
    match e {
        Some(s) => *s == String::from_str(lit),
        None => false,
    }
}

/// What one poll of the token endpoint came to, at Unix time `now`.
pub fn poll_outcome(res: TokenResponse, now: i64) -> (r: Result<PollOutcome, Error>)
    requires
        res.expires_in matches Some(s) ==> i64::MIN <= now + s <= i64::MAX,
    ensures
        res.access_token matches Some(t) ==> (r matches Ok(PollOutcome::Granted(g))
            && g.access_token == t
            && g.refresh_token == res.refresh_token
            && g.expires_at == match res.expires_in {
                Some(s) => Some((now + s) as i64),
                None => None,
            }),
        res.access_token is None ==> {
            &&& error_is(res.error, "authorization_pending"@) ==> (r matches Ok(PollOutcome::Pending))
            &&& !error_is(res.error, "authorization_pending"@) && error_is(res.error, "slow_down"@)
                ==> (r matches Ok(PollOutcome::SlowDown))
            &&& !error_is(res.error, "authorization_pending"@) && !error_is(res.error, "slow_down"@)
                && error_is(res.error, "expired_token"@) ==> (r matches Ok(PollOutcome::Expired))
            &&& !error_is(res.error, "authorization_pending"@) && !error_is(res.error, "slow_down"@)
                && !error_is(res.error, "expired_token"@) && error_is(res.error, "access_denied"@)
                ==> (r matches Ok(PollOutcome::Denied))
            &&& !error_is(res.error, "authorization_pending"@) && !error_is(res.error, "slow_down"@)
                && !error_is(res.error, "expired_token"@) && !error_is(res.error, "access_denied"@)
                ==> (r matches Err(Error::GitHub(m)) && m@ == match res.error {
                    Some(other) => match res.error_description {
                        Some(d) => d@,
                        None => other@,
                    },
                    None => "empty response from token endpoint"@,
                })
        },
{
    if let Some(token) = res.access_token {
        let expires_at = match res.expires_in {
            Some(s) => Some(now + s),
            None => None,
        };
        return Ok(PollOutcome::Granted(Box::new(AuthToken {
            access_token: token,
            refresh_token: res.refresh_token,
            expires_at,
        })));
    }
    if error_eq(&res.error, "authorization_pending") {
        Ok(PollOutcome::Pending)
    } else if error_eq(&res.error, "slow_down") {
        Ok(PollOutcome::SlowDown)
    } else if error_eq(&res.error, "expired_token") {
        Ok(PollOutcome::Expired)
    } else if error_eq(&res.error, "access_denied") {
        Ok(PollOutcome::Denied)
    } else {
        match res.error {
            Some(other) => match res.error_description {
                Some(d) => Err(Error::GitHub(d)),
                None => Err(Error::GitHub(other)),
            },
            None => Err(Error::GitHub(String::from_str("empty response from token endpoint"))),
        }
    }
}

/// How much longer to wait between polls after GitHub says `slow_down`.
pub const SLOW_DOWN_STEP: u64 = 5;

/// Said when the code runs out before you approve.
pub const EXPIRED_MESSAGE: &'static str = "That code expired. Try connecting again.";

/// Said when you refuse the app on GitHub.
pub const DENIED_MESSAGE: &'static str = "Access was denied on GitHub.";

/// Waiting for a device-flow grant: how long to sleep before the next poll,
/// and how many seconds after the start the code expires.
pub struct DevicePoll {
    pub wait: u64,
    pub deadline: u64,
}

/// What to do after a poll.
pub enum PollStep {
    /// Sleep for the (possibly widened) interval and poll again.
    Again,
    /// Stop and tell the user this.
    Failed(String),
    /// Stop and finish signing in with this token.
    SignIn(AuthToken),
}

impl DevicePoll {
    /// Starts waiting: poll every `interval` seconds until `expires_in`
    /// seconds have passed.
    pub fn new(interval: u64, expires_in: u64) -> (r: DevicePoll)
        ensures
            r.wait == interval,
            r.deadline == expires_in,
    {
        DevicePoll { wait: interval, deadline: expires_in }
    }

    /// Whether the code has run out, `elapsed` seconds after the start.
    pub fn expired(&self, elapsed: u64) -> (r: bool)
        ensures
            r == (elapsed >= self.deadline),
    {
        elapsed >= self.deadline
    }

    /// The step after a poll came back with `outcome`: keep waiting (wider
    /// when asked to slow down), or stop, with a message or a token.
    pub fn next(&mut self, outcome: Result<PollOutcome, Error>) -> (r: PollStep)
        requires
            outcome matches Ok(PollOutcome::SlowDown) ==> old(self).wait + SLOW_DOWN_STEP <= u64::MAX,
        ensures
            final(self).deadline == old(self).deadline,
            outcome matches Ok(PollOutcome::SlowDown) ==> final(self).wait == old(self).wait + SLOW_DOWN_STEP,
            !(outcome matches Ok(PollOutcome::SlowDown)) ==> final(self).wait == old(self).wait,
            outcome matches Ok(PollOutcome::Pending) ==> r is Again,
            outcome matches Ok(PollOutcome::SlowDown) ==> r is Again,
            outcome matches Ok(PollOutcome::Denied) ==> (r matches PollStep::Failed(m) && m@ == DENIED_MESSAGE@),
            outcome matches Ok(PollOutcome::Expired) ==> (r matches PollStep::Failed(m) && m@ == EXPIRED_MESSAGE@),
            outcome matches Ok(PollOutcome::Granted(t)) ==> r == PollStep::SignIn(*t),
            outcome matches Err(e) ==> (r matches PollStep::Failed(m) && m@ == e.text_spec()),
    {
        match outcome {
            Ok(PollOutcome::Pending) => PollStep::Again,
            Ok(PollOutcome::SlowDown) => {
                self.wait = self.wait + SLOW_DOWN_STEP;
                PollStep::Again
            },
            Ok(PollOutcome::Denied) => PollStep::Failed(String::from_str(DENIED_MESSAGE)),
            Ok(PollOutcome::Expired) => PollStep::Failed(String::from_str(EXPIRED_MESSAGE)),
            Ok(PollOutcome::Granted(t)) => PollStep::SignIn(*t),
            Err(e) => PollStep::Failed(e.text()),
        }
    }
}

} // verus!
