use workbench::auth::{device_start, poll_outcome, DevicePoll, PollOutcome, PollStep, StartResponse, TokenResponse};
use workbench::error::Error;
use workbench::state::AppState;

fn start(interval: u64) -> StartResponse {
    StartResponse {
        device_code: "dev".to_string(),
        user_code: "ABCD-1234".to_string(),
        verification_uri: "https://github.com/login/device".to_string(),
        expires_in: 900,
        interval,
    }
}

fn token_error(error: Option<&str>, description: Option<&str>) -> TokenResponse {
    TokenResponse {
        access_token: None,
        refresh_token: None,
        expires_in: None,
        error: error.map(str::to_string),
        error_description: description.map(str::to_string),
    }
}

#[test]
fn never_poll_faster_than_five_seconds() {
    assert_eq!(device_start(start(1)).interval, 5);
    assert_eq!(device_start(start(8)).interval, 8);
    let s = device_start(start(5));
    assert_eq!(s.user_code, "ABCD-1234");
    assert_eq!(s.device_code, "dev");
    assert_eq!(s.expires_in, 900);
}

#[test]
fn what_a_poll_means() {
    let granted = TokenResponse {
        access_token: Some("gho_x".to_string()),
        refresh_token: Some("r".to_string()),
        expires_in: Some(3600),
        error: None,
        error_description: None,
    };
    match poll_outcome(granted, 1000) {
        Ok(PollOutcome::Granted(t)) => {
            assert_eq!(t.access_token, "gho_x");
            assert_eq!(t.refresh_token.as_deref(), Some("r"));
            assert_eq!(t.expires_at, Some(4600));
        }
        _ => panic!("granted"),
    }
    assert!(matches!(poll_outcome(token_error(Some("authorization_pending"), None), 0), Ok(PollOutcome::Pending)));
    assert!(matches!(poll_outcome(token_error(Some("slow_down"), None), 0), Ok(PollOutcome::SlowDown)));
    assert!(matches!(poll_outcome(token_error(Some("expired_token"), None), 0), Ok(PollOutcome::Expired)));
    assert!(matches!(poll_outcome(token_error(Some("access_denied"), None), 0), Ok(PollOutcome::Denied)));
    match poll_outcome(token_error(Some("device_flow_disabled"), Some("Device flow is disabled")), 0) {
        Err(Error::GitHub(m)) => assert_eq!(m, "Device flow is disabled"),
        _ => panic!("an error"),
    }
    match poll_outcome(token_error(Some("weird"), None), 0) {
        Err(Error::GitHub(m)) => assert_eq!(m, "weird"),
        _ => panic!("an error"),
    }
    match poll_outcome(token_error(None, None), 0) {
        Err(Error::GitHub(m)) => assert_eq!(m, "empty response from token endpoint"),
        _ => panic!("an error"),
    }
}

#[test]
fn waiting_for_approval() {
    let mut p = DevicePoll::new(5, 900);
    assert!(!p.expired(899));
    assert!(p.expired(900));
    assert!(matches!(p.next(Ok(PollOutcome::Pending)), PollStep::Again));
    assert_eq!(p.wait, 5);
    assert!(matches!(p.next(Ok(PollOutcome::SlowDown)), PollStep::Again));
    assert_eq!(p.wait, 10);
    match p.next(Ok(PollOutcome::Denied)) {
        PollStep::Failed(m) => assert_eq!(m, "Access was denied on GitHub."),
        _ => panic!("denied"),
    }
    match p.next(Ok(PollOutcome::Expired)) {
        PollStep::Failed(m) => assert_eq!(m, "That code expired. Try connecting again."),
        _ => panic!("expired"),
    }
    match p.next(Err(Error::GitHub("nope".to_string()))) {
        PollStep::Failed(m) => assert_eq!(m, "GitHub said: nope"),
        _ => panic!("failed"),
    }
}

#[test]
fn the_cadence_follows_your_attention() {
    let mut s = AppState::new(1000);
    assert!(s.is_focused());
    assert_eq!(s.poll_interval(5000), 60);
    s.set_focused(false, 2000);
    assert!(!s.is_focused());
    assert_eq!(s.poll_interval(2000), 300);
    assert_eq!(s.poll_interval(2899), 300);
    assert_eq!(s.poll_interval(2900), 900, "a quarter of an hour away is away");
    assert_eq!(s.poll_interval(2901), 900);
    s.set_focused(true, 3000);
    assert_eq!(s.poll_interval(9999), 60);
}

#[test]
fn the_token_is_read_once_and_kept() {
    let mut s = AppState::new(0);
    assert_eq!(s.token_for("github.com", "octo"), None);
    s.remember_token("github.com", "octo", "gho_secret");
    assert_eq!(s.token_for("github.com", "octo").as_deref(), Some("gho_secret"));
    assert_eq!(s.token_for("github.com", "other"), None);
    assert_eq!(s.token_for("ghe.corp", "octo"), None);
    s.forget_token();
    assert_eq!(s.token_for("github.com", "octo"), None);
}
