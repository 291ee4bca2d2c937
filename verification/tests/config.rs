use workbench::config::{client_id, Host};
use workbench::error::Error;
use workbench::keychain::key;
use workbench::tray::badge;

#[test]
fn github_dot_com() {
    let d = Host::default();
    assert_eq!(d.api_base, "https://api.github.com");
    assert_eq!(d.web_base, "https://github.com");
    let h = Host::dotcom();
    assert_eq!(h.api_base, "https://api.github.com");
    assert_eq!(h.web_base, "https://github.com");
    assert_eq!(h.label(), "github.com");
    assert_eq!(h.device_code_url(), "https://github.com/login/device/code");
    assert_eq!(h.access_token_url(), "https://github.com/login/oauth/access_token");
    assert_eq!(h.user_url(), "https://api.github.com/user");
    assert_eq!(h.graphql_url(), "https://api.github.com/graphql");
}

#[test]
fn enterprise_server() {
    let h = Host::enterprise("https://ghe.corp//");
    assert_eq!(h.web_base, "https://ghe.corp");
    assert_eq!(h.api_base, "https://ghe.corp/api/v3");
    assert_eq!(h.label(), "ghe.corp");
    assert_eq!(h.user_url(), "https://ghe.corp/api/v3/user");
    assert_eq!(h.graphql_url(), "https://ghe.corp/api/graphql");
    assert_eq!(Host::enterprise("http://ghe.local/").label(), "ghe.local");
}

#[test]
fn the_host_setting() {
    assert_eq!(Host::from_env(None).api_base, "https://api.github.com");
    assert_eq!(Host::from_env(Some("   ".to_string())).web_base, "https://github.com");
    let h = Host::from_env(Some("  https://ghe.corp/ \n".to_string()));
    assert_eq!(h.web_base, "https://ghe.corp");
    assert_eq!(h.api_base, "https://ghe.corp/api/v3");
}

#[test]
fn the_client_id() {
    assert_eq!(client_id(Some(" Ov23li "), Some("baked")).as_deref(), Some("Ov23li"));
    assert_eq!(client_id(Some("  "), Some(" baked ")).as_deref(), Some("baked"));
    assert_eq!(client_id(None, Some("")), None);
    assert_eq!(client_id(None, None), None);
}

#[test]
fn errors_read_as_sentences() {
    assert_eq!(Error::msg("not signed in").text(), "not signed in");
    assert_eq!(Error::GitHub("boom".to_string()).text(), "GitHub said: boom");
    assert_eq!(Error::NoClientId.text(), "no GitHub client ID configured");
}

#[test]
fn keychain_keys() {
    assert_eq!(key("github.com", "octo"), "github.com/octo");
}

#[test]
fn the_badge() {
    assert_eq!(badge(0), (None, "Workbench".to_string()));
    assert_eq!(badge(-1), (None, "Workbench".to_string()));
    assert_eq!(badge(12), (Some("12".to_string()), "Workbench — 12 waiting on you".to_string()));
}
