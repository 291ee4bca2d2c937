//! Where a GitHub lives, and how the app identifies itself to it.

use vstd::prelude::*;
use crate::text::{concat, ends_with, ends_with_text, has_text, trim, trim_end_char,
    trim_end_char_text, trim_start_matches, trim_start_matches_text, trim_text};

verus! {

/// Keychain service name. Changing this orphans every stored token.
pub const KEYCHAIN_SERVICE: &'static str = "com.galvaolucas.workbench";

/// `repo` is the expensive one: it is all-or-nothing and security-minded
/// orgs will refuse it. That is why authentication sits behind a trait.
pub const SCOPES: &'static str = "repo read:org notifications read:user";

/// Where a GitHub lives. Enterprise Server is a different base URL and
/// nothing else.
pub struct Host {
    /// e.g. `https://api.github.com` or `https://ghe.corp/api/v3`
    pub api_base: String,
    /// e.g. `https://github.com` or `https://ghe.corp`
    pub web_base: String,
}

impl Default for Host {
    /// github.com.
    fn default() -> (r: Host)
        ensures
            r.api_base@ == "https://api.github.com"@,
            r.web_base@ == "https://github.com"@,
    {
        Host::dotcom()
    }
}

impl Host {
    pub fn dotcom() -> (r: Host)
        ensures
            r.api_base@ == "https://api.github.com"@,
            r.web_base@ == "https://github.com"@,
    {
        Host {
            api_base: String::from_str("https://api.github.com"),
            web_base: String::from_str("https://github.com"),
        }
    }

    /// GitHub Enterprise Server: `https://ghe.corp` -> API at `/api/v3`.
    pub fn enterprise(web_base: &str) -> (r: Host)
        ensures
            r.web_base@ == trim_end_char(web_base@, '/'),
            r.api_base@ == trim_end_char(web_base@, '/') + "/api/v3"@,
    {
        let web = trim_end_char_text(web_base, '/');
        let api = concat(web.as_str(), "/api/v3");
        Host { api_base: api, web_base: web }
    }

    /// The host named by `WORKBENCH_GITHUB_HOST` (its value, when set, is
    /// `setting`): Enterprise Server at the trimmed value when it holds
    /// anything, else github.com.
    pub fn from_env(setting: Option<String>) -> (r: Host)
        ensures
            configured(setting.deep_view()) matches Some(t) ==> r.web_base@ == trim_end_char(t, '/')
                && r.api_base@ == trim_end_char(t, '/') + "/api/v3"@,
            configured(setting.deep_view()) is None ==> r.api_base@ == "https://api.github.com"@
                && r.web_base@ == "https://github.com"@,
    {
        match setting {
            Some(v) => {
                let t = trim_text(v.as_str());
                if !t.as_str().is_empty() {
                    Host::enterprise(t.as_str())
                } else {
                    Host::dotcom()
                }
            },
            None => Host::dotcom(),
        }
    }

    /// Short name for display and for keychain keys: the web address
    /// without its scheme or trailing slashes.
    pub open spec fn label_spec(&self) -> Seq<char> {
        trim_end_char(trim_start_matches(trim_start_matches(self.web_base@, "https://"@), "http://"@), '/')
    }

    pub fn label(&self) -> (r: String)
        ensures
            r@ == self.label_spec(),
    {
        let a = trim_start_matches_text(self.web_base.as_str(), "https://");
        let b = trim_start_matches_text(a.as_str(), "http://");
        trim_end_char_text(b.as_str(), '/')
    }

    pub fn device_code_url(&self) -> (r: String)
        ensures
            r@ == self.web_base@ + "/login/device/code"@,
    {
        concat(self.web_base.as_str(), "/login/device/code")
    }

    pub fn access_token_url(&self) -> (r: String)
        ensures
            r@ == self.web_base@ + "/login/oauth/access_token"@,
    {
        concat(self.web_base.as_str(), "/login/oauth/access_token")
    }

    pub fn user_url(&self) -> (r: String)
        ensures
            r@ == self.api_base@ + "/user"@,
    {
        concat(self.api_base.as_str(), "/user")
    }

    /// Enterprise Server serves GraphQL beside its REST API, not under it.
    pub open spec fn graphql_url_spec(&self) -> Seq<char> {
        if ends_with(self.api_base@, "/api/v3"@) {
            self.web_base@ + "/api/graphql"@
        } else {
            self.api_base@ + "/graphql"@
        }
    }

    pub fn graphql_url(&self) -> (r: String)
        ensures
            r@ == self.graphql_url_spec(),
    {
        if ends_with_text(self.api_base.as_str(), "/api/v3") {
            concat(self.web_base.as_str(), "/api/graphql")
        } else {
            concat(self.api_base.as_str(), "/graphql")
        }
    }

    pub fn clone_host(&self) -> (r: Host)
        ensures
            r == *self,
    {
        Host { api_base: self.api_base.clone(), web_base: self.web_base.clone() }
    }
}

/// An Enterprise Server host serves GraphQL at `/api/graphql` beside its
/// web address, never under its REST API.
pub proof fn lemma_enterprise_graphql(h: Host, web: Seq<char>)
    requires
        h.web_base@ == web,
        h.api_base@ == web + "/api/v3"@,
    ensures
        h.graphql_url_spec() == web + "/api/graphql"@,
{
    assert((web + "/api/v3"@).skip((web + "/api/v3"@).len() - "/api/v3"@.len()) =~= "/api/v3"@);
}

/// github.com serves GraphQL under its API host.
pub proof fn lemma_dotcom_graphql(h: Host)
    requires
        h.api_base@ == "https://api.github.com"@,
    ensures
        h.graphql_url_spec() == "https://api.github.com/graphql"@,
{
    reveal_strlit("https://api.github.com");
    reveal_strlit("/api/v3");
    reveal_strlit("/graphql");
    reveal_strlit("https://api.github.com/graphql");
    let a = "https://api.github.com"@;
    assert(a.skip(a.len() - 7)[0] != "/api/v3"@[0]);
    assert("https://api.github.com"@ + "/graphql"@ =~= "https://api.github.com/graphql"@);
}

/// The trimmed value, when it holds anything.
pub open spec fn configured(v: Option<Seq<char>>) -> Option<Seq<char>> {
    match v {
        Some(s) => if has_text(s) {
            Some(trim(s))
        } else {
            None
        },
        None => None,
    }
}

fn configured_text(v: Option<&str>) -> (r: Option<String>)
    ensures
        r.deep_view() == configured(match v {
            Some(s) => Some(s@),
            None => None,
        }),
{
    match v {
        Some(s) => {
            let t = trim_text(s);
            if !t.as_str().is_empty() {
                Some(t)
            } else {
                None
            }
        },
        None => None,
    }
}

/// The device-flow client ID: the runtime setting
/// (`WORKBENCH_GITHUB_CLIENT_ID`, `runtime`) when it holds anything, else the
/// one baked in at build time (`built_in`), trimmed. A device-flow client ID
/// is not a secret.
pub fn client_id(runtime: Option<&str>, built_in: Option<&str>) -> (r: Option<String>)
    ensures
        r.deep_view() == match configured(match runtime {
            Some(s) => Some(s@),
            None => None,
        }) {
            Some(c) => Some(c),
            None => configured(match built_in {
                Some(s) => Some(s@),
                None => None,
            }),
        },
{
    match configured_text(runtime) {
        Some(c) => Some(c),
        None => configured_text(built_in),
    }
}

} // verus!
