//! Where tokens are kept in the system keychain. The keychain itself is
//! reached from the application shell; the webview has no command that
//! returns a token.

use vstd::prelude::*;
use crate::text::concat;

verus! {

/// One entry per account, keyed by host so github.com and an Enterprise
/// account can coexist: `host/login`.
pub fn key(host: &str, login: &str) -> (r: String)
    ensures
        r@ == host@ + seq!['/'] + login@,
{
    let mut s = concat(host, "/");
    proof { reveal_strlit("/"); }
    s.append(login);
    s
}

} // verus!
