//! The library's errors. Failures of the outside world (network, database,
//! keychain, window system) belong to the application shell, which wraps
//! these.

use vstd::prelude::*;

verus! {

pub enum Error {
    /// A plain explanation.
    Message(String),
    /// GitHub refused or failed a request.
    GitHub(String),
    /// Sign-in needs a client ID and none is configured.
    NoClientId,
}

impl Error {
    pub fn msg(m: &str) -> (r: Error)
        ensures
            r matches Error::Message(s) && s@ == m@,
    {
        Error::Message(String::from_str(m))
    }

    /// What the user is shown: always a plain sentence, never a structured
    /// error that could leak a token or a device code.
    pub open spec fn text_spec(&self) -> Seq<char> {
        match self {
            Error::Message(m) => m@,
            Error::GitHub(m) => "GitHub said: "@ + m@,
            Error::NoClientId => "no GitHub client ID configured"@,
        }
    }

    /// The sentence shown for this error (what `to_string` gives).
    pub fn text(&self) -> (r: String)
        ensures
            r@ == self.text_spec(),
    {
        match self {
            Error::Message(m) => m.clone(),
            Error::GitHub(m) => {
                let mut s = String::from_str("GitHub said: ");
                s.append(m.as_str());
                s
            },
            Error::NoClientId => String::from_str("no GitHub client ID configured"),
        }
    }
}

} // verus!
