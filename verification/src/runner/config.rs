//! What a runner is configured with.

use vstd::prelude::*;
use crate::text::join;

verus! {

/// Where the hub is and how to reach it, and the credential to present.
#[derive(Debug, PartialEq, Eq)]
pub struct Configuration {
    pub host: String,
    pub secure: bool,
    pub token: String,
}

/// The scheme of the hub's address.
pub open spec fn scheme(secure: bool) -> Seq<char> {
    if secure {
        "wss://"@
    } else {
        "ws://"@
    }
}

impl Configuration {
    /// The address of the hub's back-channel: the host behind `wss://` for a
    /// secure connection, behind `ws://` otherwise.
    pub fn get_url(&self) -> (url: String)
        ensures
            url@ == scheme(self.secure) + self.host@,
    {
        if self.secure {
            join("wss://", self.host.as_str())
        } else {
            join("ws://", self.host.as_str())
        }
    }
}

} // verus!
