//! The options a session starts with.
use vstd::prelude::*;

verus! {

/// Options of a chat session.
pub struct XChatApp {
    /// The identity of the user.
    pub wallet: Option<String>,
    /// Whether to use a local XMTP deployment.
    pub local: bool,
}

impl XChatApp {
    pub fn new(wallet: Option<String>, local: bool) -> (r: Self)
        ensures
            r.wallet == wallet,
            r.local == local,
    {
        XChatApp { wallet, local }
    }
}

} // verus!
