//! The browser client's default game server: the page's host on port 5000,
//! over TLS when the page itself is.
use vstd::prelude::*;
use crate::native::same_text;

verus! {

/// The server URL used when the page names none: `wss://host:5000` for an
/// `https:` page, `ws://host:5000` otherwise.
pub fn default_server_url(protocol: &str, hostname: &str) -> (url: String)
    ensures
        url@ == (if protocol@ == "https:"@ {
            "wss"@
        } else {
            "ws"@
        }) + "://"@ + hostname@ + ":5000"@,
{
    let scheme = if same_text(protocol, "https:") {
        "wss"
    } else {
        "ws"
    };
    scheme.to_owned().concat("://").concat(hostname).concat(":5000")
}

} // verus!
