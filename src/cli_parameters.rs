//! The server's one setting: the socket address it binds to.
use vstd::prelude::*;

verus! {

/// Where the server listens, as `host:port`.
#[derive(Debug, PartialEq)]
pub struct CliParams {
    pub socket_address: String,
}

impl Default for CliParams {
    /// Every interface, port 3030.
    fn default() -> (r: CliParams)
        ensures
            r.socket_address@ == "0.0.0.0:3030"@,
    {
        CliParams { socket_address: "0.0.0.0:3030".to_owned() }
    }
}

} // verus!
