//! Where the client connects: server address, port and password.

use vstd::prelude::*;
use vstd::string::StringExecFns;
use crate::text::{decimal, push_decimal};

verus! {

/// The server that a session talks to.
pub struct RedisContext {
    pub ip: String,
    pub port: u16,
    pub password: Option<String>,
}

/// The connection URL for server `ip`, `port`, with `password` if any:
/// `redis://[:password@]ip:port`.
pub open spec fn connection_url(ip: Seq<char>, port: u16, password: Option<Seq<char>>) -> Seq<char> {
    let auth = match password {
        None => Seq::<char>::empty(),
        Some(p) => ":"@ + p + "@"@,
    };
    "redis://"@ + auth + ip + ":"@ + decimal(port as nat)
}

/// The text of an optional string.
pub open spec fn optional_text(s: Option<String>) -> Option<Seq<char>> {
    match s {
        None => None,
        Some(t) => Some(t@),
    }
}

impl Default for RedisContext {
    /// The local server on the standard port, without a password.
    fn default() -> (r: Self)
        ensures
            r.ip@ == "127.0.0.1"@,
            r.port == 6379,
            r.password.is_none(),
    {
        RedisContext { ip: String::from_str("127.0.0.1"), port: 6379, password: None }
    }
}

impl RedisContext {
    /// The URL that a client library opens to reach this server.
    pub fn get_connection_string(&self) -> (r: String)
        ensures
            r@ == connection_url(self.ip@, self.port, optional_text(self.password)),
    {
        let mut out = String::from_str("redis://");
        match &self.password {
            None => {},
            Some(p) => {
                out.append(":");
                out.append(p.as_str());
                out.append("@");
            },
        }
        out.append(self.ip.as_str());
        out.append(":");
        push_decimal(&mut out, self.port as u64);
        assert(out@ =~= connection_url(self.ip@, self.port, optional_text(self.password)));
        out
    }
}

} // verus!
