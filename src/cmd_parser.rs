//! The options that a session starts from.

use vstd::prelude::*;
use crate::redis_context::RedisContext;

verus! {

/// The command-line options: server host, port and password.
pub struct Args {
    pub host: String,
    pub port: u16,
    pub password: Option<String>,
}

/// The server that the options name.
pub fn parse_args(args: Args) -> (c: RedisContext)
    ensures
        c.ip == args.host,
        c.port == args.port,
        c.password == args.password,
{
    RedisContext { ip: args.host, port: args.port, password: args.password }
}

} // verus!
