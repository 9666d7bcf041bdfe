//! Command-line decisions: which role an invocation name selects, and
//! the configuration of the line-search utility.

use vstd::prelude::*;
use vstd::slice::slice_index_get;

use crate::text;

verus! {

/// The role a program name selects.
#[derive(Clone, Copy, Debug, PartialEq, Eq, Structural)]
pub enum Role {
    Client,
    Server,
    /// Neither `client` nor `server` occurs in the name: print usage
    /// and exit unsuccessfully.
    Unknown,
}

/// Selects the role by the invocation name: a name containing `client`
/// runs the client, otherwise one containing `server` runs the server.
pub fn select_role(program_name: &str) -> (r: Role)
    ensures
        r == (if text::spec_contains_sub(program_name@, "client"@) {
            Role::Client
        } else if text::spec_contains_sub(program_name@, "server"@) {
            Role::Server
        } else {
            Role::Unknown
        }),
{
    if text::contains_sub(program_name, "client") {
        Role::Client
    } else if text::contains_sub(program_name, "server") {
        Role::Server
    } else {
        Role::Unknown
    }
}

/// What the line-search utility was asked to do: a query and the file
/// to search it in.
pub struct Config {
    pub query: String,
    pub file_path: String,
}

impl Config {
    /// Reads the query and the file path from the argument list, which
    /// must hold the program name and at least those two values.
    pub fn new(args: &[String]) -> (c: Config)
        requires
            args@.len() >= 3,
        ensures
            c.query@ == args@[1]@,
            c.file_path@ == args@[2]@,
    {
        let query = slice_index_get(args, 1).clone();
        let file_path = slice_index_get(args, 2).clone();
        Config { query, file_path }
    }
}

} // verus!
