use vstd::prelude::*;

use crate::config::Config;

verus! {

/// The replication id that this server announces: forty hexadecimal digits,
/// fixed for the life of the process.
pub const MASTER_REPLID: &'static str = "8371b4fb1155b71f4a04d3e1bc3e18c4a990aeeb";

#[derive(Debug, Clone, Copy, PartialEq, Eq, Structural)]
pub enum Role {
    Master,
    Slave,
}

/// The replication state of this server.
pub struct Replication {
    pub role: Role,
    pub master_replid: String,
    pub master_repl_offset: u64,
}

impl Replication {
    /// A server that is told of a master is a replica; otherwise it is a
    /// master, at offset zero.
    pub fn new(config: &Config) -> (r: Replication)
        ensures
            r.role == (if config.replicaof is Some {
                Role::Slave
            } else {
                Role::Master
            }),
            r.master_replid@ == MASTER_REPLID@,
            r.master_replid@.len() == 40,
            r.master_repl_offset == 0,
    {
        proof {
            reveal_strlit("8371b4fb1155b71f4a04d3e1bc3e18c4a990aeeb");
        }
        let role = match config.replicaof {
            Some(_) => Role::Slave,
            None => Role::Master,
        };
        Replication { role, master_replid: MASTER_REPLID.to_owned(), master_repl_offset: 0 }
    }
}

} // verus!
