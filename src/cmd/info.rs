use vstd::prelude::*;
use vstd::string::StringExecFns;

use crate::frame::{Frame, FrameModel};
use crate::replication::{Replication, Role};
use crate::util::decimal::{decimal_string, decimal_text};

verus! {

/// `INFO`
#[derive(Debug)]
pub struct Info;

/// What `INFO` reports: on a master three lines, its role, replication id and
/// offset; on a replica the single line `role:slave`.
pub open spec fn info_text(role: Role, replid: Seq<char>, offset: u64) -> Seq<char> {
    match role {
        Role::Master => "role:master\nmaster_replid:"@ + replid + "\nmaster_repl_offset:"@
            + decimal_text(offset as nat),
        Role::Slave => "role:slave"@,
    }
}

impl Info {
    pub fn new() -> (r: Info) {
        Info
    }

    /// The answer: the replication report as a bulk string.
    pub fn reply(&self, repl: &Replication) -> (r: Frame)
        ensures
            r@ == FrameModel::BulkString(
                info_text(repl.role, repl.master_replid@, repl.master_repl_offset),
            ),
    {
        let s = match repl.role {
            Role::Master => {
                let mut s = "role:master\nmaster_replid:".to_owned();
                s.append(repl.master_replid.as_str());
                s.append("\nmaster_repl_offset:");
                let offset = decimal_string(repl.master_repl_offset);
                s.append(offset.as_str());
                s
            },
            Role::Slave => "role:slave".to_owned(),
        };
        Frame::BulkString(s)
    }
}

} // verus!
