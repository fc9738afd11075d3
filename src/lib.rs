use vstd::prelude::*;

pub mod cmd;
pub mod config;
pub mod db;
pub mod frame;
pub mod replication;
pub mod server;
pub mod util;

verus! {

} // verus!
