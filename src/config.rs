use vstd::prelude::*;

use crate::frame::strings_view;
use crate::util::text::text_eq;

verus! {

/// Where the server listens, and the master it follows, if any.
pub struct Config {
    pub port: String,
    pub replicaof: Option<String>,
}

/// The argument after the last occurrence of `flag` among the first `n`
/// arguments that has one.
pub open spec fn flag_value(args: Seq<Seq<char>>, flag: Seq<char>, n: int) -> Option<Seq<char>>
    decreases n,
{
    if n <= 0 {
        None
    } else if n < args.len() && args[n - 1] == flag {
        Some(args[n])
    } else {
        flag_value(args, flag, n - 1)
    }
}

impl Config {
    /// Reads `--port <port>` (default `6379`) and `--replicaof <master>` from
    /// the command line arguments; where a flag is given twice the last wins.
    pub fn parse(args: &Vec<String>) -> (r: Config)
        ensures
            r.port@ == match flag_value(strings_view(args@), "--port"@, args@.len() as int) {
                Some(p) => p,
                None => "6379"@,
            },
            match r.replicaof {
                Some(m) => flag_value(strings_view(args@), "--replicaof"@, args@.len() as int) == Some(m@),
                None => flag_value(strings_view(args@), "--replicaof"@, args@.len() as int) is None,
            },
    {
        let mut port: Option<String> = None;
        let mut replicaof: Option<String> = None;
        let mut i: usize = 0;
        while i < args.len()
            invariant
                0 <= i <= args@.len(),
                match port {
                    Some(p) => flag_value(strings_view(args@), "--port"@, i as int) == Some(p@),
                    None => flag_value(strings_view(args@), "--port"@, i as int) is None,
                },
                match replicaof {
                    Some(m) => flag_value(strings_view(args@), "--replicaof"@, i as int) == Some(m@),
                    None => flag_value(strings_view(args@), "--replicaof"@, i as int) is None,
                },
            decreases args.len() - i,
        {
            if i + 1 < args.len() {
                if text_eq(args[i].as_str(), "--port") {
                    port = Some(args[i + 1].clone());
                }
                if text_eq(args[i].as_str(), "--replicaof") {
                    replicaof = Some(args[i + 1].clone());
                }
            }
            i = i + 1;
        }
        let port = match port {
            Some(p) => p,
            None => "6379".to_owned(),
        };
        Config { port, replicaof }
    }
}

} // verus!
