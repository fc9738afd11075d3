use vstd::prelude::*;

pub mod echo;
pub mod get;
pub mod info;
pub mod ping;
pub mod psync;
pub mod replconf;
pub mod set;

use crate::frame::{frame_args, strings_view, Frame};
use crate::util::text::{lower_of, lowercase, text_eq};
use crate::util::time::now_millis;
use echo::Echo;
use get::Get;
use info::Info;
use ping::Ping;
use psync::Psync;
use replconf::Replconf;
use set::{set_of, SetValue};

verus! {

/// A request, decoded from the arguments of a frame.
#[derive(Debug)]
pub enum Command {
    Ping(Ping),
    Echo(Echo),
    Get(Get),
    SetValue(SetValue),
    Info(Info),
    Replconf(Replconf),
    Psync(Psync),
    Unknown,
}

/// The mathematical value of a [`Command`].
pub enum CommandModel {
    Ping(Option<Seq<char>>),
    Echo(Seq<char>),
    Get(Seq<char>),
    SetValue(Seq<char>, Seq<char>, Option<u128>),
    Info,
    Replconf(Seq<Seq<char>>),
    Psync(Seq<Seq<char>>),
    Unknown,
}

impl View for Command {
    type V = CommandModel;

    open spec fn view(&self) -> CommandModel {
        match self {
            Command::Ping(p) => CommandModel::Ping(p@),
            Command::Echo(e) => CommandModel::Echo(e@),
            Command::Get(g) => CommandModel::Get(g@),
            Command::SetValue(s) => CommandModel::SetValue(s@.0, s@.1, s@.2),
            Command::Info(_) => CommandModel::Info,
            Command::Replconf(r) => CommandModel::Replconf(r@),
            Command::Psync(p) => CommandModel::Psync(p@),
            Command::Unknown => CommandModel::Unknown,
        }
    }
}

/// The `i`-th argument, or the empty text where there is none.
pub open spec fn arg_or_empty(args: Seq<Seq<char>>, i: int) -> Seq<char> {
    if 0 <= i < args.len() {
        args[i]
    } else {
        Seq::empty()
    }
}

/// The arguments after the command's name.
pub open spec fn rest_args(args: Seq<Seq<char>>) -> Seq<Seq<char>> {
    if args.len() > 0 {
        args.drop_first()
    } else {
        Seq::empty()
    }
}

/// The command's name, lower-cased; empty where there are no arguments.
pub open spec fn command_name(args: Seq<Seq<char>>) -> Seq<char> {
    if args.len() > 0 {
        lower_of(args[0])
    } else {
        Seq::empty()
    }
}

/// The command that a lower-cased `name` selects, with the arguments `args`
/// (the name among them, first) at the instant `now`. A `GET` without a key
/// and a `SET` without a key and a value are no command.
pub open spec fn command_model(name: Seq<char>, args: Seq<Seq<char>>, now: u64) -> CommandModel {
    if name == "ping"@ {
        CommandModel::Ping(None)
    } else if name == "echo"@ {
        CommandModel::Echo(arg_or_empty(args, 1))
    } else if name == "get"@ {
        if args.len() > 1 {
            CommandModel::Get(args[1])
        } else {
            CommandModel::Unknown
        }
    } else if name == "set"@ {
        match set_of(args, now) {
            Some(s) => CommandModel::SetValue(s.0, s.1, s.2),
            None => CommandModel::Unknown,
        }
    } else if name == "info"@ {
        CommandModel::Info
    } else if name == "replconf"@ {
        CommandModel::Replconf(rest_args(args))
    } else if name == "psync"@ {
        CommandModel::Psync(rest_args(args))
    } else {
        CommandModel::Unknown
    }
}

/// The command that a frame holds, read at the instant `now`.
pub open spec fn parsed(f: crate::frame::FrameModel, now: u64) -> CommandModel {
    command_model(command_name(frame_args(f)), frame_args(f), now)
}

/// `name` followed by copies of `args`.
pub fn with_name(name: &str, args: &Vec<String>) -> (r: Vec<String>)
    ensures
        strings_view(r@) == seq![name@] + strings_view(args@),
{
    let mut out: Vec<String> = Vec::new();
    out.push(name.to_owned());
    let mut i: usize = 0;
    while i < args.len()
        invariant
            0 <= i <= args@.len(),
            strings_view(out@) == seq![name@] + strings_view(args@).take(i as int),
        decreases args.len() - i,
    {
        let ghost before = out@;
        out.push(args[i].clone());
        proof {
            assert(strings_view(args@).take(i + 1) =~= strings_view(args@).take(i as int).push(
                args@[i as int]@,
            ));
            assert(strings_view(out@) =~= strings_view(before).push(args@[i as int]@));
            assert(strings_view(out@) =~= seq![name@] + strings_view(args@).take(i + 1));
        }
        i = i + 1;
    }
    proof {
        assert(strings_view(args@).take(args@.len() as int) =~= strings_view(args@));
    }
    out
}

/// Copies of the arguments after the first.
fn rest_of(args: &Vec<String>) -> (r: Vec<String>)
    ensures
        strings_view(r@) == rest_args(strings_view(args@)),
{
    let mut out: Vec<String> = Vec::new();
    if args.len() == 0 {
        proof {
            assert(strings_view(out@) =~= rest_args(strings_view(args@)));
        }
        return out;
    }
    let mut i: usize = 1;
    while i < args.len()
        invariant
            1 <= i <= args@.len(),
            strings_view(out@) == strings_view(args@).subrange(1, i as int),
        decreases args.len() - i,
    {
        let ghost before = out@;
        out.push(args[i].clone());
        proof {
            assert(strings_view(args@).subrange(1, i + 1) =~= strings_view(args@).subrange(
                1,
                i as int,
            ).push(args@[i as int]@));
            assert(strings_view(out@) =~= strings_view(before).push(args@[i as int]@));
            assert(strings_view(out@) =~= strings_view(args@).subrange(1, i + 1));
        }
        i = i + 1;
    }
    proof {
        assert(strings_view(out@) =~= rest_args(strings_view(args@)));
    }
    out
}

impl Command {
    /// The command that the lower-cased `name` selects, with the arguments
    /// `args` (the name among them, first), at the instant `now`.
    pub fn from_name(name: &str, args: Vec<String>, now: u64) -> (r: Command)
        ensures
            r@ == command_model(name@, strings_view(args@), now),
    {
        if text_eq(name, "ping") {
            Command::Ping(Ping::new(None))
        } else if text_eq(name, "echo") {
            Command::Echo(Echo::new(args))
        } else if text_eq(name, "get") {
            match Get::new(args) {
                Some(g) => Command::Get(g),
                None => Command::Unknown,
            }
        } else if text_eq(name, "set") {
            match SetValue::new_at(args, now) {
                Some(s) => Command::SetValue(s),
                None => Command::Unknown,
            }
        } else if text_eq(name, "info") {
            Command::Info(Info::new())
        } else if text_eq(name, "replconf") {
            Command::Replconf(Replconf::new(rest_of(&args)))
        } else if text_eq(name, "psync") {
            Command::Psync(Psync::new(rest_of(&args)))
        } else {
            Command::Unknown
        }
    }

    /// The command that `frame` holds, read at the instant `now`.
    pub fn parse_at(frame: &Frame, now: u64) -> (r: Command)
        ensures
            r@ == parsed(frame@, now),
    {
        let args = frame.to_vec();
        let name = if args.len() > 0 {
            lowercase(args[0].as_str())
        } else {
            String::new()
        };
        Command::from_name(name.as_str(), args, now)
    }

    /// The command that `frame` holds, read at the present reading of the
    /// clock (which only the expiry of a `SET` depends on).
    pub fn parse(frame: &Frame) -> (r: Command)
        ensures
            exists|now: u64| r@ == #[trigger] parsed(frame@, now),
    {
        Command::parse_at(frame, now_millis())
    }
}

} // verus!
