use vstd::prelude::*;

use crate::cmd::get::get_reply;
use crate::cmd::info::info_text;
use crate::cmd::ping::Ping;
use crate::cmd::psync::{full_resync_requested, psync_reply, Psync};
use crate::cmd::replconf::Replconf;
use crate::cmd::{command_model, parsed, Command, CommandModel};
use crate::db::{after_read, read_result, Database, Stored};
use crate::frame::{encoding, Frame, FrameModel};
use crate::replication::{Replication, Role};
use crate::util::decimal::permissive_value;
use crate::util::text::lower_of;
use vstd::utf8::encode_utf8;

verus! {

/// What the connection does after one request: the frames to write back,
/// whether the request is to be handed on to the replicas, and whether the
/// connection now only streams writes to a replica.
pub struct Response {
    pub frames: Vec<Frame>,
    pub publish: bool,
    pub stream: bool,
}

pub open spec fn frames_view(s: Seq<Frame>) -> Seq<FrameModel> {
    s.map_values(|f: Frame| f@)
}

/// The frames that answer a command.
pub open spec fn reply_frames(
    c: CommandModel,
    store: Map<Seq<char>, Stored>,
    role: Role,
    replid: Seq<char>,
    offset: u64,
    now: u64,
) -> Seq<FrameModel> {
    match c {
        CommandModel::Ping(_) => seq![FrameModel::SimpleString("PONG"@)],
        CommandModel::Echo(m) => seq![FrameModel::BulkString(m)],
        CommandModel::Get(k) => seq![get_reply(read_result(store, k, now))],
        CommandModel::SetValue(_, _, _) => seq![FrameModel::SimpleString("OK"@)],
        CommandModel::Info => seq![FrameModel::BulkString(info_text(role, replid, offset))],
        CommandModel::Replconf(_) => seq![FrameModel::SimpleString("OK"@)],
        CommandModel::Psync(a) => psync_reply(a, replid, offset),
        CommandModel::Unknown => Seq::empty(),
    }
}

/// The store after a command: a read drops an expired entry, a `SET` writes.
pub open spec fn store_after(c: CommandModel, store: Map<Seq<char>, Stored>, now: u64) -> Map<
    Seq<char>,
    Stored,
> {
    match c {
        CommandModel::Get(k) => after_read(store, k, now),
        CommandModel::SetValue(k, v, e) => store.insert(k, (v, e)),
        _ => store,
    }
}

/// Only a `SET` is handed on to the replicas.
pub open spec fn publishes(c: CommandModel) -> bool {
    c is SetValue
}

/// A full resynchronisation turns the connection into a replica stream.
pub open spec fn streams(c: CommandModel) -> bool {
    match c {
        CommandModel::Psync(a) => full_resync_requested(a),
        _ => false,
    }
}

/// The bytes of the frames, one after the other.
pub open spec fn encodings(s: Seq<FrameModel>) -> Seq<u8>
    decreases s.len(),
{
    if s.len() == 0 {
        Seq::empty()
    } else {
        encodings(s.drop_last()) + encoding(s.last())
    }
}

/// Carries out `cmd` against the store and the replication state.
pub fn execute<D: Database>(cmd: &Command, db: &mut D, repl: &Replication, now: u64) -> (r: Response)
    requires
        old(db).inv(),
    ensures
        final(db).inv(),
        frames_view(r.frames@) == reply_frames(
            cmd@,
            old(db).store(),
            repl.role,
            repl.master_replid@,
            repl.master_repl_offset,
            now,
        ),
        final(db).store() == store_after(cmd@, old(db).store(), now),
        r.publish == publishes(cmd@),
        r.stream == streams(cmd@),
{
    let mut frames: Vec<Frame> = Vec::new();
    let mut publish = false;
    let mut stream = false;
    match cmd {
        Command::Ping(p) => {
            frames.push(p.reply());
        },
        Command::Echo(e) => {
            frames.push(e.reply());
        },
        Command::Get(g) => {
            frames.push(g.reply(db, now));
        },
        Command::SetValue(s) => {
            frames.push(s.reply(db));
            publish = true;
        },
        Command::Info(i) => {
            frames.push(i.reply(repl));
        },
        Command::Replconf(c) => {
            frames.push(c.reply());
        },
        Command::Psync(p) => {
            frames = p.reply(repl);
            stream = p.is_full_resync();
        },
        Command::Unknown => {},
    }
    proof {
        assert(frames_view(frames@) =~= reply_frames(
            cmd@,
            old(db).store(),
            repl.role,
            repl.master_replid@,
            repl.master_repl_offset,
            now,
        ));
    }
    Response { frames, publish, stream }
}

/// Decodes the command that `frame` holds at the instant `now` and carries
/// it out.
pub fn handle_frame<D: Database>(frame: &Frame, db: &mut D, repl: &Replication, now: u64) -> (r:
    Response)
    requires
        old(db).inv(),
    ensures
        final(db).inv(),
        frames_view(r.frames@) == reply_frames(
            parsed(frame@, now),
            old(db).store(),
            repl.role,
            repl.master_replid@,
            repl.master_repl_offset,
            now,
        ),
        final(db).store() == store_after(parsed(frame@, now), old(db).store(), now),
        r.publish == publishes(parsed(frame@, now)),
        r.stream == streams(parsed(frame@, now)),
{
    let cmd = Command::parse_at(frame, now);
    execute(&cmd, db, repl, now)
}

/// The bytes to write for `frames`, in order.
pub fn encode_all(frames: &Vec<Frame>) -> (r: Vec<u8>)
    ensures
        r@ == encodings(frames_view(frames@)),
{
    let mut out: Vec<u8> = Vec::new();
    let mut i: usize = 0;
    while i < frames.len()
        invariant
            0 <= i <= frames@.len(),
            out@ == encodings(frames_view(frames@).take(i as int)),
        decreases frames.len() - i,
    {
        let mut b = frames[i].encode();
        let ghost bytes = b@;
        let ghost before = out@;
        out.append(&mut b);
        proof {
            let v = frames_view(frames@);
            assert(v.take(i + 1).drop_last() =~= v.take(i as int));
            assert(out@ =~= before + bytes);
        }
        i = i + 1;
    }
    proof {
        assert(frames_view(frames@).take(frames@.len() as int) =~= frames_view(frames@));
    }
    out
}

/// The names of `GET` and `SET` are told apart from the names before them.
proof fn lemma_command_names()
    ensures
        "get"@ != "ping"@,
        "get"@ != "echo"@,
        "set"@ != "ping"@,
        "set"@ != "echo"@,
        "set"@ != "get"@,
{
    reveal_strlit("ping");
    reveal_strlit("echo");
    reveal_strlit("get");
    reveal_strlit("set");
    assert("get"@[0] != "ping"@[0]);
    assert("get"@[0] != "echo"@[0]);
    assert("set"@[0] != "ping"@[0]);
    assert("set"@[0] != "echo"@[0]);
    assert("set"@[0] != "get"@[0]);
}

/// `SET key value` followed by `GET key` answers `value`, at any later
/// instant.
pub proof fn lemma_set_then_get(
    store: Map<Seq<char>, Stored>,
    set_args: Seq<Seq<char>>,
    get_args: Seq<Seq<char>>,
    set_at: u64,
    get_at: u64,
    role: Role,
    replid: Seq<char>,
    offset: u64,
)
    requires
        set_args.len() == 3,
        get_args.len() == 2,
        get_args[1] == set_args[1],
    ensures
        reply_frames(
            command_model("get"@, get_args, get_at),
            store_after(command_model("set"@, set_args, set_at), store, set_at),
            role,
            replid,
            offset,
            get_at,
        ) == seq![FrameModel::BulkString(set_args[2])],
{
    lemma_command_names();
    let after = store_after(command_model("set"@, set_args, set_at), store, set_at);
    assert(after == store.insert(set_args[1], (set_args[2], None::<u128>)));
    assert(after[set_args[1]] == (set_args[2], None::<u128>));
}

/// `GET key` of a key that was never set answers null.
pub proof fn lemma_get_unset(
    store: Map<Seq<char>, Stored>,
    get_args: Seq<Seq<char>>,
    now: u64,
    role: Role,
    replid: Seq<char>,
    offset: u64,
)
    requires
        get_args.len() == 2,
        !store.contains_key(get_args[1]),
    ensures
        reply_frames(command_model("get"@, get_args, now), store, role, replid, offset, now)
            == seq![FrameModel::Null],
        store_after(command_model("get"@, get_args, now), store, now) == store,
{
    lemma_command_names();
}

/// `SET key value <unit> <magnitude>` whose magnitude reads as no positive
/// number sets no expiry: `GET key` answers `value` at any later instant.
pub proof fn lemma_set_without_positive_expiry(
    store: Map<Seq<char>, Stored>,
    set_args: Seq<Seq<char>>,
    get_args: Seq<Seq<char>>,
    set_at: u64,
    get_at: u64,
    role: Role,
    replid: Seq<char>,
    offset: u64,
)
    requires
        set_args.len() == 5,
        permissive_value(encode_utf8(set_args[4]), u64::MAX as nat) == 0,
        get_args.len() == 2,
        get_args[1] == set_args[1],
    ensures
        command_model("set"@, set_args, set_at) == CommandModel::SetValue(
            set_args[1],
            set_args[2],
            None,
        ),
        reply_frames(
            command_model("get"@, get_args, get_at),
            store_after(command_model("set"@, set_args, set_at), store, set_at),
            role,
            replid,
            offset,
            get_at,
        ) == seq![FrameModel::BulkString(set_args[2])],
{
    lemma_command_names();
    let after = store_after(command_model("set"@, set_args, set_at), store, set_at);
    assert(after == store.insert(set_args[1], (set_args[2], None::<u128>)));
    assert(after[set_args[1]] == (set_args[2], None::<u128>));
}

/// `SET key value PX <m>` followed, `m` milliseconds or more later, by
/// `GET key` answers null, and the read removes the entry.
pub proof fn lemma_px_expires(
    store: Map<Seq<char>, Stored>,
    set_args: Seq<Seq<char>>,
    get_args: Seq<Seq<char>>,
    set_at: u64,
    get_at: u64,
    role: Role,
    replid: Seq<char>,
    offset: u64,
)
    requires
        set_args.len() == 5,
        lower_of(set_args[3]) == "px"@,
        permissive_value(encode_utf8(set_args[4]), u64::MAX as nat) > 0,
        get_at >= set_at + permissive_value(encode_utf8(set_args[4]), u64::MAX as nat),
        get_args.len() == 2,
        get_args[1] == set_args[1],
    ensures
        reply_frames(
            command_model("get"@, get_args, get_at),
            store_after(command_model("set"@, set_args, set_at), store, set_at),
            role,
            replid,
            offset,
            get_at,
        ) == seq![FrameModel::Null],
        store_after(
            command_model("get"@, get_args, get_at),
            store_after(command_model("set"@, set_args, set_at), store, set_at),
            get_at,
        ) == store.remove(set_args[1]),
{
    lemma_command_names();
    let m = permissive_value(encode_utf8(set_args[4]), u64::MAX as nat);
    let e = (set_at + m) as u128;
    assert("px"@ != "ex"@) by {
        reveal_strlit("px");
        reveal_strlit("ex");
        assert("px"@[0] != "ex"@[0]);
    }
    let after = store_after(command_model("set"@, set_args, set_at), store, set_at);
    assert(after == store.insert(set_args[1], (set_args[2], Some(e))));
    assert(after[set_args[1]] == (set_args[2], Some(e)));
    assert(after.remove(set_args[1]) =~= store.remove(set_args[1]));
}

/// The steps of a replica's handshake with its master, in order. Each step
/// sends one request and waits for one reply; there are no retries.
#[derive(Debug, Clone, Copy, PartialEq, Eq, Structural)]
pub enum Handshake {
    Ping,
    ListeningPort,
    Capa,
    Psync,
    Done,
}

/// The request that each step of the handshake sends; the last sends none.
pub open spec fn handshake_request(h: Handshake, port: Seq<char>) -> Option<FrameModel> {
    match h {
        Handshake::Ping => Some(FrameModel::Arrays(seq!["PING"@])),
        Handshake::ListeningPort => Some(
            FrameModel::Arrays(seq!["REPLCONF"@, "listening-port"@, port]),
        ),
        Handshake::Capa => Some(FrameModel::Arrays(seq!["REPLCONF"@, "capa"@, "psync2"@])),
        Handshake::Psync => Some(FrameModel::Arrays(seq!["PSYNC"@, "?"@, "-1"@])),
        Handshake::Done => None,
    }
}

impl Handshake {
    pub fn start() -> (r: Handshake)
        ensures
            r == Handshake::Ping,
    {
        Handshake::Ping
    }

    /// The request to send at this step, announcing `port` as the replica's
    /// own.
    pub fn request(&self, port: &str) -> (r: Option<Frame>)
        ensures
            match r {
                Some(f) => handshake_request(*self, port@) == Some(f@),
                None => handshake_request(*self, port@) is None,
            },
    {
        match self {
            Handshake::Ping => {
                let p = Ping::new(Some("PING"));
                assert(p@ == Some("PING"@));
                p.request()
            },
            Handshake::ListeningPort => {
                let mut conf: Vec<String> = Vec::new();
                conf.push("listening-port".to_owned());
                conf.push(port.to_owned());
                assert(crate::frame::strings_view(conf@) =~= seq!["listening-port"@, port@]);
                let r = Replconf::new(conf).request();
                proof {
                    assert(seq!["REPLCONF"@] + seq!["listening-port"@, port@] =~= seq![
                        "REPLCONF"@,
                        "listening-port"@,
                        port@,
                    ]);
                }
                Some(r)
            },
            Handshake::Capa => {
                let mut conf: Vec<String> = Vec::new();
                conf.push("capa".to_owned());
                conf.push("psync2".to_owned());
                assert(crate::frame::strings_view(conf@) =~= seq!["capa"@, "psync2"@]);
                let r = Replconf::new(conf).request();
                proof {
                    assert(seq!["REPLCONF"@] + seq!["capa"@, "psync2"@] =~= seq![
                        "REPLCONF"@,
                        "capa"@,
                        "psync2"@,
                    ]);
                }
                Some(r)
            },
            Handshake::Psync => {
                let mut args: Vec<String> = Vec::new();
                args.push("?".to_owned());
                args.push("-1".to_owned());
                assert(crate::frame::strings_view(args@) =~= seq!["?"@, "-1"@]);
                let r = Psync::new(args).request();
                proof {
                    assert(seq!["PSYNC"@] + seq!["?"@, "-1"@] =~= seq!["PSYNC"@, "?"@, "-1"@]);
                }
                Some(r)
            },
            Handshake::Done => None,
        }
    }

    /// The step after this one's reply has been read.
    pub fn next(&self) -> (r: Handshake)
        ensures
            r == match *self {
                Handshake::Ping => Handshake::ListeningPort,
                Handshake::ListeningPort => Handshake::Capa,
                Handshake::Capa => Handshake::Psync,
                _ => Handshake::Done,
            },
    {
        match self {
            Handshake::Ping => Handshake::ListeningPort,
            Handshake::ListeningPort => Handshake::Capa,
            Handshake::Capa => Handshake::Psync,
            _ => Handshake::Done,
        }
    }
}

} // verus!
