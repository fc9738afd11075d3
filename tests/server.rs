use redis_starter_rust::cmd::set::expiry;
use redis_starter_rust::cmd::Command;
use redis_starter_rust::config::Config;
use redis_starter_rust::db::{Database, KeyValueDb, Value};
use redis_starter_rust::frame::Frame;
use redis_starter_rust::replication::{Replication, Role, MASTER_REPLID};
use redis_starter_rust::server::{encode_all, handle_frame, Handshake, Response};

fn request(args: &[&str]) -> Frame {
    Frame::Arrays(args.iter().map(|s| s.to_string()).collect())
}

fn master() -> Replication {
    Replication::new(&Config { port: String::from("6379"), replicaof: None })
}

fn replica() -> Replication {
    Replication::new(&Config {
        port: String::from("6380"),
        replicaof: Some(String::from("localhost 6379")),
    })
}

fn run(db: &mut KeyValueDb, repl: &Replication, args: &[&str], now: u64) -> Response {
    handle_frame(&request(args), db, repl, now)
}

fn written(r: &Response) -> Vec<u8> {
    encode_all(&r.frames)
}

#[test]
fn ping_answers_pong() {
    let mut db = KeyValueDb::new();
    let r = run(&mut db, &master(), &["PING"], 0);
    assert_eq!(written(&r), b"+PONG\r\n".to_vec());
    assert!(!r.publish && !r.stream);
}

#[test]
fn command_names_ignore_case() {
    let mut db = KeyValueDb::new();
    let r = run(&mut db, &master(), &["pInG"], 0);
    assert_eq!(written(&r), b"+PONG\r\n".to_vec());
}

#[test]
fn echo_answers_message_or_empty() {
    let mut db = KeyValueDb::new();
    let r = run(&mut db, &master(), &["ECHO", "hey"], 0);
    assert_eq!(written(&r), b"$3\r\nhey\r\n".to_vec());
    let r = run(&mut db, &master(), &["echo"], 0);
    assert_eq!(written(&r), b"$0\r\n\r\n".to_vec());
}

#[test]
fn set_then_get_returns_value() {
    let mut db = KeyValueDb::new();
    let repl = master();
    let r = run(&mut db, &repl, &["SET", "k", "v"], 10);
    assert_eq!(written(&r), b"+OK\r\n".to_vec());
    assert!(r.publish);
    let r = run(&mut db, &repl, &["GET", "k"], 20);
    assert_eq!(written(&r), b"$1\r\nv\r\n".to_vec());
    assert!(!r.publish);
}

#[test]
fn get_of_unset_key_is_null() {
    let mut db = KeyValueDb::new();
    let r = run(&mut db, &master(), &["GET", "nothing"], 0);
    assert_eq!(written(&r), b"$-1\r\n".to_vec());
}

#[test]
fn set_overwrites() {
    let mut db = KeyValueDb::new();
    let repl = master();
    run(&mut db, &repl, &["SET", "k", "1"], 0);
    run(&mut db, &repl, &["SET", "k", "2"], 0);
    let r = run(&mut db, &repl, &["GET", "k"], 0);
    assert_eq!(written(&r), b"$1\r\n2\r\n".to_vec());
}

#[test]
fn set_ex_zero_sets_no_expiry() {
    let mut db = KeyValueDb::new();
    let repl = master();
    run(&mut db, &repl, &["SET", "k", "v", "EX", "0"], 1_000);
    let r = run(&mut db, &repl, &["GET", "k"], 1_000);
    assert_eq!(written(&r), b"$1\r\nv\r\n".to_vec());
    let r = run(&mut db, &repl, &["GET", "k"], u64::MAX);
    assert_eq!(written(&r), b"$1\r\nv\r\n".to_vec());
}

#[test]
fn set_px_expires_and_is_removed() {
    let mut db = KeyValueDb::new();
    let repl = master();
    run(&mut db, &repl, &["SET", "k", "v", "PX", "50"], 1_000);
    let r = run(&mut db, &repl, &["GET", "k"], 1_049);
    assert_eq!(written(&r), b"$1\r\nv\r\n".to_vec());
    let r = run(&mut db, &repl, &["GET", "k"], 1_100);
    assert_eq!(written(&r), b"$-1\r\n".to_vec());
    assert_eq!(db.get("k", 0), None);
}

#[test]
fn set_ex_counts_seconds() {
    let mut db = KeyValueDb::new();
    let repl = master();
    run(&mut db, &repl, &["set", "k", "v", "ex", "2"], 1_000);
    assert_eq!(db.get("k", 2_999), Some(String::from("v")));
    assert_eq!(db.get("k", 3_000), None);
}

#[test]
fn set_px_with_real_clock() {
    let mut db = KeyValueDb::new();
    let frame = request(&["SET", "k", "v", "PX", "50"]);
    match Command::parse(&frame) {
        Command::SetValue(s) => {
            s.reply(&mut db);
        }
        _ => panic!("not a SET"),
    }
    let now = std::time::SystemTime::now()
        .duration_since(std::time::UNIX_EPOCH)
        .unwrap()
        .as_millis() as u64;
    assert_eq!(db.get("k", now + 100), None);
}

#[test]
fn expiry_units() {
    assert_eq!(expiry("ex", "3", 10), Some(3_010));
    assert_eq!(expiry("px", "3", 10), Some(13));
    assert_eq!(expiry("px", "0", 10), None);
    assert_eq!(expiry("px", "-5", 10), None);
    assert_eq!(expiry("px", "abc", 10), None);
    assert_eq!(expiry("EX", "3", 10), None);
    assert_eq!(expiry("xx", "3", 10), None);
    assert_eq!(expiry("ex", "+5", 10), Some(5_010));
    assert_eq!(expiry("px", "+", 10), None);
    assert_eq!(expiry("px", "++5", 10), None);
    assert_eq!(expiry("px", "+0", 10), None);
}

#[test]
fn set_ex_with_plus_sign_expires() {
    let mut db = KeyValueDb::new();
    let repl = master();
    run(&mut db, &repl, &["SET", "k", "v", "EX", "+5"], 1_000);
    assert_eq!(db.get("k", 5_999), Some(String::from("v")));
    assert_eq!(db.get("k", 6_000), None);
}

#[test]
fn set_and_get_without_arguments_are_ignored() {
    let mut db = KeyValueDb::new();
    let repl = master();
    let r = run(&mut db, &repl, &["SET", "k"], 0);
    assert!(r.frames.is_empty() && !r.publish);
    let r = run(&mut db, &repl, &["GET"], 0);
    assert!(r.frames.is_empty());
    assert!(matches!(Command::parse_at(&request(&["set", "k"]), 0), Command::Unknown));
}

#[test]
fn unknown_command_writes_nothing_and_connection_goes_on() {
    let mut db = KeyValueDb::new();
    let repl = master();
    let r = run(&mut db, &repl, &["FOO", "bar"], 0);
    assert!(written(&r).is_empty());
    assert!(!r.publish && !r.stream);
    let r = run(&mut db, &repl, &["PING"], 0);
    assert_eq!(written(&r), b"+PONG\r\n".to_vec());
}

#[test]
fn malformed_frame_is_ignored() {
    let mut db = KeyValueDb::new();
    let r = handle_frame(&Frame::Unknown, &mut db, &master(), 0);
    assert!(written(&r).is_empty());
}

#[test]
fn info_on_master_has_three_lines() {
    let mut db = KeyValueDb::new();
    let r = run(&mut db, &master(), &["INFO", "replication"], 0);
    let expected = format!(
        "role:master\nmaster_replid:{}\nmaster_repl_offset:0",
        MASTER_REPLID
    );
    assert_eq!(r.frames, vec![Frame::BulkString(expected.clone())]);
    assert_eq!(expected.lines().count(), 3);
}

#[test]
fn info_on_replica_is_role_slave() {
    let mut db = KeyValueDb::new();
    let r = run(&mut db, &replica(), &["info"], 0);
    assert_eq!(r.frames, vec![Frame::BulkString(String::from("role:slave"))]);
}

#[test]
fn replconf_answers_ok() {
    let mut db = KeyValueDb::new();
    let r = run(&mut db, &master(), &["REPLCONF", "listening-port", "6380"], 0);
    assert_eq!(written(&r), b"+OK\r\n".to_vec());
}

#[test]
fn psync_full_resync() {
    let mut db = KeyValueDb::new();
    let r = run(&mut db, &master(), &["PSYNC", "?", "-1"], 0);
    assert!(r.stream);
    assert!(!r.publish);
    let bytes = written(&r);
    let line = format!("+FULLRESYNC {} 0\r\n", MASTER_REPLID);
    assert_eq!(MASTER_REPLID.len(), 40);
    assert!(bytes.starts_with(line.as_bytes()));
    let rest = &bytes[line.len()..];
    assert!(rest.starts_with(b"$88\r\nREDIS0011"));
    assert_eq!(rest.len(), 5 + 88);
    assert!(!rest.ends_with(b"\r\n"));
}

#[test]
fn psync_other_pair_does_nothing() {
    let mut db = KeyValueDb::new();
    let r = run(&mut db, &master(), &["PSYNC", "abc", "5"], 0);
    assert!(r.frames.is_empty());
    assert!(!r.stream);
}

#[test]
fn sets_are_published_in_order() {
    let mut db = KeyValueDb::new();
    let repl = master();
    let requests: Vec<Frame> = vec![
        request(&["SET", "a", "1"]),
        request(&["GET", "a"]),
        request(&["SET", "b", "2"]),
        request(&["PING"]),
    ];
    let mut published = Vec::new();
    for f in &requests {
        if handle_frame(f, &mut db, &repl, 0).publish {
            published.push(f.to_vec());
        }
    }
    assert_eq!(
        published,
        vec![
            vec![String::from("SET"), String::from("a"), String::from("1")],
            vec![String::from("SET"), String::from("b"), String::from("2")],
        ]
    );
}

#[test]
fn handshake_sends_four_requests_in_order() {
    let mut step = Handshake::start();
    let mut sent = Vec::new();
    while let Some(f) = step.request("6380") {
        sent.push(f);
        step = step.next();
    }
    assert_eq!(
        sent,
        vec![
            request(&["PING"]),
            request(&["REPLCONF", "listening-port", "6380"]),
            request(&["REPLCONF", "capa", "psync2"]),
            request(&["PSYNC", "?", "-1"]),
        ]
    );
    assert_eq!(step, Handshake::Done);
}

#[test]
fn roles_from_config() {
    assert_eq!(master().role, Role::Master);
    assert_eq!(replica().role, Role::Slave);
    assert_eq!(master().master_repl_offset, 0);
}

#[test]
fn config_reads_flags() {
    let args: Vec<String> = ["prog", "--port", "7000", "--replicaof", "localhost 6379"]
        .iter()
        .map(|s| s.to_string())
        .collect();
    let c = Config::parse(&args);
    assert_eq!(c.port, "7000");
    assert_eq!(c.replicaof, Some(String::from("localhost 6379")));
    let c = Config::parse(&vec![String::from("prog"), String::from("--port")]);
    assert_eq!(c.port, "6379");
    assert_eq!(c.replicaof, None);
}

#[test]
fn value_expiry() {
    let v = Value::new("x", Some(5));
    assert!(!v.is_expired_at(4));
    assert!(v.is_expired_at(5));
    assert!(v.is_expired());
    assert_eq!(v.data(), "x");
    let w = Value::new("x", None);
    assert!(!w.is_expired_at(u64::MAX));
    assert!(!w.is_expired());
}

#[test]
fn store_get_and_set() {
    let mut db = KeyValueDb::default();
    assert_eq!(db.get("a", 0), None);
    db.set("a", "1", None);
    db.set("b", "2", Some(10));
    assert_eq!(db.get("a", 0), Some(String::from("1")));
    assert_eq!(db.get("b", 9), Some(String::from("2")));
    assert_eq!(db.get("b", 10), None);
    assert_eq!(db.get("b", 0), None);
    assert_eq!(db.get("a", 100), Some(String::from("1")));
}
