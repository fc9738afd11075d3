use std::time::{SystemTime, UNIX_EPOCH};

use redis_starter_rust::util::hex::decode;
use redis_starter_rust::util::time::{
    current_time_with_milliseconds, current_time_with_seconds, is_expired, is_expired_at,
    milliseconds_after, seconds_after,
};

fn now_ms() -> u128 {
    SystemTime::now().duration_since(UNIX_EPOCH).unwrap().as_millis()
}

#[test]
fn test_decode() {
    let hex = "48656c6c6f20576f726c64";
    let s = String::from("Hello World");

    assert_eq!(s, String::from_utf8(decode(hex).to_vec()).unwrap());
}

#[test]
fn decode_upper_case_and_odd_tail() {
    assert_eq!(decode("FFa0b"), vec![0xff, 0xa0]);
}

#[test]
fn test_current_time_with_seconds() {
    let now = now_ms();
    let t = current_time_with_seconds(1);

    assert!(t > now);
}

#[test]
fn test_current_time_with_milliseconds() {
    let now = now_ms();
    let t = current_time_with_milliseconds(1);

    assert!(t > now);
}

#[test]
fn test_is_expired() {
    let t = current_time_with_milliseconds(100);

    assert!(!is_expired(t))
}

#[test]
fn past_instant_is_expired() {
    assert!(is_expired(1));
}

#[test]
fn instants_after_a_reading() {
    assert_eq!(seconds_after(1_000, 2), 3_000);
    assert_eq!(milliseconds_after(1_000, 2), 1_002);
    assert_eq!(seconds_after(u64::MAX, u64::MAX), u64::MAX as u128 + u64::MAX as u128 * 1000);
}

#[test]
fn expiry_is_reached_at_the_instant() {
    assert!(!is_expired_at(1_000, 999));
    assert!(is_expired_at(1_000, 1_000));
    assert!(is_expired_at(1_000, 1_001));
}
