use vstd::prelude::*;
use vstd::utf8::encode_utf8;

use crate::db::Database;
use crate::frame::{strings_view, Frame, FrameModel};
use crate::util::decimal::{parse_permissive, permissive_value};
use crate::util::text::{lower_of, lowercase, text_eq};
use crate::util::time::{milliseconds_after, now_millis, seconds_after};

verus! {

/// `SET key value [EX seconds | PX milliseconds]`
#[derive(Debug)]
pub struct SetValue {
    key: String,
    value: String,
    exp: Option<u128>,
}

impl View for SetValue {
    type V = (Seq<char>, Seq<char>, Option<u128>);

    closed spec fn view(&self) -> (Seq<char>, Seq<char>, Option<u128>) {
        (self.key@, self.value@, self.exp)
    }
}

/// The expiry instant that a lower-cased unit and a magnitude give at `now`:
/// `ex` counts seconds, `px` milliseconds; another unit, or a magnitude that
/// is not a positive number, gives none.
pub open spec fn expiry_for(unit: Seq<char>, magnitude: Seq<char>, now: u64) -> Option<u128> {
    let t = permissive_value(encode_utf8(magnitude), u64::MAX as nat);
    if t > 0 && unit == "ex"@ {
        Some((now + t * 1000) as u128)
    } else if t > 0 && unit == "px"@ {
        Some((now + t) as u128)
    } else {
        None
    }
}

/// The expiry that the arguments of a `SET` ask for at `now`.
pub open spec fn set_expiry(args: Seq<Seq<char>>, now: u64) -> Option<u128> {
    if args.len() > 4 {
        expiry_for(lower_of(args[3]), args[4], now)
    } else {
        None
    }
}

/// The `SET` that the arguments make at `now`, if they name a key and a value.
pub open spec fn set_of(args: Seq<Seq<char>>, now: u64) -> Option<(Seq<char>, Seq<char>, Option<u128>)> {
    if args.len() > 2 {
        Some((args[1], args[2], set_expiry(args, now)))
    } else {
        None
    }
}

/// The expiry instant for a lower-cased `unit` and a `magnitude`, at `now`.
pub fn expiry(unit: &str, magnitude: &str, now: u64) -> (r: Option<u128>)
    ensures
        r == expiry_for(unit@, magnitude@, now),
{
    let t = parse_permissive(magnitude.as_bytes(), u64::MAX);
    if t > 0 && text_eq(unit, "ex") {
        Some(seconds_after(now, t))
    } else if t > 0 && text_eq(unit, "px") {
        Some(milliseconds_after(now, t))
    } else {
        None
    }
}

impl SetValue {
    /// Builds the command from its arguments at the instant `now`.
    pub fn new_at(args: Vec<String>, now: u64) -> (r: Option<SetValue>)
        ensures
            match r {
                Some(s) => set_of(strings_view(args@), now) == Some(s@),
                None => set_of(strings_view(args@), now) is None,
            },
    {
        let exp = if args.len() > 4 {
            let unit = lowercase(args[3].as_str());
            expiry(unit.as_str(), args[4].as_str(), now)
        } else {
            None
        };
        if args.len() > 2 {
            Some(SetValue { key: args[1].clone(), value: args[2].clone(), exp })
        } else {
            None
        }
    }

    /// Builds the command from its arguments at the present reading of the clock.
    pub fn new(args: Vec<String>) -> (r: Option<SetValue>)
        ensures
            match r {
                Some(s) => exists|now: u64| #[trigger] set_of(strings_view(args@), now) == Some(s@),
                None => args@.len() <= 2,
            },
    {
        SetValue::new_at(args, now_millis())
    }

    /// Stores the value and answers `+OK`.
    pub fn reply<D: Database>(&self, db: &mut D) -> (r: Frame)
        requires
            old(db).inv(),
        ensures
            final(db).inv(),
            final(db).store() == old(db).store().insert(self@.0, (self@.1, self@.2)),
            r@ == FrameModel::SimpleString("OK"@),
    {
        db.set(self.key.as_str(), self.value.as_str(), self.exp);
        Frame::SimpleString("OK".to_owned())
    }
}

} // verus!
