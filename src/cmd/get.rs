use vstd::prelude::*;

use crate::db::{after_read, read_result, Database};
use crate::frame::{strings_view, Frame, FrameModel};

verus! {

/// `GET key`
#[derive(Debug)]
pub struct Get {
    key: String,
}

impl View for Get {
    type V = Seq<char>;

    closed spec fn view(&self) -> Seq<char> {
        self.key@
    }
}

/// The answer to a read: the text, or null where the key is missing or expired.
pub open spec fn get_reply(r: Option<Seq<char>>) -> FrameModel {
    match r {
        Some(v) => FrameModel::BulkString(v),
        None => FrameModel::Null,
    }
}

impl Get {
    /// The key is the second argument; without one there is no command.
    pub fn new(args: Vec<String>) -> (r: Option<Get>)
        ensures
            match r {
                Some(g) => args@.len() > 1 && g@ == strings_view(args@)[1],
                None => args@.len() <= 1,
            },
    {
        if args.len() > 1 {
            Some(Get { key: args[1].clone() })
        } else {
            None
        }
    }

    /// Reads the key at `now`; an expired entry is removed.
    pub fn reply<D: Database>(&self, db: &mut D, now: u64) -> (r: Frame)
        requires
            old(db).inv(),
        ensures
            final(db).inv(),
            r@ == get_reply(read_result(old(db).store(), self@, now)),
            final(db).store() == after_read(old(db).store(), self@, now),
    {
        match db.get(self.key.as_str(), now) {
            Some(v) => Frame::BulkString(v),
            None => Frame::Null,
        }
    }
}

} // verus!
