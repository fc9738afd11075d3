use vstd::prelude::*;

use crate::cmd::arg_or_empty;
use crate::frame::{strings_view, Frame, FrameModel};

verus! {

/// `ECHO message`
#[derive(Debug)]
pub struct Echo {
    msg: String,
}

impl View for Echo {
    type V = Seq<char>;

    closed spec fn view(&self) -> Seq<char> {
        self.msg@
    }
}

impl Echo {
    /// The message is the second argument, or empty where there is none.
    pub fn new(args: Vec<String>) -> (r: Echo)
        ensures
            r@ == arg_or_empty(strings_view(args@), 1),
    {
        let msg = if args.len() > 1 {
            args[1].clone()
        } else {
            String::new()
        };
        Echo { msg }
    }

    /// The answer: the message as a bulk string.
    pub fn reply(&self) -> (r: Frame)
        ensures
            r@ == FrameModel::BulkString(self@),
    {
        Frame::BulkString(self.msg.clone())
    }
}

} // verus!
