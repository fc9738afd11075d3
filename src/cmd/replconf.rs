use vstd::prelude::*;

use crate::cmd::with_name;
use crate::frame::{strings_view, Frame, FrameModel};

verus! {

/// `REPLCONF option value ...`: the options are kept as they came.
#[derive(Debug)]
pub struct Replconf {
    conf: Vec<String>,
}

impl View for Replconf {
    type V = Seq<Seq<char>>;

    closed spec fn view(&self) -> Seq<Seq<char>> {
        strings_view(self.conf@)
    }
}

impl Replconf {
    pub fn new(conf: Vec<String>) -> (r: Replconf)
        ensures
            r@ == strings_view(conf@),
    {
        Replconf { conf }
    }

    /// The answer: `+OK`, whatever the options.
    pub fn reply(&self) -> (r: Frame)
        ensures
            r@ == FrameModel::SimpleString("OK"@),
    {
        Frame::SimpleString("OK".to_owned())
    }

    /// The request that sends these options to a master.
    pub fn request(&self) -> (r: Frame)
        ensures
            r@ == FrameModel::Arrays(seq!["REPLCONF"@] + self@),
    {
        Frame::Arrays(with_name("REPLCONF", &self.conf))
    }
}

} // verus!
