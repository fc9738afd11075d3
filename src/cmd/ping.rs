use vstd::prelude::*;

use crate::frame::{Frame, FrameModel};

verus! {

/// `PING`, with the message that a replica sends when it opens a handshake.
#[derive(Debug)]
pub struct Ping {
    msg: Option<String>,
}

impl View for Ping {
    type V = Option<Seq<char>>;

    closed spec fn view(&self) -> Option<Seq<char>> {
        match self.msg {
            Some(m) => Some(m@),
            None => None,
        }
    }
}

impl Ping {
    pub fn new(msg: Option<&str>) -> (r: Ping)
        ensures
            r@ == match msg {
                Some(m) => Some(m@),
                None => None::<Seq<char>>,
            },
    {
        let msg = match msg {
            Some(m) => Some(m.to_owned()),
            None => None,
        };
        Ping { msg }
    }

    /// The answer to a ping: `+PONG`.
    pub fn reply(&self) -> (r: Frame)
        ensures
            r@ == FrameModel::SimpleString("PONG"@),
    {
        Frame::SimpleString("PONG".to_owned())
    }

    /// The request that sends this ping, if it carries a message.
    pub fn request(&self) -> (r: Option<Frame>)
        ensures
            match self@ {
                Some(m) => r is Some && r->0@ == FrameModel::Arrays(seq![m]),
                None => r is None,
            },
    {
        match &self.msg {
            Some(m) => {
                let mut v: Vec<String> = Vec::new();
                v.push(m.clone());
                proof {
                    assert(crate::frame::strings_view(v@) =~= seq![m@]);
                }
                Some(Frame::Arrays(v))
            },
            None => None,
        }
    }
}

} // verus!
