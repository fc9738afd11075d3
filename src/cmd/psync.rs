use vstd::prelude::*;
use vstd::string::{is_ascii, is_ascii_spec_bytes, StringExecFns, StringSliceAdditionalSpecFns};

use crate::cmd::with_name;
use crate::frame::{strings_view, Frame, FrameModel};
use crate::replication::Replication;
use crate::util::decimal::{decimal_string, decimal_text};
use crate::util::hex::{decode, hex_decoding, hex_pairs, is_hex_digit};
use crate::util::text::text_eq;

verus! {

/// The snapshot that a full resynchronisation sends: an empty database in
/// its file format, as hexadecimal digits.
pub const EMPTY_SNAPSHOT_HEX: &'static str = "524544495330303131fa0972656469732d76657205372e322e30fa0a72656469732d62697473c040fa056374696d65c26d08bc65fa08757365642d6d656dc2b0c41000fa08616f662d62617365c000fff06e3bfec0ff5aa2";

/// `PSYNC replication-id offset`
#[derive(Debug)]
pub struct Psync {
    args: Vec<String>,
}

impl View for Psync {
    type V = Seq<Seq<char>>;

    closed spec fn view(&self) -> Seq<Seq<char>> {
        strings_view(self.args@)
    }
}

/// `? -1`: the one request for a full resynchronisation.
pub open spec fn full_resync_requested(args: Seq<Seq<char>>) -> bool {
    args.len() >= 2 && args[0] == "?"@ && args[1] == "-1"@
}

/// The status line that opens a full resynchronisation.
pub open spec fn full_resync_line(replid: Seq<char>, offset: u64) -> Seq<char> {
    "FULLRESYNC "@ + replid + " "@ + decimal_text(offset as nat)
}

/// The snapshot bytes.
pub open spec fn snapshot() -> Seq<u8> {
    hex_decoding(EMPTY_SNAPSHOT_HEX.spec_bytes())
}

spec fn is_hex_char(c: char) -> bool {
    ('0' <= c && c <= '9') || ('a' <= c && c <= 'f') || ('A' <= c && c <= 'F')
}

/// Every character from position `i` on is a hexadecimal digit.
spec fn hex_chars_from(s: Seq<char>, i: int) -> bool
    decreases s.len() - i,
{
    if i < 0 || i >= s.len() {
        true
    } else {
        is_hex_char(s[i]) && hex_chars_from(s, i + 1)
    }
}

proof fn lemma_hex_chars_from(s: Seq<char>, i: int)
    requires
        0 <= i,
        hex_chars_from(s, i),
    ensures
        forall|k: int| i <= k < s.len() ==> is_hex_char(#[trigger] s[k]),
    decreases s.len() - i,
{
    if i < s.len() {
        lemma_hex_chars_from(s, i + 1);
    }
}

/// The snapshot constant is hexadecimal text, so a full resynchronisation
/// always sends a non-empty snapshot.
pub proof fn lemma_snapshot_not_empty()
    ensures
        hex_pairs(EMPTY_SNAPSHOT_HEX.spec_bytes()),
        snapshot().len() > 0,
{
    reveal_strlit("524544495330303131fa0972656469732d76657205372e322e30fa0a72656469732d62697473c040fa056374696d65c26d08bc65fa08757365642d6d656dc2b0c41000fa08616f662d62617365c000fff06e3bfec0ff5aa2");
    let t = EMPTY_SNAPSHOT_HEX@;
    assert(t.len() == 176);
    reveal_with_fuel(hex_chars_from, 17);
    assert(hex_chars_from(t, 176));
    assert(hex_chars_from(t, 160));
    assert(hex_chars_from(t, 144));
    assert(hex_chars_from(t, 128));
    assert(hex_chars_from(t, 112));
    assert(hex_chars_from(t, 96));
    assert(hex_chars_from(t, 80));
    assert(hex_chars_from(t, 64));
    assert(hex_chars_from(t, 48));
    assert(hex_chars_from(t, 32));
    assert(hex_chars_from(t, 16));
    assert(hex_chars_from(t, 0));
    lemma_hex_chars_from(t, 0);
    assert(is_ascii(EMPTY_SNAPSHOT_HEX));
    is_ascii_spec_bytes(EMPTY_SNAPSHOT_HEX);
    let b = EMPTY_SNAPSHOT_HEX.spec_bytes();
    assert forall|i: int| 0 <= i < (b.len() / 2) * 2 implies is_hex_digit(#[trigger] b[i]) by {
        assert(is_hex_char(t[i]));
    }
    assert(hex_decoding(b).len() == 88);
}

/// The frames that answer a `PSYNC` with these arguments: for a full
/// resynchronisation the status line and the snapshot, else nothing.
pub open spec fn psync_reply(args: Seq<Seq<char>>, replid: Seq<char>, offset: u64) -> Seq<FrameModel> {
    if full_resync_requested(args) {
        seq![
            FrameModel::SimpleString(full_resync_line(replid, offset)),
            FrameModel::BulkBytes(snapshot()),
        ]
    } else {
        Seq::empty()
    }
}

impl Psync {
    pub fn new(args: Vec<String>) -> (r: Psync)
        ensures
            r@ == strings_view(args@),
    {
        Psync { args }
    }

    /// Whether this asks for a full resynchronisation.
    pub fn is_full_resync(&self) -> (r: bool)
        ensures
            r == full_resync_requested(self@),
    {
        self.args.len() >= 2 && text_eq(self.args[0].as_str(), "?") && text_eq(
            self.args[1].as_str(),
            "-1",
        )
    }

    /// The answer, as [`psync_reply`] states it.
    pub fn reply(&self, repl: &Replication) -> (r: Vec<Frame>)
        ensures
            r@.map_values(|f: Frame| f@) == psync_reply(self@, repl.master_replid@, repl.master_repl_offset),
    {
        let mut out: Vec<Frame> = Vec::new();
        if self.is_full_resync() {
            let mut line = "FULLRESYNC ".to_owned();
            line.append(repl.master_replid.as_str());
            line.append(" ");
            let offset = decimal_string(repl.master_repl_offset);
            line.append(offset.as_str());
            proof {
                lemma_snapshot_not_empty();
            }
            let payload = decode(EMPTY_SNAPSHOT_HEX);
            out.push(Frame::SimpleString(line));
            out.push(Frame::BulkBytes(payload));
        }
        proof {
            assert(out@.map_values(|f: Frame| f@) =~= psync_reply(self@, repl.master_replid@, repl.master_repl_offset));
        }
        out
    }

    /// The request that sends this `PSYNC` to a master.
    pub fn request(&self) -> (r: Frame)
        ensures
            r@ == FrameModel::Arrays(seq!["PSYNC"@] + self@),
    {
        Frame::Arrays(with_name("PSYNC", &self.args))
    }
}

} // verus!
