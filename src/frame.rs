use vstd::prelude::*;
use vstd::utf8::{encode_utf8, encode_utf8_decode_utf8, encode_utf8_valid_utf8};

use crate::util::decimal::{
    dec_digits, is_digit, lemma_dec_digits, parse_permissive, permissive_value,
    push_decimal,
};
use crate::util::text::{lossy_string, text_eq, text_of};

verus! {

pub const CR: u8 = 13;

pub const LF: u8 = 10;

/// One unit of the wire protocol.
#[derive(Debug)]
pub enum Frame {
    /// `+text\r\n`
    SimpleString(String),
    /// `$len\r\ntext\r\n`
    BulkString(String),
    /// `*count\r\n` followed by that many bulk strings.
    Arrays(Vec<String>),
    /// `$len\r\nbytes`, with no terminator: only ever sent, right after a status line.
    BulkBytes(Vec<u8>),
    /// `$-1\r\n`
    Null,
    /// What an unknown leading byte, or an empty buffer, decodes to.
    Unknown,
}

/// Why a buffer could not be decoded.
#[derive(Debug, PartialEq, Eq, Structural)]
pub enum FrameError {
    /// A bulk string announces more bytes than the buffer holds.
    Incomplete,
}

/// The mathematical value of a [`Frame`].
pub enum FrameModel {
    SimpleString(Seq<char>),
    BulkString(Seq<char>),
    Arrays(Seq<Seq<char>>),
    BulkBytes(Seq<u8>),
    Null,
    Unknown,
}

impl View for Frame {
    type V = FrameModel;

    open spec fn view(&self) -> FrameModel {
        match self {
            Frame::SimpleString(s) => FrameModel::SimpleString(s@),
            Frame::BulkString(s) => FrameModel::BulkString(s@),
            Frame::Arrays(a) => FrameModel::Arrays(strings_view(a@)),
            Frame::BulkBytes(b) => FrameModel::BulkBytes(b@),
            Frame::Null => FrameModel::Null,
            Frame::Unknown => FrameModel::Unknown,
        }
    }
}

pub open spec fn strings_view(a: Seq<String>) -> Seq<Seq<char>> {
    a.map_values(|s: String| s@)
}

// ---------------------------------------------------------------------------
// Encoding

pub open spec fn crlf() -> Seq<u8> {
    seq![CR, LF]
}

/// `$<len>\r\n<bytes>\r\n`
pub open spec fn bulk_encoding(b: Seq<u8>) -> Seq<u8> {
    seq![36u8] + dec_digits(b.len()) + crlf() + b + crlf()
}

/// The bulk encodings of the UTF-8 bytes of each text, one after the other.
pub open spec fn args_encoding(a: Seq<Seq<char>>) -> Seq<u8>
    decreases a.len(),
{
    if a.len() == 0 {
        Seq::empty()
    } else {
        bulk_encoding(encode_utf8(a[0])) + args_encoding(a.drop_first())
    }
}

/// The bytes that stand for a frame on the wire.
pub open spec fn encoding(f: FrameModel) -> Seq<u8> {
    match f {
        FrameModel::SimpleString(s) => seq![43u8] + encode_utf8(s) + crlf(),
        FrameModel::BulkString(s) => bulk_encoding(encode_utf8(s)),
        FrameModel::Arrays(a) => seq![42u8] + dec_digits(a.len()) + crlf() + args_encoding(a),
        FrameModel::BulkBytes(b) => seq![36u8] + dec_digits(b.len()) + crlf() + b,
        FrameModel::Null => seq![36u8, 45u8, 49u8, CR, LF],
        FrameModel::Unknown => Seq::empty(),
    }
}

pub proof fn lemma_args_encoding_push(a: Seq<Seq<char>>, s: Seq<char>)
    ensures
        args_encoding(a.push(s)) == args_encoding(a) + bulk_encoding(encode_utf8(s)),
    decreases a.len(),
{
    if a.len() == 0 {
        assert(a.push(s).drop_first() == Seq::<Seq<char>>::empty());
        assert(a.push(s)[0] == s);
        assert(args_encoding(a.push(s).drop_first()) == Seq::<u8>::empty());
        assert(args_encoding(a.push(s)) == bulk_encoding(encode_utf8(s)) + Seq::<u8>::empty());
        assert(bulk_encoding(encode_utf8(s)) + Seq::<u8>::empty() == bulk_encoding(encode_utf8(s)));
    } else {
        assert(a.push(s).drop_first() == a.drop_first().push(s));
        lemma_args_encoding_push(a.drop_first(), s);
        assert(a.push(s)[0] == a[0]);
        let h = bulk_encoding(encode_utf8(a[0]));
        assert(h + (args_encoding(a.drop_first()) + bulk_encoding(encode_utf8(s))) == (h
            + args_encoding(a.drop_first())) + bulk_encoding(encode_utf8(s)));
    }
}

fn push_all(out: &mut Vec<u8>, b: &[u8])
    ensures
        final(out)@ == old(out)@ + b@,
{
    let ghost start = out@;
    let mut i: usize = 0;
    while i < b.len()
        invariant
            0 <= i <= b.len(),
            out@ == start + b@.subrange(0, i as int),
        decreases b.len() - i,
    {
        out.push(b[i]);
        i = i + 1;
        proof {
            assert(b@.subrange(0, i as int) == b@.subrange(0, i - 1 as int).push(b@[i - 1]));
        }
    }
    proof {
        assert(b@.subrange(0, b@.len() as int) == b@);
    }
}

/// Writes `<tag><n>\r\n`.
fn push_header(out: &mut Vec<u8>, tag: u8, n: usize)
    ensures
        final(out)@ == old(out)@ + seq![tag] + dec_digits(n as nat) + crlf(),
{
    let ghost start = out@;
    out.push(tag);
    push_decimal(out, n as u64);
    out.push(CR);
    out.push(LF);
    proof {
        assert(out@ == start + seq![tag] + dec_digits(n as nat) + crlf());
    }
}

/// Writes `$<len>\r\n<bytes>\r\n`.
fn push_bulk(out: &mut Vec<u8>, b: &[u8])
    ensures
        final(out)@ == old(out)@ + bulk_encoding(b@),
{
    let ghost start = out@;
    push_header(out, 36u8, b.len());
    push_all(out, b);
    out.push(CR);
    out.push(LF);
    proof {
        assert(out@ == start + bulk_encoding(b@));
    }
}

// ---------------------------------------------------------------------------
// Decoding

/// `\r\n` starts at `i`.
pub open spec fn crlf_at(b: Seq<u8>, i: int) -> bool {
    0 <= i && i + 1 < b.len() && b[i] == CR && b[i + 1] == LF
}

/// Where the line that starts at `i` ends: the first `\r\n` at or after `i`,
/// or the end of the buffer.
pub open spec fn line_end(b: Seq<u8>, i: int) -> int
    decreases b.len() - i,
{
    if i < 0 || i + 1 >= b.len() {
        b.len() as int
    } else if crlf_at(b, i) {
        i
    } else {
        line_end(b, i + 1)
    }
}

/// Where the line after the one that starts at `i` begins.
pub open spec fn line_next(b: Seq<u8>, i: int) -> int {
    if line_end(b, i) < b.len() {
        line_end(b, i) + 2
    } else {
        b.len() as int
    }
}

/// What a bulk header and its payload, read at `p` (just after the `$`), hold.
pub enum BulkModel {
    Null,
    Data(Seq<u8>),
    Short,
}

/// Reads a bulk string whose `$` stands just before `p`: its content and where
/// reading stops. A length that is not a number counts as zero.
pub open spec fn bulk_at(b: Seq<u8>, p: int) -> (BulkModel, int) {
    let e = line_end(b, p);
    let q = line_next(b, p);
    let hdr = b.subrange(p, e);
    if hdr == seq![45u8, 49u8] {
        (BulkModel::Null, q)
    } else {
        let n = permissive_value(hdr, usize::MAX as nat);
        if n == 0 {
            (BulkModel::Data(Seq::empty()), q)
        } else if q + n > b.len() {
            (BulkModel::Short, q)
        } else {
            (BulkModel::Data(b.subrange(q, q + n as int)), q + n)
        }
    }
}

/// The text of a bulk read inside an array; a null one reads as empty.
pub open spec fn bulk_text(m: BulkModel) -> Seq<char> {
    match m {
        BulkModel::Data(d) => text_of(d),
        _ => text_of(Seq::empty()),
    }
}

/// Reads `count` array elements starting at `p`. An element that does not
/// start with `$` is skipped, and so is any element past the end of the buffer;
/// after each bulk string the rest of its line is consumed.
pub open spec fn elements_at(b: Seq<u8>, p: int, count: nat) -> Option<Seq<Seq<char>>>
    decreases count,
{
    if count == 0 {
        Some(Seq::empty())
    } else if p < 0 || p >= b.len() {
        elements_at(b, p, (count - 1) as nat)
    } else if b[p] != 36u8 {
        elements_at(b, p + 1, (count - 1) as nat)
    } else {
        let (m, q) = bulk_at(b, p + 1);
        if m is Short {
            None
        } else {
            match elements_at(b, line_next(b, q), (count - 1) as nat) {
                Some(r) => Some(seq![bulk_text(m)] + r),
                None => None,
            }
        }
    }
}

/// What a buffer decodes to; `None` where a bulk string is cut short.
pub open spec fn decoding(b: Seq<u8>) -> Option<FrameModel> {
    if b.len() == 0 {
        Some(FrameModel::Unknown)
    } else if b[0] == 43u8 {
        Some(FrameModel::SimpleString(text_of(b.subrange(1, line_end(b, 1)))))
    } else if b[0] == 36u8 {
        match bulk_at(b, 1).0 {
            BulkModel::Null => Some(FrameModel::Null),
            BulkModel::Data(d) => Some(FrameModel::BulkString(text_of(d))),
            BulkModel::Short => None,
        }
    } else if b[0] == 42u8 {
        let count = permissive_value(b.subrange(1, line_end(b, 1)), usize::MAX as nat);
        match elements_at(b, line_next(b, 1), count) {
            Some(a) => Some(FrameModel::Arrays(a)),
            None => None,
        }
    } else {
        Some(FrameModel::Unknown)
    }
}

pub proof fn lemma_elements_past_end(b: Seq<u8>, p: int, count: nat)
    requires
        p >= b.len(),
    ensures
        elements_at(b, p, count) == Some(Seq::<Seq<char>>::empty()),
    decreases count,
{
    if count > 0 {
        lemma_elements_past_end(b, p, (count - 1) as nat);
    }
}

fn find_line_end(buf: &[u8], i: usize) -> (e: usize)
    requires
        i <= buf.len(),
    ensures
        e as int == line_end(buf@, i as int),
        i <= e <= buf.len(),
{
    let mut j = i;
    while buf.len() - j > 1 && !(buf[j] == CR && buf[j + 1] == LF)
        invariant
            i <= j <= buf.len(),
            line_end(buf@, i as int) == line_end(buf@, j as int),
        decreases buf.len() - j,
    {
        j = j + 1;
    }
    if buf.len() - j > 1 {
        j
    } else {
        buf.len()
    }
}

fn find_line_next(buf: &[u8], i: usize) -> (q: usize)
    requires
        i <= buf.len(),
    ensures
        q as int == line_next(buf@, i as int),
        i <= q <= buf.len(),
{
    let e = find_line_end(buf, i);
    if e < buf.len() {
        proof {
            lemma_line_end_crlf(buf@, i as int);
        }
        e + 2
    } else {
        e
    }
}

proof fn lemma_line_end_crlf(b: Seq<u8>, i: int)
    requires
        0 <= i <= b.len(),
        line_end(b, i) < b.len(),
    ensures
        crlf_at(b, line_end(b, i)),
    decreases b.len() - i,
{
    if i + 1 < b.len() && !crlf_at(b, i) {
        lemma_line_end_crlf(b, i + 1);
    }
}

/// The outcome of reading a bulk string in a buffer.
enum Bulk {
    Null,
    Data(usize, usize),
    Short,
}

spec fn bulk_matches(r: Bulk, m: BulkModel, b: Seq<u8>) -> bool {
    match r {
        Bulk::Null => m is Null,
        Bulk::Data(s, e) => s <= e <= b.len() && m == BulkModel::Data(b.subrange(s as int, e as int)),
        Bulk::Short => m is Short,
    }
}

/// Reads the bulk string whose `$` stands just before `p`.
fn read_bulk_string(buf: &[u8], p: usize) -> (r: (Bulk, usize))
    requires
        p <= buf.len(),
    ensures
        bulk_matches(r.0, bulk_at(buf@, p as int).0, buf@),
        r.1 as int == bulk_at(buf@, p as int).1,
        r.1 <= buf.len(),
{
    let e = find_line_end(buf, p);
    let q = find_line_next(buf, p);
    let ghost hdr = buf@.subrange(p as int, e as int);
    if e - p == 2 && buf[p] == 45u8 && buf[p + 1] == 49u8 {
        proof {
            assert(hdr =~= seq![45u8, 49u8]);
        }
        return (Bulk::Null, q);
    }
    proof {
        if hdr == seq![45u8, 49u8] {
            assert(hdr.len() == 2);
            assert(e == p + 2);
            assert(hdr[0] == 45u8);
            assert(hdr[1] == 49u8);
            assert(buf@[p as int] == hdr[0]);
            assert(buf@[p + 1] == hdr[1]);
        }
    }
    let n = parse_permissive(&buf[p..e], usize::MAX as u64) as usize;
    if n == 0 {
        proof {
            assert(buf@.subrange(q as int, q as int) =~= Seq::<u8>::empty());
        }
        (Bulk::Data(q, q), q)
    } else if n > buf.len() - q {
        (Bulk::Short, q)
    } else {
        (Bulk::Data(q, q + n), q + n)
    }
}

// ---------------------------------------------------------------------------
// Decoding what was encoded

/// No `\r\n` stands anywhere in `b`.
pub open spec fn no_crlf(b: Seq<u8>) -> bool {
    forall|i: int| 0 <= i < b.len() - 1 ==> !(#[trigger] b[i] == CR && b[i + 1] == LF)
}

/// The frames that decoding gives back unchanged: a status line holds no
/// `\r\n`, and raw bytes are never decoded.
pub open spec fn decodable(f: FrameModel) -> bool {
    match f {
        FrameModel::SimpleString(s) => no_crlf(encode_utf8(s)),
        FrameModel::BulkString(s) => encode_utf8(s).len() <= usize::MAX,
        FrameModel::Arrays(a) => a.len() <= usize::MAX && forall|i: int|
            0 <= i < a.len() ==> (#[trigger] encode_utf8(a[i])).len() <= usize::MAX,
        FrameModel::BulkBytes(_) => false,
        _ => true,
    }
}

proof fn lemma_line_end_at(b: Seq<u8>, i: int, j: int)
    requires
        0 <= i <= j,
        crlf_at(b, j),
        forall|k: int| i <= k < j ==> !crlf_at(b, k),
    ensures
        line_end(b, i) == j,
    decreases j - i,
{
    if i < j {
        assert(!crlf_at(b, i));
        lemma_line_end_at(b, i + 1, j);
    }
}

/// A bulk string encoded at `p` (just after its `$`) reads back as its bytes,
/// and the line after it starts where the encoding ends.
proof fn lemma_bulk_read(b: Seq<u8>, p: int, d: Seq<u8>)
    requires
        0 <= p,
        d.len() <= usize::MAX,
        p + dec_digits(d.len()).len() + 4 + d.len() <= b.len(),
        b.subrange(p, p + dec_digits(d.len()).len() + 4 + d.len()) == dec_digits(d.len()) + crlf()
            + d + crlf(),
    ensures
        bulk_at(b, p).0 == BulkModel::Data(d),
        line_next(b, bulk_at(b, p).1) == p + dec_digits(d.len()).len() + 4 + d.len(),
{
    let ds = dec_digits(d.len());
    let w = ds + crlf() + d + crlf();
    let e = p + ds.len() as int;
    let q = e + 2;
    let n = d.len() as int;
    lemma_dec_digits(d.len());
    assert forall|k: int| 0 <= k < w.len() implies b[p + k] == #[trigger] w[k] by {
        assert(b.subrange(p, p + w.len())[k] == b[p + k]);
    }
    assert forall|k: int| p <= k < e implies !crlf_at(b, k) by {
        assert(b[p + (k - p)] == w[k - p]);
        assert(w[k - p] == ds[k - p]);
        assert(is_digit(ds[k - p]));
    }
    assert(b[p + ds.len()] == w[ds.len() as int]);
    assert(b[p + ds.len() + 1] == w[ds.len() as int + 1]);
    assert(crlf_at(b, e));
    lemma_line_end_at(b, p, e);
    assert(b.subrange(p, e) =~= ds);
    assert(ds[0] != 45u8) by {
        assert(is_digit(ds[0]));
    }
    assert(b.subrange(p, e) != seq![45u8, 49u8]);
    assert(permissive_value(ds, usize::MAX as nat) == n);
    assert(b.subrange(q, q + n) =~= d) by {
        assert forall|k: int| 0 <= k < n implies b.subrange(q, q + n)[k] == d[k] by {
            assert(b[p + (ds.len() + 2 + k)] == w[ds.len() + 2 + k]);
        }
    }
    if n == 0 {
        assert(d =~= Seq::<u8>::empty());
    }
    assert(b[p + (ds.len() + 2 + n)] == w[ds.len() + 2 + n]);
    assert(b[p + (ds.len() + 3 + n)] == w[ds.len() + 3 + n]);
    assert(crlf_at(b, q + n));
    lemma_line_end_at(b, q + n, q + n);
}

/// Bulk strings encoded one after the other from `p` read back as the array.
proof fn lemma_elements_read(b: Seq<u8>, p: int, a: Seq<Seq<char>>)
    requires
        0 <= p,
        p + args_encoding(a).len() <= b.len(),
        b.subrange(p, p + args_encoding(a).len()) == args_encoding(a),
        forall|i: int| 0 <= i < a.len() ==> (#[trigger] encode_utf8(a[i])).len() <= usize::MAX,
    ensures
        elements_at(b, p, a.len()) == Some(a),
    decreases a.len(),
{
    if a.len() == 0 {
        assert(a =~= Seq::<Seq<char>>::empty());
    } else {
        let u = encode_utf8(a[0]);
        let h = bulk_encoding(u);
        let rest = a.drop_first();
        let whole = args_encoding(a);
        assert(whole == h + args_encoding(rest));
        assert(encode_utf8(a[0]).len() <= usize::MAX);
        assert(b[p] == whole[0]) by {
            assert(b.subrange(p, p + whole.len())[0] == b[p]);
        }
        let inner = dec_digits(u.len()) + crlf() + u + crlf();
        assert(h =~= seq![36u8] + inner);
        assert(b.subrange(p + 1, p + 1 + inner.len()) =~= inner) by {
            assert forall|k: int| 0 <= k < inner.len() implies #[trigger] b.subrange(
                p + 1,
                p + 1 + inner.len(),
            )[k] == inner[k] by {
                assert(b.subrange(p, p + whole.len())[k + 1] == b[p + 1 + k]);
                assert(whole[k + 1] == h[k + 1]);
            }
        }
        lemma_bulk_read(b, p + 1, u);
        let p2 = p + h.len() as int;
        assert forall|i: int| 0 <= i < rest.len() implies (#[trigger] encode_utf8(rest[i])).len()
            <= usize::MAX by {
            assert(rest[i] == a[i + 1]);
        }
        assert(b.subrange(p2, p2 + args_encoding(rest).len()) =~= args_encoding(rest)) by {
            assert forall|k: int| 0 <= k < args_encoding(rest).len() implies b.subrange(
                p2,
                p2 + args_encoding(rest).len(),
            )[k] == args_encoding(rest)[k] by {
                assert(b.subrange(p, p + whole.len())[h.len() + k] == b[p2 + k]);
            }
        }
        lemma_elements_read(b, p2, rest);
        encode_utf8_valid_utf8(a[0]);
        encode_utf8_decode_utf8(a[0]);
        assert(seq![a[0]] + rest =~= a);
    }
}

/// Decoding what `encode` wrote gives the frame back, for every frame that is
/// meant to be decoded: raw bytes are not, and a status line must hold no
/// `\r\n`.
pub proof fn lemma_decode_encode(f: Frame)
    requires
        decodable(f@),
    ensures
        decoding(encoding(f@)) == Some(f@),
{
    let b = encoding(f@);
    match f@ {
        FrameModel::SimpleString(s) => {
            let u = encode_utf8(s);
            let m = 1 + u.len() as int;
            assert forall|k: int| 1 <= k < m implies !crlf_at(b, k) by {
                if k + 1 < m {
                    assert(b[k] == u[k - 1]);
                    assert(b[k + 1] == u[k]);
                } else {
                    assert(b[k + 1] == CR);
                }
            }
            assert(crlf_at(b, m));
            lemma_line_end_at(b, 1, m);
            assert(b.subrange(1, m) =~= u);
            encode_utf8_valid_utf8(s);
            encode_utf8_decode_utf8(s);
        },
        FrameModel::BulkString(s) => {
            let u = encode_utf8(s);
            assert(b.subrange(1, b.len() as int) =~= dec_digits(u.len()) + crlf() + u + crlf());
            lemma_bulk_read(b, 1, u);
            encode_utf8_valid_utf8(s);
            encode_utf8_decode_utf8(s);
        },
        FrameModel::Arrays(a) => {
            let ds = dec_digits(a.len());
            lemma_dec_digits(a.len());
            let e = 1 + ds.len() as int;
            assert forall|k: int| 1 <= k < e implies !crlf_at(b, k) by {
                assert(b[k] == ds[k - 1]);
                assert(is_digit(ds[k - 1]));
            }
            assert(crlf_at(b, e));
            lemma_line_end_at(b, 1, e);
            assert(b.subrange(1, e) =~= ds);
            let args = args_encoding(a);
            assert(b.subrange(e + 2, e + 2 + args.len()) =~= args);
            lemma_elements_read(b, e + 2, a);
        },
        FrameModel::Null => {
            assert(!crlf_at(b, 1));
            assert(!crlf_at(b, 2));
            assert(crlf_at(b, 3));
            lemma_line_end_at(b, 1, 3);
            assert(b.subrange(1, 3) =~= seq![45u8, 49u8]);
        },
        _ => {},
    }
}

fn strings_eq(a: &Vec<String>, b: &Vec<String>) -> (r: bool)
    ensures
        r == (strings_view(a@) == strings_view(b@)),
{
    if a.len() != b.len() {
        proof {
            assert(strings_view(a@).len() != strings_view(b@).len());
        }
        return false;
    }
    let mut i: usize = 0;
    while i < a.len()
        invariant
            a@.len() == b@.len(),
            0 <= i <= a.len(),
            forall|k: int| 0 <= k < i ==> (#[trigger] a@[k])@ == b@[k]@,
        decreases a.len() - i,
    {
        if a[i] != b[i] {
            proof {
                assert(strings_view(a@)[i as int] != strings_view(b@)[i as int]);
            }
            return false;
        }
        i = i + 1;
    }
    proof {
        assert(strings_view(a@) =~= strings_view(b@));
    }
    true
}

fn bytes_eq(a: &Vec<u8>, b: &Vec<u8>) -> (r: bool)
    ensures
        r == (a@ == b@),
{
    if a.len() != b.len() {
        return false;
    }
    let mut i: usize = 0;
    while i < a.len()
        invariant
            a@.len() == b@.len(),
            0 <= i <= a.len(),
            forall|k: int| 0 <= k < i ==> a@[k] == b@[k],
        decreases a.len() - i,
    {
        if a[i] != b[i] {
            return false;
        }
        i = i + 1;
    }
    proof {
        assert(a@ =~= b@);
    }
    true
}

impl PartialEq for Frame {
    fn eq(&self, other: &Frame) -> (r: bool) {
        match self {
            Frame::SimpleString(a) => match other {
                Frame::SimpleString(b) => text_eq(a.as_str(), b.as_str()),
                _ => false,
            },
            Frame::BulkString(a) => match other {
                Frame::BulkString(b) => text_eq(a.as_str(), b.as_str()),
                _ => false,
            },
            Frame::Arrays(a) => match other {
                Frame::Arrays(b) => strings_eq(a, b),
                _ => false,
            },
            Frame::BulkBytes(a) => match other {
                Frame::BulkBytes(b) => bytes_eq(a, b),
                _ => false,
            },
            Frame::Null => matches!(other, Frame::Null),
            Frame::Unknown => matches!(other, Frame::Unknown),
        }
    }
}

impl vstd::std_specs::cmp::PartialEqSpecImpl for Frame {
    open spec fn obeys_eq_spec() -> bool {
        true
    }

    open spec fn eq_spec(&self, other: &Frame) -> bool {
        self@ == other@
    }
}

/// The arguments that a frame carries: an array's elements, the text of a
/// status line or of a bulk string, and nothing else.
pub open spec fn frame_args(f: FrameModel) -> Seq<Seq<char>> {
    match f {
        FrameModel::SimpleString(s) => seq![s],
        FrameModel::BulkString(s) => seq![s],
        FrameModel::Arrays(a) => a,
        _ => Seq::empty(),
    }
}

impl Frame {
    /// The arguments that this frame carries.
    pub fn to_vec(&self) -> (r: Vec<String>)
        ensures
            strings_view(r@) == frame_args(self@),
    {
        let mut result: Vec<String> = Vec::new();
        match self {
            Frame::SimpleString(s) => {
                result.push(s.clone());
            },
            Frame::BulkString(s) => {
                result.push(s.clone());
            },
            Frame::Arrays(a) => {
                let mut i: usize = 0;
                while i < a.len()
                    invariant
                        0 <= i <= a.len(),
                        strings_view(result@) == strings_view(a@).take(i as int),
                    decreases a.len() - i,
                {
                    result.push(a[i].clone());
                    proof {
                        assert(strings_view(a@).take(i + 1) =~= strings_view(a@).take(i as int).push(a@[i as int]@));
                        assert(strings_view(result@) =~= strings_view(a@).take(i + 1));
                    }
                    i = i + 1;
                }
                proof {
                    assert(strings_view(a@).take(a@.len() as int) =~= strings_view(a@));
                }
            },
            _ => {},
        }
        proof {
            assert(strings_view(result@) =~= frame_args(self@));
        }
        result
    }

    /// Decodes the frame at the start of `buf`.
    pub fn parse(buf: &[u8]) -> (r: Result<Frame, FrameError>)
        ensures
            match r {
                Ok(f) => decoding(buf@) == Some(f@),
                Err(_) => decoding(buf@) is None,
            },
    {
        if buf.len() == 0 {
            return Ok(Frame::Unknown);
        }
        let tag = buf[0];
        if tag == 43u8 {
            let e = find_line_end(buf, 1);
            Ok(Frame::SimpleString(lossy_string(&buf[1..e])))
        } else if tag == 36u8 {
            let (m, _) = read_bulk_string(buf, 1);
            match m {
                Bulk::Null => Ok(Frame::Null),
                Bulk::Data(s, e) => Ok(Frame::BulkString(lossy_string(&buf[s..e]))),
                Bulk::Short => Err(FrameError::Incomplete),
            }
        } else if tag == 42u8 {
            let e = find_line_end(buf, 1);
            let count = parse_permissive(&buf[1..e], usize::MAX as u64) as usize;
            let mut p = find_line_next(buf, 1);
            let mut items: Vec<String> = Vec::new();
            let mut k: usize = 0;
            let ghost p0 = p as int;
            while k < count && p < buf.len()
                invariant
                    buf@.len() > 0,
                    buf@[0] == 42u8,
                    k <= count,
                    p <= buf.len(),
                    count as nat == permissive_value(buf@.subrange(1, line_end(buf@, 1)), usize::MAX as nat),
                    p0 == line_next(buf@, 1),
                    elements_at(buf@, p0, count as nat) == match elements_at(buf@, p as int, (count - k) as nat) {
                        Some(rest) => Some(strings_view(items@) + rest),
                        None => None,
                    },
                decreases count - k,
            {
                if buf[p] != 36u8 {
                    p = p + 1;
                } else {
                    let (m, q) = read_bulk_string(buf, p + 1);
                    let ghost items0 = items@;
                    match m {
                        Bulk::Short => {
                            proof {
                                assert(bulk_at(buf@, p + 1).0 is Short);
                                assert(elements_at(buf@, p as int, (count - k) as nat) is None);
                                assert(elements_at(buf@, p0, count as nat) is None);
                                assert(decoding(buf@) is None);
                            }
                            return Err(FrameError::Incomplete);
                        },
                        Bulk::Null => {
                            items.push(lossy_string(&buf[q..q]));
                            proof {
                                assert(buf@.subrange(q as int, q as int) =~= Seq::<u8>::empty());
                            }
                        },
                        Bulk::Data(s, t) => {
                            items.push(lossy_string(&buf[s..t]));
                        },
                    }
                    proof {
                        let m2 = bulk_at(buf@, p + 1).0;
                        assert(strings_view(items@) =~= strings_view(items0).push(bulk_text(m2)));
                        match elements_at(buf@, line_next(buf@, q as int), (count - k - 1) as nat) {
                            Some(rest) => {
                                assert(strings_view(items0) + (seq![bulk_text(m2)] + rest) =~= strings_view(items@) + rest);
                            },
                            None => {},
                        }
                    }
                    p = find_line_next(buf, q);
                }
                k = k + 1;
            }
            proof {
                if k < count {
                    lemma_elements_past_end(buf@, p as int, (count - k) as nat);
                }
                assert(strings_view(items@) + Seq::<Seq<char>>::empty() =~= strings_view(items@));
            }
            Ok(Frame::Arrays(items))
        } else {
            Ok(Frame::Unknown)
        }
    }

    /// The bytes that stand for this frame on the wire.
    pub fn encode(&self) -> (r: Vec<u8>)
        ensures
            r@ == encoding(self@),
    {
        let mut out: Vec<u8> = Vec::new();
        match self {
            Frame::SimpleString(s) => {
                out.push(43u8);
                push_all(&mut out, s.as_str().as_bytes());
                out.push(CR);
                out.push(LF);
                proof {
                    assert(out@ =~= encoding(self@));
                }
            },
            Frame::BulkString(s) => {
                push_bulk(&mut out, s.as_str().as_bytes());
                proof {
                    assert(out@ =~= encoding(self@));
                }
            },
            Frame::Arrays(a) => {
                push_header(&mut out, 42u8, a.len());
                let ghost head = out@;
                let mut i: usize = 0;
                while i < a.len()
                    invariant
                        0 <= i <= a.len(),
                        out@ == head + args_encoding(strings_view(a@).take(i as int)),
                    decreases a.len() - i,
                {
                    push_bulk(&mut out, a[i].as_str().as_bytes());
                    proof {
                        let v = strings_view(a@);
                        assert(v.take(i + 1) == v.take(i as int).push(a@[i as int]@));
                        lemma_args_encoding_push(v.take(i as int), a@[i as int]@);
                    }
                    i = i + 1;
                }
                proof {
                    assert(strings_view(a@).take(a@.len() as int) == strings_view(a@));
                    assert(out@ =~= encoding(self@));
                }
            },
            Frame::BulkBytes(b) => {
                push_header(&mut out, 36u8, b.len());
                push_all(&mut out, b.as_slice());
                proof {
                    assert(out@ =~= encoding(self@));
                }
            },
            Frame::Null => {
                out.push(36u8);
                out.push(45u8);
                out.push(49u8);
                out.push(CR);
                out.push(LF);
                proof {
                    assert(out@ =~= encoding(self@));
                }
            },
            Frame::Unknown => {
                proof {
                    assert(out@ =~= encoding(self@));
                }
            },
        }
        out
    }
}

} // verus!
