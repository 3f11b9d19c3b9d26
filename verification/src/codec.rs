//! Big-endian primitives shared by the record encoding and the wire protocol.
//!
//! Every multi-byte integer is big-endian. Record encoding must be
//! byte-for-byte reproducible: it is the input to the Ed25519 signature.
//!
//! A read is specified as a function from the unread bytes to its result and
//! the bytes left unread, so a sequence of reads is a chain of such functions.

use vstd::prelude::*;
use vstd::slice::*;
use vstd::string::*;
use vstd::utf8::*;

use crate::error::{Error, ErrorModel, Result, outcome};
use crate::text::{dec, push_dec};

verus! {

// ---------------------------------------------------------------------------
// Integers
// ---------------------------------------------------------------------------

/// `v` as two big-endian bytes.
#[verifier::opaque]
pub open spec fn be16(v: u16) -> Seq<u8> {
    seq![(v / 0x100) as u8, (v % 0x100) as u8]
}

/// `v` as four big-endian bytes.
#[verifier::opaque]
pub open spec fn be32(v: u32) -> Seq<u8> {
    be16((v / 0x1_0000) as u16) + be16((v % 0x1_0000) as u16)
}

/// `v` as eight big-endian bytes.
#[verifier::opaque]
pub open spec fn be64(v: u64) -> Seq<u8> {
    be32((v / 0x1_0000_0000) as u32) + be32((v % 0x1_0000_0000) as u32)
}

/// The integer that two big-endian bytes stand for.
#[verifier::opaque]
pub open spec fn from_be16(b: Seq<u8>) -> u16 {
    (b[0] * 0x100 + b[1]) as u16
}

/// The integer that four big-endian bytes stand for.
#[verifier::opaque]
pub open spec fn from_be32(b: Seq<u8>) -> u32 {
    (from_be16(b.subrange(0, 2)) * 0x1_0000 + from_be16(b.subrange(2, 4))) as u32
}

/// The integer that eight big-endian bytes stand for.
#[verifier::opaque]
pub open spec fn from_be64(b: Seq<u8>) -> u64 {
    (from_be32(b.subrange(0, 4)) * 0x1_0000_0000 + from_be32(b.subrange(4, 8))) as u64
}

/// Two bytes carry a `u16` exactly.
pub proof fn be16_round_trip(v: u16, b: Seq<u8>)
    ensures
        be16(v).len() == 2,
        from_be16(be16(v)) == v,
        b.len() == 2 ==> be16(from_be16(b)) == b,
{
    reveal(be16);
    reveal(from_be16);
    if b.len() == 2 {
        let w = from_be16(b);
        assert(w == b[0] * 0x100 + b[1]);
        assert(w / 0x100 == b[0] && w % 0x100 == b[1]);
        assert(be16(w) =~= b);
    }
}

/// Four bytes carry a `u32` exactly.
pub proof fn be32_round_trip(v: u32, b: Seq<u8>)
    ensures
        be32(v).len() == 4,
        from_be32(be32(v)) == v,
        b.len() == 4 ==> be32(from_be32(b)) == b,
{
    reveal(be32);
    reveal(from_be32);
    let hi = (v / 0x1_0000) as u16;
    let lo = (v % 0x1_0000) as u16;
    be16_round_trip(hi, b.subrange(0, 2));
    be16_round_trip(lo, b.subrange(2, 4));
    assert(be32(v).subrange(0, 2) =~= be16(hi));
    assert(be32(v).subrange(2, 4) =~= be16(lo));
    if b.len() == 4 {
        let w = from_be32(b);
        let h = from_be16(b.subrange(0, 2));
        let l = from_be16(b.subrange(2, 4));
        assert(w / 0x1_0000 == h && w % 0x1_0000 == l);
        assert(be32(w) =~= b);
    }
}

/// Eight bytes carry a `u64` exactly.
pub proof fn be64_round_trip(v: u64, b: Seq<u8>)
    ensures
        be64(v).len() == 8,
        from_be64(be64(v)) == v,
        b.len() == 8 ==> be64(from_be64(b)) == b,
{
    reveal(be64);
    reveal(from_be64);
    let hi = (v / 0x1_0000_0000) as u32;
    let lo = (v % 0x1_0000_0000) as u32;
    be32_round_trip(hi, b.subrange(0, 4));
    be32_round_trip(lo, b.subrange(4, 8));
    assert(be64(v).subrange(0, 4) =~= be32(hi));
    assert(be64(v).subrange(4, 8) =~= be32(lo));
    if b.len() == 8 {
        let w = from_be64(b);
        let h = from_be32(b.subrange(0, 4));
        let l = from_be32(b.subrange(4, 8));
        assert(w / 0x1_0000_0000 == h && w % 0x1_0000_0000 == l);
        assert(be64(w) =~= b);
    }
}

/// Append bytes.
pub fn put_bytes(buf: &mut Vec<u8>, b: &[u8])
    ensures
        final(buf)@ == old(buf)@ + b@,
{
    let ghost before = buf@;
    buf.extend_from_slice(b);
    assert(buf@ =~= before + b@);
}

/// Append a byte.
pub fn put_u8(buf: &mut Vec<u8>, v: u8)
    ensures
        final(buf)@ == old(buf)@ + seq![v],
{
    let ghost before = buf@;
    buf.push(v);
    assert(buf@ =~= before + seq![v]);
}

/// Append a big-endian `u16`.
pub fn put_u16(buf: &mut Vec<u8>, v: u16)
    ensures
        final(buf)@ == old(buf)@ + be16(v),
{
    proof {
        reveal(be16);
    }
    let ghost before = buf@;
    buf.push((v / 0x100) as u8);
    buf.push((v % 0x100) as u8);
    assert(buf@ =~= before + be16(v));
}

/// Append a big-endian `u32`.
pub fn put_u32(buf: &mut Vec<u8>, v: u32)
    ensures
        final(buf)@ == old(buf)@ + be32(v),
{
    proof {
        reveal(be32);
    }
    let ghost before = buf@;
    put_u16(buf, (v / 0x1_0000) as u16);
    put_u16(buf, (v % 0x1_0000) as u16);
    assert(buf@ =~= before + be32(v));
}

/// Append a big-endian `u64`.
pub fn put_u64(buf: &mut Vec<u8>, v: u64)
    ensures
        final(buf)@ == old(buf)@ + be64(v),
{
    proof {
        reveal(be64);
    }
    let ghost before = buf@;
    put_u32(buf, (v / 0x1_0000_0000) as u32);
    put_u32(buf, (v % 0x1_0000_0000) as u32);
    assert(buf@ =~= before + be64(v));
}

// ---------------------------------------------------------------------------
// Reads
// ---------------------------------------------------------------------------

/// A read of a value of type `V`: its result, and the bytes left unread.
pub type Parse<V> = (std::result::Result<V, ErrorModel>, Seq<u8>);

/// What a read reports when fewer bytes are left than it needs.
pub open spec fn truncated(what: Seq<char>, need: nat, left: nat) -> ErrorModel {
    ErrorModel::Record(
        "truncated while reading "@ + what + ": need "@ + dec(need) + " bytes, "@ + dec(left)
            + " left"@,
    )
}

/// Read the next `n` bytes.
#[verifier::opaque]
pub open spec fn read_bytes(s: Seq<u8>, n: nat, what: Seq<char>) -> Parse<Seq<u8>> {
    if s.len() < n {
        (Err(truncated(what, n, s.len())), s)
    } else {
        (Ok(s.subrange(0, n as int)), s.subrange(n as int, s.len() as int))
    }
}

/// Read a byte.
#[verifier::opaque]
pub open spec fn read_u8(s: Seq<u8>, what: Seq<char>) -> Parse<u8> {
    match read_bytes(s, 1, what) {
        (Ok(b), t) => (Ok(b[0]), t),
        (Err(e), t) => (Err(e), t),
    }
}

/// Read a big-endian `u16`.
#[verifier::opaque]
pub open spec fn read_u16(s: Seq<u8>, what: Seq<char>) -> Parse<u16> {
    match read_bytes(s, 2, what) {
        (Ok(b), t) => (Ok(from_be16(b)), t),
        (Err(e), t) => (Err(e), t),
    }
}

/// Read a big-endian `u32`.
#[verifier::opaque]
pub open spec fn read_u32(s: Seq<u8>, what: Seq<char>) -> Parse<u32> {
    match read_bytes(s, 4, what) {
        (Ok(b), t) => (Ok(from_be32(b)), t),
        (Err(e), t) => (Err(e), t),
    }
}

/// Read a big-endian `u64`.
#[verifier::opaque]
pub open spec fn read_u64(s: Seq<u8>, what: Seq<char>) -> Parse<u64> {
    match read_bytes(s, 8, what) {
        (Ok(b), t) => (Ok(from_be64(b)), t),
        (Err(e), t) => (Err(e), t),
    }
}

/// The text of the error that `String::from_utf8` reports for these bytes.
pub uninterp spec fn utf8_error_text(bytes: Seq<u8>) -> Seq<char>;

/// `String::from_utf8`: succeeds on exactly the valid UTF-8 byte sequences,
/// with the characters they encode; the text of its error is a function of
/// the bytes.
#[verifier::external_body]
fn utf8_decode(bytes: Vec<u8>) -> (r: std::result::Result<String, String>)
    ensures
        r is Ok <==> valid_utf8(bytes@),
        r matches Ok(s) ==> s@ == decode_utf8(bytes@),
        r matches Err(t) ==> t@ == utf8_error_text(bytes@),
{
    String::from_utf8(bytes).map_err(|e| e.to_string())
}

/// Bytes taken as UTF-8 text.
pub open spec fn utf8_text(b: Seq<u8>, what: Seq<char>) -> std::result::Result<
    Seq<char>,
    ErrorModel,
> {
    if valid_utf8(b) {
        Ok(decode_utf8(b))
    } else {
        Err(ErrorModel::Record(what + " is not valid UTF-8: "@ + utf8_error_text(b)))
    }
}

/// Read `n` bytes of UTF-8 text.
#[verifier::opaque]
pub open spec fn read_text(s: Seq<u8>, n: nat, what: Seq<char>) -> Parse<Seq<char>> {
    match read_bytes(s, n, what) {
        (Ok(b), t) => (utf8_text(b, what), t),
        (Err(e), t) => (Err(e), t),
    }
}

/// Read a text with a one-byte length.
#[verifier::opaque]
pub open spec fn read_short_string(s: Seq<u8>, what: Seq<char>) -> Parse<Seq<char>> {
    match read_u8(s, what) {
        (Ok(n), t) => read_text(t, n as nat, what),
        (Err(e), t) => (Err(e), t),
    }
}

/// Read a text with a two-byte length.
#[verifier::opaque]
pub open spec fn read_string(s: Seq<u8>, what: Seq<char>) -> Parse<Seq<char>> {
    match read_u16(s, what) {
        (Ok(n), t) => read_text(t, n as nat, what),
        (Err(e), t) => (Err(e), t),
    }
}

/// What the end of input reports when bytes are left over.
pub open spec fn trailing(what: Seq<char>, left: nat) -> ErrorModel {
    ErrorModel::Record(what + ": "@ + dec(left) + " trailing bytes"@)
}

/// The end of input: a success when nothing is left.
pub open spec fn finished(s: Seq<u8>, what: Seq<char>) -> std::result::Result<(), ErrorModel> {
    if s.len() == 0 {
        Ok(())
    } else {
        Err(trailing(what, s.len()))
    }
}

/// Cursor over a byte slice with bounds-checked reads.
pub struct Reader<'a> {
    rest: &'a [u8],
}

impl<'a> View for Reader<'a> {
    type V = Seq<u8>;

    /// The bytes not read yet.
    closed spec fn view(&self) -> Seq<u8> {
        self.rest@
    }
}

impl<'a> Reader<'a> {
    pub fn new(buf: &'a [u8]) -> (r: Self)
        ensures
            r@ == buf@,
    {
        Reader { rest: buf }
    }

    pub fn remaining(&self) -> (n: usize)
        ensures
            n == self@.len(),
    {
        self.rest.len()
    }

    pub fn is_empty(&self) -> (b: bool)
        ensures
            b == (self@.len() == 0),
    {
        self.remaining() == 0
    }

    fn take(&mut self, n: usize, what: &str) -> (r: Result<&'a [u8]>)
        ensures
            (outcome(r), final(self)@) == read_bytes(old(self)@, n as nat, what@),
    {
        proof {
            reveal(read_bytes);
        }
        let left: usize = self.rest.len();
        if left < n {
            let mut m = String::from_str("truncated while reading ");
            m.append(what);
            m.append(": need ");
            push_dec(&mut m, n as u64);
            m.append(" bytes, ");
            push_dec(&mut m, left as u64);
            m.append(" left");
            return Err(Error::Record(m));
        }
        let out = slice_subrange(self.rest, 0, n);
        self.rest = slice_subrange(self.rest, n, left);
        Ok(out)
    }

    pub fn u8(&mut self, what: &str) -> (r: Result<u8>)
        ensures
            (outcome(r), final(self)@) == read_u8(old(self)@, what@),
    {
        proof {
            reveal(read_u8);
            reveal(read_bytes);
        }
        let b = self.take(1, what)?;
        Ok(b[0])
    }

    pub fn u16(&mut self, what: &str) -> (r: Result<u16>)
        ensures
            (outcome(r), final(self)@) == read_u16(old(self)@, what@),
    {
        proof {
            reveal(read_u16);
            reveal(read_bytes);
            reveal(from_be16);
        }
        let b = self.take(2, what)?;
        Ok(b[0] as u16 * 0x100 + b[1] as u16)
    }

    pub fn u32(&mut self, what: &str) -> (r: Result<u32>)
        ensures
            (outcome(r), final(self)@) == read_u32(old(self)@, what@),
    {
        proof {
            reveal(read_u32);
            reveal(read_bytes);
            reveal(from_be32);
            reveal(from_be16);
        }
        let b = self.take(4, what)?;
        let hi: u16 = b[0] as u16 * 0x100 + b[1] as u16;
        let lo: u16 = b[2] as u16 * 0x100 + b[3] as u16;
        Ok(hi as u32 * 0x1_0000 + lo as u32)
    }

    pub fn u64(&mut self, what: &str) -> (r: Result<u64>)
        ensures
            (outcome(r), final(self)@) == read_u64(old(self)@, what@),
    {
        proof {
            reveal(read_u64);
            reveal(read_u32);
            reveal(read_bytes);
            reveal(from_be64);
        }
        let b = self.take(8, what)?;
        let mut r = Reader::new(b);
        proof {
            assert(b@.subrange(4, 8).subrange(0, 4) =~= b@.subrange(4, 8));
        }
        let hi: u32 = r.u32(what)?;
        let lo: u32 = r.u32(what)?;
        Ok(hi as u64 * 0x1_0000_0000 + lo as u64)
    }

    pub fn bytes(&mut self, n: usize, what: &str) -> (r: Result<&'a [u8]>)
        ensures
            (outcome(r), final(self)@) == read_bytes(old(self)@, n as nat, what@),
    {
        self.take(n, what)
    }

    pub fn array<const N: usize>(&mut self, what: &str) -> (r: Result<[u8; N]>)
        ensures
            (outcome(r), final(self)@) == read_bytes(old(self)@, N as nat, what@),
    {
        proof {
            reveal(read_bytes);
        }
        let b = self.take(N, what)?;
        let mut out = [0u8;N];
        let mut i: usize = 0;
        while i < N
            invariant
                i <= N,
                b@.len() == N,
                forall|j: int| 0 <= j < i ==> out@[j] == b@[j],
            decreases N - i,
        {
            out[i] = b[i];
            i += 1;
        }
        assert(out@ =~= b@);
        Ok(out)
    }

    fn text(&mut self, n: usize, what: &str) -> (r: Result<String>)
        ensures
            (outcome(r), final(self)@) == read_text(old(self)@, n as nat, what@),
    {
        proof {
            reveal(read_text);
        }
        let b = self.take(n, what)?;
        match utf8_decode(slice_to_vec(b)) {
            Ok(s) => Ok(s),
            Err(t) => {
                let mut m = String::from_str(what);
                m.append(" is not valid UTF-8: ");
                m.append(t.as_str());
                Err(Error::Record(m))
            },
        }
    }

    /// Length-prefixed UTF-8 string (`u8` length).
    pub fn short_string(&mut self, what: &str) -> (r: Result<String>)
        ensures
            (outcome(r), final(self)@) == read_short_string(old(self)@, what@),
    {
        proof {
            reveal(read_short_string);
        }
        let n: u8 = self.u8(what)?;
        self.text(n as usize, what)
    }

    /// Length-prefixed UTF-8 string (`u16` length).
    pub fn string(&mut self, what: &str) -> (r: Result<String>)
        ensures
            (outcome(r), final(self)@) == read_string(old(self)@, what@),
    {
        proof {
            reveal(read_string);
        }
        let n: u16 = self.u16(what)?;
        self.text(n as usize, what)
    }

    /// Error unless the whole buffer has been consumed.
    pub fn finish(&self, what: &str) -> (r: Result<()>)
        ensures
            outcome(r) == finished(self@, what@),
    {
        let left: usize = self.remaining();
        if left != 0 {
            let mut m = String::from_str(what);
            m.append(": ");
            push_dec(&mut m, left as u64);
            m.append(" trailing bytes");
            return Err(Error::Record(m));
        }
        Ok(())
    }
}

// ---------------------------------------------------------------------------
// Strings
// ---------------------------------------------------------------------------

/// A text behind its length in one byte. The length wraps at 256.
#[verifier::opaque]
pub open spec fn short_string_bytes(s: Seq<char>) -> Seq<u8> {
    seq![(encode_utf8(s).len() % 0x100) as u8] + encode_utf8(s)
}

/// A text behind its length in two bytes. The length wraps at 65536.
#[verifier::opaque]
pub open spec fn string_bytes(s: Seq<char>) -> Seq<u8> {
    be16((encode_utf8(s).len() % 0x1_0000) as u16) + encode_utf8(s)
}

/// Append a `u8`-length-prefixed string.
pub fn put_short_string(buf: &mut Vec<u8>, s: &str)
    ensures
        final(buf)@ == old(buf)@ + short_string_bytes(s@),
{
    proof {
        reveal(short_string_bytes);
    }
    let ghost before = buf@;
    let b = s.as_bytes();
    buf.push((b.len() % 0x100) as u8);
    put_bytes(buf, b);
    assert(buf@ =~= before + short_string_bytes(s@));
}

/// Append a `u16`-length-prefixed string.
pub fn put_string(buf: &mut Vec<u8>, s: &str)
    ensures
        final(buf)@ == old(buf)@ + string_bytes(s@),
{
    proof {
        reveal(string_bytes);
    }
    let ghost before = buf@;
    let b = s.as_bytes();
    put_u16(buf, (b.len() % 0x1_0000) as u16);
    put_bytes(buf, b);
    assert(buf@ =~= before + string_bytes(s@));
}

// ---------------------------------------------------------------------------
// What a read gives back of a write
// ---------------------------------------------------------------------------

/// Runs of bytes may be joined in either grouping.
pub proof fn join_assoc(a: Seq<u8>, b: Seq<u8>, c: Seq<u8>)
    ensures
        a + b + c == a + (b + c),
{
    assert(a + b + c =~= a + (b + c));
}

/// Bytes read back are the bytes written, and what follows them is left alone.
pub proof fn bytes_read_back(b: Seq<u8>, tail: Seq<u8>, what: Seq<char>)
    ensures
        read_bytes(b + tail, b.len(), what) == (Ok::<Seq<u8>, ErrorModel>(b), tail),
{
    reveal(read_bytes);
    assert((b + tail).subrange(0, b.len() as int) =~= b);
    assert((b + tail).subrange(b.len() as int, (b + tail).len() as int) =~= tail);
}

/// Integers read back are the integers written.
pub proof fn u8_read_back(v: u8, tail: Seq<u8>, what: Seq<char>)
    ensures
        read_u8(seq![v] + tail, what) == (Ok::<u8, ErrorModel>(v), tail),
{
    reveal(read_u8);
    bytes_read_back(seq![v], tail, what);
}

/// Integers read back are the integers written.
pub proof fn u16_read_back(v: u16, tail: Seq<u8>, what: Seq<char>)
    ensures
        read_u16(be16(v) + tail, what) == (Ok::<u16, ErrorModel>(v), tail),
{
    reveal(read_u16);
    be16_round_trip(v, seq![]);
    bytes_read_back(be16(v), tail, what);
}

/// Integers read back are the integers written.
pub proof fn u32_read_back(v: u32, tail: Seq<u8>, what: Seq<char>)
    ensures
        read_u32(be32(v) + tail, what) == (Ok::<u32, ErrorModel>(v), tail),
{
    reveal(read_u32);
    be32_round_trip(v, seq![]);
    bytes_read_back(be32(v), tail, what);
}

/// Integers read back are the integers written.
pub proof fn u64_read_back(v: u64, tail: Seq<u8>, what: Seq<char>)
    ensures
        read_u64(be64(v) + tail, what) == (Ok::<u64, ErrorModel>(v), tail),
{
    reveal(read_u64);
    be64_round_trip(v, seq![]);
    bytes_read_back(be64(v), tail, what);
}

/// A text of at most 255 bytes read back is the text written.
pub proof fn short_string_read_back(s: Seq<char>, tail: Seq<u8>, what: Seq<char>)
    requires
        encode_utf8(s).len() <= 0xff,
    ensures
        read_short_string(short_string_bytes(s) + tail, what) == (
            Ok::<Seq<char>, ErrorModel>(s),
            tail,
        ),
{
    reveal(read_short_string);
    reveal(read_text);
    reveal(short_string_bytes);
    let b = encode_utf8(s);
    assert(short_string_bytes(s) + tail =~= seq![b.len() as u8] + (b + tail));
    u8_read_back(b.len() as u8, b + tail, what);
    bytes_read_back(b, tail, what);
    encode_utf8_valid_utf8(s);
    encode_utf8_decode_utf8(s);
}

/// A text of at most 65535 bytes read back is the text written.
pub proof fn string_read_back(s: Seq<char>, tail: Seq<u8>, what: Seq<char>)
    requires
        encode_utf8(s).len() <= 0xffff,
    ensures
        read_string(string_bytes(s) + tail, what) == (Ok::<Seq<char>, ErrorModel>(s), tail),
{
    reveal(read_string);
    reveal(read_text);
    reveal(string_bytes);
    let b = encode_utf8(s);
    assert(string_bytes(s) + tail =~= be16(b.len() as u16) + (b + tail));
    u16_read_back(b.len() as u16, b + tail, what);
    bytes_read_back(b, tail, what);
    encode_utf8_valid_utf8(s);
    encode_utf8_decode_utf8(s);
}

// ---------------------------------------------------------------------------
// What a read says of the bytes before it
// ---------------------------------------------------------------------------

/// A successful read of bytes consumed exactly those bytes.
pub proof fn bytes_were_there(s: Seq<u8>, n: nat, what: Seq<char>)
    ensures
        read_bytes(s, n, what) matches (Ok(b), t) ==> s == b + t && b.len() == n,
{
    reveal(read_bytes);
    if s.len() >= n {
        assert(s =~= s.subrange(0, n as int) + s.subrange(n as int, s.len() as int));
    }
}

/// A successful read of an integer consumed exactly its encoding.
pub proof fn u8_was_there(s: Seq<u8>, what: Seq<char>)
    ensures
        read_u8(s, what) matches (Ok(v), t) ==> s == seq![v] + t,
{
    reveal(read_u8);
    reveal(read_bytes);
    bytes_were_there(s, 1, what);
    if let (Ok(v), t) = read_u8(s, what) {
        assert(s =~= seq![v] + t);
    }
}

/// A successful read of an integer consumed exactly its encoding.
pub proof fn u16_was_there(s: Seq<u8>, what: Seq<char>)
    ensures
        read_u16(s, what) matches (Ok(v), t) ==> s == be16(v) + t,
{
    reveal(read_u16);
    reveal(read_bytes);
    bytes_were_there(s, 2, what);
    if s.len() >= 2 {
        be16_round_trip(0, s.subrange(0, 2));
    }
}

/// A successful read of an integer consumed exactly its encoding.
pub proof fn u32_was_there(s: Seq<u8>, what: Seq<char>)
    ensures
        read_u32(s, what) matches (Ok(v), t) ==> s == be32(v) + t,
{
    reveal(read_u32);
    reveal(read_bytes);
    bytes_were_there(s, 4, what);
    if s.len() >= 4 {
        be32_round_trip(0, s.subrange(0, 4));
    }
}

/// A successful read of an integer consumed exactly its encoding.
pub proof fn u64_was_there(s: Seq<u8>, what: Seq<char>)
    ensures
        read_u64(s, what) matches (Ok(v), t) ==> s == be64(v) + t,
{
    reveal(read_u64);
    reveal(read_bytes);
    bytes_were_there(s, 8, what);
    if s.len() >= 8 {
        be64_round_trip(0, s.subrange(0, 8));
    }
}

/// A successful read of a short text consumed exactly its encoding.
pub proof fn short_string_was_there(s: Seq<u8>, what: Seq<char>)
    ensures
        read_short_string(s, what) matches (Ok(v), t) ==> s == short_string_bytes(v) + t
            && encode_utf8(v).len() <= 0xff,
{
    reveal(read_short_string);
    reveal(read_text);
    reveal(short_string_bytes);
    u8_was_there(s, what);
    if let (Ok(n), t) = read_u8(s, what) {
        bytes_were_there(t, n as nat, what);
        if let (Ok(b), u) = read_bytes(t, n as nat, what) {
            if valid_utf8(b) {
                decode_utf8_encode_utf8(b);
                assert(s =~= short_string_bytes(decode_utf8(b)) + u);
            }
        }
    }
}

/// A successful read of a text consumed exactly its encoding.
pub proof fn string_was_there(s: Seq<u8>, what: Seq<char>)
    ensures
        read_string(s, what) matches (Ok(v), t) ==> s == string_bytes(v) + t
            && encode_utf8(v).len() <= 0xffff,
{
    reveal(read_string);
    reveal(read_text);
    reveal(string_bytes);
    u16_was_there(s, what);
    if let (Ok(n), t) = read_u16(s, what) {
        bytes_were_there(t, n as nat, what);
        if let (Ok(b), u) = read_bytes(t, n as nat, what) {
            if valid_utf8(b) {
                decode_utf8_encode_utf8(b);
                assert(s =~= string_bytes(decode_utf8(b)) + u);
            }
        }
    }
}

} // verus!
