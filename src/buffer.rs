use byteorder::{ByteOrder, LittleEndian};
use flate2::read::ZlibDecoder;
use std::io::Read;
use vstd::prelude::*;
use vstd::slice::{slice_subrange, slice_to_vec};

verus! {

/// Smallest payload length that takes a two-byte length prefix.
pub const TWO_BYTE_BASE: usize = 0x80;

/// Smallest payload length that takes a three-byte length prefix.
pub const THREE_BYTE_BASE: usize = 0x4080;

/// Smallest payload length that takes a four-byte length prefix.
pub const FOUR_BYTE_BASE: usize = 0x204080;

/// One past the largest payload length that a length prefix can express.
pub const FRAME_CAPACITY: usize = 0x20204080;

/// The size of one received chunk, and of the buffer that a chunk is inflated into.
pub const CHUNK_SIZE: usize = 80;

/// What inflating `data` as a zlib stream into a zeroed chunk-sized buffer gives: the buffer,
/// or nothing where the stream is not valid.
pub uninterp spec fn zlib_inflate_chunk(data: Seq<u8>) -> Option<Seq<u8>>;

/// The contents after an inflation attempt: the inflated bytes where the attempt succeeded
/// and produced a non-empty message (first byte not zero), else the contents unchanged.
pub open spec fn after_inflate(data: Seq<u8>, inflated: Option<Seq<u8>>) -> Seq<u8> {
    match inflated {
        Some(v) => if v.len() > 0 && v[0] != 0 {
            v
        } else {
            data
        },
        None => data,
    }
}

/// Little-endian bytes of a 16-bit value.
pub open spec fn le16(v: nat) -> Seq<u8> {
    seq![(v % 0x100) as u8, ((v / 0x100) % 0x100) as u8]
}

/// Little-endian bytes of a 24-bit value.
pub open spec fn le24(v: nat) -> Seq<u8> {
    seq![(v % 0x100) as u8, ((v / 0x100) % 0x100) as u8, ((v / 0x10000) % 0x100) as u8]
}

/// Little-endian bytes of a 32-bit value.
pub open spec fn le32(v: nat) -> Seq<u8> {
    seq![
        (v % 0x100) as u8,
        ((v / 0x100) % 0x100) as u8,
        ((v / 0x10000) % 0x100) as u8,
        ((v / 0x1000000) % 0x100) as u8,
    ]
}

/// The value of the first `n` bytes of `b`, read little-endian (`n` at most 4).
pub open spec fn le_value(b: Seq<u8>, n: nat) -> nat {
    if n == 1 {
        b[0] as nat
    } else if n == 2 {
        b[0] as nat + 0x100 * (b[1] as nat)
    } else if n == 3 {
        b[0] as nat + 0x100 * (b[1] as nat) + 0x10000 * (b[2] as nat)
    } else {
        b[0] as nat + 0x100 * (b[1] as nat) + 0x10000 * (b[2] as nat) + 0x1000000 * (b[3] as nat)
    }
}

/// How many bytes a length prefix occupies, told by the flag bits of its first byte.
pub open spec fn prefix_width(b0: u8) -> nat {
    if b0 % 2 == 1 {
        1
    } else if (b0 / 2) % 2 == 1 {
        2
    } else if (b0 / 4) % 2 == 1 {
        3
    } else {
        4
    }
}

/// How many bytes the length prefix of a payload of `len` bytes occupies.
pub open spec fn prefix_len(len: nat) -> nat {
    if len < TWO_BYTE_BASE {
        1
    } else if len < THREE_BYTE_BASE {
        2
    } else if len < FOUR_BYTE_BASE {
        3
    } else {
        4
    }
}

/// The length prefix written for a payload of `len` bytes.
pub open spec fn encode_len(len: nat) -> Seq<u8> {
    if len < TWO_BYTE_BASE {
        seq![(2 * len + 1) as u8]
    } else if len < THREE_BYTE_BASE {
        le16((4 * (len - TWO_BYTE_BASE) + 2) as nat)
    } else if len < FOUR_BYTE_BASE {
        le24((8 * (len - THREE_BYTE_BASE) + 4) as nat)
    } else {
        le32(8 * (len - FOUR_BYTE_BASE) as nat)
    }
}

/// The payload length that the length prefix at the front of `b` announces.
pub open spec fn decode_len(b: Seq<u8>) -> nat {
    let w = prefix_width(b[0]);
    if w == 1 {
        b[0] as nat / 2
    } else if w == 2 {
        (le_value(b, 2) / 4 + TWO_BYTE_BASE) as nat
    } else if w == 3 {
        (le_value(b, 3) / 8 + THREE_BYTE_BASE) as nat
    } else {
        (le_value(b, 4) / 8 + FOUR_BYTE_BASE) as nat
    }
}

/// A decoded length prefix: the payload's length and the prefix's own width.
pub struct Message {
    pub message_size: u32,
    pub end: u32,
}

/// Relies on byteorder's `LittleEndian::read_u16`: the first two bytes, little-endian.
#[verifier::external_body]
fn read_u16_le(b: &[u8]) -> (r: u16)
    requires
        b@.len() >= 2,
    ensures
        r as nat == le_value(b@, 2),
{
    LittleEndian::read_u16(b)
}

/// Relies on byteorder's `LittleEndian::read_u32`: the first four bytes, little-endian.
#[verifier::external_body]
fn read_u32_le(b: &[u8]) -> (r: u32)
    requires
        b@.len() >= 4,
    ensures
        r as nat == le_value(b@, 4),
{
    LittleEndian::read_u32(b)
}

/// Relies on byteorder's `LittleEndian::write_u16`: the value's two bytes, little-endian.
#[verifier::external_body]
fn u16_le_bytes(v: u16) -> (r: [u8; 2])
    ensures
        r@ == le16(v as nat),
{
    let mut b = [0u8; 2];
    LittleEndian::write_u16(&mut b, v);
    b
}

/// Relies on byteorder's `LittleEndian::write_u32`: the value's four bytes, little-endian.
#[verifier::external_body]
fn u32_le_bytes(v: u32) -> (r: [u8; 4])
    ensures
        r@ == le32(v as nat),
{
    let mut b = [0u8; 4];
    LittleEndian::write_u32(&mut b, v);
    b
}

/// How many bytes the length prefix that starts with `b0` occupies: its flag bits are tested
/// for being set, lowest first.
fn prefix_width_of(b0: u8) -> (w: usize)
    ensures
        w as nat == prefix_width(b0),
{
    assert((b0 & 1u8 != 0) == (b0 % 2 == 1)) by (bit_vector);
    assert((b0 & 2u8 != 0) == ((b0 / 2) % 2 == 1)) by (bit_vector);
    assert((b0 & 4u8 != 0) == ((b0 / 4) % 2 == 1)) by (bit_vector);
    if b0 & 1 != 0 {
        1
    } else if b0 & 2 != 0 {
        2
    } else if b0 & 4 != 0 {
        3
    } else {
        4
    }
}

/// Decodes the length prefix at the front of `buffer`.
pub fn read_uint_v(buffer: &[u8]) -> (msg: Message)
    requires
        buffer@.len() >= 1,
        buffer@.len() >= prefix_width(buffer@[0]),
    ensures
        msg.end as nat == prefix_width(buffer@[0]),
        msg.message_size as nat == decode_len(buffer@),
        msg.message_size < FRAME_CAPACITY,
{
    let b0 = buffer[0];
    let width = prefix_width_of(b0);
    if width == 1 {
        Message { message_size: (b0 / 2) as u32, end: 1 }
    } else if width == 2 {
        let v = read_u16_le(buffer);
        Message { message_size: (v / 4) as u32 + 0x80, end: 2 }
    } else if width == 3 {
        let v: u32 = buffer[0] as u32 + 0x100 * (buffer[1] as u32) + 0x10000 * (buffer[2] as u32);
        Message { message_size: v / 8 + 0x4080, end: 3 }
    } else {
        let v = read_u32_le(buffer);
        Message { message_size: v / 8 + 0x204080, end: 4 }
    }
}

/// The bytes written for a string: each character as one byte (its code point truncated to
/// eight bits).
pub open spec fn string_bytes(s: Seq<char>) -> Seq<u8> {
    s.map_values(|c: char| ((c as int) % 0x100) as u8)
}

/// The bytes written for a string, with the terminating zero byte.
pub open spec fn terminated(s: Seq<char>) -> Seq<u8> {
    string_bytes(s).push(0u8)
}

/// A string survives a write and a read: no character is zero and each fits in one byte.
pub open spec fn byte_text(s: Seq<char>) -> bool {
    forall|i: int| 0 <= i < s.len() ==> 0 < #[trigger] (s[i] as int) && (s[i] as int) < 0x100
}

/// `k` is where the text at the front of `b` ends: the first zero byte, or the end of `b`.
pub open spec fn is_text_end(b: Seq<u8>, k: int) -> bool {
    &&& 0 <= k <= b.len()
    &&& forall|i: int| 0 <= i < k ==> #[trigger] b[i] != 0
    &&& k < b.len() ==> b[k] == 0
}

/// The characters of the first `k` bytes of `b`, one per byte.
pub open spec fn text_of(b: Seq<u8>, k: int) -> Seq<char> {
    b.take(k).map_values(|x: u8| x as char)
}

/// How many bytes a read of the text ending at `k` consumes: the text and its terminator.
pub open spec fn text_consumed(b: Seq<u8>, k: int) -> int {
    if k < b.len() {
        k + 1
    } else {
        k
    }
}

/// The front of `b` holds a whole frame: its length prefix and the payload it announces.
pub open spec fn frame_complete(b: Seq<u8>) -> bool {
    &&& b.len() >= 1
    &&& b.len() >= prefix_width(b[0])
    &&& prefix_width(b[0]) + decode_len(b) <= b.len()
}

/// A byte sequence that messages are written to and read from, at its front.
#[derive(Clone)]
pub struct Buffer {
    pub data: Vec<u8>,
}

/// A buffer holding a received chunk, or an empty one.
pub fn new(bytes: Option<[u8; 80]>) -> (r: Buffer)
    ensures
        match bytes {
            Some(x) => r.data@ == x@,
            None => r.data@.len() == 0,
        },
{
    match bytes {
        Some(x) => Buffer { data: slice_to_vec(&x) },
        None => Buffer { data: Vec::new() },
    }
}

/// Relies on `String::push`: the character is appended.
#[verifier::external_body]
pub(crate) fn push_char(s: &mut String, c: char)
    ensures
        final(s)@ == old(s)@.push(c),
{
    s.push(c)
}

/// Relies on flate2's `ZlibDecoder` and one `Read::read` into a zeroed chunk-sized buffer:
/// the buffer on success, nothing on an error. The outcome depends on the input bytes alone.
#[verifier::external_body]
fn inflate_chunk(data: &Vec<u8>) -> (r: Option<Vec<u8>>)
    ensures
        r is None <==> zlib_inflate_chunk(data@) is None,
        r matches Some(v) ==> zlib_inflate_chunk(data@) == Some(v@) && v@.len() == CHUNK_SIZE,
{
    let mut out = [0u8; CHUNK_SIZE];
    match ZlibDecoder::new(data.as_slice()).read(&mut out) {
        Ok(_) => Some(out.to_vec()),
        Err(_) => None,
    }
}

impl Buffer {
    /// Tries to inflate the contents as a zlib stream. Returns whether the stream was valid;
    /// the contents are replaced only by a valid, non-empty inflation.
    pub fn zlib_uncompress(&mut self) -> (r: bool)
        ensures
            r == zlib_inflate_chunk(old(self).data@) is Some,
            final(self).data@ == after_inflate(old(self).data@, zlib_inflate_chunk(old(self).data@)),
    {
        let inflated = inflate_chunk(&self.data);
        self.take_inflated(inflated)
    }

    /// Applies the outcome of an inflation attempt: returns whether it succeeded, and keeps
    /// the inflated bytes where they hold a message.
    pub fn take_inflated(&mut self, inflated: Option<Vec<u8>>) -> (r: bool)
        ensures
            r == inflated is Some,
            final(self).data@ == after_inflate(
                old(self).data@,
                match inflated {
                    Some(v) => Some(v@),
                    None => None,
                },
            ),
    {
        match inflated {
            None => false,
            Some(v) => {
                if v.len() > 0 && v[0] != 0 {
                    self.data = v;
                }
                true
            },
        }
    }

    /// Whether the buffer starts with a whole frame, so that `read_uint_v` may be called.
    pub fn has_frame(&self) -> (r: bool)
        ensures
            r == frame_complete(self.data@),
    {
        let n = self.data.len();
        if n == 0 {
            return false;
        }
        let width = prefix_width_of(self.data[0]);
        if n < width {
            return false;
        }
        let msg = read_uint_v(self.data.as_slice());
        (msg.message_size as usize) <= n - width
    }

    /// Strips the length prefix, keeping exactly the payload it announces.
    pub fn read_uint_v(&mut self) -> (msg: Message)
        requires
            frame_complete(old(self).data@),
        ensures
            msg.end as nat == prefix_width(old(self).data@[0]),
            msg.message_size as nat == decode_len(old(self).data@),
            final(self).data@ == old(self).data@.subrange(
                msg.end as int,
                msg.end + msg.message_size,
            ),
    {
        let msg = read_uint_v(self.data.as_slice());
        let start = msg.end as usize;
        let stop = start + msg.message_size as usize;
        let payload = slice_to_vec(slice_subrange(self.data.as_slice(), start, stop));
        self.data = payload;
        msg
    }

    /// Prepends the length prefix of the current contents.
    pub fn write_uint_v(&mut self)
        requires
            old(self).data@.len() < FRAME_CAPACITY,
        ensures
            final(self).data@ == encode_len(old(self).data@.len()) + old(self).data@,
    {
        let length = self.data.len();
        let ghost d = self.data@;
        if length < TWO_BYTE_BASE {
            self.data.insert(0, (length * 2 + 1) as u8);
            assert(self.data@ =~= encode_len(length as nat) + d);
        } else if length < THREE_BYTE_BASE {
            let size = u16_le_bytes(((length - TWO_BYTE_BASE) * 4 + 2) as u16);
            self.data.insert(0, size[1]);
            self.data.insert(0, size[0]);
            assert(self.data@ =~= encode_len(length as nat) + d);
        } else if length < FOUR_BYTE_BASE {
            let size = u32_le_bytes(((length - THREE_BYTE_BASE) * 8 + 4) as u32);
            self.data.insert(0, size[2]);
            self.data.insert(0, size[1]);
            self.data.insert(0, size[0]);
            assert(self.data@ =~= encode_len(length as nat) + d);
        } else {
            let size = u32_le_bytes(((length - FOUR_BYTE_BASE) * 8) as u32);
            self.data.insert(0, size[3]);
            self.data.insert(0, size[2]);
            self.data.insert(0, size[1]);
            self.data.insert(0, size[0]);
            assert(self.data@ =~= encode_len(length as nat) + d);
        }
    }

    /// Takes one byte from the front.
    pub fn read_byte(&mut self) -> (byte: u8)
        requires
            old(self).data@.len() > 0,
        ensures
            byte == old(self).data@[0],
            final(self).data@ == old(self).data@.drop_first(),
    {
        let byte = self.data[0];
        self.data.remove(0);
        proof {
            assert(self.data@ =~= old(self).data@.drop_first());
        }
        byte
    }

    /// Appends one byte.
    pub fn write_byte(&mut self, byte: u8)
        ensures
            final(self).data@ == old(self).data@.push(byte),
    {
        self.data.push(byte);
    }

    /// Appends a 32-bit integer, little-endian.
    pub fn write_uint32(&mut self, uint: u32)
        ensures
            final(self).data@ == old(self).data@ + le32(uint as nat),
    {
        let bytes = u32_le_bytes(uint);
        let mut i: usize = 0;
        while i < 4
            invariant
                i <= 4,
                bytes@ == le32(uint as nat),
                self.data@ == old(self).data@ + bytes@.take(i as int),
            decreases 4 - i,
        {
            self.data.push(bytes[i]);
            i += 1;
            assert(bytes@.take(i as int) =~= bytes@.take(i - 1).push(bytes@[i - 1]));
        }
        assert(bytes@.take(4) =~= bytes@);
    }

    /// Takes a null-terminated string from the front: the bytes before the first zero, one
    /// character each, and the zero itself. Without a zero, the whole buffer is taken.
    pub fn read_string(&mut self) -> (r: String)
        ensures
            is_text_end(old(self).data@, r@.len() as int),
            r@ == text_of(old(self).data@, r@.len() as int),
            final(self).data@ == old(self).data@.skip(
                text_consumed(old(self).data@, r@.len() as int),
            ),
    {
        let mut new_string = String::new();
        let n = self.data.len();
        let mut index: usize = 0;
        while index < n && self.data[index] != 0
            invariant
                index <= n == self.data@.len(),
                forall|i: int| 0 <= i < index ==> #[trigger] self.data@[i] != 0,
                new_string@ == text_of(self.data@, index as int),
            decreases n - index,
        {
            push_char(&mut new_string, self.data[index] as char);
            index += 1;
            assert(text_of(self.data@, index as int) =~= text_of(self.data@, index - 1).push(
                self.data@[index - 1] as char,
            ));
        }
        let consumed = if index < n {
            index + 1
        } else {
            index
        };
        let rest = slice_to_vec(slice_subrange(self.data.as_slice(), consumed, n));
        assert(rest@ =~= self.data@.skip(consumed as int));
        self.data = rest;
        new_string
    }

    /// Appends a string, one byte per character, and a terminating zero byte.
    pub fn write_string(&mut self, wrt_string: String)
        ensures
            final(self).data@ == old(self).data@ + terminated(wrt_string@),
    {
        let text = wrt_string.as_str();
        let n = text.unicode_len();
        let mut i: usize = 0;
        while i < n
            invariant
                i <= n == text@.len(),
                text@ == wrt_string@,
                self.data@ == old(self).data@ + string_bytes(text@.take(i as int)),
            decreases n - i,
        {
            let c = text.get_char(i);
            self.write_byte((c as u32 % 0x100) as u8);
            i += 1;
            assert(string_bytes(text@.take(i as int)) =~= string_bytes(text@.take(i - 1)).push(
                ((c as int) % 0x100) as u8,
            ));
        }
        assert(text@.take(n as int) =~= text@);
        self.write_byte(0);
        assert(self.data@ =~= old(self).data@ + terminated(wrt_string@));
    }
}


/// A length prefix decodes to the length it was written for, and its first byte tells its
/// width: for every supported length, and whatever bytes follow the prefix.
pub proof fn lemma_frame_length_round_trip(len: nat, rest: Seq<u8>)
    requires
        len < FRAME_CAPACITY,
    ensures
        encode_len(len).len() == prefix_len(len),
        prefix_width((encode_len(len) + rest)[0]) == prefix_len(len),
        decode_len(encode_len(len) + rest) == len,
{
    let b = encode_len(len) + rest;
    if len < TWO_BYTE_BASE {
        assert(b[0] == (2 * len + 1) as u8);
    } else if len < THREE_BYTE_BASE {
        let v = (4 * (len - TWO_BYTE_BASE) + 2) as nat;
        assert(b[0] == (v % 0x100) as u8 && b[1] == ((v / 0x100) % 0x100) as u8);
        assert(v % 0x100 + 0x100 * ((v / 0x100) % 0x100) == v) by (nonlinear_arith)
            requires v < 0x10000;
        assert((v % 0x100) % 2 == 0 && ((v % 0x100) / 2) % 2 == 1) by (nonlinear_arith)
            requires v % 4 == 2;
    } else if len < FOUR_BYTE_BASE {
        let v = (8 * (len - THREE_BYTE_BASE) + 4) as nat;
        assert(b[0] == (v % 0x100) as u8 && b[1] == ((v / 0x100) % 0x100) as u8 && b[2] == ((v
            / 0x10000) % 0x100) as u8);
        assert(v % 0x100 + 0x100 * ((v / 0x100) % 0x100) + 0x10000 * ((v / 0x10000) % 0x100)
            == v) by (nonlinear_arith)
            requires v < 0x1000000;
        assert((v % 0x100) % 2 == 0 && ((v % 0x100) / 2) % 2 == 0 && ((v % 0x100) / 4) % 2 == 1)
            by (nonlinear_arith)
            requires v % 8 == 4;
    } else {
        let v = (8 * (len - FOUR_BYTE_BASE)) as nat;
        assert(b[0] == (v % 0x100) as u8 && b[1] == ((v / 0x100) % 0x100) as u8 && b[2] == ((v
            / 0x10000) % 0x100) as u8 && b[3] == ((v / 0x1000000) % 0x100) as u8);
        assert(v % 0x100 + 0x100 * ((v / 0x100) % 0x100) + 0x10000 * ((v / 0x10000) % 0x100)
            + 0x1000000 * ((v / 0x1000000) % 0x100) == v) by (nonlinear_arith)
            requires v < 0x100000000;
        assert((v % 0x100) % 2 == 0 && ((v % 0x100) / 2) % 2 == 0 && ((v % 0x100) / 4) % 2 == 0)
            by (nonlinear_arith)
            requires v % 8 == 0;
    }
}

/// Where a text ends in a byte sequence is determined by the sequence.
pub proof fn lemma_text_end_unique(b: Seq<u8>, j: int, k: int)
    requires
        is_text_end(b, j),
        is_text_end(b, k),
    ensures
        j == k,
{
    if j < k {
        assert(b[j] != 0);
    } else if k < j {
        assert(b[k] != 0);
    }
}

/// A string written and read back is the same string, and the read consumes exactly its
/// characters and the terminator, whatever follows.
pub proof fn lemma_string_round_trip(s: Seq<char>, rest: Seq<u8>)
    requires
        byte_text(s),
    ensures
        is_text_end(terminated(s) + rest, s.len() as int),
        text_of(terminated(s) + rest, s.len() as int) == s,
        text_consumed(terminated(s) + rest, s.len() as int) == s.len() + 1,
        (terminated(s) + rest).skip(s.len() + 1int) == rest,
{
    let b = terminated(s) + rest;
    assert forall|i: int| 0 <= i < s.len() implies #[trigger] b[i] != 0 && b[i] as char == s[i] by {
        assert(b[i] == ((s[i] as int) % 0x100) as u8);
        assert(0 < (s[i] as int) && (s[i] as int) < 0x100);
    }
    assert(text_of(b, s.len() as int) =~= s);
    assert(b.skip(s.len() + 1int) =~= rest);
}

} // verus!
