use vstd::prelude::*;
use vstd::utf8::*;

use crate::error::ProtocolError;
use crate::varint;
use crate::varint::{
    lemma_varint_round_trip, lemma_varint_size, varint_encoding, varint_size, varint_value,
    MAX_DECODE_GROUPS,
};

verus! {

/// The big-endian bytes of `v`, `width` bytes wide: the last byte is the
/// least significant.
pub open spec fn be_bytes(v: nat, width: nat) -> Seq<u8>
    decreases width,
{
    if width == 0 {
        Seq::empty()
    } else {
        be_bytes(v / 256, (width - 1) as nat).push((v % 256) as u8)
    }
}

/// The value of a big-endian byte string.
pub open spec fn be_value(s: Seq<u8>) -> nat
    decreases s.len(),
{
    if s.len() == 0 {
        0
    } else {
        (256 * be_value(s.drop_last()) + s.last()) as nat
    }
}

proof fn lemma_be_value2(s: Seq<u8>)
    requires
        s.len() == 2,
    ensures
        be_value(s) == 0x100 * s[0] + s[1],
{
    let d = s.drop_last();
    assert(d.drop_last() =~= Seq::<u8>::empty());
    assert(be_value(Seq::<u8>::empty()) == 0);
    assert(d.last() == s[0]);
    assert(be_value(d) == 256 * be_value(d.drop_last()) + s[0]);
    assert(be_value(s) == 256 * be_value(d) + s[1]);
}

proof fn lemma_be_value4(s: Seq<u8>)
    requires
        s.len() == 4,
    ensures
        be_value(s) == 0x1000000 * s[0] + 0x10000 * s[1] + 0x100 * s[2] + s[3],
{
    let d1 = s.drop_last();
    let d2 = d1.drop_last();
    lemma_be_value2(d2);
    assert(d2[0] == s[0]);
    assert(d2[1] == s[1]);
    assert(d1.last() == s[2]);
    assert(be_value(d1) == 256 * be_value(d2) + s[2]);
    assert(be_value(s) == 256 * be_value(d1) + s[3]);
}

/// One framed wire packet: the total length as a varint, then the packet id
/// as a varint, then the payload; the total length counts every byte after
/// its own encoding.
pub open spec fn frame_spec(payload: Seq<u8>, pid: i32) -> Seq<u8> {
    let idb = varint_encoding((pid as u32) as nat);
    varint_encoding((payload.len() + idb.len()) as nat) + idb + payload
}

/// A typed sequential reader over one packet's bytes. The view is the bytes
/// not yet consumed; every read takes from the front and fails with
/// `BufferExhausted` when too few bytes remain.
pub struct PacketReader {
    data: Vec<u8>,
    pos: usize,
}

impl View for PacketReader {
    type V = Seq<u8>;

    closed spec fn view(&self) -> Seq<u8> {
        self.data@.skip(self.pos as int)
    }
}

impl PacketReader {
    /// The cursor never points past the end of its buffer.
    pub closed spec fn wf(&self) -> bool {
        self.pos <= self.data@.len()
    }

    /// A reader over the whole of `data`.
    pub fn new(data: Vec<u8>) -> (r: Self)
        ensures
            r.wf(),
            r@ == data@,
    {
        let r = PacketReader { data, pos: 0 };
        proof {
            assert(r@ =~= r.data@);
        }
        r
    }

    /// How many bytes are still unread.
    pub fn remaining(&self) -> (n: usize)
        requires
            self.wf(),
        ensures
            n == self@.len(),
    {
        self.data.len() - self.pos
    }

    /// Pops the next byte.
    pub fn get_u8(&mut self) -> (r: Result<u8, ProtocolError>)
        requires
            old(self).wf(),
        ensures
            final(self).wf(),
            old(self)@.len() >= 1 ==> r == Ok::<u8, ProtocolError>(old(self)@[0]) && final(self)@
                == old(self)@.skip(1),
            old(self)@.len() == 0 ==> r == Err::<u8, ProtocolError>(ProtocolError::BufferExhausted)
                && final(self)@ == old(self)@,
    {
        if self.pos < self.data.len() {
            let b = self.data[self.pos];
            self.pos = self.pos + 1;
            proof {
                assert(self.data@.skip(self.pos as int) =~= old(self)@.skip(1));
            }
            Ok(b)
        } else {
            Err(ProtocolError::BufferExhausted)
        }
    }

    /// Reads a big-endian 16-bit value from the next two bytes.
    pub fn get_u16(&mut self) -> (r: Result<u16, ProtocolError>)
        requires
            old(self).wf(),
        ensures
            final(self).wf(),
            old(self)@.len() >= 2 ==> r == Ok::<u16, ProtocolError>(
                be_value(old(self)@.take(2)) as u16,
            ) && final(self)@ == old(self)@.skip(2),
            old(self)@.len() < 2 ==> r == Err::<u16, ProtocolError>(
                ProtocolError::BufferExhausted,
            ) && final(self)@ == old(self)@,
    {
        if self.data.len() - self.pos >= 2 {
            let b0 = self.data[self.pos];
            let b1 = self.data[self.pos + 1];
            self.pos = self.pos + 2;
            proof {
                lemma_be_value2(old(self)@.take(2));
                assert(old(self)@.take(2)[0] == b0);
                assert(old(self)@.take(2)[1] == b1);
                assert(self.data@.skip(self.pos as int) =~= old(self)@.skip(2));
            }
            Ok(b0 as u16 * 0x100 + b1 as u16)
        } else {
            Err(ProtocolError::BufferExhausted)
        }
    }

    /// Reads a big-endian 32-bit value from the next four bytes, reinterpreted
    /// as a signed integer.
    pub fn get_i32(&mut self) -> (r: Result<i32, ProtocolError>)
        requires
            old(self).wf(),
        ensures
            final(self).wf(),
            old(self)@.len() >= 4 ==> r == Ok::<i32, ProtocolError>(
                (be_value(old(self)@.take(4)) as u32) as i32,
            ) && final(self)@ == old(self)@.skip(4),
            old(self)@.len() < 4 ==> r == Err::<i32, ProtocolError>(
                ProtocolError::BufferExhausted,
            ) && final(self)@ == old(self)@,
    {
        if self.data.len() - self.pos >= 4 {
            let b0 = self.data[self.pos];
            let b1 = self.data[self.pos + 1];
            let b2 = self.data[self.pos + 2];
            let b3 = self.data[self.pos + 3];
            self.pos = self.pos + 4;
            let value: u32 = (b0 as u32) * 0x1000000 + (b1 as u32) * 0x10000 + (b2 as u32) * 0x100
                + (b3 as u32);
            proof {
                lemma_be_value4(old(self)@.take(4));
                assert(old(self)@.take(4)[0] == b0);
                assert(old(self)@.take(4)[1] == b1);
                assert(old(self)@.take(4)[2] == b2);
                assert(old(self)@.take(4)[3] == b3);
                assert(self.data@.skip(self.pos as int) =~= old(self)@.skip(4));
            }
            Ok(#[verifier::truncate] (value as i32))
        } else {
            Err(ProtocolError::BufferExhausted)
        }
    }

    /// Reads a varint. A varint that does not terminate within reach is a
    /// parsing failure, not an exhausted buffer.
    pub fn get_varint(&mut self) -> (r: Result<i32, ProtocolError>)
        requires
            old(self).wf(),
        ensures
            final(self).wf(),
            varint_value(old(self)@, MAX_DECODE_GROUPS as nat) matches Some(p) ==> r == Ok::<
                i32,
                ProtocolError,
            >(p.0 as i32) && p.0 < 0x10000000 && 1 <= p.1 <= MAX_DECODE_GROUPS && p.1 <= old(
                self,
            )@.len() && final(self)@ == old(self)@.skip(p.1 as int),
            varint_value(old(self)@, MAX_DECODE_GROUPS as nat) is None ==> r == Err::<
                i32,
                ProtocolError,
            >(ProtocolError::PacketParsing) && final(self)@ == old(self)@,
    {
        let buffer_len = self.data.len();
        match varint::decode(&self.data, self.pos) {
            Ok((value, consumed)) => {
                proof {
                    assert(self.pos + consumed <= buffer_len);
                }
                let ghost start = self.pos as int;
                self.pos = self.pos + consumed;
                proof {
                    let ghost p = varint_value(old(self)@, MAX_DECODE_GROUPS as nat)->0;
                    assert(self.data@.skip(start + p.1) =~= self.data@.skip(start).skip(
                        p.1 as int,
                    ));
                }
                Ok(value)
            },
            Err(_) => Err(ProtocolError::PacketParsing),
        }
    }

    /// Reads a varint byte length, then that many bytes, decoded as UTF-8.
    #[verifier::loop_isolation(false)]
    pub fn get_string(&mut self) -> (r: Result<String, ProtocolError>)
        requires
            old(self).wf(),
        ensures
            final(self).wf(),
            varint_value(old(self)@, MAX_DECODE_GROUPS as nat) is None ==> r == Err::<
                String,
                ProtocolError,
            >(ProtocolError::PacketParsing),
            varint_value(old(self)@, MAX_DECODE_GROUPS as nat) matches Some(p) ==> {
                let body = old(self)@.subrange(p.1 as int, (p.1 + p.0) as int);
                &&& old(self)@.len() < p.1 + p.0 ==> r == Err::<String, ProtocolError>(
                    ProtocolError::BufferExhausted,
                )
                &&& old(self)@.len() >= p.1 + p.0 && valid_utf8(body) ==> (r matches Ok(s) && s@
                    == decode_utf8(body) && final(self)@ == old(self)@.skip((p.1 + p.0) as int))
                &&& old(self)@.len() >= p.1 + p.0 && !valid_utf8(body) ==> r == Err::<
                    String,
                    ProtocolError,
                >(ProtocolError::PacketParsing)
            },
    {
        let len_value = match self.get_varint() {
            Ok(v) => v,
            Err(e) => {
                return Err(e);
            },
        };
        let len = len_value as usize;
        let ghost p = varint_value(old(self)@, MAX_DECODE_GROUPS as nat)->0;
        let ghost body = old(self)@.subrange(p.1 as int, (p.1 + p.0) as int);
        proof {
            assert(self@.len() == old(self)@.len() - p.1);
        }
        if self.data.len() - self.pos < len {
            return Err(ProtocolError::BufferExhausted);
        }
        let mut bytes: Vec<u8> = Vec::new();
        let start = self.pos;
        proof {
            assert(self.data@.skip(start as int) == old(self)@.skip(p.1 as int));
            assert(bytes@ =~= self.data@.subrange(start as int, start as int));
        }
        let mut i: usize = 0;
        while i < len
            invariant
                i <= len,
                bytes@ == self.data@.subrange(start as int, (start + i) as int),
            decreases len - i,
        {
            bytes.push(self.data[start + i]);
            i = i + 1;
            proof {
                assert(bytes@ =~= self.data@.subrange(start as int, (start + i) as int));
            }
        }
        proof {
            assert(bytes@ =~= body);
        }
        self.pos = self.pos + len;
        proof {
            assert(self.data@.skip((start + len) as int) =~= self.data@.skip(start as int).skip(
                len as int,
            ));
            assert(old(self)@.skip((p.1 + p.0) as int) =~= old(self)@.skip(p.1 as int).skip(
                p.0 as int,
            ));
        }
        match string_from_utf8(bytes) {
            Some(s) => Ok(s),
            None => Err(ProtocolError::PacketParsing),
        }
    }
}

/// `be_bytes` is as wide as asked.
pub proof fn lemma_be_bytes_len(v: nat, width: nat)
    ensures
        be_bytes(v, width).len() == width,
    decreases width,
{
    if width > 0 {
        lemma_be_bytes_len(v / 256, (width - 1) as nat);
    }
}

/// A typed sequential writer appending to a growable payload buffer. The view
/// is the bytes written so far; `create_packet` frames them into one wire
/// packet.
pub struct PacketWriter {
    data: Vec<u8>,
}

impl View for PacketWriter {
    type V = Seq<u8>;

    closed spec fn view(&self) -> Seq<u8> {
        self.data@
    }
}

fn push_be_bytes(out: &mut Vec<u8>, value: u128, width: usize)
    ensures
        final(out)@ == old(out)@ + be_bytes(value as nat, width as nat),
{
    let mut suffix: Vec<u8> = Vec::new();
    let mut rem: u128 = value;
    let mut k: usize = 0;
    proof {
        assert(be_bytes(value as nat, width as nat) + suffix@ =~= be_bytes(
            value as nat,
            width as nat,
        ));
    }
    while k < width
        invariant
            k <= width,
            be_bytes(rem as nat, (width - k) as nat) + suffix@ == be_bytes(
                value as nat,
                width as nat,
            ),
        decreases width - k,
    {
        let ghost rem0 = rem as nat;
        let ghost left0 = (width - k) as nat;
        let ghost suf0 = suffix@;
        let b: u8 = (rem % 0x100) as u8;
        suffix.insert(0, b);
        rem = rem / 0x100;
        k = k + 1;
        proof {
            lemma_be_bytes_len(rem0 / 256, (left0 - 1) as nat);
            lemma_be_bytes_len(rem0, left0);
            assert(be_bytes(rem0, left0) == be_bytes(rem0 / 256, (left0 - 1) as nat).push(
                (rem0 % 256) as u8,
            ));
            assert(suffix@ =~= seq![b] + suf0);
            assert(be_bytes(rem as nat, (width - k) as nat) + suffix@ =~= be_bytes(rem0, left0)
                + suf0);
        }
    }
    proof {
        assert(suffix@ =~= be_bytes(value as nat, width as nat));
    }
    out.append(&mut suffix);
}

impl PacketWriter {
    /// An empty payload buffer.
    pub fn new() -> (r: Self)
        ensures
            r@ == Seq::<u8>::empty(),
    {
        PacketWriter { data: Vec::new() }
    }

    /// Appends one byte.
    pub fn write_u8(&mut self, value: u8)
        ensures
            final(self)@ == old(self)@.push(value),
    {
        self.data.push(value);
    }

    /// Appends the sixteen big-endian bytes of a 128-bit value.
    pub fn write_u128(&mut self, value: u128)
        ensures
            final(self)@ == old(self)@ + be_bytes(value as nat, 16),
    {
        push_be_bytes(&mut self.data, value, 16);
    }

    /// Appends the four big-endian bytes of a signed 32-bit value.
    pub fn write_i32(&mut self, value: i32)
        ensures
            final(self)@ == old(self)@ + be_bytes((value as u32) as nat, 4),
    {
        let wide: u128 = #[verifier::truncate] (value as u32) as u128;
        push_be_bytes(&mut self.data, wide, 4);
    }

    /// Appends the varint encoding of `value`.
    pub fn write_varint(&mut self, value: i32)
        ensures
            final(self)@ == old(self)@ + varint_encoding((value as u32) as nat),
    {
        let mut enc = varint::encode(value);
        self.data.append(&mut enc);
    }

    /// Appends a string: its UTF-8 byte length as a varint, then the bytes.
    pub fn write_string(&mut self, value: String)
        ensures
            encode_utf8(value@).len() < 0x80000000 ==> final(self)@ == old(self)@
                + varint_encoding(encode_utf8(value@).len()) + encode_utf8(value@),
    {
        let mut bytes = value.as_str().as_bytes_vec();
        let n = bytes.len();
        self.write_varint(#[verifier::truncate] (n as i32));
        self.data.append(&mut bytes);
        proof {
            if encode_utf8(value@).len() < 0x80000000 {
                assert((((n as i32) as u32) as nat) == n as nat);
                assert(self.data@ =~= old(self)@ + varint_encoding(encode_utf8(value@).len())
                    + encode_utf8(value@));
            }
        }
    }

    /// Frames the accumulated payload: the total length (packet id bytes plus
    /// payload bytes) as a varint, the packet id as a varint, then the
    /// payload. The payload buffer itself is left as it is.
    pub fn create_packet(&self, pid: i32) -> (r: Vec<u8>)
        ensures
            self@.len() + varint_size((pid as u32) as nat) < 0x80000000 ==> r@ == frame_spec(
                self@,
                pid,
            ),
    {
        let mut len_bytes = varint::encode(pid);
        let ilen = len_bytes.len();
        proof {
            lemma_varint_size((pid as u32) as nat, 1);
        }
        if self.data.len() > usize::MAX - ilen {
            proof {
                assert(self@.len() + varint_size((pid as u32) as nat) >= 0x80000000);
            }
            return Vec::new();
        }
        let total = self.data.len() + ilen;
        let mut packet = varint::encode(#[verifier::truncate] (total as i32));
        packet.append(&mut len_bytes);
        packet.extend_from_slice(self.data.as_slice());
        proof {
            if self@.len() + varint_size((pid as u32) as nat) < 0x80000000 {
                assert((((total as i32) as u32) as nat) == total as nat);
                assert(packet@ =~= frame_spec(self@, pid));
            }
        }
        packet
    }
}

/// Framing law: for any payload and any packet id below `2^21` (so its
/// encoding is at most three bytes), as long as the total stays within the
/// four-group varint cap, the framed packet re-reads as its total length,
/// then the packet id, then exactly the original payload.
pub proof fn lemma_frame_round_trip(payload: Seq<u8>, pid: i32)
    requires
        0 <= pid < 0x200000,
        payload.len() + varint_size((pid as u32) as nat) < 0x10000000,
    ensures
        ({
            let idb = varint_encoding((pid as u32) as nat);
            let total = (payload.len() + idb.len()) as nat;
            let packet = frame_spec(payload, pid);
            &&& varint_value(packet, MAX_DECODE_GROUPS as nat) == Some(
                (total, varint_size(total)),
            )
            &&& varint_value(packet.skip(varint_size(total) as int), MAX_DECODE_GROUPS as nat)
                == Some((((pid as u32) as nat, idb.len()))
            )
            &&& packet.skip(varint_size(total) as int).skip(idb.len() as int) == payload
            &&& packet.len() == varint_size(total) + total
        }),
{
    let n = (pid as u32) as nat;
    let idb = varint_encoding(n);
    lemma_varint_size(n, 3);
    crate::varint::lemma_four_group_limit();
    let total = (payload.len() + idb.len()) as nat;
    lemma_varint_size(total, MAX_DECODE_GROUPS as nat);
    let tot_enc = varint_encoding(total);
    let packet = frame_spec(payload, pid);
    assert(packet =~= tot_enc + (idb + payload));
    lemma_varint_round_trip(total, idb + payload, MAX_DECODE_GROUPS as nat);
    assert(packet.skip(varint_size(total) as int) =~= idb + payload);
    lemma_varint_round_trip(n, payload, MAX_DECODE_GROUPS as nat);
    assert(varint_size(n) == idb.len());
    assert((idb + payload).skip(idb.len() as int) =~= payload);
}

/// String round-trip law: the buffer `write_string` produces for a string
/// (length prefix plus UTF-8 bytes, followed by anything) re-reads as a
/// valid string equal to the original, and the bytes consumed are the varint
/// length of the byte length plus the byte length.
pub proof fn lemma_string_round_trip(s: Seq<char>, rest: Seq<u8>)
    requires
        encode_utf8(s).len() < 0x10000000,
    ensures
        ({
            let bytes = encode_utf8(s);
            let enc = varint_encoding(bytes.len()) + bytes;
            let prefix_len = varint_size(bytes.len());
            &&& varint_value(enc + rest, MAX_DECODE_GROUPS as nat) == Some(
                (bytes.len(), prefix_len),
            )
            &&& (enc + rest).subrange(prefix_len as int, (prefix_len + bytes.len()) as int)
                == bytes
            &&& valid_utf8(bytes)
            &&& decode_utf8(bytes) == s
            &&& enc.len() == prefix_len + bytes.len()
        }),
{
    let bytes = encode_utf8(s);
    lemma_varint_size(bytes.len(), MAX_DECODE_GROUPS as nat);
    crate::varint::lemma_four_group_limit();
    lemma_varint_round_trip(bytes.len(), bytes + rest, MAX_DECODE_GROUPS as nat);
    let enc = varint_encoding(bytes.len()) + bytes;
    let prefix_len = varint_size(bytes.len());
    assert(enc + rest =~= varint_encoding(bytes.len()) + (bytes + rest));
    assert((enc + rest).subrange(prefix_len as int, (prefix_len + bytes.len()) as int) =~= bytes);
    encode_utf8_valid_utf8(s);
    encode_utf8_decode_utf8(s);
}

/// Relies on String::from_utf8: it succeeds exactly on valid UTF-8 and then
/// returns the decoded characters, in the sense of vstd's model of the
/// encoding (the same model vstd uses for str::as_bytes).
#[verifier::external_body]
fn string_from_utf8(bytes: Vec<u8>) -> (r: Option<String>)
    ensures
        r is Some <==> valid_utf8(bytes@),
        r matches Some(s) ==> s@ == decode_utf8(bytes@),
{
    match String::from_utf8(bytes) {
        Ok(s) => Some(s),
        Err(_) => None,
    }
}

} // verus!
