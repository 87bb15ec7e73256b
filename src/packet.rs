use vstd::prelude::*;

verus! {

use crate::reader::ByteReader;
use crate::varint::{read_var_uint, write_var_uint, vlq_decode, vlq_encode, lemma_vlq_round_trip, lemma_vlq_len_bound};

/// Why a frame could not be read.
#[derive(Debug, Clone, Copy, PartialEq, Eq, Structural)]
pub enum PacketError {
    /// The length field holds a value below the five header bytes.
    InvalidLength(u64),
    /// The input ended inside a frame.
    Truncated,
}

/// One framed unit: a sequence number, a sub-channel tag and opaque payload.
#[derive(Debug)]
pub struct Packet {
    pub seq_num: u32,
    pub sub_channel: u8,
    pub payload: Vec<u8>,
}

impl View for Packet {
    type V = (u32, u8, Seq<u8>);

    open spec fn view(&self) -> (u32, u8, Seq<u8>) {
        (self.seq_num, self.sub_channel, self.payload@)
    }
}

/// The big-endian bytes of `s`.
pub open spec fn be32(s: u32) -> Seq<u8> {
    seq![
        (s / 0x100_0000) as u8,
        (s / 0x1_0000 % 256) as u8,
        (s / 256 % 256) as u8,
        (s % 256) as u8,
    ]
}

/// The number that four big-endian bytes spell.
pub open spec fn be32_value(b: Seq<u8>) -> nat {
    (b[0] * 0x100_0000 + b[1] * 0x1_0000 + b[2] * 256 + b[3]) as nat
}

/// The wire form of a packet: the length of header and payload as a VLQ,
/// the sequence number big-endian, the sub-channel, then the payload.
pub open spec fn frame_bytes(p: (u32, u8, Seq<u8>)) -> Seq<u8> {
    vlq_encode(5 + p.2.len()) + be32(p.0) + seq![p.1] + p.2
}

/// What reading one frame from the front of `s` gives: no packet on an
/// empty input; else the packet and the count of bytes it took, or the
/// error.
pub open spec fn frame_read(s: Seq<u8>) -> Result<Option<((u32, u8, Seq<u8>), nat)>, PacketError> {
    match vlq_decode(s) {
        Ok(None) => Ok(None),
        Err(_) => Err(PacketError::Truncated),
        Ok(Some((len, n))) => if len < 5 {
            Err(PacketError::InvalidLength(len as u64))
        } else if s.len() < n + len {
            Err(PacketError::Truncated)
        } else {
            Ok(
                Some(
                    (
                        (
                            be32_value(s.subrange(n as int, n + 4 as int)) as u32,
                            s[n + 4 as int],
                            s.subrange(n + 5 as int, n + len as int),
                        ),
                        n + len,
                    ),
                ),
            )
        },
    }
}

proof fn lemma_be32(s: u32)
    ensures
        be32(s).len() == 4,
        be32_value(be32(s)) == s,
{
    assert((s / 0x100_0000) * 0x100_0000 + ((s / 0x1_0000) % 256) * 0x1_0000 + ((s / 256) % 256)
        * 256 + s % 256 == s) by (bit_vector);
    assert(s / 0x100_0000 < 256) by (bit_vector);
}

/// Reading back the frame of any packet, whatever follows it, gives that
/// packet and takes exactly its frame.
pub proof fn lemma_packet_round_trip(p: (u32, u8, Seq<u8>), tail: Seq<u8>)
    requires
        p.2.len() + 5 <= u64::MAX,
    ensures
        frame_read(frame_bytes(p) + tail) == Ok::<Option<((u32, u8, Seq<u8>), nat)>, PacketError>(
            Some((p, frame_bytes(p).len())),
        ),
{
    let len: u64 = (5 + p.2.len()) as u64;
    let body = be32(p.0) + seq![p.1] + p.2 + tail;
    let s = frame_bytes(p) + tail;
    assert(s =~= vlq_encode(len as nat) + body);
    lemma_vlq_round_trip(len, body);
    lemma_be32(p.0);
    let n = vlq_encode(len as nat).len();
    assert(s.subrange(n as int, n + 4 as int) =~= be32(p.0));
    assert(s.subrange(n + 5 as int, n + len as int) =~= p.2);
}

/// A length field below five is refused as such, whatever follows it.
pub proof fn lemma_short_length_rejected(len: u64, tail: Seq<u8>)
    requires
        len < 5,
    ensures
        frame_read(vlq_encode(len as nat) + tail) == Err::<
            Option<((u32, u8, Seq<u8>), nat)>,
            PacketError,
        >(PacketError::InvalidLength(len)),
{
    lemma_vlq_round_trip(len, tail);
}

/// An empty input holds no packet, and that is no error.
pub proof fn lemma_empty_input_no_packet()
    ensures
        frame_read(Seq::empty()) == Ok::<Option<((u32, u8, Seq<u8>), nat)>, PacketError>(None),
{
}

/// A valid length field followed by fewer bytes than it counts is a
/// truncated frame, never a shorter packet.
pub proof fn lemma_truncated_frame(len: u64, body: Seq<u8>)
    requires
        5 <= len,
        body.len() < len,
    ensures
        frame_read(vlq_encode(len as nat) + body) == Err::<
            Option<((u32, u8, Seq<u8>), nat)>,
            PacketError,
        >(PacketError::Truncated),
{
    lemma_vlq_round_trip(len, body);
}

fn append_bytes(output: &mut Vec<u8>, bytes: &Vec<u8>)
    ensures
        final(output)@ == old(output)@ + bytes@,
{
    let mut i: usize = 0;
    while i < bytes.len()
        invariant
            i <= bytes@.len(),
            output@ == old(output)@ + bytes@.take(i as int),
        decreases bytes.len() - i,
    {
        output.push(bytes[i]);
        i = i + 1;
        assert(bytes@.take(i as int) =~= bytes@.take(i - 1).push(bytes@[i - 1]));
    }
    assert(bytes@.take(i as int) =~= bytes@);
}

impl Packet {
    /// Reads one frame. A clean end of input before the frame gives
    /// `Ok(None)`; a length below five gives `InvalidLength`; input that ends
    /// inside the frame gives `Truncated`.
    pub fn read(data: &mut ByteReader) -> (r: Result<Option<Packet>, PacketError>)
        requires
            old(data).wf(),
        ensures
            final(data).wf(),
            match frame_read(old(data).rest()) {
                Ok(None) => r is Ok && r->Ok_0 is None && final(data).rest() == old(data).rest(),
                Ok(Some((p, n))) => r is Ok && r->Ok_0 is Some && r->Ok_0->Some_0@ == p
                    && final(data).rest() == old(data).rest().skip(n as int),
                Err(e) => r == Err::<Option<Packet>, PacketError>(e),
            },
    {
        let ghost orig = data.rest();
        let len = match read_var_uint(data) {
            Err(e) => return Err(e),
            Ok(None) => return Ok(None),
            Ok(Some(len)) => len,
        };
        let ghost n: nat = vlq_decode(orig)->Ok_0->Some_0.1;
        let ghost rest1 = data.rest();
        proof {
            lemma_vlq_len_bound(orig);
        }
        assert(rest1 == orig.skip(n as int));
        if len < 5 {
            return Err(PacketError::InvalidLength(len));
        }
        if (data.remaining() as u64) < len {
            return Err(PacketError::Truncated);
        }
        let header = match data.take_bytes(5) {
            Some(h) => h,
            None => return Err(PacketError::Truncated),
        };
        let ghost rest2 = data.rest();
        let payload = match data.take_bytes((len - 5) as usize) {
            Some(p) => p,
            None => return Err(PacketError::Truncated),
        };
        let b0 = header[0] as u32;
        let b1 = header[1] as u32;
        let b2 = header[2] as u32;
        let b3 = header[3] as u32;
        assert(b0 * 0x100_0000 + b1 * 0x1_0000 + b2 * 256 + b3 <= u32::MAX) by (nonlinear_arith)
            requires
                b0 < 256,
                b1 < 256,
                b2 < 256,
                b3 < 256,
        ;
        let seq_num = b0 * 0x100_0000 + b1 * 0x1_0000 + b2 * 256 + b3;
        proof {
            assert(header@ == rest1.take(5));
            assert(rest2 == rest1.skip(5));
            assert(payload@ == rest2.take(len - 5));
            assert(header@ =~= orig.subrange(n as int, n + 5 as int));
            assert(payload@ =~= orig.subrange(n + 5 as int, n + len as int));
            assert(data.rest() =~= orig.skip(n + len as int));
        }
        Ok(Some(Packet { seq_num, sub_channel: header[4], payload }))
    }

    /// Appends the frame of this packet to `output`.
    pub fn write(self, output: &mut Vec<u8>)
        requires
            self.payload@.len() + 5 <= u64::MAX,
        ensures
            final(output)@ == old(output)@ + frame_bytes(self@),
    {
        let len = 5 + self.payload.len() as u64;
        write_var_uint(output, len);
        output.push((self.seq_num / 0x100_0000) as u8);
        output.push((self.seq_num / 0x1_0000 % 256) as u8);
        output.push((self.seq_num / 256 % 256) as u8);
        output.push((self.seq_num % 256) as u8);
        output.push(self.sub_channel);
        append_bytes(output, &self.payload);
        assert(output@ =~= old(output)@ + frame_bytes(self@));
    }
}

} // verus!
