//! Packets: one datagram's payload. A twelve-byte common header
//! (ports, verification tag, CRC32C checksum) followed by chunks back
//! to back. The checksum is computed over the full serialization with
//! the checksum field zeroed, then patched in; decode recomputes it
//! the same way and rejects the packet on a mismatch.

use crate::bytes::{
    be16, be32, copy_range, get16, get32, push_be16, push_be32, push_bytes, read16, read32, round4,
    round_up4,
};
use crate::checksum::{crc32c_bytes, crc32c_of};
use crate::chunk::{chunk_wire, wf_chunk, AnyChunk, AnyChunkV, Chunk, CHUNK_TYPE_DATA};
use crate::decode::{decode_chunk, parse_chunk};
use crate::error::SCTPError;
use vstd::prelude::*;

verus! {

/// The twelve-byte packet header.
#[derive(Clone, Copy, Debug, PartialEq, Eq, Structural)]
pub struct CommonHeader {
    pub src_port: u16,
    pub dst_port: u16,
    pub ver_tag: u32,
    pub checksum: u32,
}

impl Default for CommonHeader {
    fn default() -> (h: CommonHeader)
        ensures
            h == (CommonHeader { src_port: 0u16, dst_port: 0u16, ver_tag: 0u32, checksum: 0u32 }),
    {
        CommonHeader { src_port: 0, dst_port: 0, ver_tag: 0, checksum: 0 }
    }
}

/// A packet: the common header and its chunks in order.
#[derive(Clone, Debug, PartialEq)]
pub struct Packet {
    pub header: CommonHeader,
    pub chunks: Vec<AnyChunk>,
}

/// The mathematical model of a packet.
#[verifier::ext_equal]
pub struct PacketV {
    pub header: CommonHeader,
    pub chunks: Seq<AnyChunkV>,
}

impl View for Packet {
    type V = PacketV;

    open spec fn view(&self) -> PacketV {
        PacketV { header: self.header, chunks: self.chunks.deep_view() }
    }
}

impl DeepView for Packet {
    type V = PacketV;

    open spec fn deep_view(&self) -> PacketV {
        self@
    }
}

/// The wire form of a chunk sequence: each chunk's bytes in order.
pub open spec fn chunks_wire(cs: Seq<AnyChunkV>) -> Seq<u8>
    decreases cs.len(),
{
    if cs.len() == 0 {
        Seq::empty()
    } else {
        chunk_wire(cs[0]) + chunks_wire(cs.skip(1))
    }
}

pub open spec fn wf_chunks(cs: Seq<AnyChunkV>) -> bool {
    forall|i: int| 0 <= i < cs.len() ==> wf_chunk(#[trigger] cs[i])
}

/// A packet is well formed when each of its chunks is.
pub open spec fn wf_packet(p: PacketV) -> bool {
    wf_chunks(p.chunks)
}

/// The packet's serialization with the checksum field zeroed: the
/// form the checksum is computed over.
pub open spec fn packet_unchecked_wire(p: PacketV) -> Seq<u8> {
    be16(p.header.src_port) + be16(p.header.dst_port) + be32(p.header.ver_tag) + be32(0u32)
        + chunks_wire(p.chunks)
}

/// The checksum a packet is sent with.
pub open spec fn packet_checksum(p: PacketV) -> u32 {
    crc32c_of(packet_unchecked_wire(p))
}

/// The packet's wire form, checksum patched in.
pub open spec fn packet_wire(p: PacketV) -> Seq<u8> {
    be16(p.header.src_port) + be16(p.header.dst_port) + be32(p.header.ver_tag) + be32(
        packet_checksum(p),
    ) + chunks_wire(p.chunks)
}

/// How many wire bytes a chunk with this type code and declared
/// length occupies: only a Data chunk's padding extends its extent.
pub open spec fn chunk_wire_size(t: u8, l: int) -> int {
    if t == CHUNK_TYPE_DATA {
        16 + round4(l - 16)
    } else {
        l
    }
}

/// Parses a chunk region: each chunk's declared length (padded up for
/// Data) locates the next chunk, until the bytes are exhausted.
pub open spec fn parse_chunks(b: Seq<u8>) -> Result<Seq<AnyChunkV>, SCTPError>
    decreases b.len(),
{
    if b.len() == 0 {
        Ok(Seq::empty())
    } else if b.len() < 4 {
        Err(SCTPError::TruncatedPacket)
    } else {
        let t = b[0];
        let l = read16(b[2], b[3]) as int;
        if l < 4 {
            Err(SCTPError::InvalidChunkLength)
        } else if t == CHUNK_TYPE_DATA && l < 16 {
            Err(SCTPError::InvalidChunkLength)
        } else {
            let adv = chunk_wire_size(t, l);
            if adv > b.len() {
                Err(SCTPError::InvalidChunkLength)
            } else {
                match parse_chunk(b.subrange(0, adv)) {
                    Err(e) => Err(e),
                    Ok(c) => match parse_chunks(b.skip(adv)) {
                        Err(e) => Err(e),
                        Ok(rest) => Ok(seq![c] + rest),
                    },
                }
            }
        }
    }
}

/// The checksum field's four bytes zeroed, as decode recomputes it.
pub open spec fn zero_checksum(b: Seq<u8>) -> Seq<u8> {
    b.update(8, 0u8).update(9, 0u8).update(10, 0u8).update(11, 0u8)
}

/// Parses a packet: the twelve-byte header, the checksum validation,
/// then the chunk region.
pub open spec fn parse_packet(b: Seq<u8>) -> Result<PacketV, SCTPError> {
    if b.len() < 12 {
        Err(SCTPError::TruncatedPacket)
    } else {
        let stored = read32(b[8], b[9], b[10], b[11]);
        if crc32c_of(zero_checksum(b)) != stored {
            Err(SCTPError::ChecksumMismatch)
        } else {
            match parse_chunks(b.skip(12)) {
                Err(e) => Err(e),
                Ok(cs) => Ok(
                    PacketV {
                        header: CommonHeader {
                            src_port: read16(b[0], b[1]),
                            dst_port: read16(b[2], b[3]),
                            ver_tag: read32(b[4], b[5], b[6], b[7]),
                            checksum: stored,
                        },
                        chunks: cs,
                    },
                ),
            }
        }
    }
}

/// The view of a packet decoder's result.
pub open spec fn packet_result_view(r: Result<Packet, SCTPError>) -> Result<PacketV, SCTPError> {
    match r {
        Ok(p) => Ok(p@),
        Err(e) => Err(e),
    }
}

/// Appends the wire forms of the given chunks.
fn encode_chunks(out: &mut Vec<u8>, cs: &Vec<AnyChunk>)
    requires
        wf_chunks(cs.deep_view()),
    ensures
        final(out)@ == old(out)@ + chunks_wire(cs.deep_view()),
{
    let ghost csv = cs.deep_view();
    let n: usize = cs.len();
    let mut i: usize = 0;
    proof {
        assert(csv.skip(0) =~= csv);
    }
    while i < n
        invariant
            n == cs@.len(),
            csv == cs.deep_view(),
            wf_chunks(csv),
            i <= n,
            out@ + chunks_wire(csv.skip(i as int)) == old(out)@ + chunks_wire(csv),
        decreases n - i,
    {
        proof {
            assert(csv.skip(i as int)[0] == csv[i as int]);
            assert(csv.skip(i as int).skip(1) =~= csv.skip(i as int + 1));
            assert(csv[i as int] == cs@[i as int]@);
            assert(wf_chunk(csv[i as int]));
        }
        let ghost mid = out@;
        let bytes = cs[i].get_bytes();
        push_bytes(out, &bytes);
        proof {
            assert(out@ =~= mid + chunk_wire(csv[i as int]));
            assert(out@ + chunks_wire(csv.skip(i as int + 1)) =~= mid + chunks_wire(
                csv.skip(i as int),
            ));
        }
        i += 1;
    }
    proof {
        assert(csv.skip(n as int) =~= Seq::<AnyChunkV>::empty());
        assert(out@ + chunks_wire(csv.skip(n as int)) =~= out@);
    }
}

impl Packet {
    /// A packet between the given ports, with no chunks yet; the
    /// verification tag and checksum start at zero, and the checksum
    /// is computed when the packet is encoded.
    pub fn new(src_port: u16, dst_port: u16) -> (p: Packet)
        ensures
            p@.header == (CommonHeader { src_port, dst_port, ver_tag: 0u32, checksum: 0u32 }),
            p@.chunks == Seq::<AnyChunkV>::empty(),
            wf_packet(p@),
    {
        let p = Packet {
            header: CommonHeader { src_port, dst_port, ver_tag: 0, checksum: 0 },
            chunks: Vec::new(),
        };
        proof {
            assert(p@.chunks =~= Seq::<AnyChunkV>::empty());
        }
        p
    }

    /// Appends a chunk to this packet.
    pub fn add_chunk(&mut self, chunk: AnyChunk)
        ensures
            final(self)@.header == old(self)@.header,
            final(self)@.chunks == old(self)@.chunks.push(chunk@),
    {
        let ghost before = self.chunks.deep_view();
        self.chunks.push(chunk);
        proof {
            assert(self.chunks.deep_view() =~= before.push(chunk@));
        }
    }

    /// Encodes the packet: header and chunks serialized with a zero
    /// checksum field, the CRC32C of that form computed, and the
    /// checksum patched into bytes eight through eleven.
    pub fn to_bytes(&self) -> (r: Vec<u8>)
        requires
            wf_packet(self@),
        ensures
            r@ == packet_wire(self@),
    {
        let mut body: Vec<u8> = Vec::new();
        encode_chunks(&mut body, &self.chunks);
        let mut zeroed: Vec<u8> = Vec::new();
        push_be16(&mut zeroed, self.header.src_port);
        push_be16(&mut zeroed, self.header.dst_port);
        push_be32(&mut zeroed, self.header.ver_tag);
        push_be32(&mut zeroed, 0);
        push_bytes(&mut zeroed, &body);
        proof {
            assert(zeroed@ =~= packet_unchecked_wire(self@));
        }
        let ck = crc32c_bytes(&zeroed);
        let mut out: Vec<u8> = Vec::new();
        push_be16(&mut out, self.header.src_port);
        push_be16(&mut out, self.header.dst_port);
        push_be32(&mut out, self.header.ver_tag);
        push_be32(&mut out, ck);
        push_bytes(&mut out, &body);
        proof {
            assert(out@ =~= packet_wire(self@));
        }
        out
    }
}

/// Relates a partially consumed chunk region to the whole one.
pub open spec fn chunks_continue(whole: Seq<u8>, tail: Seq<u8>, acc: Seq<AnyChunkV>) -> bool {
    match parse_chunks(tail) {
        Ok(rest) => parse_chunks(whole) == Ok::<Seq<AnyChunkV>, SCTPError>(acc + rest),
        Err(e) => parse_chunks(whole) == Err::<Seq<AnyChunkV>, SCTPError>(e),
    }
}

/// Decodes the chunk region of `buf` from `start` to its end.
fn decode_chunks(buf: &Vec<u8>, start: usize) -> (r: Result<Vec<AnyChunk>, SCTPError>)
    requires
        start <= buf@.len(),
    ensures
        match r {
            Ok(cs) => parse_chunks(buf@.skip(start as int)) == Ok::<Seq<AnyChunkV>, SCTPError>(cs.deep_view()),
            Err(e) => parse_chunks(buf@.skip(start as int)) == Err::<Seq<AnyChunkV>, SCTPError>(e),
        },
{
    let n: usize = buf.len();
    let mut chunks: Vec<AnyChunk> = Vec::new();
    let mut offset: usize = start;
    proof {
        assert(chunks.deep_view() =~= Seq::<AnyChunkV>::empty());
        match parse_chunks(buf@.skip(start as int)) {
            Ok(rest) => {
                assert(chunks.deep_view() + rest =~= rest);
            },
            Err(_) => {},
        }
    }
    while offset < n
        invariant
            start <= offset <= n,
            n == buf@.len(),
            chunks_continue(
                buf@.skip(start as int),
                buf@.skip(offset as int),
                chunks.deep_view(),
            ),
        decreases n - offset,
    {
        let ghost tail = buf@.skip(offset as int);
        let remaining: usize = n - offset;
        if remaining < 4 {
            proof {
                assert(tail.len() == remaining);
            }
            return Err(SCTPError::TruncatedPacket);
        }
        let t = buf[offset];
        let l: usize = get16(buf, offset + 2) as usize;
        proof {
            assert(tail[0] == buf@[offset as int]);
            assert(tail[2] == buf@[offset + 2]);
            assert(tail[3] == buf@[offset + 3]);
        }
        if l < 4 {
            return Err(SCTPError::InvalidChunkLength);
        }
        if t == CHUNK_TYPE_DATA && l < 16 {
            return Err(SCTPError::InvalidChunkLength);
        }
        let adv: usize = if t == CHUNK_TYPE_DATA {
            16 + round_up4(l - 16)
        } else {
            l
        };
        proof {
            assert(adv == chunk_wire_size(tail[0], read16(tail[2], tail[3]) as int));
        }
        if adv > remaining {
            return Err(SCTPError::InvalidChunkLength);
        }
        let slice = copy_range(buf, offset, offset + adv);
        proof {
            assert(slice@ =~= tail.subrange(0, adv as int));
        }
        match decode_chunk(&slice) {
            Err(e) => {
                return Err(e);
            },
            Ok(c) => {
                let ghost before = chunks.deep_view();
                let ghost cv = c@;
                chunks.push(c);
                proof {
                    assert(chunks.deep_view() =~= before.push(cv));
                    assert(tail.skip(adv as int) =~= buf@.skip(offset + adv));
                    match parse_chunks(tail.skip(adv as int)) {
                        Ok(rest) => {
                            assert(parse_chunks(tail) == Ok::<Seq<AnyChunkV>, SCTPError>(seq![cv] + rest));
                            assert(before + (seq![cv] + rest) =~= before.push(cv) + rest);
                        },
                        Err(_) => {},
                    }
                }
                offset = offset + adv;
            },
        }
    }
    proof {
        assert(buf@.skip(offset as int).len() == 0);
        assert(chunks.deep_view() + Seq::<AnyChunkV>::empty() =~= chunks.deep_view());
    }
    Ok(chunks)
}

/// Decodes a packet, validating its checksum: the stored checksum
/// must equal the CRC32C of the buffer with the checksum bytes
/// zeroed, or the packet is rejected.
pub fn decode_packet(buf: &Vec<u8>) -> (r: Result<Packet, SCTPError>)
    ensures
        packet_result_view(r) == parse_packet(buf@),
{
    let n: usize = buf.len();
    if n < 12 {
        return Err(SCTPError::TruncatedPacket);
    }
    let stored = get32(buf, 8);
    let mut zeroed = copy_range(buf, 0, 8);
    push_be32(&mut zeroed, 0);
    let rest = copy_range(buf, 12, n);
    push_bytes(&mut zeroed, &rest);
    proof {
        assert(zeroed@ =~= zero_checksum(buf@));
    }
    let computed = crc32c_bytes(&zeroed);
    if computed != stored {
        return Err(SCTPError::ChecksumMismatch);
    }
    match decode_chunks(buf, 12) {
        Err(e) => Err(e),
        Ok(chunks) => {
            let p = Packet {
                header: CommonHeader {
                    src_port: get16(buf, 0),
                    dst_port: get16(buf, 2),
                    ver_tag: get32(buf, 4),
                    checksum: stored,
                },
                chunks,
            };
            proof {
                assert(parse_packet(buf@)->Ok_0 =~= p@);
            }
            Ok(p)
        },
    }
}

} // verus!
