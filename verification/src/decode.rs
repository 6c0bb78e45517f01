//! Decoding wire bytes back into chunks.
//!
//! Each parser is specified by a spec function over the byte sequence;
//! the executable decoders return exactly what those functions say.
//! A chunk is decoded from its own slice: the fixed fields sit at
//! fixed offsets, and an Init or InitAck's trailing parameters are
//! read TLV by TLV until the slice is exhausted. Unrecognized chunk
//! type codes decode to the Invalid marker instead of failing.

use crate::bytes::{copy_range, get16, get32, read16, read32, round4, round_up4};
use crate::chunk::{
    spec_param_type, AnyChunk, AnyChunkV, ChunkHeader, CookieAck, CookieAckV,
    CookieEcho, CookieEchoV, Data, DataV, Init, InitAck, InitAckV, InitV, ParamType, Parameter,
    ParameterV, RawChunk, RawChunkV, CHUNK_TYPE_ABORT, CHUNK_TYPE_COOKIE_ACK,
    CHUNK_TYPE_COOKIE_ECHO, CHUNK_TYPE_DATA, CHUNK_TYPE_INIT, CHUNK_TYPE_INIT_ACK, CHUNK_TYPE_SACK,
    CHUNK_TYPE_SHUTDOWN, CHUNK_TYPE_SHUTDOWN_ACK, CHUNK_TYPE_SHUTDOWN_COMPLETE,
};
use crate::cookie::Cookie;
use crate::error::SCTPError;
use vstd::prelude::*;

verus! {

/// The header read from the first four bytes of a chunk slice.
pub open spec fn parse_header(b: Seq<u8>) -> ChunkHeader {
    ChunkHeader { chunk_type: b[0], flags: b[1], length: read16(b[2], b[3]) }
}

/// Parses a parameter region: TLVs back to back until the bytes are
/// exhausted. Fails when a TLV header is cut short or a declared
/// parameter length would read past the region's end.
pub open spec fn parse_params(b: Seq<u8>) -> Option<Seq<ParameterV>>
    decreases b.len(),
{
    if b.len() == 0 {
        Some(Seq::empty())
    } else if b.len() < 4 {
        None
    } else {
        let l = read16(b[2], b[3]) as int;
        if 4 + l > b.len() {
            None
        } else {
            let p = ParameterV {
                param_type: spec_param_type(read16(b[0], b[1])),
                len: read16(b[2], b[3]),
                value: b.subrange(4, 4 + l),
            };
            match parse_params(b.skip(4 + l)) {
                Some(rest) => Some(seq![p] + rest),
                None => None,
            }
        }
    }
}

/// An empty parameter region decodes as absent parameters.
pub open spec fn parse_opt_params(b: Seq<u8>) -> Option<Option<Seq<ParameterV>>> {
    if b.len() == 0 {
        Some(None)
    } else {
        match parse_params(b) {
            Some(ps) => Some(Some(ps)),
            None => None,
        }
    }
}

/// Parses an Init chunk from its slice: header, five fixed fields,
/// then the parameter region to the slice's end.
pub open spec fn parse_init(b: Seq<u8>) -> Result<InitV, SCTPError> {
    if b.len() < 20 {
        Err(SCTPError::TruncatedPacket)
    } else {
        match parse_opt_params(b.skip(20)) {
            None => Err(SCTPError::InvalidSCTPPacket),
            Some(op) => Ok(
                InitV {
                    header: parse_header(b),
                    init_tag: read32(b[4], b[5], b[6], b[7]),
                    a_rwnd: read32(b[8], b[9], b[10], b[11]),
                    num_ob_streams: read16(b[12], b[13]),
                    num_ib_streams: read16(b[14], b[15]),
                    init_tsn: read32(b[16], b[17], b[18], b[19]),
                    optional_params: op,
                },
            ),
        }
    }
}

/// Parses an InitAck chunk; the layout matches Init.
pub open spec fn parse_init_ack(b: Seq<u8>) -> Result<InitAckV, SCTPError> {
    if b.len() < 20 {
        Err(SCTPError::TruncatedPacket)
    } else {
        match parse_opt_params(b.skip(20)) {
            None => Err(SCTPError::InvalidSCTPPacket),
            Some(op) => Ok(
                InitAckV {
                    header: parse_header(b),
                    init_tag: read32(b[4], b[5], b[6], b[7]),
                    a_rwnd: read32(b[8], b[9], b[10], b[11]),
                    num_ob_streams: read16(b[12], b[13]),
                    num_ib_streams: read16(b[14], b[15]),
                    init_tsn: read32(b[16], b[17], b[18], b[19]),
                    optional_params: op,
                },
            ),
        }
    }
}

/// Parses a Data chunk: the declared length gives the unpadded
/// payload size, and the stored payload is its padded extent.
pub open spec fn parse_data(b: Seq<u8>) -> Result<DataV, SCTPError> {
    if b.len() < 16 {
        Err(SCTPError::TruncatedPacket)
    } else {
        let h = parse_header(b);
        if h.length < 16 {
            Err(SCTPError::InvalidChunkLength)
        } else if 16 + round4(h.length - 16) > b.len() {
            Err(SCTPError::InvalidChunkLength)
        } else {
            Ok(
                DataV {
                    header: h,
                    tsn: read32(b[4], b[5], b[6], b[7]),
                    stream_id: read16(b[8], b[9]),
                    stream_seq_no: read16(b[10], b[11]),
                    ppid: read32(b[12], b[13], b[14], b[15]),
                    data: b.subrange(16, 16 + round4(h.length - 16)),
                },
            )
        }
    }
}

/// Parses one chunk from its slice, dispatching on the type code.
pub open spec fn parse_chunk(b: Seq<u8>) -> Result<AnyChunkV, SCTPError> {
    if b.len() < 4 {
        Err(SCTPError::TruncatedPacket)
    } else {
        let h = parse_header(b);
        let t = h.chunk_type;
        if t == CHUNK_TYPE_DATA {
            match parse_data(b) {
                Ok(c) => Ok(AnyChunkV::Data(c)),
                Err(e) => Err(e),
            }
        } else if t == CHUNK_TYPE_INIT {
            match parse_init(b) {
                Ok(c) => Ok(AnyChunkV::Init(c)),
                Err(e) => Err(e),
            }
        } else if t == CHUNK_TYPE_INIT_ACK {
            match parse_init_ack(b) {
                Ok(c) => Ok(AnyChunkV::InitAck(c)),
                Err(e) => Err(e),
            }
        } else if t == CHUNK_TYPE_COOKIE_ECHO {
            Ok(AnyChunkV::CookieEcho(CookieEchoV { header: h, cookie: b.skip(4) }))
        } else if t == CHUNK_TYPE_COOKIE_ACK {
            Ok(AnyChunkV::CookieAck(CookieAckV { header: h }))
        } else if t == CHUNK_TYPE_SACK {
            Ok(AnyChunkV::Sack(RawChunkV { header: h, value: b.skip(4) }))
        } else if t == CHUNK_TYPE_ABORT {
            Ok(AnyChunkV::Abort(RawChunkV { header: h, value: b.skip(4) }))
        } else if t == CHUNK_TYPE_SHUTDOWN {
            Ok(AnyChunkV::Shutdown(RawChunkV { header: h, value: b.skip(4) }))
        } else if t == CHUNK_TYPE_SHUTDOWN_ACK {
            Ok(AnyChunkV::ShutdownAck(RawChunkV { header: h, value: b.skip(4) }))
        } else if t == CHUNK_TYPE_SHUTDOWN_COMPLETE {
            Ok(AnyChunkV::ShutdownComplete(RawChunkV { header: h, value: b.skip(4) }))
        } else {
            Ok(AnyChunkV::Invalid(RawChunkV { header: h, value: b.skip(4) }))
        }
    }
}

/// The view of a decoder's result.
pub open spec fn chunk_result_view(r: Result<AnyChunk, SCTPError>) -> Result<
    AnyChunkV,
    SCTPError,
> {
    match r {
        Ok(c) => Ok(c@),
        Err(e) => Err(e),
    }
}

/// Relates a partially consumed parameter region to the whole one:
/// whatever the rest parses to, the whole parses to the accumulated
/// prefix followed by it.
pub open spec fn params_continue(whole: Seq<u8>, tail: Seq<u8>, acc: Seq<ParameterV>) -> bool {
    match parse_params(tail) {
        Some(rest) => parse_params(whole) == Some(acc + rest),
        None => parse_params(whole) is None,
    }
}

/// Decodes the parameter region of `buf` from `start` to its end.
fn decode_opt_params(buf: &Vec<u8>, start: usize) -> (r: Result<
    Option<Vec<Parameter>>,
    SCTPError,
>)
    requires
        start <= buf@.len(),
    ensures
        match r {
            Ok(op) => parse_opt_params(buf@.skip(start as int)) == Some(op.deep_view()),
            Err(e) => parse_opt_params(buf@.skip(start as int)) is None && e
                == SCTPError::InvalidSCTPPacket,
        },
{
    let n: usize = buf.len();
    if start == n {
        proof {
            assert(buf@.skip(start as int).len() == 0);
        }
        return Ok(None);
    }
    let mut params: Vec<Parameter> = Vec::new();
    let mut offset: usize = start;
    proof {
        assert(params.deep_view() =~= Seq::<ParameterV>::empty());
        assert(params.deep_view() + parse_params(buf@.skip(start as int))->Some_0 =~= parse_params(
            buf@.skip(start as int),
        )->Some_0);
    }
    while offset < n
        invariant
            start <= offset <= n,
            n == buf@.len(),
            params_continue(buf@.skip(start as int), buf@.skip(offset as int), params.deep_view()),
        decreases n - offset,
    {
        let ghost tail = buf@.skip(offset as int);
        let remaining: usize = n - offset;
        if remaining < 4 {
            proof {
                assert(tail.len() == remaining);
                assert(parse_params(tail) is None);
            }
            return Err(SCTPError::InvalidSCTPPacket);
        }
        let code = get16(buf, offset);
        let plen: usize = get16(buf, offset + 2) as usize;
        proof {
            assert(tail[0] == buf@[offset as int]);
            assert(tail[1] == buf@[offset + 1]);
            assert(tail[2] == buf@[offset + 2]);
            assert(tail[3] == buf@[offset + 3]);
        }
        if plen > remaining - 4 {
            proof {
                assert(4 + read16(tail[2], tail[3]) > tail.len());
                assert(parse_params(tail) is None);
            }
            return Err(SCTPError::InvalidSCTPPacket);
        }
        let value = copy_range(buf, offset + 4, offset + 4 + plen);
        let param = Parameter { param_type: ParamType::from_code(code), len: plen as u16, value };
        let ghost before = params.deep_view();
        params.push(param);
        proof {
            let l = plen as int;
            assert(value@ =~= tail.subrange(4, 4 + l));
            assert(param@ == (ParameterV {
                param_type: spec_param_type(read16(tail[0], tail[1])),
                len: read16(tail[2], tail[3]),
                value: tail.subrange(4, 4 + l),
            }));
            assert(params.deep_view() =~= before.push(param@));
            assert(tail.skip(4 + l) =~= buf@.skip(offset + 4 + l));
            match parse_params(tail.skip(4 + l)) {
                Some(rest) => {
                    assert(parse_params(tail) == Some(seq![param@] + rest));
                    assert(before + (seq![param@] + rest) =~= before.push(param@) + rest);
                },
                None => {
                    assert(parse_params(tail) is None);
                },
            }
        }
        offset = offset + 4 + plen;
    }
    proof {
        assert(buf@.skip(offset as int).len() == 0);
        assert(parse_params(buf@.skip(offset as int)) == Some(Seq::<ParameterV>::empty()));
        assert(params.deep_view() + Seq::<ParameterV>::empty() =~= params.deep_view());
        assert(buf@.skip(start as int).len() > 0);
    }
    Ok(Some(params))
}

impl Init {
    /// Decodes an Init chunk from a buffer holding exactly the chunk.
    pub fn from_bytes(buf: &Vec<u8>) -> (r: Result<Init, SCTPError>)
        ensures
            match r {
                Ok(c) => parse_init(buf@) == Ok::<InitV, SCTPError>(c@),
                Err(e) => parse_init(buf@) == Err::<InitV, SCTPError>(e),
            },
    {
        let n: usize = buf.len();
        if n < 20 {
            return Err(SCTPError::TruncatedPacket);
        }
        let header = ChunkHeader::new(buf[0], buf[1], get16(buf, 2));
        match decode_opt_params(buf, 20) {
            Err(e) => Err(e),
            Ok(optional_params) => {
                let c = Init {
                    header,
                    init_tag: get32(buf, 4),
                    a_rwnd: get32(buf, 8),
                    num_ob_streams: get16(buf, 12),
                    num_ib_streams: get16(buf, 14),
                    init_tsn: get32(buf, 16),
                    optional_params,
                };
                proof {
                    assert(parse_init(buf@)->Ok_0 =~= c@);
                }
                Ok(c)
            },
        }
    }
}

impl InitAck {
    /// Decodes an InitAck chunk from a buffer holding exactly the chunk.
    pub fn from_bytes(buf: &Vec<u8>) -> (r: Result<InitAck, SCTPError>)
        ensures
            match r {
                Ok(c) => parse_init_ack(buf@) == Ok::<InitAckV, SCTPError>(c@),
                Err(e) => parse_init_ack(buf@) == Err::<InitAckV, SCTPError>(e),
            },
    {
        let n: usize = buf.len();
        if n < 20 {
            return Err(SCTPError::TruncatedPacket);
        }
        let header = ChunkHeader::new(buf[0], buf[1], get16(buf, 2));
        match decode_opt_params(buf, 20) {
            Err(e) => Err(e),
            Ok(optional_params) => {
                let c = InitAck {
                    header,
                    init_tag: get32(buf, 4),
                    a_rwnd: get32(buf, 8),
                    num_ob_streams: get16(buf, 12),
                    num_ib_streams: get16(buf, 14),
                    init_tsn: get32(buf, 16),
                    optional_params,
                };
                proof {
                    assert(parse_init_ack(buf@)->Ok_0 =~= c@);
                }
                Ok(c)
            },
        }
    }
}

impl Data {
    /// Decodes a Data chunk from a buffer holding at least its padded
    /// extent.
    pub fn from_bytes(buf: &Vec<u8>) -> (r: Result<Data, SCTPError>)
        ensures
            match r {
                Ok(c) => parse_data(buf@) == Ok::<DataV, SCTPError>(c@),
                Err(e) => parse_data(buf@) == Err::<DataV, SCTPError>(e),
            },
    {
        let n: usize = buf.len();
        if n < 16 {
            return Err(SCTPError::TruncatedPacket);
        }
        let length = get16(buf, 2);
        let header = ChunkHeader::new(buf[0], buf[1], length);
        if length < 16 {
            return Err(SCTPError::InvalidChunkLength);
        }
        let padded = round_up4((length - 16) as usize);
        if padded > n - 16 {
            return Err(SCTPError::InvalidChunkLength);
        }
        let c = Data {
            header,
            tsn: get32(buf, 4),
            stream_id: get16(buf, 8),
            stream_seq_no: get16(buf, 10),
            ppid: get32(buf, 12),
            data: copy_range(buf, 16, 16 + padded),
        };
        proof {
            assert(parse_data(buf@)->Ok_0 =~= c@);
        }
        Ok(c)
    }
}

/// Decodes one chunk from a buffer holding exactly that chunk,
/// dispatching on the type code; an unrecognized code yields the
/// Invalid marker rather than an error.
pub fn decode_chunk(buf: &Vec<u8>) -> (r: Result<AnyChunk, SCTPError>)
    ensures
        chunk_result_view(r) == parse_chunk(buf@),
{
    let n: usize = buf.len();
    if n < 4 {
        return Err(SCTPError::TruncatedPacket);
    }
    let t = buf[0];
    let flags = buf[1];
    let length = get16(buf, 2);
    let header = ChunkHeader::new(t, flags, length);
    if t == CHUNK_TYPE_DATA {
        match Data::from_bytes(buf) {
            Ok(c) => Ok(AnyChunk::Data(c)),
            Err(e) => Err(e),
        }
    } else if t == CHUNK_TYPE_INIT {
        match Init::from_bytes(buf) {
            Ok(c) => Ok(AnyChunk::Init(c)),
            Err(e) => Err(e),
        }
    } else if t == CHUNK_TYPE_INIT_ACK {
        match InitAck::from_bytes(buf) {
            Ok(c) => Ok(AnyChunk::InitAck(c)),
            Err(e) => Err(e),
        }
    } else if t == CHUNK_TYPE_COOKIE_ECHO {
        let cookie = Cookie::from_bytes(copy_range(buf, 4, n));
        let c = CookieEcho { header, cookie };
        proof {
            assert(c@.cookie =~= buf@.skip(4));
        }
        Ok(AnyChunk::CookieEcho(c))
    } else if t == CHUNK_TYPE_COOKIE_ACK {
        Ok(AnyChunk::CookieAck(CookieAck { header }))
    } else {
        let value = copy_range(buf, 4, n);
        let c = RawChunk { header, value };
        proof {
            assert(c@.value =~= buf@.skip(4));
        }
        if t == CHUNK_TYPE_SACK {
            Ok(AnyChunk::Sack(c))
        } else if t == CHUNK_TYPE_ABORT {
            Ok(AnyChunk::Abort(crate::chunk::Abort { header: c.header, value: c.value }))
        } else if t == CHUNK_TYPE_SHUTDOWN {
            Ok(AnyChunk::Shutdown(c))
        } else if t == CHUNK_TYPE_SHUTDOWN_ACK {
            Ok(AnyChunk::ShutdownAck(c))
        } else if t == CHUNK_TYPE_SHUTDOWN_COMPLETE {
            Ok(AnyChunk::ShutdownComplete(c))
        } else {
            Ok(AnyChunk::Invalid(c))
        }
    }
}

} // verus!
