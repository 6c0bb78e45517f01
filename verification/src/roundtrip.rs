//! The codec's round-trip laws: decoding an encoded chunk yields the
//! chunk back, for every well-formed chunk of every kind.

use crate::bytes::{be16, be32, lemma_be16_read, lemma_be32_read, read16, read32};
use crate::chunk::{
    chunk_header_of, chunk_wire, cookie_ack_wire, cookie_echo_wire, data_wire, init_ack_wire,
    init_fields_wire, init_wire, lemma_params_wire_len, opt_params_size, opt_params_wire,
    param_wire, params_wire, raw_chunk_wire, spec_param_code, spec_param_type, wf_chunk, wf_data,
    wf_init, wf_init_ack, wf_opt_params, wf_param, wf_params, AnyChunkV, ChunkHeader, DataV,
    InitAckV, InitV, ParamType, ParameterV, CHUNK_TYPE_DATA, CHUNK_TYPE_INIT, CHUNK_TYPE_INIT_ACK,
};
use crate::decode::{
    parse_chunk, parse_data, parse_header, parse_init, parse_init_ack, parse_opt_params,
    parse_params,
};
use vstd::prelude::*;

verus! {

/// A parameter type code written and read back names the same type.
pub proof fn lemma_param_type_round_trip(t: ParamType)
    ensures
        spec_param_type(spec_param_code(t)) == t,
{
}

/// A 16-bit field written at offset `k` reads back as itself.
proof fn lemma_read16_at(w: Seq<u8>, k: int, x: u16)
    requires
        0 <= k,
        k + 2 <= w.len(),
        w.subrange(k, k + 2) == be16(x),
    ensures
        read16(w[k], w[k + 1]) == x,
{
    assert(w[k] == be16(x)[0]);
    assert(w[k + 1] == be16(x)[1]);
    lemma_be16_read(x);
}

/// A 32-bit field written at offset `k` reads back as itself.
proof fn lemma_read32_at(w: Seq<u8>, k: int, x: u32)
    requires
        0 <= k,
        k + 4 <= w.len(),
        w.subrange(k, k + 4) == be32(x),
    ensures
        read32(w[k], w[k + 1], w[k + 2], w[k + 3]) == x,
{
    assert(w[k] == be32(x)[0]);
    assert(w[k + 1] == be32(x)[1]);
    assert(w[k + 2] == be32(x)[2]);
    assert(w[k + 3] == be32(x)[3]);
    lemma_be32_read(x);
}

/// Round trip of a parameter list: parsing its wire form yields the
/// same parameters, in the same order.
pub proof fn lemma_params_round_trip(ps: Seq<ParameterV>)
    requires
        wf_params(ps),
    ensures
        parse_params(params_wire(ps)) == Some(ps),
    decreases ps.len(),
{
    let w = params_wire(ps);
    if ps.len() == 0 {
        assert(w =~= Seq::<u8>::empty());
        assert(parse_params(w) == Some(Seq::<ParameterV>::empty()));
        assert(ps =~= Seq::<ParameterV>::empty());
    } else {
        let p = ps[0];
        assert(wf_param(p));
        let rest = params_wire(ps.skip(1));
        let pw = param_wire(p);
        assert(w == pw + rest);
        let l = p.value.len() as int;
        assert(pw.len() == 4 + l);
        assert(w.len() >= 4 + l);
        assert(w.subrange(0, 2) =~= be16(spec_param_code(p.param_type)));
        assert(w.subrange(2, 4) =~= be16(p.len));
        lemma_read16_at(w, 0, spec_param_code(p.param_type));
        lemma_read16_at(w, 2, p.len);
        lemma_param_type_round_trip(p.param_type);
        assert(read16(w[2], w[3]) == l);
        assert(w.subrange(4, 4 + l) =~= p.value);
        let parsed = ParameterV {
            param_type: spec_param_type(read16(w[0], w[1])),
            len: read16(w[2], w[3]),
            value: w.subrange(4, 4 + l),
        };
        assert(parsed =~= p);
        assert(w.skip(4 + l) =~= rest);
        assert(wf_params(ps.skip(1)));
        lemma_params_round_trip(ps.skip(1));
        assert(parse_params(w.skip(4 + l)) == Some(ps.skip(1)));
        assert(seq![parsed] + ps.skip(1) =~= ps);
    }
}

/// Round trip of an optional parameter list: absent parameters write
/// no bytes and read back absent; present ones read back intact.
pub proof fn lemma_opt_params_round_trip(op: Option<Seq<ParameterV>>)
    requires
        wf_opt_params(op),
    ensures
        parse_opt_params(opt_params_wire(op)) == Some(op),
{
    match op {
        None => {
            assert(opt_params_wire(op).len() == 0);
        },
        Some(ps) => {
            lemma_params_wire_len(ps);
            crate::chunk::lemma_params_size_nonneg(ps);
            assert(params_wire(ps).len() >= 4);
            lemma_params_round_trip(ps);
        },
    }
}

/// The twenty fixed bytes of an Init or InitAck read back as written.
proof fn lemma_init_prefix(
    w: Seq<u8>,
    header: ChunkHeader,
    init_tag: u32,
    a_rwnd: u32,
    num_ob_streams: u16,
    num_ib_streams: u16,
    init_tsn: u32,
    tail: Seq<u8>,
)
    requires
        w == crate::chunk::header_wire(header) + init_fields_wire(
            init_tag,
            a_rwnd,
            num_ob_streams,
            num_ib_streams,
            init_tsn,
        ) + tail,
    ensures
        w.len() == 20 + tail.len(),
        parse_header(w) == header,
        read32(w[4], w[5], w[6], w[7]) == init_tag,
        read32(w[8], w[9], w[10], w[11]) == a_rwnd,
        read16(w[12], w[13]) == num_ob_streams,
        read16(w[14], w[15]) == num_ib_streams,
        read32(w[16], w[17], w[18], w[19]) == init_tsn,
        w.skip(20) == tail,
{
    assert(w.subrange(2, 4) =~= be16(header.length));
    lemma_read16_at(w, 2, header.length);
    assert(w[0] == header.chunk_type);
    assert(w[1] == header.flags);
    assert(w.subrange(4, 8) =~= be32(init_tag));
    lemma_read32_at(w, 4, init_tag);
    assert(w.subrange(8, 12) =~= be32(a_rwnd));
    lemma_read32_at(w, 8, a_rwnd);
    assert(w.subrange(12, 14) =~= be16(num_ob_streams));
    lemma_read16_at(w, 12, num_ob_streams);
    assert(w.subrange(14, 16) =~= be16(num_ib_streams));
    lemma_read16_at(w, 14, num_ib_streams);
    assert(w.subrange(16, 20) =~= be32(init_tsn));
    lemma_read32_at(w, 16, init_tsn);
    assert(w.skip(20) =~= tail);
}

/// Round trip of an Init chunk.
pub proof fn lemma_init_round_trip(v: InitV)
    requires
        wf_init(v),
    ensures
        parse_init(init_wire(v)) == Ok::<InitV, crate::error::SCTPError>(v),
{
    let w = init_wire(v);
    lemma_init_prefix(
        w,
        v.header,
        v.init_tag,
        v.a_rwnd,
        v.num_ob_streams,
        v.num_ib_streams,
        v.init_tsn,
        opt_params_wire(v.optional_params),
    );
    lemma_opt_params_round_trip(v.optional_params);
    assert(parse_init(w)->Ok_0 =~= v);
}

/// Round trip of an InitAck chunk.
pub proof fn lemma_init_ack_round_trip(v: InitAckV)
    requires
        wf_init_ack(v),
    ensures
        parse_init_ack(init_ack_wire(v)) == Ok::<InitAckV, crate::error::SCTPError>(v),
{
    let w = init_ack_wire(v);
    lemma_init_prefix(
        w,
        v.header,
        v.init_tag,
        v.a_rwnd,
        v.num_ob_streams,
        v.num_ib_streams,
        v.init_tsn,
        opt_params_wire(v.optional_params),
    );
    lemma_opt_params_round_trip(v.optional_params);
    assert(parse_init_ack(w)->Ok_0 =~= v);
}

/// Round trip of a Data chunk: the padded payload and the unpadded
/// declared length both survive.
pub proof fn lemma_data_round_trip(v: DataV)
    requires
        wf_data(v),
    ensures
        parse_data(data_wire(v)) == Ok::<DataV, crate::error::SCTPError>(v),
{
    let w = data_wire(v);
    crate::bytes::lemma_round4_bounds(v.header.length - 16);
    assert(w.len() == 16 + v.data.len());
    assert(w.subrange(2, 4) =~= be16(v.header.length));
    lemma_read16_at(w, 2, v.header.length);
    assert(w[0] == v.header.chunk_type);
    assert(w[1] == v.header.flags);
    assert(w.subrange(4, 8) =~= be32(v.tsn));
    lemma_read32_at(w, 4, v.tsn);
    assert(w.subrange(8, 10) =~= be16(v.stream_id));
    lemma_read16_at(w, 8, v.stream_id);
    assert(w.subrange(10, 12) =~= be16(v.stream_seq_no));
    lemma_read16_at(w, 10, v.stream_seq_no);
    assert(w.subrange(12, 16) =~= be32(v.ppid));
    lemma_read32_at(w, 12, v.ppid);
    assert(w.subrange(16, 16 + crate::bytes::round4(v.header.length - 16)) =~= v.data);
    assert(parse_data(w)->Ok_0 =~= v);
}

/// Round trip of a header-plus-body chunk: CookieEcho, CookieAck, the
/// opaque kinds and the Invalid marker.
proof fn lemma_raw_prefix(w: Seq<u8>, header: ChunkHeader, tail: Seq<u8>)
    requires
        w == crate::chunk::header_wire(header) + tail,
    ensures
        w.len() == 4 + tail.len(),
        parse_header(w) == header,
        w.skip(4) == tail,
{
    assert(w.subrange(2, 4) =~= be16(header.length));
    lemma_read16_at(w, 2, header.length);
    assert(w[0] == header.chunk_type);
    assert(w[1] == header.flags);
    assert(w.skip(4) =~= tail);
}

/// Round trip: decoding the wire form of any well-formed chunk yields
/// that chunk, for every variant and every field combination.
pub proof fn lemma_chunk_round_trip(c: AnyChunkV)
    requires
        wf_chunk(c),
    ensures
        parse_chunk(chunk_wire(c)) == Ok::<AnyChunkV, crate::error::SCTPError>(c),
{
    match c {
        AnyChunkV::Data(v) => {
            lemma_data_round_trip(v);
            let w = data_wire(v);
            assert(w[0] == CHUNK_TYPE_DATA);
        },
        AnyChunkV::Init(v) => {
            lemma_init_round_trip(v);
            let w = init_wire(v);
            assert(w[0] == CHUNK_TYPE_INIT);
            assert(w.len() >= 4);
        },
        AnyChunkV::InitAck(v) => {
            lemma_init_ack_round_trip(v);
            let w = init_ack_wire(v);
            assert(w[0] == CHUNK_TYPE_INIT_ACK);
            assert(w.len() >= 4);
        },
        AnyChunkV::CookieEcho(v) => {
            let w = cookie_echo_wire(v);
            lemma_raw_prefix(w, v.header, v.cookie);
            assert(parse_chunk(w)->Ok_0 =~= c);
        },
        AnyChunkV::CookieAck(v) => {
            let w = cookie_ack_wire(v);
            assert(w =~= crate::chunk::header_wire(v.header) + Seq::<u8>::empty());
            lemma_raw_prefix(w, v.header, Seq::empty());
            assert(parse_chunk(w)->Ok_0 =~= c);
        },
        AnyChunkV::Sack(v) => {
            let w = raw_chunk_wire(v);
            lemma_raw_prefix(w, v.header, v.value);
            assert(parse_chunk(w)->Ok_0 =~= c);
        },
        AnyChunkV::Abort(v) => {
            let w = raw_chunk_wire(v);
            lemma_raw_prefix(w, v.header, v.value);
            assert(parse_chunk(w)->Ok_0 =~= c);
        },
        AnyChunkV::Shutdown(v) => {
            let w = raw_chunk_wire(v);
            lemma_raw_prefix(w, v.header, v.value);
            assert(parse_chunk(w)->Ok_0 =~= c);
        },
        AnyChunkV::ShutdownAck(v) => {
            let w = raw_chunk_wire(v);
            lemma_raw_prefix(w, v.header, v.value);
            assert(parse_chunk(w)->Ok_0 =~= c);
        },
        AnyChunkV::ShutdownComplete(v) => {
            let w = raw_chunk_wire(v);
            lemma_raw_prefix(w, v.header, v.value);
            assert(parse_chunk(w)->Ok_0 =~= c);
        },
        AnyChunkV::Invalid(v) => {
            let w = raw_chunk_wire(v);
            lemma_raw_prefix(w, v.header, v.value);
            assert(parse_chunk(w)->Ok_0 =~= c);
        },
    }
}

/// The verifiable core of checksum integrity: any buffer whose bytes
/// no longer match its stored checksum is rejected on decode. That a
/// flipped bit always changes the CRC32C value is a property of the
/// checksum function itself, which this library does not axiomatize;
/// the tests exercise it bit by bit on concrete packets.
pub proof fn lemma_checksum_gate(b: Seq<u8>)
    requires
        b.len() >= 12,
        crate::checksum::crc32c_of(crate::packet::zero_checksum(b)) != read32(
            b[8],
            b[9],
            b[10],
            b[11],
        ),
    ensures
        crate::packet::parse_packet(b) == Err::<crate::packet::PacketV, crate::error::SCTPError>(
            crate::error::SCTPError::ChecksumMismatch,
        ),
{
}

/// The wire form of a well-formed chunk starts with its header, and
/// its extent is the declared length, padded up for a Data chunk.
proof fn lemma_chunk_wire_shape(c: AnyChunkV)
    requires
        wf_chunk(c),
    ensures
        chunk_wire(c).len() == crate::packet::chunk_wire_size(
            chunk_header_of(c).chunk_type,
            chunk_header_of(c).length as int,
        ),
        chunk_wire(c).len() >= 4,
        chunk_header_of(c).length >= 4,
        chunk_header_of(c).chunk_type == CHUNK_TYPE_DATA ==> chunk_header_of(c).length >= 16,
        chunk_wire(c)[0] == chunk_header_of(c).chunk_type,
        chunk_wire(c).subrange(2, 4) == be16(chunk_header_of(c).length),
{
    let h = chunk_header_of(c);
    match c {
        AnyChunkV::Data(v) => {
            crate::bytes::lemma_round4_bounds(v.header.length - 16);
            assert(chunk_wire(c).subrange(2, 4) =~= be16(h.length));
        },
        AnyChunkV::Init(v) => {
            match v.optional_params {
                Some(ps) => {
                    lemma_params_wire_len(ps);
                    crate::chunk::lemma_params_size_nonneg(ps);
                },
                None => {},
            }
            assert(chunk_wire(c).len() == 20 + opt_params_size(v.optional_params));
            assert(chunk_wire(c).subrange(2, 4) =~= be16(h.length));
        },
        AnyChunkV::InitAck(v) => {
            match v.optional_params {
                Some(ps) => {
                    lemma_params_wire_len(ps);
                    crate::chunk::lemma_params_size_nonneg(ps);
                },
                None => {},
            }
            assert(chunk_wire(c).len() == 20 + opt_params_size(v.optional_params));
            assert(chunk_wire(c).subrange(2, 4) =~= be16(h.length));
        },
        AnyChunkV::CookieEcho(v) => {
            assert(chunk_wire(c).subrange(2, 4) =~= be16(h.length));
        },
        AnyChunkV::CookieAck(v) => {
            assert(chunk_wire(c).subrange(2, 4) =~= be16(h.length));
        },
        AnyChunkV::Sack(v) => {
            assert(chunk_wire(c).subrange(2, 4) =~= be16(h.length));
        },
        AnyChunkV::Abort(v) => {
            assert(chunk_wire(c).subrange(2, 4) =~= be16(h.length));
        },
        AnyChunkV::Shutdown(v) => {
            assert(chunk_wire(c).subrange(2, 4) =~= be16(h.length));
        },
        AnyChunkV::ShutdownAck(v) => {
            assert(chunk_wire(c).subrange(2, 4) =~= be16(h.length));
        },
        AnyChunkV::ShutdownComplete(v) => {
            assert(chunk_wire(c).subrange(2, 4) =~= be16(h.length));
        },
        AnyChunkV::Invalid(v) => {
            assert(chunk_wire(c).subrange(2, 4) =~= be16(h.length));
        },
    }
}

/// Round trip of a chunk sequence: parsing the concatenated wire
/// forms yields the same chunks, in the same order.
pub proof fn lemma_chunks_round_trip(cs: Seq<AnyChunkV>)
    requires
        crate::packet::wf_chunks(cs),
    ensures
        crate::packet::parse_chunks(crate::packet::chunks_wire(cs)) == Ok::<
            Seq<AnyChunkV>,
            crate::error::SCTPError,
        >(cs),
    decreases cs.len(),
{
    let w = crate::packet::chunks_wire(cs);
    if cs.len() == 0 {
        assert(w =~= Seq::<u8>::empty());
        assert(cs =~= Seq::<AnyChunkV>::empty());
    } else {
        let c = cs[0];
        assert(wf_chunk(c));
        let h = chunk_header_of(c);
        lemma_chunk_wire_shape(c);
        let cw = chunk_wire(c);
        let rest = crate::packet::chunks_wire(cs.skip(1));
        assert(w == cw + rest);
        assert(w[0] == h.chunk_type);
        assert(w.subrange(2, 4) =~= cw.subrange(2, 4));
        lemma_read16_at(w, 2, h.length);
        let adv = crate::packet::chunk_wire_size(h.chunk_type, h.length as int);
        assert(adv == cw.len());
        assert(w.subrange(0, adv) =~= cw);
        lemma_chunk_round_trip(c);
        assert(w.skip(adv) =~= rest);
        assert(crate::packet::wf_chunks(cs.skip(1)));
        lemma_chunks_round_trip(cs.skip(1));
        assert(seq![c] + cs.skip(1) =~= cs);
    }
}

/// Round trip of a packet: decoding an encoded packet validates its
/// checksum and reproduces the header fields and the identical chunk
/// sequence; the checksum field carries the computed checksum.
pub proof fn lemma_packet_round_trip(p: crate::packet::PacketV)
    requires
        crate::packet::wf_packet(p),
    ensures
        crate::packet::parse_packet(crate::packet::packet_wire(p)) == Ok::<
            crate::packet::PacketV,
            crate::error::SCTPError,
        >(
            crate::packet::PacketV {
                header: crate::packet::CommonHeader {
                    src_port: p.header.src_port,
                    dst_port: p.header.dst_port,
                    ver_tag: p.header.ver_tag,
                    checksum: crate::packet::packet_checksum(p),
                },
                chunks: p.chunks,
            },
        ),
{
    let w = crate::packet::packet_wire(p);
    let u = crate::packet::packet_unchecked_wire(p);
    let body = crate::packet::chunks_wire(p.chunks);
    let ck = crate::packet::packet_checksum(p);
    assert(w.len() == 12 + body.len());
    assert(u.len() == 12 + body.len());
    assert(w.subrange(0, 2) =~= be16(p.header.src_port));
    lemma_read16_at(w, 0, p.header.src_port);
    assert(w.subrange(2, 4) =~= be16(p.header.dst_port));
    lemma_read16_at(w, 2, p.header.dst_port);
    assert(w.subrange(4, 8) =~= be32(p.header.ver_tag));
    lemma_read32_at(w, 4, p.header.ver_tag);
    assert(w.subrange(8, 12) =~= be32(ck));
    lemma_read32_at(w, 8, ck);
    let z = crate::packet::zero_checksum(w);
    assert forall|i: int| 0 <= i < z.len() implies z[i] == u[i] by {
        if i < 8 {
            assert(z[i] == w[i]);
            assert(w[i] == u[i]);
        } else if i < 12 {
            assert(z[i] == 0);
            assert(u[i] == be32(0u32)[i - 8]);
            assert(be32(0u32)[i - 8] == 0);
        } else {
            assert(z[i] == w[i]);
            assert(w[i] == body[i - 12]);
            assert(u[i] == body[i - 12]);
        }
    };
    assert(z =~= u);
    assert(crate::checksum::crc32c_of(z) == ck);
    assert(w.skip(12) =~= body);
    lemma_chunks_round_trip(p.chunks);
    assert(crate::packet::parse_packet(w)->Ok_0 =~= (crate::packet::PacketV {
        header: crate::packet::CommonHeader {
            src_port: p.header.src_port,
            dst_port: p.header.dst_port,
            ver_tag: p.header.ver_tag,
            checksum: ck,
        },
        chunks: p.chunks,
    }));
}

} // verus!
