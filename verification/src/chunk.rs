//! Chunks: the self-describing units carried inside a packet, with
//! their byte-exact big-endian wire form.
//!
//! Every chunk starts with a four-byte header (type, flags, length).
//! The length counts header and body bytes without padding; only a
//! Data chunk's payload is padded, with zero bytes, to a four-byte
//! boundary, and the padding is excluded from the declared length.

use crate::bytes::{be16, be32, push_be16, push_be32, push_bytes, round4, round_up4};
use crate::cookie::Cookie;
use vstd::prelude::*;

verus! {

/// Chunk type codes of the wire format.
pub const CHUNK_TYPE_DATA: u8 = 0;

pub const CHUNK_TYPE_INIT: u8 = 1;

pub const CHUNK_TYPE_INIT_ACK: u8 = 2;

pub const CHUNK_TYPE_SACK: u8 = 3;

pub const CHUNK_TYPE_ABORT: u8 = 6;

pub const CHUNK_TYPE_SHUTDOWN: u8 = 7;

pub const CHUNK_TYPE_SHUTDOWN_ACK: u8 = 8;

pub const CHUNK_TYPE_COOKIE_ECHO: u8 = 10;

pub const CHUNK_TYPE_COOKIE_ACK: u8 = 11;

pub const CHUNK_TYPE_SHUTDOWN_COMPLETE: u8 = 14;

/// Whether a type code belongs to one of the chunk kinds this codec
/// understands; every other code decodes to the Invalid marker.
pub open spec fn known_chunk_type(t: u8) -> bool {
    t == CHUNK_TYPE_DATA || t == CHUNK_TYPE_INIT || t == CHUNK_TYPE_INIT_ACK || t == CHUNK_TYPE_SACK
        || t == CHUNK_TYPE_ABORT || t == CHUNK_TYPE_SHUTDOWN || t == CHUNK_TYPE_SHUTDOWN_ACK
        || t == CHUNK_TYPE_COOKIE_ECHO || t == CHUNK_TYPE_COOKIE_ACK
        || t == CHUNK_TYPE_SHUTDOWN_COMPLETE
}

/// The common four-byte chunk header.
#[derive(Clone, Copy, Debug, PartialEq, Eq, Structural)]
pub struct ChunkHeader {
    pub chunk_type: u8,
    pub flags: u8,
    pub length: u16,
}

impl ChunkHeader {
    pub fn new(chunk_type: u8, flags: u8, length: u16) -> (h: ChunkHeader)
        ensures
            h == (ChunkHeader { chunk_type, flags, length }),
    {
        ChunkHeader { chunk_type, flags, length }
    }
}

/// The wire form of a chunk header: type, flags, big-endian length.
pub open spec fn header_wire(h: ChunkHeader) -> Seq<u8> {
    seq![h.chunk_type, h.flags] + be16(h.length)
}

/// Appends the wire form of a chunk header.
pub fn push_header(out: &mut Vec<u8>, h: &ChunkHeader)
    ensures
        final(out)@ == old(out)@ + header_wire(*h),
{
    out.push(h.chunk_type);
    out.push(h.flags);
    push_be16(out, h.length);
    assert(final(out)@ =~= old(out)@ + header_wire(*h));
}

/// Optional-parameter type codes: 7 is a state cookie, 11 a host
/// name address; every other code maps to Invalid.
#[derive(Clone, Copy, Debug, PartialEq, Eq, Structural)]
pub enum ParamType {
    StateCookie,
    HostNameAddr,
    Invalid,
}

/// The code a parameter type is written as.
pub open spec fn spec_param_code(t: ParamType) -> u16 {
    match t {
        ParamType::StateCookie => 7,
        ParamType::HostNameAddr => 11,
        ParamType::Invalid => 0,
    }
}

/// The parameter type a code is read as.
pub open spec fn spec_param_type(c: u16) -> ParamType {
    if c == 7 {
        ParamType::StateCookie
    } else if c == 11 {
        ParamType::HostNameAddr
    } else {
        ParamType::Invalid
    }
}

impl ParamType {
    /// The code this parameter type is written as.
    pub fn code(&self) -> (c: u16)
        ensures
            c == spec_param_code(*self),
    {
        match self {
            ParamType::StateCookie => 7,
            ParamType::HostNameAddr => 11,
            ParamType::Invalid => 0,
        }
    }

    /// The parameter type a code is read as.
    pub fn from_code(c: u16) -> (t: ParamType)
        ensures
            t == spec_param_type(c),
    {
        if c == 7 {
            ParamType::StateCookie
        } else if c == 11 {
            ParamType::HostNameAddr
        } else {
            ParamType::Invalid
        }
    }
}

/// A variable-length TLV attached to an Init or InitAck chunk.
#[derive(Clone, Debug, PartialEq)]
pub struct Parameter {
    pub param_type: ParamType,
    pub len: u16,
    pub value: Vec<u8>,
}

/// The mathematical model of a parameter.
#[verifier::ext_equal]
pub struct ParameterV {
    pub param_type: ParamType,
    pub len: u16,
    pub value: Seq<u8>,
}

impl View for Parameter {
    type V = ParameterV;

    open spec fn view(&self) -> ParameterV {
        ParameterV { param_type: self.param_type, len: self.len, value: self.value@ }
    }
}

impl DeepView for Parameter {
    type V = ParameterV;

    open spec fn deep_view(&self) -> ParameterV {
        self@
    }
}

/// A parameter's declared length equals its value's length.
pub open spec fn wf_param(p: ParameterV) -> bool {
    p.len == p.value.len()
}

/// The wire form of one parameter: big-endian type code, big-endian
/// length, then the value bytes, unpadded.
pub open spec fn param_wire(p: ParameterV) -> Seq<u8> {
    be16(spec_param_code(p.param_type)) + be16(p.len) + p.value
}

impl Parameter {
    pub fn new(param_type: ParamType, value: Vec<u8>) -> (p: Parameter)
        requires
            value@.len() <= u16::MAX,
        ensures
            p@ == (ParameterV { param_type, len: value@.len() as u16, value: value@ }),
            wf_param(p@),
    {
        let len = value.len() as u16;
        Parameter { param_type, len, value }
    }
}

/// The wire form of a parameter list: each TLV in order, back to back.
pub open spec fn params_wire(ps: Seq<ParameterV>) -> Seq<u8>
    decreases ps.len(),
{
    if ps.len() == 0 {
        Seq::empty()
    } else {
        param_wire(ps[0]) + params_wire(ps.skip(1))
    }
}

/// The byte size of a parameter list on the wire.
pub open spec fn params_size(ps: Seq<ParameterV>) -> int
    decreases ps.len(),
{
    if ps.len() == 0 {
        0
    } else {
        4 + ps[0].value.len() + params_size(ps.skip(1))
    }
}

pub open spec fn wf_params(ps: Seq<ParameterV>) -> bool {
    forall|i: int| 0 <= i < ps.len() ==> wf_param(#[trigger] ps[i])
}

pub proof fn lemma_params_size_nonneg(ps: Seq<ParameterV>)
    ensures
        params_size(ps) >= 4 * ps.len(),
    decreases ps.len(),
{
    if ps.len() > 0 {
        lemma_params_size_nonneg(ps.skip(1));
    }
}

pub proof fn lemma_params_wire_len(ps: Seq<ParameterV>)
    requires
        wf_params(ps),
    ensures
        params_wire(ps).len() == params_size(ps),
    decreases ps.len(),
{
    if ps.len() > 0 {
        assert(wf_params(ps.skip(1)));
        lemma_params_wire_len(ps.skip(1));
    }
}

/// The wire form of an optional parameter list: absent means no bytes.
pub open spec fn opt_params_wire(op: Option<Seq<ParameterV>>) -> Seq<u8> {
    match op {
        Some(ps) => params_wire(ps),
        None => Seq::empty(),
    }
}

/// The byte size of an optional parameter list on the wire.
pub open spec fn opt_params_size(op: Option<Seq<ParameterV>>) -> int {
    match op {
        Some(ps) => params_size(ps),
        None => 0,
    }
}

/// An optional parameter list is absent or nonempty and well formed;
/// a present empty list would encode to no bytes and decode as absent.
pub open spec fn wf_opt_params(op: Option<Seq<ParameterV>>) -> bool {
    match op {
        Some(ps) => ps.len() > 0 && wf_params(ps),
        None => true,
    }
}

/// Appends the wire form of a parameter list.
pub fn encode_params(out: &mut Vec<u8>, ps: &Vec<Parameter>)
    ensures
        final(out)@ == old(out)@ + params_wire(ps.deep_view()),
{
    let ghost psv = ps.deep_view();
    let n: usize = ps.len();
    let mut i: usize = 0;
    proof {
        assert(psv.skip(0) =~= psv);
    }
    while i < n
        invariant
            n == ps@.len(),
            psv == ps.deep_view(),
            i <= n,
            out@ + params_wire(psv.skip(i as int)) == old(out)@ + params_wire(psv),
        decreases n - i,
    {
        let p = &ps[i];
        proof {
            assert(psv.skip(i as int)[0] == psv[i as int]);
            assert(psv.skip(i as int).skip(1) =~= psv.skip(i as int + 1));
        }
        let ghost mid = out@;
        push_be16(out, p.param_type.code());
        push_be16(out, p.len);
        push_bytes(out, &p.value);
        proof {
            assert(psv[i as int] == ps@[i as int]@);
            assert(out@ =~= mid + param_wire(psv[i as int]));
            assert(out@ + params_wire(psv.skip(i as int + 1)) =~= mid + params_wire(
                psv.skip(i as int),
            ));
        }
        i += 1;
    }
    proof {
        assert(psv.skip(n as int) =~= Seq::<ParameterV>::empty());
        assert(out@ + params_wire(psv.skip(n as int)) =~= out@);
    }
}

/// The Init chunk: opens the handshake, carrying the initiator's tag,
/// advertised window, stream counts and initial sequence number.
#[derive(Clone, Debug, PartialEq)]
pub struct Init {
    pub header: ChunkHeader,
    pub init_tag: u32,
    pub a_rwnd: u32,
    pub num_ob_streams: u16,
    pub num_ib_streams: u16,
    pub init_tsn: u32,
    pub optional_params: Option<Vec<Parameter>>,
}

/// The mathematical model of an Init chunk.
#[verifier::ext_equal]
pub struct InitV {
    pub header: ChunkHeader,
    pub init_tag: u32,
    pub a_rwnd: u32,
    pub num_ob_streams: u16,
    pub num_ib_streams: u16,
    pub init_tsn: u32,
    pub optional_params: Option<Seq<ParameterV>>,
}

impl View for Init {
    type V = InitV;

    open spec fn view(&self) -> InitV {
        InitV {
            header: self.header,
            init_tag: self.init_tag,
            a_rwnd: self.a_rwnd,
            num_ob_streams: self.num_ob_streams,
            num_ib_streams: self.num_ib_streams,
            init_tsn: self.init_tsn,
            optional_params: self.optional_params.deep_view(),
        }
    }
}

/// The fixed sixteen body bytes shared by Init and InitAck.
pub open spec fn init_fields_wire(
    init_tag: u32,
    a_rwnd: u32,
    num_ob_streams: u16,
    num_ib_streams: u16,
    init_tsn: u32,
) -> Seq<u8> {
    be32(init_tag) + be32(a_rwnd) + be16(num_ob_streams) + be16(num_ib_streams) + be32(init_tsn)
}

pub open spec fn init_wire(v: InitV) -> Seq<u8> {
    header_wire(v.header) + init_fields_wire(
        v.init_tag,
        v.a_rwnd,
        v.num_ob_streams,
        v.num_ib_streams,
        v.init_tsn,
    ) + opt_params_wire(v.optional_params)
}

pub open spec fn wf_init_fields(header: ChunkHeader, op: Option<Seq<ParameterV>>) -> bool {
    &&& wf_opt_params(op)
    &&& header.length == 20 + opt_params_size(op)
}

pub open spec fn wf_init(v: InitV) -> bool {
    v.header.chunk_type == CHUNK_TYPE_INIT && wf_init_fields(v.header, v.optional_params)
}

/// The byte size of an optional parameter list, computed at run time.
pub fn params_byte_size(op: &Option<Vec<Parameter>>) -> (n: Option<usize>)
    ensures
        match n {
            Some(s) => s == opt_params_size(op.deep_view()) && 20 + s <= u16::MAX,
            None => 20 + opt_params_size(op.deep_view()) > u16::MAX,
        },
{
    match op {
        None => Some(0),
        Some(ps) => {
            let ghost psv = ps.deep_view();
            let m: usize = ps.len();
            let mut total: usize = 0;
            let mut i: usize = 0;
            proof {
                assert(psv.skip(0) =~= psv);
                assert(op.deep_view() == Some(psv));
            }
            while i < m
                invariant
                    m == ps@.len(),
                    psv == ps.deep_view(),
                    op.deep_view() == Some(psv),
                    i <= m,
                    total + params_size(psv.skip(i as int)) == params_size(psv),
                    total + 20 <= u16::MAX,
                decreases m - i,
            {
                proof {
                    assert(psv.skip(i as int)[0] == psv[i as int]);
                    assert(psv.skip(i as int).skip(1) =~= psv.skip(i as int + 1));
                    assert(psv[i as int] == ps@[i as int]@);
                    lemma_params_size_nonneg(psv.skip(i as int + 1));
                }
                let vlen: usize = ps[i].value.len();
                if total > 65511 || vlen > 65511 - total {
                    proof {
                        lemma_params_size_nonneg(psv.skip(i as int + 1));
                        assert(params_size(psv.skip(i as int)) == 4 + psv.skip(
                            i as int,
                        )[0].value.len() + params_size(psv.skip(i as int + 1)));
                        assert(params_size(psv) >= total + 4 + vlen);
                        assert(20 + params_size(psv) > u16::MAX);
                        assert(op.deep_view() == Some(psv));
                    }
                    return None;
                }
                total = total + 4 + vlen;
                i += 1;
            }
            proof {
                assert(psv.skip(m as int) =~= Seq::<ParameterV>::empty());
                assert(params_size(psv.skip(m as int)) == 0);
            }
            Some(total)
        },
    }
}

impl Init {
    /// Builds an Init chunk; the declared length counts the twenty
    /// fixed bytes plus every parameter TLV, unpadded. The initial
    /// sequence number is seeded from the tag.
    pub fn new(
        init_tag: u32,
        a_rwnd: u32,
        num_ob_streams: u16,
        num_ib_streams: u16,
        optional_params: Option<Vec<Parameter>>,
    ) -> (c: Init)
        requires
            20 + opt_params_size(optional_params.deep_view()) <= u16::MAX,
        ensures
            c@ == (InitV {
                header: ChunkHeader {
                    chunk_type: CHUNK_TYPE_INIT,
                    flags: 0,
                    length: (20 + opt_params_size(optional_params.deep_view())) as u16,
                },
                init_tag,
                a_rwnd,
                num_ob_streams,
                num_ib_streams,
                init_tsn: init_tag,
                optional_params: optional_params.deep_view(),
            }),
            wf_opt_params(optional_params.deep_view()) ==> wf_init(c@),
    {
        let size = match params_byte_size(&optional_params) {
            Some(s) => s,
            None => {
                proof {
                    assert(false);
                }
                0
            },
        };
        Init {
            header: ChunkHeader::new(CHUNK_TYPE_INIT, 0, 20 + size as u16),
            init_tag,
            a_rwnd,
            num_ob_streams,
            num_ib_streams,
            init_tsn: init_tag,
            optional_params,
        }
    }
}

/// The InitAck chunk: answers an Init, echoing its tag, window and
/// stream counts, and carries the state-cookie parameter.
#[derive(Clone, Debug, PartialEq)]
pub struct InitAck {
    pub header: ChunkHeader,
    pub init_tag: u32,
    pub a_rwnd: u32,
    pub num_ob_streams: u16,
    pub num_ib_streams: u16,
    pub init_tsn: u32,
    pub optional_params: Option<Vec<Parameter>>,
}

/// The mathematical model of an InitAck chunk.
#[verifier::ext_equal]
pub struct InitAckV {
    pub header: ChunkHeader,
    pub init_tag: u32,
    pub a_rwnd: u32,
    pub num_ob_streams: u16,
    pub num_ib_streams: u16,
    pub init_tsn: u32,
    pub optional_params: Option<Seq<ParameterV>>,
}

impl View for InitAck {
    type V = InitAckV;

    open spec fn view(&self) -> InitAckV {
        InitAckV {
            header: self.header,
            init_tag: self.init_tag,
            a_rwnd: self.a_rwnd,
            num_ob_streams: self.num_ob_streams,
            num_ib_streams: self.num_ib_streams,
            init_tsn: self.init_tsn,
            optional_params: self.optional_params.deep_view(),
        }
    }
}

pub open spec fn init_ack_wire(v: InitAckV) -> Seq<u8> {
    header_wire(v.header) + init_fields_wire(
        v.init_tag,
        v.a_rwnd,
        v.num_ob_streams,
        v.num_ib_streams,
        v.init_tsn,
    ) + opt_params_wire(v.optional_params)
}

pub open spec fn wf_init_ack(v: InitAckV) -> bool {
    v.header.chunk_type == CHUNK_TYPE_INIT_ACK && wf_init_fields(v.header, v.optional_params)
}

impl InitAck {
    /// Builds an InitAck from a received Init, echoing its tag, window
    /// and stream counts; the initial sequence number is drawn fresh
    /// at random. No parameters are attached yet.
    pub fn new(init: Init) -> (c: InitAck)
        ensures
            c@.header == (ChunkHeader { chunk_type: CHUNK_TYPE_INIT_ACK, flags: 0, length: 20u16 }),
            c@.init_tag == init@.init_tag,
            c@.a_rwnd == init@.a_rwnd,
            c@.num_ob_streams == init@.num_ob_streams,
            c@.num_ib_streams == init@.num_ib_streams,
            c@.optional_params is None,
            wf_init_ack(c@),
    {
        InitAck::with_tsn(init, crate::random::random_u32())
    }

    /// Builds an InitAck as `new` does, with the initial sequence
    /// number given by the caller.
    pub fn with_tsn(init: Init, init_tsn: u32) -> (c: InitAck)
        ensures
            c@ == (InitAckV {
                header: ChunkHeader { chunk_type: CHUNK_TYPE_INIT_ACK, flags: 0, length: 20u16 },
                init_tag: init@.init_tag,
                a_rwnd: init@.a_rwnd,
                num_ob_streams: init@.num_ob_streams,
                num_ib_streams: init@.num_ib_streams,
                init_tsn,
                optional_params: None::<Seq<ParameterV>>,
            }),
            wf_init_ack(c@),
    {
        InitAck {
            header: ChunkHeader::new(CHUNK_TYPE_INIT_ACK, 0, 20),
            init_tag: init.init_tag,
            a_rwnd: init.a_rwnd,
            num_ob_streams: init.num_ob_streams,
            num_ib_streams: init.num_ib_streams,
            init_tsn,
            optional_params: None,
        }
    }

    /// Appends a parameter, growing the declared length by the TLV's
    /// four header bytes plus its value.
    pub fn add_param(&mut self, param: Parameter)
        requires
            old(self)@.header.length + 4 + param@.value.len() <= u16::MAX,
        ensures
            final(self).header.chunk_type == old(self).header.chunk_type,
            final(self).header.flags == old(self).header.flags,
            final(self).header.length == old(self).header.length + 4 + param@.value.len(),
            final(self).init_tag == old(self).init_tag,
            final(self).a_rwnd == old(self).a_rwnd,
            final(self).num_ob_streams == old(self).num_ob_streams,
            final(self).num_ib_streams == old(self).num_ib_streams,
            final(self).init_tsn == old(self).init_tsn,
            final(self)@.optional_params == (match old(self)@.optional_params {
                Some(ps) => Some(ps.push(param@)),
                None => Some(seq![param@]),
            }),
    {
        let vlen = param.value.len() as u16;
        self.header.length = self.header.length + 4 + vlen;
        let ghost pv = param@;
        match &mut self.optional_params {
            Some(params) => {
                let ghost before = params.deep_view();
                params.push(param);
                proof {
                    assert(params.deep_view() =~= before.push(pv));
                }
            },
            None => {
                self.optional_params = Some(vec![param]);
                proof {
                    let ps = self.optional_params->Some_0;
                    assert(ps.deep_view() =~= seq![pv]);
                }
            },
        }
    }
}

/// The CookieEcho chunk: returns the issued cookie to the responder.
#[derive(Clone, Debug, PartialEq)]
pub struct CookieEcho {
    pub header: ChunkHeader,
    pub cookie: Cookie,
}

/// The mathematical model of a CookieEcho chunk.
#[verifier::ext_equal]
pub struct CookieEchoV {
    pub header: ChunkHeader,
    pub cookie: Seq<u8>,
}

impl View for CookieEcho {
    type V = CookieEchoV;

    open spec fn view(&self) -> CookieEchoV {
        CookieEchoV { header: self.header, cookie: self.cookie@ }
    }
}

pub open spec fn cookie_echo_wire(v: CookieEchoV) -> Seq<u8> {
    header_wire(v.header) + v.cookie
}

pub open spec fn wf_cookie_echo(v: CookieEchoV) -> bool {
    v.header.chunk_type == CHUNK_TYPE_COOKIE_ECHO && v.header.length == 4 + v.cookie.len()
}

impl CookieEcho {
    pub fn new(cookie: Cookie) -> (c: CookieEcho)
        requires
            4 + cookie@.len() <= u16::MAX,
        ensures
            c@ == (CookieEchoV {
                header: ChunkHeader {
                    chunk_type: CHUNK_TYPE_COOKIE_ECHO,
                    flags: 0,
                    length: (4 + cookie@.len()) as u16,
                },
                cookie: cookie@,
            }),
            wf_cookie_echo(c@),
    {
        let len = cookie.len() as u16;
        CookieEcho { header: ChunkHeader::new(CHUNK_TYPE_COOKIE_ECHO, 0, 4 + len), cookie }
    }
}

/// The CookieAck chunk: a bare header acknowledging the echo.
#[derive(Clone, Debug, PartialEq)]
pub struct CookieAck {
    pub header: ChunkHeader,
}

/// The mathematical model of a CookieAck chunk.
#[verifier::ext_equal]
pub struct CookieAckV {
    pub header: ChunkHeader,
}

impl View for CookieAck {
    type V = CookieAckV;

    open spec fn view(&self) -> CookieAckV {
        CookieAckV { header: self.header }
    }
}

pub open spec fn cookie_ack_wire(v: CookieAckV) -> Seq<u8> {
    header_wire(v.header)
}

pub open spec fn wf_cookie_ack(v: CookieAckV) -> bool {
    v.header.chunk_type == CHUNK_TYPE_COOKIE_ACK && v.header.length == 4
}

impl CookieAck {
    pub fn new() -> (c: CookieAck)
        ensures
            c@ == (CookieAckV {
                header: ChunkHeader { chunk_type: CHUNK_TYPE_COOKIE_ACK, flags: 0, length: 4u16 },
            }),
            wf_cookie_ack(c@),
    {
        CookieAck { header: ChunkHeader::new(CHUNK_TYPE_COOKIE_ACK, 0, 4) }
    }
}

/// The flag byte of a Data chunk: bit 1 marks the first fragment of a
/// message, bit 0 the last; an unfragmented message carries both.
pub open spec fn data_flags(begin: bool, end: bool) -> u8 {
    ((if begin {
        2int
    } else {
        0int
    }) + (if end {
        1int
    } else {
        0int
    })) as u8
}

/// The Data chunk: one fragment of user data, with its transmission
/// sequence number, stream identifiers and payload.
///
/// The stored payload is already padded with zero bytes to a four-byte
/// boundary; the declared length counts only the unpadded payload.
#[derive(Clone, Debug, PartialEq)]
pub struct Data {
    pub header: ChunkHeader,
    pub tsn: u32,
    pub stream_id: u16,
    pub stream_seq_no: u16,
    pub ppid: u32,
    pub data: Vec<u8>,
}

/// The mathematical model of a Data chunk.
#[verifier::ext_equal]
pub struct DataV {
    pub header: ChunkHeader,
    pub tsn: u32,
    pub stream_id: u16,
    pub stream_seq_no: u16,
    pub ppid: u32,
    pub data: Seq<u8>,
}

impl View for Data {
    type V = DataV;

    open spec fn view(&self) -> DataV {
        DataV {
            header: self.header,
            tsn: self.tsn,
            stream_id: self.stream_id,
            stream_seq_no: self.stream_seq_no,
            ppid: self.ppid,
            data: self.data@,
        }
    }
}

pub open spec fn data_wire(v: DataV) -> Seq<u8> {
    header_wire(v.header) + be32(v.tsn) + be16(v.stream_id) + be16(v.stream_seq_no) + be32(v.ppid)
        + v.data
}

/// The declared length covers the sixteen fixed bytes plus the
/// unpadded payload; the stored payload is that length padded up.
pub open spec fn wf_data(v: DataV) -> bool {
    &&& v.header.chunk_type == CHUNK_TYPE_DATA
    &&& v.header.length >= 16
    &&& v.data.len() == round4(v.header.length - 16)
}

impl Data {
    /// Builds a Data chunk from an unpadded payload: the payload is
    /// stored padded with zero bytes to a four-byte boundary, while
    /// the declared length counts only the unpadded bytes.
    pub fn new(
        tsn: u32,
        stream_id: u16,
        stream_seq_no: u16,
        ppid: u32,
        begin: bool,
        end: bool,
        payload: Vec<u8>,
    ) -> (c: Data)
        requires
            16 + payload@.len() <= u16::MAX,
        ensures
            c@.header == (ChunkHeader {
                chunk_type: CHUNK_TYPE_DATA,
                flags: data_flags(begin, end),
                length: (16 + payload@.len()) as u16,
            }),
            c@.tsn == tsn,
            c@.stream_id == stream_id,
            c@.stream_seq_no == stream_seq_no,
            c@.ppid == ppid,
            c@.data.len() == round4(payload@.len() as int),
            c@.data.subrange(0, payload@.len() as int) == payload@,
            forall|i: int| payload@.len() <= i < c@.data.len() ==> c@.data[i] == 0,
            wf_data(c@),
    {
        let plen: usize = payload.len();
        let flags: u8 = (if begin {
            2u8
        } else {
            0u8
        }) + (if end {
            1u8
        } else {
            0u8
        });
        let mut data = payload;
        let ghost pv = data@;
        let target = round_up4(plen);
        proof {
            crate::bytes::lemma_round4_bounds(plen as int);
            assert(data@.subrange(0, plen as int) =~= pv);
        }
        while data.len() < target
            invariant
                pv.len() == plen,
                plen <= data@.len() <= target,
                target == round4(plen as int),
                data@.subrange(0, plen as int) == pv,
                forall|i: int| plen <= i < data@.len() ==> data@[i] == 0,
            decreases target - data@.len(),
        {
            data.push(0u8);
            assert(data@.subrange(0, plen as int) =~= pv);
        }
        Data {
            header: ChunkHeader::new(CHUNK_TYPE_DATA, flags, 16 + plen as u16),
            tsn,
            stream_id,
            stream_seq_no,
            ppid,
            data,
        }
    }

    /// Whether this fragment opens a message.
    pub fn begin(&self) -> (r: bool)
        ensures
            r == (self@.header.flags & 2 != 0),
    {
        self.header.flags & 2 != 0
    }

    /// Whether this fragment closes a message.
    pub fn end(&self) -> (r: bool)
        ensures
            r == (self@.header.flags & 1 != 0),
    {
        self.header.flags & 1 != 0
    }
}

/// A chunk kind this codec carries opaquely: the SACK, Abort and
/// shutdown family, whose bodies are uninterpreted bytes, and the
/// Invalid marker for unrecognized type codes.
#[derive(Clone, Debug, PartialEq)]
pub struct RawChunk {
    pub header: ChunkHeader,
    pub value: Vec<u8>,
}

/// The mathematical model of an opaque chunk.
#[verifier::ext_equal]
pub struct RawChunkV {
    pub header: ChunkHeader,
    pub value: Seq<u8>,
}

impl View for RawChunk {
    type V = RawChunkV;

    open spec fn view(&self) -> RawChunkV {
        RawChunkV { header: self.header, value: self.value@ }
    }
}

pub open spec fn raw_chunk_wire(v: RawChunkV) -> Seq<u8> {
    header_wire(v.header) + v.value
}

pub open spec fn wf_raw_chunk(v: RawChunkV, chunk_type: u8) -> bool {
    v.header.chunk_type == chunk_type && v.header.length == 4 + v.value.len()
}

impl RawChunk {
    pub fn new(chunk_type: u8, flags: u8, value: Vec<u8>) -> (c: RawChunk)
        requires
            4 + value@.len() <= u16::MAX,
        ensures
            c@ == (RawChunkV {
                header: ChunkHeader { chunk_type, flags, length: (4 + value@.len()) as u16 },
                value: value@,
            }),
            wf_raw_chunk(c@, chunk_type),
    {
        let len = value.len() as u16;
        RawChunk { header: ChunkHeader::new(chunk_type, flags, 4 + len), value }
    }
}

/// The Abort chunk: tears the association down immediately, with an
/// optional block of error-cause bytes.
#[derive(Clone, Debug, PartialEq)]
pub struct Abort {
    pub header: ChunkHeader,
    pub value: Vec<u8>,
}

impl View for Abort {
    type V = RawChunkV;

    open spec fn view(&self) -> RawChunkV {
        RawChunkV { header: self.header, value: self.value@ }
    }
}

impl Abort {
    /// Builds an Abort chunk; the error-cause bytes are carried
    /// opaquely and may be absent.
    pub fn new(error_info: Option<Vec<u8>>) -> (c: Abort)
        requires
            match error_info {
                Some(v) => 4 + v@.len() <= u16::MAX,
                None => true,
            },
        ensures
            c@ == (RawChunkV {
                header: ChunkHeader {
                    chunk_type: CHUNK_TYPE_ABORT,
                    flags: 0,
                    length: (4 + (match error_info {
                        Some(v) => v@.len(),
                        None => 0,
                    })) as u16,
                },
                value: match error_info {
                    Some(v) => v@,
                    None => Seq::empty(),
                },
            }),
            wf_raw_chunk(c@, CHUNK_TYPE_ABORT),
    {
        let value = match error_info {
            Some(v) => v,
            None => Vec::new(),
        };
        let len = value.len() as u16;
        let c = Abort { header: ChunkHeader::new(CHUNK_TYPE_ABORT, 0, 4 + len), value };
        proof {
            assert(c@.value =~= (match error_info {
                Some(v) => v@,
                None => Seq::<u8>::empty(),
            }));
        }
        c
    }
}

/// The closed union of chunk kinds a packet can carry.
#[derive(Clone, Debug, PartialEq)]
pub enum AnyChunk {
    Data(Data),
    Init(Init),
    InitAck(InitAck),
    Sack(RawChunk),
    Abort(Abort),
    Shutdown(RawChunk),
    ShutdownAck(RawChunk),
    CookieEcho(CookieEcho),
    CookieAck(CookieAck),
    ShutdownComplete(RawChunk),
    Invalid(RawChunk),
}

/// The mathematical model of a chunk.
#[verifier::ext_equal]
pub enum AnyChunkV {
    Data(DataV),
    Init(InitV),
    InitAck(InitAckV),
    Sack(RawChunkV),
    Abort(RawChunkV),
    Shutdown(RawChunkV),
    ShutdownAck(RawChunkV),
    CookieEcho(CookieEchoV),
    CookieAck(CookieAckV),
    ShutdownComplete(RawChunkV),
    Invalid(RawChunkV),
}

impl View for AnyChunk {
    type V = AnyChunkV;

    open spec fn view(&self) -> AnyChunkV {
        match self {
            AnyChunk::Data(c) => AnyChunkV::Data(c@),
            AnyChunk::Init(c) => AnyChunkV::Init(c@),
            AnyChunk::InitAck(c) => AnyChunkV::InitAck(c@),
            AnyChunk::Sack(c) => AnyChunkV::Sack(c@),
            AnyChunk::Abort(c) => AnyChunkV::Abort(c@),
            AnyChunk::Shutdown(c) => AnyChunkV::Shutdown(c@),
            AnyChunk::ShutdownAck(c) => AnyChunkV::ShutdownAck(c@),
            AnyChunk::CookieEcho(c) => AnyChunkV::CookieEcho(c@),
            AnyChunk::CookieAck(c) => AnyChunkV::CookieAck(c@),
            AnyChunk::ShutdownComplete(c) => AnyChunkV::ShutdownComplete(c@),
            AnyChunk::Invalid(c) => AnyChunkV::Invalid(c@),
        }
    }
}

impl DeepView for AnyChunk {
    type V = AnyChunkV;

    open spec fn deep_view(&self) -> AnyChunkV {
        self@
    }
}

/// The common header of any chunk.
pub open spec fn chunk_header_of(c: AnyChunkV) -> ChunkHeader {
    match c {
        AnyChunkV::Data(v) => v.header,
        AnyChunkV::Init(v) => v.header,
        AnyChunkV::InitAck(v) => v.header,
        AnyChunkV::Sack(v) => v.header,
        AnyChunkV::Abort(v) => v.header,
        AnyChunkV::Shutdown(v) => v.header,
        AnyChunkV::ShutdownAck(v) => v.header,
        AnyChunkV::CookieEcho(v) => v.header,
        AnyChunkV::CookieAck(v) => v.header,
        AnyChunkV::ShutdownComplete(v) => v.header,
        AnyChunkV::Invalid(v) => v.header,
    }
}

/// The wire form of any chunk.
pub open spec fn chunk_wire(c: AnyChunkV) -> Seq<u8> {
    match c {
        AnyChunkV::Data(v) => data_wire(v),
        AnyChunkV::Init(v) => init_wire(v),
        AnyChunkV::InitAck(v) => init_ack_wire(v),
        AnyChunkV::Sack(v) => raw_chunk_wire(v),
        AnyChunkV::Abort(v) => raw_chunk_wire(v),
        AnyChunkV::Shutdown(v) => raw_chunk_wire(v),
        AnyChunkV::ShutdownAck(v) => raw_chunk_wire(v),
        AnyChunkV::CookieEcho(v) => cookie_echo_wire(v),
        AnyChunkV::CookieAck(v) => cookie_ack_wire(v),
        AnyChunkV::ShutdownComplete(v) => raw_chunk_wire(v),
        AnyChunkV::Invalid(v) => raw_chunk_wire(v),
    }
}

/// Well-formedness of any chunk: the type code matches the variant
/// and the declared length matches the content.
pub open spec fn wf_chunk(c: AnyChunkV) -> bool {
    match c {
        AnyChunkV::Data(v) => wf_data(v),
        AnyChunkV::Init(v) => wf_init(v),
        AnyChunkV::InitAck(v) => wf_init_ack(v),
        AnyChunkV::Sack(v) => wf_raw_chunk(v, CHUNK_TYPE_SACK),
        AnyChunkV::Abort(v) => wf_raw_chunk(v, CHUNK_TYPE_ABORT),
        AnyChunkV::Shutdown(v) => wf_raw_chunk(v, CHUNK_TYPE_SHUTDOWN),
        AnyChunkV::ShutdownAck(v) => wf_raw_chunk(v, CHUNK_TYPE_SHUTDOWN_ACK),
        AnyChunkV::CookieEcho(v) => wf_cookie_echo(v),
        AnyChunkV::CookieAck(v) => wf_cookie_ack(v),
        AnyChunkV::ShutdownComplete(v) => wf_raw_chunk(v, CHUNK_TYPE_SHUTDOWN_COMPLETE),
        AnyChunkV::Invalid(v) => !known_chunk_type(v.header.chunk_type) && v.header.length == 4
            + v.value.len(),
    }
}

/// A unit within a packet, encodable to its wire form.
pub trait Chunk {
    /// The chunk's mathematical wire form.
    spec fn wire(&self) -> Seq<u8>;

    /// Whether the chunk's declared length matches its content.
    spec fn wf(&self) -> bool;

    /// Encodes the chunk.
    fn get_bytes(&self) -> (r: Vec<u8>)
        requires
            self.wf(),
        ensures
            r@ == self.wire(),
    ;
}

impl Chunk for Init {
    open spec fn wire(&self) -> Seq<u8> {
        init_wire(self@)
    }

    open spec fn wf(&self) -> bool {
        wf_init(self@)
    }

    fn get_bytes(&self) -> (r: Vec<u8>) {
        let mut out: Vec<u8> = Vec::new();
        push_header(&mut out, &self.header);
        push_be32(&mut out, self.init_tag);
        push_be32(&mut out, self.a_rwnd);
        push_be16(&mut out, self.num_ob_streams);
        push_be16(&mut out, self.num_ib_streams);
        push_be32(&mut out, self.init_tsn);
        match &self.optional_params {
            Some(params) => encode_params(&mut out, params),
            None => {},
        }
        assert(out@ =~= init_wire(self@));
        out
    }
}

impl Chunk for InitAck {
    open spec fn wire(&self) -> Seq<u8> {
        init_ack_wire(self@)
    }

    open spec fn wf(&self) -> bool {
        wf_init_ack(self@)
    }

    fn get_bytes(&self) -> (r: Vec<u8>) {
        let mut out: Vec<u8> = Vec::new();
        push_header(&mut out, &self.header);
        push_be32(&mut out, self.init_tag);
        push_be32(&mut out, self.a_rwnd);
        push_be16(&mut out, self.num_ob_streams);
        push_be16(&mut out, self.num_ib_streams);
        push_be32(&mut out, self.init_tsn);
        match &self.optional_params {
            Some(params) => encode_params(&mut out, params),
            None => {},
        }
        assert(out@ =~= init_ack_wire(self@));
        out
    }
}

impl Chunk for CookieEcho {
    open spec fn wire(&self) -> Seq<u8> {
        cookie_echo_wire(self@)
    }

    open spec fn wf(&self) -> bool {
        wf_cookie_echo(self@)
    }

    fn get_bytes(&self) -> (r: Vec<u8>) {
        let mut out: Vec<u8> = Vec::new();
        push_header(&mut out, &self.header);
        let cookie_bytes = self.cookie.to_bytes();
        push_bytes(&mut out, &cookie_bytes);
        assert(out@ =~= cookie_echo_wire(self@));
        out
    }
}

impl Chunk for CookieAck {
    open spec fn wire(&self) -> Seq<u8> {
        cookie_ack_wire(self@)
    }

    open spec fn wf(&self) -> bool {
        wf_cookie_ack(self@)
    }

    fn get_bytes(&self) -> (r: Vec<u8>) {
        let mut out: Vec<u8> = Vec::new();
        push_header(&mut out, &self.header);
        assert(out@ =~= cookie_ack_wire(self@));
        out
    }
}

impl Chunk for Data {
    open spec fn wire(&self) -> Seq<u8> {
        data_wire(self@)
    }

    open spec fn wf(&self) -> bool {
        wf_data(self@)
    }

    fn get_bytes(&self) -> (r: Vec<u8>) {
        let mut out: Vec<u8> = Vec::new();
        push_header(&mut out, &self.header);
        push_be32(&mut out, self.tsn);
        push_be16(&mut out, self.stream_id);
        push_be16(&mut out, self.stream_seq_no);
        push_be32(&mut out, self.ppid);
        push_bytes(&mut out, &self.data);
        assert(out@ =~= data_wire(self@));
        out
    }
}

impl Chunk for RawChunk {
    open spec fn wire(&self) -> Seq<u8> {
        raw_chunk_wire(self@)
    }

    open spec fn wf(&self) -> bool {
        self@.header.length == 4 + self@.value.len()
    }

    fn get_bytes(&self) -> (r: Vec<u8>) {
        let mut out: Vec<u8> = Vec::new();
        push_header(&mut out, &self.header);
        push_bytes(&mut out, &self.value);
        assert(out@ =~= raw_chunk_wire(self@));
        out
    }
}

impl Chunk for Abort {
    open spec fn wire(&self) -> Seq<u8> {
        raw_chunk_wire(self@)
    }

    open spec fn wf(&self) -> bool {
        wf_raw_chunk(self@, CHUNK_TYPE_ABORT)
    }

    fn get_bytes(&self) -> (r: Vec<u8>) {
        let mut out: Vec<u8> = Vec::new();
        push_header(&mut out, &self.header);
        push_bytes(&mut out, &self.value);
        assert(out@ =~= raw_chunk_wire(self@));
        out
    }
}

impl Chunk for AnyChunk {
    open spec fn wire(&self) -> Seq<u8> {
        chunk_wire(self@)
    }

    open spec fn wf(&self) -> bool {
        wf_chunk(self@)
    }

    fn get_bytes(&self) -> (r: Vec<u8>) {
        match self {
            AnyChunk::Data(c) => c.get_bytes(),
            AnyChunk::Init(c) => c.get_bytes(),
            AnyChunk::InitAck(c) => c.get_bytes(),
            AnyChunk::Sack(c) => c.get_bytes(),
            AnyChunk::Abort(c) => c.get_bytes(),
            AnyChunk::Shutdown(c) => c.get_bytes(),
            AnyChunk::ShutdownAck(c) => c.get_bytes(),
            AnyChunk::CookieEcho(c) => c.get_bytes(),
            AnyChunk::CookieAck(c) => c.get_bytes(),
            AnyChunk::ShutdownComplete(c) => c.get_bytes(),
            AnyChunk::Invalid(c) => c.get_bytes(),
        }
    }
}

} // verus!
