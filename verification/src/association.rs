//! The association: one end of a connection. A pure state machine —
//! every function here maps the current state and an event (a chunk
//! received, a timeout, a user send) to the next state and the
//! packets to put on the wire; the caller performs the socket I/O
//! and the timed waits between steps.

use crate::chunk::{
    data_flags, AnyChunk, AnyChunkV, CookieAck, CookieEcho, Data, Init, InitAck, ParamType,
    Parameter, CHUNK_TYPE_ABORT,
};
use crate::cookie::Cookie;
use crate::error::SCTPError;
use crate::packet::{wf_packet, Packet, PacketV};
use std::collections::VecDeque;
use vstd::prelude::*;

verus! {

/// The initial retransmission timeout, in milliseconds.
pub const RTO_INITIAL_MS: u64 = 3000;

/// The floor the retransmission timeout never goes below.
pub const RTO_MIN_MS: u64 = 1000;

/// The ceiling exponential backoff is clamped to.
pub const RTO_MAX_MS: u64 = 60000;

/// How many times a CookieEcho is retried before the handshake fails.
pub const ASSOCIATION_MAX_RETRANS: u8 = 10;

/// How many times an Init is retried before the handshake fails.
pub const MAX_INIT_RETRANSMITS: u8 = 8;

/// The receive window this end advertises in its Init.
pub const DEFAULT_A_RWND: u32 = 10000;

/// The initial slow-start threshold, in bytes.
pub const INITIAL_SSTHRESH: u32 = 10000;

/// The largest payload one Data chunk can carry: its sixteen fixed
/// bytes and the payload must fit the 16-bit declared length.
pub const MAX_MTU: u32 = 65519;

/// The handshake and teardown states. An initiator walks Idle,
/// InitSent, CookieEchoed, Established; a responder walks Idle,
/// InitReceived, Established. Teardown ends in Closed (graceful)
/// or Aborted (immediate, reachable from anywhere).
#[derive(Clone, Copy, Debug, PartialEq, Eq, Structural)]
pub enum AssocState {
    Idle,
    InitSent,
    CookieEchoed,
    InitReceived,
    Established,
    ShuttingDown,
    Closed,
    Aborted,
}

/// The initial congestion window for a path with this MTU:
/// `min(4*MTU, max(2*MTU, 4380))` bytes.
pub open spec fn spec_initial_cwnd(mtu: u32) -> u32 {
    let four = 4 * mtu as int;
    let two = 2 * mtu as int;
    let lower = if two >= 4380 {
        two
    } else {
        4380int
    };
    if four <= lower {
        four as u32
    } else {
        lower as u32
    }
}

/// Computes `min(4*MTU, max(2*MTU, 4380))`.
pub fn initial_cwnd(mtu: u32) -> (r: u32)
    requires
        mtu <= MAX_MTU,
    ensures
        r == spec_initial_cwnd(mtu),
{
    let four: u32 = 4 * mtu;
    let two: u32 = 2 * mtu;
    let lower: u32 = if two >= 4380 {
        two
    } else {
        4380
    };
    if four <= lower {
        four
    } else {
        lower
    }
}

/// One 32-bit sequence number `k` steps past `x`, wrapping.
pub open spec fn wrap_add32(x: u32, k: int) -> u32 {
    ((x + k) % 0x1_0000_0000int) as u32
}

/// The successor of a 16-bit counter, wrapping at 65536.
pub open spec fn wrap_inc16(x: u16) -> u16 {
    ((x + 1) % 0x10000int) as u16
}

/// The first state-cookie parameter's value, if any.
pub open spec fn find_state_cookie(ps: Seq<crate::chunk::ParameterV>) -> Option<Seq<u8>>
    decreases ps.len(),
{
    if ps.len() == 0 {
        None
    } else if ps[0].param_type == ParamType::StateCookie {
        Some(ps[0].value)
    } else {
        find_state_cookie(ps.skip(1))
    }
}

/// The state cookie an InitAck carries, if any.
pub open spec fn cookie_of_init_ack(v: crate::chunk::InitAckV) -> Option<Seq<u8>> {
    match v.optional_params {
        None => None,
        Some(ps) => find_state_cookie(ps),
    }
}

/// An SCTP association's protocol state: handshake progress, sequence
/// counters, windows and timers. The socket itself lives with the
/// caller; ports stand in for the addresses here.
#[derive(Debug)]
pub struct Association {
    pub state: AssocState,
    pub local_port: u16,
    pub remote_port: Option<u16>,
    /// Packets queued for transmission, drained by a graceful
    /// termination and discarded by an abort.
    pub msg_queue: VecDeque<Packet>,
    /// The verification tag this end sent in its Init.
    pub init_tag: u32,
    pub stream_id: u16,
    pub stream_seq_no: u16,
    pub max_retries: u8,
    pub max_init_retries: u8,
    pub init_retries: u8,
    pub echo_retries: u8,
    /// The retransmission timeout, in milliseconds.
    pub rto: u64,
    /// The sequence number the next Data chunk will carry.
    pub tsn: u32,
    pub largest_tsn: u32,
    /// What remains of the peer's advertised receive window.
    pub remote_rwnd: u32,
    /// The path MTU, unknown until discovered or configured.
    pub mtu: Option<u32>,
    pub cwnd: u32,
    pub ssthresh: u32,
    /// The cookie issued with this end's InitAck, kept to validate
    /// the echo; only a responder holds one.
    pub cookie: Option<Cookie>,
}

/// A message split into MTU-sized fragments, in order: every fragment
/// but the last is exactly one MTU, the last carries the remainder,
/// and a message that fits one MTU is a single fragment.
pub open spec fn fragments_of(data: Seq<u8>, mtu: int) -> Seq<Seq<u8>>
    recommends
        mtu >= 1,
    decreases data.len(),
    when mtu >= 1
{
    if data.len() <= mtu {
        seq![data]
    } else {
        seq![data.subrange(0, mtu)] + fragments_of(data.skip(mtu), mtu)
    }
}

/// The window that gates a send: the smaller of the congestion window
/// and the remaining remote receive window.
pub open spec fn spec_window(cwnd: u32, remote_rwnd: u32) -> int {
    if cwnd <= remote_rwnd {
        cwnd as int
    } else {
        remote_rwnd as int
    }
}

/// What one emitted Data packet must look like: the right ports, a
/// single Data chunk with this fragment as its unpadded payload, the
/// fragment's sequence number, and begin/end flags for its position.
pub open spec fn data_packet_ok(
    p: PacketV,
    src: u16,
    dst: u16,
    sid: u16,
    ssn: u16,
    frag: Seq<u8>,
    begin: bool,
    end: bool,
    tsn: u32,
) -> bool {
    &&& p.header.src_port == src
    &&& p.header.dst_port == dst
    &&& p.chunks.len() == 1
    &&& match p.chunks[0] {
        AnyChunkV::Data(d) => {
            &&& d.header.chunk_type == crate::chunk::CHUNK_TYPE_DATA
            &&& d.header.flags == data_flags(begin, end)
            &&& d.header.length == 16 + frag.len()
            &&& d.tsn == tsn
            &&& d.stream_id == sid
            &&& d.stream_seq_no == ssn
            &&& d.ppid == 0
            &&& d.data.len() == crate::bytes::round4(frag.len() as int)
            &&& d.data.subrange(0, frag.len() as int) == frag
            &&& (forall|k: int| frag.len() <= k < d.data.len() ==> d.data[k] == 0)
            &&& crate::chunk::wf_data(d)
        },
        _ => false,
    }
    &&& wf_packet(p)
}

/// Sequence numbers continue across sends without a gap: chunk `i` of
/// a send that begins where a previous send of `n` chunks ended
/// carries the number `n + i` past the original — each transmitted
/// Data chunk gets the next number, one per chunk, never one per call.
pub proof fn lemma_tsn_continues(base: u32, n: int, i: int)
    requires
        0 <= n,
        0 <= i,
    ensures
        wrap_add32(wrap_add32(base, n), i) == wrap_add32(base, n + i),
{
    let m = 0x1_0000_0000int;
    let a = (base + n) % m;
    vstd::arithmetic::div_mod::lemma_add_mod_noop_right(a, i, m);
    vstd::arithmetic::div_mod::lemma_add_mod_noop(base + n, i, m);
    vstd::arithmetic::div_mod::lemma_mod_twice(base + n, m);
}

/// Stepping a wrapped 32-bit counter once more wraps as expected.
proof fn lemma_wrap_step(b: u32, j: int)
    requires
        0 <= j,
    ensures
        wrap_add32(b, j + 1) == (if wrap_add32(b, j) == 0xFFFF_FFFFu32 {
            0u32
        } else {
            (wrap_add32(b, j) + 1) as u32
        }),
{
    let m = 0x1_0000_0000int;
    vstd::arithmetic::div_mod::lemma_add_mod_noop(b + j, 1, m);
    assert((b + j + 1) % m == ((b + j) % m + 1int % m) % m);
}

/// What one received chunk does to the association: a Data chunk
/// raises the largest sequence number seen, an Abort ends the
/// association at once, a Shutdown opens the teardown and a
/// ShutdownComplete closes it; the other kinds — acknowledgment
/// processing among them — are extension points, ignored here.
pub open spec fn spec_handle_chunk(a: Association, c: AnyChunkV) -> Association {
    match c {
        AnyChunkV::Data(d) => Association {
            largest_tsn: if d.tsn > a.largest_tsn {
                d.tsn
            } else {
                a.largest_tsn
            },
            ..a
        },
        AnyChunkV::Abort(_) => Association { state: AssocState::Aborted, ..a },
        AnyChunkV::Shutdown(_) => Association { state: AssocState::ShuttingDown, ..a },
        AnyChunkV::ShutdownComplete(_) => Association { state: AssocState::Closed, ..a },
        _ => a,
    }
}

/// A received packet's chunks dispatched in order.
pub open spec fn spec_handle_chunks(a: Association, cs: Seq<AnyChunkV>) -> Association
    decreases cs.len(),
{
    if cs.len() == 0 {
        a
    } else {
        spec_handle_chunks(spec_handle_chunk(a, cs[0]), cs.skip(1))
    }
}

impl Association {
    /// The timer stays within its bounds and a configured MTU can
    /// carry at least one payload byte per chunk.
    pub open spec fn wf(&self) -> bool {
        &&& RTO_MIN_MS <= self.rto <= RTO_MAX_MS
        &&& match self.mtu {
            Some(m) => 1 <= m <= MAX_MTU,
            None => true,
        }
    }

    /// An initiator bound to both ports, its congestion state seeded
    /// from the discovered MTU.
    pub fn new_sender(local_port: u16, remote_port: u16, mtu: u32) -> (a: Association)
        requires
            1 <= mtu <= MAX_MTU,
        ensures
            a.state == AssocState::Idle,
            a.local_port == local_port,
            a.remote_port == Some(remote_port),
            a.msg_queue@.len() == 0,
            a.init_tag == 0,
            a.stream_id == 0,
            a.stream_seq_no == 0,
            a.max_retries == ASSOCIATION_MAX_RETRANS,
            a.max_init_retries == MAX_INIT_RETRANSMITS,
            a.init_retries == 0,
            a.echo_retries == 0,
            a.rto == RTO_INITIAL_MS,
            a.tsn == 0,
            a.largest_tsn == 0,
            a.remote_rwnd == 0,
            a.mtu == Some(mtu),
            a.cwnd == spec_initial_cwnd(mtu),
            a.ssthresh == INITIAL_SSTHRESH,
            a.cookie is None,
            a.wf(),
    {
        Association {
            state: AssocState::Idle,
            local_port,
            remote_port: Some(remote_port),
            msg_queue: VecDeque::new(),
            init_tag: 0,
            stream_id: 0,
            stream_seq_no: 0,
            max_retries: ASSOCIATION_MAX_RETRANS,
            max_init_retries: MAX_INIT_RETRANSMITS,
            init_retries: 0,
            echo_retries: 0,
            rto: RTO_INITIAL_MS,
            tsn: 0,
            largest_tsn: 0,
            remote_rwnd: 0,
            mtu: Some(mtu),
            cwnd: initial_cwnd(mtu),
            ssthresh: INITIAL_SSTHRESH,
            cookie: None,
        }
    }

    /// A responder bound to its local port; the peer and the path MTU
    /// are unknown until the first datagram arrives.
    pub fn new_recvr(local_port: u16) -> (a: Association)
        ensures
            a.state == AssocState::Idle,
            a.local_port == local_port,
            a.remote_port is None,
            a.msg_queue@.len() == 0,
            a.init_tag == 0,
            a.stream_id == 0,
            a.stream_seq_no == 0,
            a.max_retries == ASSOCIATION_MAX_RETRANS,
            a.max_init_retries == MAX_INIT_RETRANSMITS,
            a.init_retries == 0,
            a.echo_retries == 0,
            a.rto == RTO_INITIAL_MS,
            a.tsn == 0,
            a.largest_tsn == 0,
            a.remote_rwnd == 0,
            a.mtu is None,
            a.cwnd == 0,
            a.ssthresh == INITIAL_SSTHRESH,
            a.cookie is None,
            a.wf(),
    {
        Association {
            state: AssocState::Idle,
            local_port,
            remote_port: None,
            msg_queue: VecDeque::new(),
            init_tag: 0,
            stream_id: 0,
            stream_seq_no: 0,
            max_retries: ASSOCIATION_MAX_RETRANS,
            max_init_retries: MAX_INIT_RETRANSMITS,
            init_retries: 0,
            echo_retries: 0,
            rto: RTO_INITIAL_MS,
            tsn: 0,
            largest_tsn: 0,
            remote_rwnd: 0,
            mtu: None,
            cwnd: 0,
            ssthresh: INITIAL_SSTHRESH,
            cookie: None,
        }
    }

    /// Sets the path MTU once discovered, seeding the congestion
    /// window from it.
    pub fn configure_mtu(&mut self, mtu: u32)
        requires
            1 <= mtu <= MAX_MTU,
        ensures
            *final(self) == (Association {
                mtu: Some(mtu),
                cwnd: spec_initial_cwnd(mtu),
                ..*old(self)
            }),
    {
        self.mtu = Some(mtu);
        self.cwnd = initial_cwnd(mtu);
    }

    /// Records a timed-out wait for an InitAck: the Init may be
    /// resent until the retry budget is spent, after which the
    /// handshake fails rather than silently proceeding.
    pub fn on_init_timeout(&mut self) -> (r: Result<(), SCTPError>)
        requires
            old(self).state == AssocState::InitSent,
        ensures
            old(self).init_retries < old(self).max_init_retries ==> r is Ok && *final(self) == (
            Association { init_retries: (old(self).init_retries + 1) as u8, ..*old(self) }),
            old(self).init_retries >= old(self).max_init_retries ==> r
                == Err::<(), SCTPError>(SCTPError::HandshakeFailedError) && *final(self) == *old(
                self,
            ),
    {
        if self.init_retries < self.max_init_retries {
            self.init_retries = self.init_retries + 1;
            Ok(())
        } else {
            Err(SCTPError::HandshakeFailedError)
        }
    }

    /// Records a timed-out wait for a CookieAck, with its own retry
    /// budget; exhausting it surfaces a handshake failure.
    pub fn on_cookie_echo_timeout(&mut self) -> (r: Result<(), SCTPError>)
        requires
            old(self).state == AssocState::CookieEchoed,
        ensures
            old(self).echo_retries < old(self).max_retries ==> r is Ok && *final(self) == (
            Association { echo_retries: (old(self).echo_retries + 1) as u8, ..*old(self) }),
            old(self).echo_retries >= old(self).max_retries ==> r
                == Err::<(), SCTPError>(SCTPError::HandshakeFailedError) && *final(self) == *old(
                self,
            ),
    {
        if self.echo_retries < self.max_retries {
            self.echo_retries = self.echo_retries + 1;
            Ok(())
        } else {
            Err(SCTPError::HandshakeFailedError)
        }
    }

    /// A CookieAck completes the initiator's handshake.
    pub fn on_cookie_ack(&mut self)
        requires
            old(self).state == AssocState::CookieEchoed,
        ensures
            *final(self) == (Association { state: AssocState::Established, ..*old(self) }),
    {
        self.state = AssocState::Established;
    }

    /// The retransmission timer expired while waiting for an
    /// acknowledgment: halve into slow start and back the timer off.
    /// The threshold becomes `max(cwnd/2, 4*MTU)`, the window one MTU,
    /// and the timeout doubles, clamped to its ceiling.
    pub fn on_rto_expired(&mut self)
        requires
            old(self).mtu is Some,
            old(self).wf(),
        ensures
            *final(self) == (Association {
                ssthresh: if old(self).cwnd / 2 >= 4 * old(self).mtu->Some_0 {
                    old(self).cwnd / 2
                } else {
                    (4 * old(self).mtu->Some_0) as u32
                },
                cwnd: old(self).mtu->Some_0,
                rto: if 2 * old(self).rto <= RTO_MAX_MS {
                    (2 * old(self).rto) as u64
                } else {
                    RTO_MAX_MS
                },
                ..*old(self)
            }),
            final(self).wf(),
    {
        let m: u32 = match self.mtu {
            Some(m) => m,
            None => {
                proof {
                    assert(false);
                }
                0
            },
        };
        let half: u32 = self.cwnd / 2;
        let floor: u32 = 4 * m;
        self.ssthresh = if half >= floor {
            half
        } else {
            floor
        };
        self.cwnd = m;
        let doubled: u64 = 2 * self.rto;
        self.rto = if doubled <= RTO_MAX_MS {
            doubled
        } else {
            RTO_MAX_MS
        };
    }

    /// Graceful termination: hands back every queued packet, in
    /// order, so the caller can transmit them before closing. No
    /// queued user data is lost on a clean shutdown.
    pub fn terminate(&mut self) -> (r: Vec<Packet>)
        ensures
            r.deep_view() == old(self).msg_queue.deep_view(),
            *final(self) == (Association {
                state: AssocState::Closed,
                msg_queue: final(self).msg_queue,
                ..*old(self)
            }),
            final(self).msg_queue@.len() == 0,
    {
        let mut out: Vec<Packet> = Vec::new();
        let ghost q0 = self.msg_queue@;
        proof {
            assert(out@ + self.msg_queue@ =~= q0);
        }
        loop
            invariant
                out@ + self.msg_queue@ == q0,
                *self == (Association { msg_queue: self.msg_queue, ..*old(self) }),
            ensures
                self.msg_queue@.len() == 0,
                out@ == q0,
                *self == (Association { msg_queue: self.msg_queue, ..*old(self) }),
            decreases self.msg_queue@.len(),
        {
            let ghost before_out = out@;
            match self.msg_queue.pop_front() {
                Some(p) => {
                    out.push(p);
                    proof {
                        assert(out@ + self.msg_queue@ =~= q0);
                    }
                },
                None => {
                    proof {
                        assert(out@ =~= q0);
                    }
                    break ;
                },
            }
        }
        self.state = AssocState::Closed;
        proof {
            assert(out.deep_view() =~= old(self).msg_queue.deep_view());
        }
        out
    }

    /// Immediate termination: discards the queue — nothing more is
    /// delivered — and builds the Abort packet to send to the peer.
    pub fn abort(&mut self) -> (r: Packet)
        requires
            old(self).remote_port is Some,
        ensures
            *final(self) == (Association {
                state: AssocState::Aborted,
                msg_queue: final(self).msg_queue,
                ..*old(self)
            }),
            final(self).msg_queue@.len() == 0,
            r@.header.src_port == old(self).local_port,
            r@.header.dst_port == old(self).remote_port->Some_0,
            r@.chunks.len() == 1,
            r@.chunks[0] == AnyChunkV::Abort(
                crate::chunk::RawChunkV {
                    header: crate::chunk::ChunkHeader {
                        chunk_type: CHUNK_TYPE_ABORT,
                        flags: 0,
                        length: 4,
                    },
                    value: Seq::empty(),
                },
            ),
            wf_packet(r@),
    {
        self.msg_queue.clear();
        self.state = AssocState::Aborted;
        let remote = match self.remote_port {
            Some(p) => p,
            None => {
                proof {
                    assert(false);
                }
                0
            },
        };
        let mut packet = Packet::new(self.local_port, remote);
        packet.add_chunk(AnyChunk::Abort(crate::chunk::Abort::new(None)));
        packet
    }

    /// Builds the Init packet that opens the handshake, carrying the
    /// given verification tag, this end's advertised window and one
    /// stream each way. A retry resends the same packet unchanged.
    pub fn make_init(&mut self, ver_tag: u32) -> (p: Packet)
        requires
            old(self).state == AssocState::Idle || old(self).state == AssocState::InitSent,
            old(self).remote_port is Some,
        ensures
            *final(self) == (Association {
                state: AssocState::InitSent,
                init_tag: ver_tag,
                ..*old(self)
            }),
            p@.header.src_port == old(self).local_port,
            p@.header.dst_port == old(self).remote_port->Some_0,
            p@.chunks == seq![
                AnyChunkV::Init(
                    crate::chunk::InitV {
                        header: crate::chunk::ChunkHeader {
                            chunk_type: crate::chunk::CHUNK_TYPE_INIT,
                            flags: 0,
                            length: 20,
                        },
                        init_tag: ver_tag,
                        a_rwnd: DEFAULT_A_RWND,
                        num_ob_streams: 1,
                        num_ib_streams: 1,
                        init_tsn: ver_tag,
                        optional_params: None,
                    },
                ),
            ],
            wf_packet(p@),
    {
        self.state = AssocState::InitSent;
        self.init_tag = ver_tag;
        let remote = match self.remote_port {
            Some(p) => p,
            None => {
                proof {
                    assert(false);
                }
                0
            },
        };
        let init = Init::new(ver_tag, DEFAULT_A_RWND, 1, 1, None);
        let mut packet = Packet::new(self.local_port, remote);
        packet.add_chunk(AnyChunk::Init(init));
        proof {
            assert(packet@.chunks =~= seq![
                AnyChunkV::Init(
                    crate::chunk::InitV {
                        header: crate::chunk::ChunkHeader {
                            chunk_type: crate::chunk::CHUNK_TYPE_INIT,
                            flags: 0,
                            length: 20,
                        },
                        init_tag: ver_tag,
                        a_rwnd: DEFAULT_A_RWND,
                        num_ob_streams: 1,
                        num_ib_streams: 1,
                        init_tsn: ver_tag,
                        optional_params: None,
                    },
                ),
            ]);
        }
        packet
    }

    /// Answers a received InitAck: extracts the state cookie and
    /// builds the CookieEcho that returns it. The peer's advertised
    /// window becomes the remote receive window. An InitAck without a
    /// state cookie fails the handshake step; one whose cookie cannot
    /// fit a CookieEcho chunk is rejected as malformed.
    pub fn on_init_ack(&mut self, ack: &InitAck) -> (r: Result<Packet, SCTPError>)
        requires
            old(self).state == AssocState::InitSent,
            old(self).remote_port is Some,
        ensures
            match r {
                Ok(p) => {
                    &&& cookie_of_init_ack(ack@) matches Some(cv) && cv.len() + 4 <= u16::MAX && {
                        &&& *final(self) == (Association {
                            state: AssocState::CookieEchoed,
                            remote_rwnd: ack.a_rwnd,
                            ..*old(self)
                        })
                        &&& p@.header.src_port == old(self).local_port
                        &&& p@.header.dst_port == old(self).remote_port->Some_0
                        &&& p@.chunks == seq![
                            AnyChunkV::CookieEcho(
                                crate::chunk::CookieEchoV {
                                    header: crate::chunk::ChunkHeader {
                                        chunk_type: crate::chunk::CHUNK_TYPE_COOKIE_ECHO,
                                        flags: 0,
                                        length: (4 + cv.len()) as u16,
                                    },
                                    cookie: cv,
                                },
                            ),
                        ]
                        &&& wf_packet(p@)
                    }
                },
                Err(e) => {
                    &&& *final(self) == *old(self)
                    &&& (e == SCTPError::NoCookieError || e == SCTPError::InvalidSCTPPacket)
                    &&& (e == SCTPError::NoCookieError <==> cookie_of_init_ack(ack@) is None)
                    &&& (e == SCTPError::InvalidSCTPPacket <==> (cookie_of_init_ack(ack@) matches
                    Some(cv) && cv.len() + 4 > u16::MAX))
                },
            },
    {
        let remote = match self.remote_port {
            Some(p) => p,
            None => {
                proof {
                    assert(false);
                }
                0
            },
        };
        match &ack.optional_params {
            None => Err(SCTPError::NoCookieError),
            Some(ps) => {
                let ghost psv = ps.deep_view();
                proof {
                    assert(psv.skip(0) =~= psv);
                    assert(ack@.optional_params == Some(psv));
                }
                let n: usize = ps.len();
                let mut i: usize = 0;
                while i < n
                    invariant
                        i <= n,
                        n == ps@.len(),
                        psv == ps.deep_view(),
                        ack@.optional_params == Some(psv),
                        cookie_of_init_ack(ack@) == find_state_cookie(psv),
                        find_state_cookie(psv) == find_state_cookie(psv.skip(i as int)),
                        *self == *old(self),
                        self.local_port == old(self).local_port,
                        self.remote_port == old(self).remote_port,
                        remote == old(self).remote_port->Some_0,
                        forall|j: int|
                            0 <= j < i ==> (#[trigger] psv[j]).param_type
                                != ParamType::StateCookie,
                    decreases n - i,
                {
                    proof {
                        assert(psv.skip(i as int)[0] == psv[i as int]);
                        assert(psv.skip(i as int).skip(1) =~= psv.skip(i as int + 1));
                        assert(psv[i as int] == ps@[i as int]@);
                    }
                    if ps[i].param_type == ParamType::StateCookie {
                        let cookie_bytes = crate::bytes::clone_bytes(&ps[i].value);
                        proof {
                            assert(find_state_cookie(psv) == Some(psv[i as int].value));
                        }
                        if cookie_bytes.len() > 65531 {
                            return Err(SCTPError::InvalidSCTPPacket);
                        }
                        let cookie = Cookie::from_bytes(cookie_bytes);
                        let echo = CookieEcho::new(cookie);
                        let mut packet = Packet::new(self.local_port, remote);
                        packet.add_chunk(AnyChunk::CookieEcho(echo));
                        self.state = AssocState::CookieEchoed;
                        self.remote_rwnd = ack.a_rwnd;
                        proof {
                            let cv = cookie_of_init_ack(ack@)->Some_0;
                            assert(packet@.chunks =~= seq![
                                AnyChunkV::CookieEcho(
                                    crate::chunk::CookieEchoV {
                                        header: crate::chunk::ChunkHeader {
                                            chunk_type: crate::chunk::CHUNK_TYPE_COOKIE_ECHO,
                                            flags: 0,
                                            length: (4 + cv.len()) as u16,
                                        },
                                        cookie: cv,
                                    },
                                ),
                            ]);
                        }
                        return Ok(packet);
                    }
                    i += 1;
                }
                proof {
                    assert(psv.skip(n as int) =~= Seq::<crate::chunk::ParameterV>::empty());
                    assert(cookie_of_init_ack(ack@) is None);
                }
                Err(SCTPError::NoCookieError)
            },
        }
    }

    /// Answers a received Init: records the peer, takes its
    /// advertised window, and builds the InitAck echoing the Init's
    /// tag, window and stream counts, carrying the issued cookie as a
    /// state-cookie parameter and a fresh initial sequence number.
    pub fn on_init(&mut self, init: Init, peer_port: u16, cookie: Cookie, ack_tsn: u32) -> (p:
        Packet)
        requires
            old(self).state == AssocState::Idle,
            4 <= cookie@.len() <= 65511,
        ensures
            *final(self) == (Association {
                state: AssocState::InitReceived,
                remote_port: Some(peer_port),
                remote_rwnd: init.a_rwnd,
                cookie: final(self).cookie,
                ..*old(self)
            }),
            final(self).cookie matches Some(c) && c@ == cookie@,
            p@.header.src_port == old(self).local_port,
            p@.header.dst_port == peer_port,
            p@.chunks == seq![
                AnyChunkV::InitAck(
                    crate::chunk::InitAckV {
                        header: crate::chunk::ChunkHeader {
                            chunk_type: crate::chunk::CHUNK_TYPE_INIT_ACK,
                            flags: 0,
                            length: (24 + cookie@.len()) as u16,
                        },
                        init_tag: init.init_tag,
                        a_rwnd: init.a_rwnd,
                        num_ob_streams: init.num_ob_streams,
                        num_ib_streams: init.num_ib_streams,
                        init_tsn: ack_tsn,
                        optional_params: Some(
                            seq![
                                crate::chunk::ParameterV {
                                    param_type: ParamType::StateCookie,
                                    len: cookie@.len() as u16,
                                    value: cookie@,
                                },
                            ],
                        ),
                    },
                ),
            ],
            wf_packet(p@),
    {
        let cookie_bytes = cookie.to_bytes();
        self.state = AssocState::InitReceived;
        self.remote_port = Some(peer_port);
        self.remote_rwnd = init.a_rwnd;
        self.cookie = Some(cookie);
        let ghost init_v = init@;
        let mut ack = InitAck::with_tsn(init, ack_tsn);
        ack.add_param(Parameter::new(ParamType::StateCookie, cookie_bytes));
        let mut packet = Packet::new(self.local_port, peer_port);
        let ghost ack_v = ack@;
        packet.add_chunk(AnyChunk::InitAck(ack));
        proof {
            let paramv = crate::chunk::ParameterV {
                param_type: ParamType::StateCookie,
                len: cookie@.len() as u16,
                value: cookie@,
            };
            assert(ack_v.optional_params->Some_0 =~= seq![paramv]);
            assert(packet@.chunks =~= seq![AnyChunkV::InitAck(ack_v)]);
            assert(seq![paramv].skip(1) =~= Seq::<crate::chunk::ParameterV>::empty());
            assert(seq![paramv][0] == paramv);
            assert(crate::chunk::params_size(Seq::<crate::chunk::ParameterV>::empty()) == 0);
            assert(crate::chunk::params_size(seq![paramv]) == 4 + cookie@.len());
            assert(crate::chunk::wf_init_ack(ack_v));
            assert(packet@.chunks[0] == AnyChunkV::InitAck(ack_v));
            assert(wf_packet(packet@));
        }
        packet
    }

    /// Validates a received CookieEcho against the issued cookie,
    /// byte-wise. A match completes the responder's handshake and
    /// builds the CookieAck; a mismatch changes nothing — the packet
    /// is discarded and the responder keeps waiting.
    pub fn on_cookie_echo(&mut self, echo: &CookieEcho) -> (r: Option<Packet>)
        requires
            old(self).state == AssocState::InitReceived,
            old(self).remote_port is Some,
            old(self).cookie is Some,
        ensures
            r is Some <==> echo@.cookie == old(self).cookie->Some_0@,
            match r {
                Some(p) => {
                    &&& *final(self) == (Association {
                        state: AssocState::Established,
                        ..*old(self)
                    })
                    &&& p@.header.src_port == old(self).local_port
                    &&& p@.header.dst_port == old(self).remote_port->Some_0
                    &&& p@.chunks == seq![
                        AnyChunkV::CookieAck(
                            crate::chunk::CookieAckV {
                                header: crate::chunk::ChunkHeader {
                                    chunk_type: crate::chunk::CHUNK_TYPE_COOKIE_ACK,
                                    flags: 0,
                                    length: 4,
                                },
                            },
                        ),
                    ]
                    &&& wf_packet(p@)
                },
                None => *final(self) == *old(self),
            },
    {
        let matches_issued = match &self.cookie {
            Some(c) => c.equals(&echo.cookie),
            None => {
                proof {
                    assert(false);
                }
                false
            },
        };
        if matches_issued {
            let remote = match self.remote_port {
                Some(p) => p,
                None => {
                    proof {
                        assert(false);
                    }
                    0
                },
            };
            let mut packet = Packet::new(self.local_port, remote);
            packet.add_chunk(AnyChunk::CookieAck(CookieAck::new()));
            self.state = AssocState::Established;
            proof {
                assert(packet@.chunks =~= seq![
                    AnyChunkV::CookieAck(
                        crate::chunk::CookieAckV {
                            header: crate::chunk::ChunkHeader {
                                chunk_type: crate::chunk::CHUNK_TYPE_COOKIE_ACK,
                                flags: 0,
                                length: 4,
                            },
                        },
                    ),
                ]);
            }
            Some(packet)
        } else {
            None
        }
    }

    /// Dispatches one received chunk: a Data chunk raises the largest
    /// sequence number seen, an Abort tears the association down, the
    /// shutdown chunks walk the teardown states, and every other kind
    /// — the extension points — is ignored.
    pub fn handle_chunk(&mut self, chunk: &AnyChunk)
        ensures
            *final(self) == spec_handle_chunk(*old(self), chunk@),
            old(self).wf() ==> final(self).wf(),
    {
        match chunk {
            AnyChunk::Data(d) => {
                if d.tsn > self.largest_tsn {
                    self.largest_tsn = d.tsn;
                }
            },
            AnyChunk::Abort(_) => {
                self.state = AssocState::Aborted;
            },
            AnyChunk::Shutdown(_) => {
                self.state = AssocState::ShuttingDown;
            },
            AnyChunk::ShutdownComplete(_) => {
                self.state = AssocState::Closed;
            },
            _ => {},
        }
    }

    /// Dispatches every chunk of a decoded packet, in order.
    pub fn handle_packet(&mut self, packet: &Packet)
        ensures
            *final(self) == spec_handle_chunks(*old(self), packet@.chunks),
            old(self).wf() ==> final(self).wf(),
    {
        let ghost csv = packet@.chunks;
        let n: usize = packet.chunks.len();
        let mut i: usize = 0;
        proof {
            assert(csv.skip(0) =~= csv);
        }
        while i < n
            invariant
                i <= n,
                n == packet@.chunks.len(),
                csv == packet@.chunks,
                spec_handle_chunks(*old(self), csv) == spec_handle_chunks(
                    *self,
                    csv.skip(i as int),
                ),
                old(self).wf() ==> self.wf(),
            decreases n - i,
        {
            proof {
                assert(csv.skip(i as int)[0] == csv[i as int]);
                assert(csv.skip(i as int).skip(1) =~= csv.skip(i as int + 1));
                assert(csv[i as int] == packet.chunks@[i as int]@);
            }
            self.handle_chunk(&packet.chunks[i]);
            i += 1;
        }
        proof {
            assert(csv.skip(n as int) =~= Seq::<AnyChunkV>::empty());
        }
    }

    /// Receives one datagram: decodes it — validating the checksum —
    /// and dispatches its chunks. A datagram that does not decode is
    /// discarded, leaving the association unchanged, and the wire
    /// error is reported; the association itself survives.
    pub fn recv(&mut self, buf: &Vec<u8>) -> (r: Result<(), SCTPError>)
        ensures
            match crate::packet::parse_packet(buf@) {
                Ok(pv) => r is Ok && *final(self) == spec_handle_chunks(*old(self), pv.chunks),
                Err(e) => r == Err::<(), SCTPError>(e) && *final(self) == *old(self),
            },
            old(self).wf() ==> final(self).wf(),
    {
        match crate::packet::decode_packet(buf) {
            Err(e) => Err(e),
            Ok(p) => {
                self.handle_packet(&p);
                Ok(())
            },
        }
    }

    /// Sends user data: gated on the effective window — the smaller
    /// of the congestion window and the remote receive window — then
    /// split into MTU-sized fragments, one Data chunk per packet.
    /// The first fragment carries the begin flag, the last the end
    /// flag, and each chunk takes the next transmission sequence
    /// number; the stream sequence number advances once per call.
    pub fn send(&mut self, user_data: &Vec<u8>) -> (r: Result<Vec<Packet>, SCTPError>)
        requires
            old(self).mtu is Some,
            old(self).remote_port is Some,
            old(self).wf(),
        ensures
            final(self).wf(),
            match r {
                Err(e) => {
                    &&& *final(self) == *old(self)
                    &&& (e == SCTPError::RemoteBufferFull <==> old(self).remote_rwnd == 0)
                    &&& (e == SCTPError::WindowExhausted <==> old(self).remote_rwnd != 0
                        && user_data@.len() > spec_window(old(self).cwnd, old(self).remote_rwnd))
                    &&& (e == SCTPError::RemoteBufferFull || e == SCTPError::WindowExhausted)
                },
                Ok(packets) => {
                    let frags = fragments_of(user_data@, old(self).mtu->Some_0 as int);
                    let n = frags.len() as int;
                    &&& old(self).remote_rwnd != 0
                    &&& user_data@.len() <= spec_window(old(self).cwnd, old(self).remote_rwnd)
                    &&& packets@.len() == n
                    &&& (forall|i: int|
                        0 <= i < n ==> data_packet_ok(
                            #[trigger] packets@[i]@,
                            old(self).local_port,
                            old(self).remote_port->Some_0,
                            old(self).stream_id,
                            old(self).stream_seq_no,
                            frags[i],
                            i == 0,
                            i == n - 1,
                            wrap_add32(old(self).tsn, i),
                        ))
                    &&& *final(self) == (Association {
                        tsn: wrap_add32(old(self).tsn, n),
                        stream_seq_no: wrap_inc16(old(self).stream_seq_no),
                        ..*old(self)
                    })
                },
            },
    {
        if self.remote_rwnd == 0 {
            return Err(SCTPError::RemoteBufferFull);
        }
        let m: u32 = match self.mtu {
            Some(m) => m,
            None => {
                proof {
                    assert(false);
                }
                0
            },
        };
        let window: u32 = if self.cwnd <= self.remote_rwnd {
            self.cwnd
        } else {
            self.remote_rwnd
        };
        let len: usize = user_data.len();
        if len > window as usize {
            return Err(SCTPError::WindowExhausted);
        }
        let remote = match self.remote_port {
            Some(p) => p,
            None => {
                proof {
                    assert(false);
                }
                0
            },
        };
        let local = self.local_port;
        let sid = self.stream_id;
        let ssn0 = self.stream_seq_no;
        let base_tsn = self.tsn;
        let mtu_us: usize = m as usize;
        let ghost dv = user_data@;
        let ghost mi = m as int;
        let ghost frags = fragments_of(dv, mi);
        let ghost n_total = frags.len() as int;
        let mut packets: Vec<Packet> = Vec::new();
        let mut cur_tsn: u32 = base_tsn;
        if len <= mtu_us {
            // the whole message fits one Data chunk, begin and end both set
            let payload = crate::bytes::clone_bytes(user_data);
            let d = Data::new(cur_tsn, sid, ssn0, 0, true, true, payload);
            let mut packet = Packet::new(local, remote);
            let ghost d_v = d@;
            packet.add_chunk(AnyChunk::Data(d));
            proof {
                assert(frags =~= seq![dv]);
                assert(packet@.chunks =~= seq![AnyChunkV::Data(d_v)]);
                assert(wf_packet(packet@));
                assert(wrap_add32(base_tsn, 0) == base_tsn) by {
                    assert((base_tsn + 0int) % 0x1_0000_0000int == base_tsn);
                };
                assert(data_packet_ok(packet@, local, remote, sid, ssn0, dv, true, true, base_tsn));
            }
            packets.push(packet);
            proof {
                lemma_wrap_step(base_tsn, 0);
            }
            cur_tsn = if cur_tsn == u32::MAX {
                0
            } else {
                cur_tsn + 1
            };
            proof {
                assert(packets@ =~= seq![packets@[0]]);
                assert(cur_tsn == wrap_add32(base_tsn, 1));
            }
        } else {
            let mut off: usize = 0;
            let ghost mut built: Seq<Seq<u8>> = Seq::empty();
            proof {
                assert(dv.skip(0) =~= dv);
                assert(built + fragments_of(dv.skip(0), mi) =~= fragments_of(dv, mi));
                assert(wrap_add32(base_tsn, 0) == base_tsn) by {
                    assert((base_tsn + 0int) % 0x1_0000_0000int == base_tsn);
                };
            }
            while off < len
                invariant
                    *self == *old(self),
                    self.local_port == local,
                    self.remote_port == Some(remote),
                    dv == user_data@,
                    len == dv.len(),
                    mtu_us == mi,
                    1 <= mi <= MAX_MTU,
                    off <= len,
                    frags == fragments_of(dv, mi),
                    n_total == frags.len(),
                    (off == 0) <==> (packets@.len() == 0),
                    cur_tsn == wrap_add32(base_tsn, packets@.len() as int),
                    built.len() == packets@.len(),
                    off < len ==> frags == built + fragments_of(dv.skip(off as int), mi),
                    off == len ==> frags == built,
                    forall|jj: int|
                        0 <= jj < packets@.len() ==> data_packet_ok(
                            #[trigger] packets@[jj]@,
                            local,
                            remote,
                            sid,
                            ssn0,
                            built[jj],
                            jj == 0,
                            jj == n_total - 1,
                            wrap_add32(base_tsn, jj),
                        ),
                decreases len - off,
            {
                let ghost j = packets@.len() as int;
                let ghost t = dv.skip(off as int);
                let remaining: usize = len - off;
                let hi: usize = if remaining > mtu_us {
                    off + mtu_us
                } else {
                    len
                };
                let end_flag: bool = hi == len;
                let begin_flag: bool = off == 0;
                let frag_vec = crate::bytes::copy_range(user_data, off, hi);
                proof {
                    assert(t.len() == len - off);
                    if remaining > mtu_us {
                        assert(t.subrange(0, mi) =~= dv.subrange(off as int, hi as int));
                        assert(t.skip(mi) =~= dv.skip(hi as int));
                        assert(fragments_of(t, mi) == seq![dv.subrange(off as int, hi as int)]
                            + fragments_of(dv.skip(hi as int), mi));
                        assert(fragments_of(dv.skip(hi as int), mi).len() >= 1);
                    } else {
                        assert(t =~= dv.subrange(off as int, hi as int));
                        assert(fragments_of(t, mi) == seq![dv.subrange(off as int, hi as int)]);
                    }
                    assert(frag_vec@ == dv.subrange(off as int, hi as int));
                    assert(frags == built + fragments_of(t, mi));
                    assert(n_total == j + fragments_of(t, mi).len());
                    assert(end_flag <==> (j == n_total - 1));
                }
                let d = Data::new(cur_tsn, sid, ssn0, 0, begin_flag, end_flag, frag_vec);
                let mut packet = Packet::new(local, remote);
                let ghost d_v = d@;
                packet.add_chunk(AnyChunk::Data(d));
                let ghost packets_before = packets@;
                packets.push(packet);
                proof {
                    assert(packet@.chunks =~= seq![AnyChunkV::Data(d_v)]);
                    assert(wf_packet(packet@));
                    assert(data_packet_ok(
                        packet@,
                        local,
                        remote,
                        sid,
                        ssn0,
                        dv.subrange(off as int, hi as int),
                        begin_flag,
                        end_flag,
                        cur_tsn,
                    ));
                    built = built.push(dv.subrange(off as int, hi as int));
                    if hi < len {
                        assert(built + fragments_of(dv.skip(hi as int), mi) =~= frags);
                    } else {
                        assert(built =~= frags);
                    }
                    lemma_wrap_step(base_tsn, j);
                }
                cur_tsn = if cur_tsn == u32::MAX {
                    0
                } else {
                    cur_tsn + 1
                };
                off = hi;
            }
        }
        proof {
            assert(packets@.len() == n_total);
        }
        self.tsn = cur_tsn;
        self.stream_seq_no = if ssn0 == 65535 {
            0
        } else {
            ssn0 + 1
        };
        proof {
            assert(self.stream_seq_no == wrap_inc16(ssn0)) by {
                assert((ssn0 + 1int) % 0x10000int == (if ssn0 == 65535 {
                    0int
                } else {
                    ssn0 + 1int
                }));
            };
        }
        Ok(packets)
    }

    /// Queues a packet for a later transmission.
    pub fn enqueue(&mut self, p: Packet)
        ensures
            *final(self) == (Association { msg_queue: final(self).msg_queue, ..*old(self) }),
            final(self).msg_queue.deep_view() == old(self).msg_queue.deep_view().push(p@),
    {
        let ghost before = self.msg_queue.deep_view();
        self.msg_queue.push_back(p);
        proof {
            assert(self.msg_queue.deep_view() =~= before.push(p@));
        }
    }
}

} // verus!
