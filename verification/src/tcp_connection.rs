//! The connection: wires a sender and a receiver together, stamps the
//! sender's segments with the receiver's acknowledgment number and
//! window, drives both sides from arriving segments and clock ticks,
//! and tears the connection down cleanly (with an optional linger) or
//! abortively with an RST.

use vstd::prelude::*;

verus! {

use std::collections::VecDeque;
use vstd::math::min;
use crate::byte_stream::ByteStream;
use crate::tcp_config::TCPConfig;
use crate::tcp_receiver::TCPReceiver;
use crate::tcp_segment::TCPSegment;
use crate::tcp_sender::TCPSender;
use crate::tcp_state::{ReceiverState, SenderState, TCPConnectionError, TCPState};
use crate::util::Milliseconds;
use crate::wrapping_integers::{unwrap_spec, wrap_spec};
use crate::tcp_sender::{concat_payloads, sum_seq_len};

pub struct TCPConnection {
    cfg: TCPConfig,
    sender: TCPSender,
    receiver: TCPReceiver,
    segments_out: VecDeque<TCPSegment>,
    linger: bool,
    ms_since_last_seg_recv: u64,
    active: bool,
    state: Result<TCPState, TCPConnectionError>,
}

/// A stamped copy of a sender segment: the flags, sequence number and
/// payload are kept; only ack, ack_no and win were filled in.
pub open spec fn seg_stamped(s: TCPSegment, t: TCPSegment) -> bool {
    &&& s.header.syn == t.header.syn
    &&& s.header.fin == t.header.fin
    &&& s.header.rst == t.header.rst
    &&& s.header.seq_no == t.header.seq_no
    &&& s.payload@ == t.payload@
}

/// A stamped segment's acknowledgment fields: the ack flag is set when
/// an ackno exists, the ackno itself is copied in, and the window is
/// the receiver's free room clamped to 16 bits.
pub open spec fn seg_acked(s: TCPSegment, t: TCPSegment, ackno: Option<u32>, free: int) -> bool {
    &&& s.header.ack == (ackno is Some || t.header.ack)
    &&& (ackno matches Some(a) ==> s.header.ack_no.spec_raw() == a)
    &&& s.header.win as int == min(free, u16::MAX as int)
}

/// A newly enqueued data segment: no SYN, FIN or RST, stamped with the
/// receiver's acknowledgment number and free window.
pub open spec fn plain_stamped(s: TCPSegment, rcv: crate::tcp_receiver::TCPReceiver) -> bool {
    &&& !s.header.syn && !s.header.fin && !s.header.rst
    &&& s.header.ack == (rcv.spec_ackno() is Some)
    &&& (rcv.spec_ackno() matches Some(a) ==> s.header.ack_no.spec_raw() == a)
    &&& s.header.win as int == min(
        rcv.spec_capacity() - rcv.spec_output().spec_buffer_size(),
        u16::MAX as int,
    )
}

/// `write` must emit data when the sender sits established with window
/// room, a drained buffer, no SYN in flight and nothing else queued,
/// and the accepted bytes fit the window.
pub open spec fn write_emit_ready(pre: TCPConnection, data: Seq<u8>, n: int) -> bool {
    &&& data.len() > 0
    &&& pre.spec_sender().spec_state()
        == Ok::<SenderState, TCPConnectionError>(SenderState::SynAcked)
    &&& (pre.spec_sender().spec_outstanding().len() == 0
        || !pre.spec_sender().spec_outstanding()[0].header.syn)
    &&& pre.spec_sender().spec_bytes_in_flight()
        < crate::tcp_sender::spec_effective_window(pre.spec_sender().spec_window())
    &&& pre.spec_sender().spec_stream().spec_buffer_size() == 0
    &&& !pre.spec_sender().spec_stream().spec_input_ended()
    &&& pre.spec_sender().spec_stream().spec_remaining_capacity() > 0
    &&& pre.spec_sender().spec_segments_out().len() == 0
    &&& n <= crate::tcp_sender::spec_effective_window(pre.spec_sender().spec_window())
        - pre.spec_sender().spec_bytes_in_flight()
}

/// What `write` emits when it must: at least one new segment, the
/// accepted bytes exactly covering the new payloads, each segment plain
/// and stamped, the first at the next sequence number.
pub open spec fn write_emits(
    pre: TCPConnection,
    post: TCPConnection,
    data: Seq<u8>,
    n: int,
) -> bool {
    write_emit_ready(pre, data, n) ==> {
        let newsegs = post.spec_segments_out().skip(pre.spec_segments_out().len() as int);
        &&& post.spec_segments_out().len() > pre.spec_segments_out().len()
        &&& concat_payloads(newsegs) == data.take(n)
        &&& forall|i: int| 0 <= i < newsegs.len()
            ==> plain_stamped(#[trigger] newsegs[i], pre.spec_receiver())
                && newsegs[i].payload@.len() >= 1
        &&& newsegs[0].header.seq_no.spec_raw() == wrap_spec(
            pre.spec_sender().spec_next_seqno(),
            pre.spec_sender().spec_isn(),
        )
    }
}

/// `end_input_stream` must emit the FIN when the sender sits
/// established with window room, a drained buffer, no SYN in flight and
/// nothing else queued.
pub open spec fn fin_emit_ready(pre: TCPConnection) -> bool {
    &&& pre.spec_sender().spec_state()
        == Ok::<SenderState, TCPConnectionError>(SenderState::SynAcked)
    &&& (pre.spec_sender().spec_outstanding().len() == 0
        || !pre.spec_sender().spec_outstanding()[0].header.syn)
    &&& pre.spec_sender().spec_bytes_in_flight()
        < crate::tcp_sender::spec_effective_window(pre.spec_sender().spec_window())
    &&& pre.spec_sender().spec_stream().spec_buffer_size() == 0
    &&& pre.spec_sender().spec_segments_out().len() == 0
}

/// The connection state derived from the two sides plus the linger and
/// active flags, as the state table defines it.
pub open spec fn spec_conn_state(
    s: Result<SenderState, TCPConnectionError>,
    r: Result<ReceiverState, TCPConnectionError>,
    linger: bool,
    active: bool,
) -> Result<TCPState, TCPConnectionError> {
    match (s, r) {
        (Err(_), Err(_)) => if !linger && !active {
            Ok(TCPState::Reset)
        } else {
            Err(TCPConnectionError::UnknownConnectionState)
        },
        (Ok(SenderState::Closed), Ok(ReceiverState::Listen)) => Ok(TCPState::Listen),
        (Ok(SenderState::SynSent), Ok(ReceiverState::Listen)) => Ok(TCPState::SynSent),
        (Ok(SenderState::SynSent), Ok(ReceiverState::SynRcvd)) => Ok(TCPState::SynRcvd),
        (Ok(SenderState::SynAcked), Ok(ReceiverState::SynRcvd)) => Ok(TCPState::Established),
        (Ok(SenderState::SynAcked), Ok(ReceiverState::FinRcvd)) => if !linger {
            Ok(TCPState::CloseWait)
        } else {
            Err(TCPConnectionError::UnknownConnectionState)
        },
        (Ok(SenderState::FinSent), Ok(ReceiverState::FinRcvd)) => if !linger {
            Ok(TCPState::LastAck)
        } else {
            Ok(TCPState::Closing)
        },
        (Ok(SenderState::FinAcked), Ok(ReceiverState::FinRcvd)) => if !linger && !active {
            Ok(TCPState::Closed)
        } else {
            Ok(TCPState::TimeWait)
        },
        (Ok(SenderState::FinSent), Ok(ReceiverState::SynRcvd)) => Ok(TCPState::FinWait1),
        (Ok(SenderState::FinAcked), Ok(ReceiverState::SynRcvd)) => Ok(TCPState::FinWait2),
        _ => Err(TCPConnectionError::UnknownConnectionState),
    }
}

impl TCPConnection {
    pub closed spec fn spec_sender(&self) -> TCPSender {
        self.sender
    }

    pub closed spec fn spec_receiver(&self) -> TCPReceiver {
        self.receiver
    }

    pub closed spec fn spec_segments_out(&self) -> Seq<TCPSegment> {
        self.segments_out@
    }

    pub closed spec fn spec_linger(&self) -> bool {
        self.linger
    }

    pub closed spec fn spec_active(&self) -> bool {
        self.active
    }

    pub closed spec fn spec_ms_since(&self) -> int {
        self.ms_since_last_seg_recv as int
    }

    pub closed spec fn spec_cfg(&self) -> TCPConfig {
        self.cfg
    }

    pub closed spec fn spec_state(&self) -> Result<TCPState, TCPConnectionError> {
        self.state
    }

    pub closed spec fn wf(&self) -> bool {
        &&& self.sender.wf()
        &&& self.receiver.wf()
        &&& forall|i: int| 0 <= i < self.segments_out@.len()
            ==> (#[trigger] self.segments_out@[i]).wf()
    }

    /// The inbound stream has delivered everything: nothing is pending
    /// in the reassembler and its input has ended.
    pub open spec fn spec_inbound_ended(&self) -> bool {
        self.spec_receiver().spec_reasm().pending.dom().is_empty()
            && self.spec_receiver().spec_output().spec_input_ended()
    }

    /// The outbound stream has ended, its FIN has been sent, and
    /// everything in flight has been acknowledged.
    pub open spec fn spec_outbound_ended(&self) -> bool {
        self.spec_sender().spec_stream().spec_eof()
            && self.spec_sender().spec_next_seqno()
                == self.spec_sender().spec_stream().spec_bytes_written() + 2
            && self.spec_sender().spec_bytes_in_flight() == 0
    }

    /// The machine limits under which a connection keeps operating.
    pub open spec fn room(&self) -> bool {
        &&& self.spec_sender().spec_next_seqno() + 0x10_0000 <= u64::MAX
        &&& self.spec_receiver().spec_reasm().head + self.spec_receiver().spec_capacity()
            <= usize::MAX
    }

    /// Checks the machine limits at run time, so a caller can
    /// re-establish `room` before further driving the connection.
    pub fn has_room(&self) -> (r: bool)
        ensures
            r == self.room(),
    {
        self.sender.next_seqno_abs() <= u64::MAX - 0x10_0000
            && self.receiver.head_index() <= usize::MAX - self.receiver.capacity()
    }

    pub fn with_config(cfg: &TCPConfig) -> (r: Self)
        ensures
            r.wf(),
            r.spec_active(),
            r.spec_linger(),
            r.spec_ms_since() == 0,
            r.spec_segments_out().len() == 0,
            r.spec_cfg() == *cfg,
            r.spec_sender().spec_next_seqno() == 0,
            r.spec_sender().spec_state()
                == Ok::<SenderState, TCPConnectionError>(SenderState::Closed),
            r.spec_receiver().spec_state()
                == Ok::<ReceiverState, TCPConnectionError>(ReceiverState::Listen),
            r.spec_receiver().spec_reasm().head == 0,
            r.spec_receiver().spec_capacity() == cfg.recv_capacity,
            r.spec_receiver().spec_output().spec_buffer_size() == 0,
            !r.spec_receiver().spec_output().spec_input_ended(),
            !r.spec_receiver().spec_output().spec_error(),
            r.spec_sender().spec_segments_out().len() == 0,
            r.spec_sender().spec_outstanding().len() == 0,
            r.spec_sender().spec_bytes_in_flight() == 0,
            r.spec_sender().spec_window() == 0,
            r.spec_sender().spec_consq_retxs() == 0,
            r.spec_sender().spec_rto() == cfg.timeout_default,
            !r.spec_sender().spec_timer_running(),
            r.spec_sender().spec_stream().spec_buffer_size() == 0,
            !r.spec_sender().spec_stream().spec_input_ended(),
            !r.spec_sender().spec_stream().spec_error(),
            r.spec_sender().spec_stream().spec_capacity() == cfg.send_capacity,
            r.room(),
            cfg.fixed_isn matches Some(v)
                ==> r.spec_sender().spec_isn() == v.spec_raw(),
    {
        TCPConnection {
            cfg: cfg.clone(),
            sender: TCPSender::with_config(cfg),
            receiver: TCPReceiver::with_config(cfg),
            segments_out: VecDeque::new(),
            linger: true,
            ms_since_last_seg_recv: 0,
            active: true,
            state: Ok(TCPState::Listen),
        }
    }

    /// Stamps a segment with the receiver's acknowledgment number (when
    /// one exists) and advertised window, clamped to 16 bits.
    fn set_ack_and_winsize(&self, seg: &mut TCPSegment)
        requires
            self.wf(),
        ensures
            final(seg).payload@ == old(seg).payload@,
            final(seg).wf() == old(seg).wf(),
            final(seg).header.syn == old(seg).header.syn,
            final(seg).header.fin == old(seg).header.fin,
            final(seg).header.rst == old(seg).header.rst,
            final(seg).header.seq_no == old(seg).header.seq_no,
            final(seg).header.ack == (self.spec_receiver().spec_ackno() is Some
                || old(seg).header.ack),
            self.spec_receiver().spec_ackno() matches Some(a)
                ==> final(seg).header.ack_no.spec_raw() == a,
            final(seg).header.win as int == min(
                self.spec_receiver().spec_capacity()
                    - self.spec_receiver().spec_output().spec_buffer_size(),
                u16::MAX as int,
            ),
    {
        match self.receiver.ackno() {
            Some(ackno) => {
                seg.header.ack = true;
                seg.header.ack_no = ackno;
            },
            None => {},
        }
        let w = self.receiver.win_size();
        seg.header.win = if w > 0xFFFF { 0xFFFF } else { w as u16 };
    }

    /// Moves every segment the sender has produced onto the outbound
    /// queue, stamped with ack and window; reports whether any moved.
    fn real_send(&mut self) -> (sent: bool)
        requires
            old(self).wf(),
        ensures
            final(self).wf(),
            sent == (old(self).spec_sender().spec_segments_out().len() > 0),
            final(self).spec_sender().spec_segments_out().len() == 0,
            final(self).spec_segments_out().len() == old(self).spec_segments_out().len()
                + old(self).spec_sender().spec_segments_out().len(),
            final(self).spec_segments_out().take(old(self).spec_segments_out().len() as int)
                == old(self).spec_segments_out(),
            final(self).spec_sender().unchanged_core(old(self).spec_sender()),
            final(self).spec_receiver() == old(self).spec_receiver(),
            final(self).spec_active() == old(self).spec_active(),
            final(self).spec_linger() == old(self).spec_linger(),
            final(self).spec_ms_since() == old(self).spec_ms_since(),
            final(self).spec_cfg() == old(self).spec_cfg(),
            final(self).spec_sender().spec_segments_out().len() == 0,
            forall|i: int| 0 <= i < old(self).spec_sender().spec_segments_out().len()
                ==> seg_stamped(
                    #[trigger] final(self).spec_segments_out()[
                        old(self).spec_segments_out().len() + i
                    ],
                    old(self).spec_sender().spec_segments_out()[i],
                ),
            forall|i: int| 0 <= i < old(self).spec_sender().spec_segments_out().len()
                ==> seg_acked(
                    #[trigger] final(self).spec_segments_out()[
                        old(self).spec_segments_out().len() + i
                    ],
                    old(self).spec_sender().spec_segments_out()[i],
                    old(self).spec_receiver().spec_ackno(),
                    old(self).spec_receiver().spec_capacity()
                        - old(self).spec_receiver().spec_output().spec_buffer_size(),
                ),
    {
        let mut sent = false;
        proof {
            assert(self.spec_sender().spec_segments_out()
                =~= old(self).spec_sender().spec_segments_out().skip(0));
        }
        loop
            invariant
                self.wf(),
                self.spec_sender().unchanged_core(old(self).spec_sender()),
                self.spec_receiver() == old(self).spec_receiver(),
                self.spec_active() == old(self).spec_active(),
                self.spec_linger() == old(self).spec_linger(),
                self.spec_ms_since() == old(self).spec_ms_since(),
                self.spec_cfg() == old(self).spec_cfg(),
                self.spec_segments_out().len() + self.spec_sender().spec_segments_out().len()
                    == old(self).spec_segments_out().len()
                        + old(self).spec_sender().spec_segments_out().len(),
                self.spec_segments_out().len() >= old(self).spec_segments_out().len(),
                self.spec_segments_out().take(old(self).spec_segments_out().len() as int)
                    == old(self).spec_segments_out(),
                sent == (self.spec_segments_out().len()
                    > old(self).spec_segments_out().len()),
                sent ==> old(self).spec_sender().spec_segments_out().len() > 0,
                old(self).spec_sender().spec_segments_out().len() > 0
                    && self.spec_sender().spec_segments_out().len() == 0 ==> sent,
                self.spec_sender().spec_segments_out()
                    == old(self).spec_sender().spec_segments_out().skip(
                        self.spec_segments_out().len() - old(self).spec_segments_out().len(),
                    ),
                forall|i: int| 0 <= i
                    < self.spec_segments_out().len() - old(self).spec_segments_out().len()
                    ==> seg_stamped(
                        #[trigger] self.spec_segments_out()[
                            old(self).spec_segments_out().len() + i
                        ],
                        old(self).spec_sender().spec_segments_out()[i],
                    ) && seg_acked(
                        self.spec_segments_out()[old(self).spec_segments_out().len() + i],
                        old(self).spec_sender().spec_segments_out()[i],
                        old(self).spec_receiver().spec_ackno(),
                        old(self).spec_receiver().spec_capacity()
                            - old(self).spec_receiver().spec_output().spec_buffer_size(),
                    ),
            ensures
                self.spec_sender().spec_segments_out().len() == 0,
            decreases self.spec_sender().spec_segments_out().len(),
        {
            let next = self.sender.pop_segment();
            match next {
                Some(seg) => {
                    let ghost gmid = *self;
                    self.stamp_and_push(seg);
                    sent = true;
                    proof {
                        let len0 = old(self).spec_segments_out().len() as int;
                        let osend = old(self).spec_sender().spec_segments_out();
                        let delta = self.spec_segments_out().len() - len0;
                        assert(self.spec_sender().spec_segments_out()
                            =~= osend.skip(delta));
                        assert(gmid.spec_sender().spec_segments_out()
                            =~= osend.skip(delta - 1).skip(1));
                        assert(seg == osend.skip(delta - 1)[0]);
                        assert(seg == osend[delta - 1]);
                        assert forall|i: int| 0 <= i < delta
                            implies seg_stamped(
                                #[trigger] self.spec_segments_out()[len0 + i],
                                osend[i],
                            ) && seg_acked(
                                self.spec_segments_out()[len0 + i],
                                osend[i],
                                old(self).spec_receiver().spec_ackno(),
                                old(self).spec_receiver().spec_capacity()
                                    - old(self).spec_receiver().spec_output()
                                        .spec_buffer_size(),
                            ) by {
                            if i < delta - 1 {
                                assert(self.spec_segments_out()[len0 + i]
                                    == self.spec_segments_out().take(
                                        gmid.spec_segments_out().len() as int,
                                    )[len0 + i]);
                                assert(self.spec_segments_out()[len0 + i]
                                    == gmid.spec_segments_out()[len0 + i]);
                            } else {
                                assert(self.spec_segments_out()[len0 + i]
                                    == self.spec_segments_out().last());
                            }
                        }
                    }
                },
                None => {
                    break;
                },
            }
        }
        sent
    }

    /// Stamps one segment and appends it to the outbound queue.
    fn stamp_and_push(&mut self, seg: TCPSegment)
        requires
            old(self).wf(),
            seg.wf(),
        ensures
            final(self).wf(),
            final(self).spec_segments_out().len() == old(self).spec_segments_out().len() + 1,
            final(self).spec_segments_out().take(old(self).spec_segments_out().len() as int)
                == old(self).spec_segments_out(),
            final(self).spec_segments_out().last().header.rst == seg.header.rst,
            seg_stamped(final(self).spec_segments_out().last(), seg),
            seg_acked(
                final(self).spec_segments_out().last(),
                seg,
                old(self).spec_receiver().spec_ackno(),
                old(self).spec_receiver().spec_capacity()
                    - old(self).spec_receiver().spec_output().spec_buffer_size(),
            ),
            final(self).spec_sender() == old(self).spec_sender(),
            final(self).spec_receiver() == old(self).spec_receiver(),
            final(self).spec_active() == old(self).spec_active(),
            final(self).spec_linger() == old(self).spec_linger(),
            final(self).spec_ms_since() == old(self).spec_ms_since(),
            final(self).spec_cfg() == old(self).spec_cfg(),
    {
        let mut seg = seg;
        self.set_ack_and_winsize(&mut seg);
        self.segments_out.push_back(seg);
        proof {
            assert(final(self).spec_segments_out().take(old(self).spec_segments_out().len() as int)
                =~= old(self).spec_segments_out());
        }
    }

    /// Marks both sides as reset: streams errored, states in error, and
    /// the connection inactive.
    fn set_rst(&mut self)
        requires
            old(self).wf(),
        ensures
            final(self).wf(),
            !final(self).spec_active(),
            final(self).spec_sender().spec_stream().spec_error(),
            final(self).spec_receiver().spec_output().spec_error(),
            final(self).spec_segments_out() == old(self).spec_segments_out(),
            final(self).spec_ms_since() == old(self).spec_ms_since(),
            final(self).spec_cfg() == old(self).spec_cfg(),
            final(self).spec_sender().spec_consq_retxs()
                == old(self).spec_sender().spec_consq_retxs(),
            final(self).spec_sender().spec_window() == old(self).spec_sender().spec_window(),
            final(self).spec_sender().spec_rto() == old(self).spec_sender().spec_rto(),
            final(self).spec_sender().spec_initial_rto()
                == old(self).spec_sender().spec_initial_rto(),
            final(self).spec_sender().spec_next_seqno()
                == old(self).spec_sender().spec_next_seqno(),
            final(self).spec_sender().spec_bytes_in_flight()
                == old(self).spec_sender().spec_bytes_in_flight(),
            final(self).spec_sender().spec_outstanding()
                == old(self).spec_sender().spec_outstanding(),
    {
        self.sender.set_in_error();
        self.sender.set_state(Err(TCPConnectionError::SenderError));
        self.receiver.set_out_error();
        self.receiver.set_state(Err(TCPConnectionError::ReceiverError));
        self.active = false;
    }

    /// Emits one RST segment, stamped like any other outbound segment.
    fn send_rst(&mut self)
        requires
            old(self).wf(),
        ensures
            final(self).wf(),
            final(self).spec_segments_out().len() == old(self).spec_segments_out().len() + 1,
            final(self).spec_segments_out().last().header.rst,
            final(self).spec_active() == old(self).spec_active(),
            final(self).spec_sender() == old(self).spec_sender(),
            final(self).spec_receiver() == old(self).spec_receiver(),
            final(self).spec_ms_since() == old(self).spec_ms_since(),
            final(self).spec_cfg() == old(self).spec_cfg(),
            final(self).spec_linger() == old(self).spec_linger(),
            final(self).spec_sender().spec_stream().spec_error()
                == old(self).spec_sender().spec_stream().spec_error(),
            final(self).spec_receiver().spec_output().spec_error()
                == old(self).spec_receiver().spec_output().spec_error(),
    {
        let mut seg = TCPSegment::new_empty();
        seg.header.seq_no = self.sender.next_seqno();
        seg.header.rst = true;
        self.stamp_and_push(seg);
    }

    fn inbound_ended(&self) -> (r: bool)
        requires
            self.wf(),
        ensures
            r == self.spec_inbound_ended(),
    {
        self.receiver.unassembled_bytes() == 0 && self.receiver.stream_out().input_ended()
    }

    fn outbound_ended(&self) -> (r: bool)
        requires
            self.wf(),
        ensures
            r == self.spec_outbound_ended(),
    {
        let eof = self.sender.stream_in().eof();
        let written = self.sender.stream_in().bytes_written();
        let next = self.sender.next_seqno_abs();
        eof && (written as u64) <= u64::MAX - 2 && next == (written as u64) + 2
            && self.sender.bytes_in_flight() == 0
    }

    /// Clears `linger` once the inbound side ended before the outbound
    /// stream reached its end.
    fn linger_mut(&mut self)
        requires
            old(self).wf(),
        ensures
            final(self).wf(),
            final(self).spec_linger() == (old(self).spec_linger()
                && !(old(self).spec_inbound_ended()
                    && !old(self).spec_sender().spec_stream().spec_eof())),
            final(self).spec_sender() == old(self).spec_sender(),
            final(self).spec_receiver() == old(self).spec_receiver(),
            final(self).spec_segments_out() == old(self).spec_segments_out(),
            final(self).spec_active() == old(self).spec_active(),
            final(self).spec_ms_since() == old(self).spec_ms_since(),
            final(self).spec_cfg() == old(self).spec_cfg(),
    {
        if self.inbound_ended() && !self.sender.stream_in().eof() {
            self.linger = false;
        }
    }

    /// Deactivates the connection once both directions have finished
    /// and either lingering is off or the linger period has passed.
    fn active_mut(&mut self)
        requires
            old(self).wf(),
        ensures
            final(self).wf(),
            final(self).spec_active() == (old(self).spec_active()
                && !(old(self).spec_inbound_ended() && old(self).spec_outbound_ended()
                    && (!old(self).spec_linger()
                        || old(self).spec_ms_since()
                            >= 10 * (old(self).spec_cfg().rt_timeout as int)))),
            final(self).spec_sender() == old(self).spec_sender(),
            final(self).spec_receiver() == old(self).spec_receiver(),
            final(self).spec_segments_out() == old(self).spec_segments_out(),
            final(self).spec_linger() == old(self).spec_linger(),
            final(self).spec_ms_since() == old(self).spec_ms_since(),
            final(self).spec_cfg() == old(self).spec_cfg(),
    {
        if self.inbound_ended() && self.outbound_ended() {
            let limit: u64 = 10 * (self.cfg.rt_timeout as u64);
            if !self.linger || self.ms_since_last_seg_recv >= limit {
                self.active = false;
            }
        }
    }

    /// Starts the handshake (or refills the window) and sends whatever
    /// the sender produced.
    pub fn connect(&mut self)
        requires
            old(self).wf(),
            old(self).room(),
        ensures
            final(self).wf(),
            old(self).spec_sender().spec_state()
                == Ok::<SenderState, TCPConnectionError>(SenderState::Closed)
                && old(self).spec_sender().spec_next_seqno() == 0
                && old(self).spec_sender().spec_segments_out().len() == 0 ==> {
                &&& final(self).spec_segments_out().len()
                    == old(self).spec_segments_out().len() + 1
                &&& final(self).spec_segments_out().last().header.syn
                &&& !final(self).spec_segments_out().last().header.fin
                &&& !final(self).spec_segments_out().last().header.rst
                &&& final(self).spec_segments_out().last().payload@.len() == 0
                &&& final(self).spec_segments_out().last().header.seq_no.spec_raw()
                    == wrap_spec(0, old(self).spec_sender().spec_isn())
                &&& final(self).spec_segments_out().last().header.ack
                    == (old(self).spec_receiver().spec_ackno() is Some)
                &&& (old(self).spec_receiver().spec_ackno() matches Some(a)
                    ==> final(self).spec_segments_out().last().header.ack_no.spec_raw() == a)
                &&& final(self).spec_segments_out().last().header.win as int == min(
                    old(self).spec_receiver().spec_capacity()
                        - old(self).spec_receiver().spec_output().spec_buffer_size(),
                    u16::MAX as int,
                )
            },
            final(self).spec_receiver() == old(self).spec_receiver(),
            final(self).spec_active() == old(self).spec_active(),
    {
        self.sender.fill_window();
        proof {
            if old(self).spec_sender().spec_state()
                == Ok::<SenderState, TCPConnectionError>(SenderState::Closed)
                && old(self).spec_sender().spec_next_seqno() == 0
                && old(self).spec_sender().spec_segments_out().len() == 0 {
                assert(self.spec_sender().spec_segments_out().len() == 1);
                assert(self.spec_sender().spec_segments_out()[0].header.syn);
            }
        }
        let ghost mid = *self;
        let _ = self.real_send();
        proof {
            if old(self).spec_sender().spec_state()
                == Ok::<SenderState, TCPConnectionError>(SenderState::Closed)
                && old(self).spec_sender().spec_next_seqno() == 0
                && old(self).spec_sender().spec_segments_out().len() == 0 {
                let i0: int = 0;
                assert(seg_stamped(
                    self.spec_segments_out()[mid.spec_segments_out().len() + i0],
                    mid.spec_sender().spec_segments_out()[i0],
                ));
                assert(seg_acked(
                    self.spec_segments_out()[mid.spec_segments_out().len() + i0],
                    mid.spec_sender().spec_segments_out()[i0],
                    mid.spec_receiver().spec_ackno(),
                    mid.spec_receiver().spec_capacity()
                        - mid.spec_receiver().spec_output().spec_buffer_size(),
                ));
                assert(self.spec_segments_out().last()
                    == self.spec_segments_out()[mid.spec_segments_out().len() + i0]);
            }
        }
    }

    /// Writes into the outbound stream, then fills the window and
    /// sends. When the sender sits established with window room and an
    /// empty buffer, the accepted bytes go out as freshly stamped data
    /// segments.
    pub fn write(&mut self, data: &[u8]) -> (n: usize)
        requires
            old(self).wf(),
            old(self).room(),
            old(self).spec_sender().spec_stream().spec_bytes_written() + data@.len()
                <= usize::MAX,
        ensures
            final(self).wf(),
            data@.len() == 0 ==> n == 0 && *final(self) == *old(self),
            data@.len() > 0 ==> {
                &&& n == min(
                    data@.len() as int,
                    old(self).spec_sender().spec_stream().spec_remaining_capacity() as int,
                )
                &&& final(self).spec_sender().spec_stream().spec_bytes_written()
                    == old(self).spec_sender().spec_stream().spec_bytes_written() + n
                &&& final(self).spec_sender().spec_stream().spec_history()
                    == old(self).spec_sender().spec_stream().spec_history()
                        + data@.take(n as int)
                &&& final(self).spec_receiver() == old(self).spec_receiver()
                &&& final(self).spec_active() == old(self).spec_active()
            },
            write_emits(*old(self), *final(self), data@, n as int),
    {
        if data.len() == 0 {
            return 0;
        }
        let n = self.sender.write_in(data);
        let ghost s1 = *self;
        self.sender.fill_window();
        let ghost s2 = *self;
        let _ = self.real_send();
        proof {
            if write_emit_ready(*old(self), data@, n as int) {
                let app = s2.spec_sender().spec_segments_out();
                assert(app =~= app.skip(0));
                assert(sum_seq_len(app.take(0)) == 0) by {
                    assert(app.take(0) =~= Seq::<TCPSegment>::empty());
                }
                assert(s1.spec_sender().spec_stream().spec_buffer()
                    =~= data@.take(n as int));
                assert forall|i: int| 0 <= i < app.len()
                    implies !(#[trigger] app[i]).header.syn && !app[i].header.fin by {}
                crate::tcp_sender::lemma_sum_payloads_only(app);
                // Everything accepted was packed into the new segments:
                // either the stream drained, or the window filled and
                // already had room for all of it.
                assert(n >= 1);
                assert(app.len() >= 1);
                assert(concat_payloads(app).len() <= n);
                if s2.spec_sender().spec_stream().spec_buffer_size() == 0 {
                    assert(s2.spec_sender().spec_stream().spec_buffer()
                        =~= s1.spec_sender().spec_stream().spec_buffer().skip(
                            concat_payloads(app).len() as int,
                        ));
                    assert(concat_payloads(app).len() == n);
                } else {
                    assert(s2.spec_sender().spec_bytes_in_flight()
                        == crate::tcp_sender::spec_effective_window(
                            old(self).spec_sender().spec_window(),
                        ));
                    assert(sum_seq_len(app) >= n);
                    assert(concat_payloads(app).len() == n);
                }
                assert(concat_payloads(app) =~= data@.take(n as int));
                let len0 = old(self).spec_segments_out().len() as int;
                let newsegs = final(self).spec_segments_out().skip(len0);
                assert(newsegs.len() == app.len());
                assert forall|i: int| 0 <= i < newsegs.len()
                    implies (#[trigger] newsegs[i]).payload@ == app[i].payload@ by {
                    assert(seg_stamped(
                        final(self).spec_segments_out()[len0 + i], app[i]));
                    assert(newsegs[i] == final(self).spec_segments_out()[len0 + i]);
                }
                crate::tcp_sender::lemma_concat_same_payloads(newsegs, app);
                assert forall|i: int| 0 <= i < newsegs.len()
                    implies plain_stamped(
                        #[trigger] newsegs[i],
                        old(self).spec_receiver(),
                    ) && newsegs[i].payload@.len() >= 1 by {
                    assert(app[i].spec_seq_len() >= 1);
                    assert(!app[i].header.syn && !app[i].header.fin);
                    assert(seg_stamped(
                        final(self).spec_segments_out()[len0 + i], app[i]));
                    assert(seg_acked(
                        final(self).spec_segments_out()[len0 + i],
                        app[i],
                        old(self).spec_receiver().spec_ackno(),
                        old(self).spec_receiver().spec_capacity()
                            - old(self).spec_receiver().spec_output().spec_buffer_size(),
                    ));
                }
                let i0: int = 0;
                assert(newsegs[0] == final(self).spec_segments_out()[len0 + i0]);
                assert(seg_stamped(final(self).spec_segments_out()[len0 + i0], app[i0]));
            }
        }
        n
    }

    pub fn remaining_outbound_capacity(&self) -> (r: usize)
        requires
            self.wf(),
        ensures
            r == self.spec_sender().spec_stream().spec_remaining_capacity(),
    {
        proof {
            self.sender.lemma_wf();
        }
        self.sender.stream_in().remaining_capacity()
    }

    /// Ends the outbound stream's input, then fills and sends. When the
    /// sender sits established with window room and a drained buffer,
    /// the FIN goes out at once.
    pub fn end_input_stream(&mut self)
        requires
            old(self).wf(),
            old(self).room(),
        ensures
            final(self).wf(),
            final(self).spec_sender().spec_stream().spec_input_ended(),
            final(self).spec_receiver() == old(self).spec_receiver(),
            final(self).spec_active() == old(self).spec_active(),
            fin_emit_ready(*old(self)) ==> {
                &&& final(self).spec_segments_out().len()
                    == old(self).spec_segments_out().len() + 1
                &&& final(self).spec_segments_out().last().header.fin
                &&& !final(self).spec_segments_out().last().header.syn
                &&& !final(self).spec_segments_out().last().header.rst
                &&& final(self).spec_segments_out().last().payload@.len() == 0
                &&& final(self).spec_segments_out().last().header.seq_no.spec_raw()
                    == wrap_spec(
                        old(self).spec_sender().spec_next_seqno(),
                        old(self).spec_sender().spec_isn(),
                    )
                &&& final(self).spec_segments_out().last().header.ack
                    == (old(self).spec_receiver().spec_ackno() is Some)
                &&& (old(self).spec_receiver().spec_ackno() matches Some(a)
                    ==> final(self).spec_segments_out().last().header.ack_no.spec_raw() == a)
                &&& final(self).spec_sender().spec_state()
                    == Ok::<SenderState, TCPConnectionError>(SenderState::FinSent)
            },
    {
        self.sender.end_input_in();
        let ghost s1 = *self;
        self.sender.fill_window();
        let ghost s2 = *self;
        let _ = self.real_send();
        proof {
            if fin_emit_ready(*old(self)) {
                let app = s2.spec_sender().spec_segments_out();
                assert(app =~= app.skip(0));
                assert(sum_seq_len(app.take(0)) == 0) by {
                    assert(app.take(0) =~= Seq::<TCPSegment>::empty());
                }
                assert(s1.spec_sender().spec_stream().spec_eof());
                assert(app.len() == 1);
                let len0 = old(self).spec_segments_out().len() as int;
                let i0: int = 0;
                assert(seg_stamped(final(self).spec_segments_out()[len0 + i0], app[i0]));
                assert(seg_acked(
                    final(self).spec_segments_out()[len0 + i0],
                    app[i0],
                    old(self).spec_receiver().spec_ackno(),
                    old(self).spec_receiver().spec_capacity()
                        - old(self).spec_receiver().spec_output().spec_buffer_size(),
                ));
                assert(final(self).spec_segments_out().last()
                    == final(self).spec_segments_out()[len0 + i0]);
            }
        }
    }

    /// A read-only view of the inbound stream.
    pub fn inbound_stream(&self) -> (r: &ByteStream)
        ensures
            *r == self.spec_receiver().spec_output(),
    {
        self.receiver.stream_out()
    }

    /// Reads (pops) up to `len` bytes from the inbound stream.
    pub fn read_inbound(&mut self, len: usize) -> (r: Vec<u8>)
        requires
            old(self).wf(),
        ensures
            final(self).wf(),
            r@ == old(self).spec_receiver().spec_output().spec_buffer().take(
                min(
                    len as int,
                    old(self).spec_receiver().spec_output().spec_buffer_size() as int,
                ),
            ),
    {
        self.receiver.read_out(len)
    }

    pub fn bytes_in_flight(&self) -> (r: usize)
        ensures
            r == self.spec_sender().spec_bytes_in_flight(),
    {
        self.sender.bytes_in_flight()
    }

    pub fn unassembled_bytes(&self) -> (r: usize)
        requires
            self.wf(),
        ensures
            r == self.spec_receiver().spec_reasm().pending.dom().len(),
    {
        self.receiver.unassembled_bytes()
    }

    pub fn ms_since_last_seg_recv(&self) -> (r: Milliseconds)
        ensures
            r.0 == self.spec_ms_since(),
    {
        Milliseconds(self.ms_since_last_seg_recv)
    }

    pub fn active(&self) -> (r: bool)
        ensures
            r == self.spec_active(),
    {
        self.active
    }

    pub fn segments_out(&self) -> (r: &VecDeque<TCPSegment>)
        ensures
            r@ == self.spec_segments_out(),
    {
        &self.segments_out
    }

    /// Removes and returns the oldest outbound segment.
    pub fn pop_segment(&mut self) -> (r: Option<TCPSegment>)
        requires
            old(self).wf(),
        ensures
            final(self).wf(),
            old(self).spec_segments_out().len() == 0 ==> r is None
                && final(self).spec_segments_out() == old(self).spec_segments_out(),
            old(self).spec_segments_out().len() > 0 ==> r == Some(
                old(self).spec_segments_out()[0],
            ) && final(self).spec_segments_out() == old(self).spec_segments_out().skip(1),
            final(self).spec_sender() == old(self).spec_sender(),
            final(self).spec_receiver() == old(self).spec_receiver(),
            final(self).spec_active() == old(self).spec_active(),
    {
        self.segments_out.pop_front()
    }

    /// Re-derives the connection state from the two sides.
    pub fn renew_state(&mut self) -> (r: Result<TCPState, TCPConnectionError>)
        requires
            old(self).wf(),
        ensures
            final(self).wf(),
            r == final(self).spec_state(),
            final(self).spec_state() == spec_conn_state(
                final(self).spec_sender().spec_state(),
                final(self).spec_receiver().spec_state(),
                final(self).spec_linger(),
                final(self).spec_active(),
            ),
    {
        self.active_mut();
        self.linger_mut();
        let s = self.sender.renew_state();
        let r = self.receiver.renew_state();
        let next = match (s, r) {
            (Err(_), Err(_)) => if !self.linger && !self.active {
                Ok(TCPState::Reset)
            } else {
                Err(TCPConnectionError::UnknownConnectionState)
            },
            (Ok(SenderState::Closed), Ok(ReceiverState::Listen)) => Ok(TCPState::Listen),
            (Ok(SenderState::SynSent), Ok(ReceiverState::Listen)) => Ok(TCPState::SynSent),
            (Ok(SenderState::SynSent), Ok(ReceiverState::SynRcvd)) => Ok(TCPState::SynRcvd),
            (Ok(SenderState::SynAcked), Ok(ReceiverState::SynRcvd)) => Ok(
                TCPState::Established,
            ),
            (Ok(SenderState::SynAcked), Ok(ReceiverState::FinRcvd)) => if !self.linger {
                Ok(TCPState::CloseWait)
            } else {
                Err(TCPConnectionError::UnknownConnectionState)
            },
            (Ok(SenderState::FinSent), Ok(ReceiverState::FinRcvd)) => if !self.linger {
                Ok(TCPState::LastAck)
            } else {
                Ok(TCPState::Closing)
            },
            (Ok(SenderState::FinAcked), Ok(ReceiverState::FinRcvd)) => if !self.linger
                && !self.active {
                Ok(TCPState::Closed)
            } else {
                Ok(TCPState::TimeWait)
            },
            (Ok(SenderState::FinSent), Ok(ReceiverState::SynRcvd)) => Ok(TCPState::FinWait1),
            (Ok(SenderState::FinAcked), Ok(ReceiverState::SynRcvd)) => Ok(TCPState::FinWait2),
            _ => Err(TCPConnectionError::UnknownConnectionState),
        };
        self.state = next;
        self.state
    }

    /// Handles one arriving segment, in order: a dead connection
    /// ignores it; the receive timer resets; a data-carrying ACK in
    /// SYN-SENT is discarded; the ACK feeds the sender; the rest feeds
    /// the receiver; a SYN against a closed sender answers the
    /// handshake; an RST (ignored in SYN-SENT without ACK) resets both
    /// streams abortively; and any segment that occupied sequence space
    /// is answered with at least one ACK.
    #[verifier::rlimit(100)]
    pub fn segment_received(&mut self, seg: &TCPSegment)
        requires
            old(self).wf(),
            old(self).room(),
            seg.wf(),
            seg.payload@.len() + 2 <= usize::MAX,
        ensures
            final(self).wf(),
            !old(self).spec_active() ==> *final(self) == *old(self),
            old(self).spec_active() ==> final(self).spec_ms_since() == 0,
            ({
                let synsent = old(self).spec_sender().spec_next_seqno() > 0
                    && old(self).spec_sender().spec_next_seqno()
                        == old(self).spec_sender().spec_bytes_in_flight();
                let discard = synsent && seg.header.ack && seg.payload@.len() > 0;
                let rst_taken = seg.header.rst && !(synsent && !seg.header.ack) && !discard;
                // An RST tears both streams down and enqueues nothing.
                &&& (old(self).spec_active() && rst_taken ==> {
                    &&& !final(self).spec_active()
                    &&& final(self).spec_sender().spec_stream().spec_error()
                    &&& final(self).spec_receiver().spec_output().spec_error()
                    &&& final(self).spec_segments_out() == old(self).spec_segments_out()
                })
                // Otherwise the receiver takes exactly its own step.
                &&& (old(self).spec_active() && !discard && !rst_taken
                    ==> crate::tcp_receiver::recv_step(
                        old(self).spec_receiver().spec_state(),
                        old(self).spec_receiver().spec_isn(),
                        old(self).spec_receiver().spec_reasm(),
                        final(self).spec_receiver().spec_state(),
                        final(self).spec_receiver().spec_isn(),
                        final(self).spec_receiver().spec_reasm(),
                        *seg,
                    ))
                // An ACK feeds the sender: a valid one records the window
                // and can only advance the earliest byte in flight and
                // reset the back-off; an invalid one changes nothing.
                &&& (old(self).spec_active() && !discard && seg.header.ack ==> {
                    let a = unwrap_spec(
                        seg.header.ack_no.spec_raw(),
                        old(self).spec_sender().spec_isn(),
                        old(self).spec_sender().spec_next_seqno() as u64,
                    );
                    let valid = a <= old(self).spec_sender().spec_next_seqno()
                        && (old(self).spec_sender().spec_outstanding().len() == 0
                            || a >= old(self).spec_sender().spec_earliest());
                    &&& (valid ==> {
                        &&& final(self).spec_sender().spec_window() == seg.header.win
                        &&& final(self).spec_sender().spec_consq_retxs()
                            <= old(self).spec_sender().spec_consq_retxs()
                        &&& final(self).spec_sender().spec_rto()
                            <= old(self).spec_sender().spec_rto()
                        &&& final(self).spec_sender().spec_earliest()
                            >= old(self).spec_sender().spec_earliest()
                    })
                    &&& (!valid ==> {
                        &&& final(self).spec_sender().spec_window()
                            == old(self).spec_sender().spec_window()
                        &&& final(self).spec_sender().spec_consq_retxs()
                            == old(self).spec_sender().spec_consq_retxs()
                        &&& final(self).spec_sender().spec_rto()
                            == old(self).spec_sender().spec_rto()
                        &&& final(self).spec_sender().spec_earliest()
                            == old(self).spec_sender().spec_earliest()
                    })
                })
                // Any segment that occupied sequence space is answered.
                &&& (old(self).spec_active() && !discard && !rst_taken
                    && crate::tcp_segment::seg_seq_len(seg.header, seg.payload@) > 0
                    ==> final(self).spec_segments_out().len()
                        > old(self).spec_segments_out().len())
                // A SYN against a closed sender answers the handshake.
                &&& (old(self).spec_active() && seg.header.syn && !seg.header.ack
                    && !seg.header.rst
                    && old(self).spec_sender().spec_state()
                        == Ok::<SenderState, TCPConnectionError>(SenderState::Closed)
                    && old(self).spec_sender().spec_next_seqno() == 0
                    && old(self).spec_sender().spec_segments_out().len() == 0 ==> {
                    &&& final(self).spec_segments_out().len()
                        == old(self).spec_segments_out().len() + 1
                    &&& final(self).spec_segments_out().last().header.syn
                    &&& !final(self).spec_segments_out().last().header.fin
                    &&& !final(self).spec_segments_out().last().header.rst
                    &&& final(self).spec_segments_out().last().payload@.len() == 0
                    &&& final(self).spec_segments_out().last().header.seq_no.spec_raw()
                        == wrap_spec(0, old(self).spec_sender().spec_isn())
                    &&& final(self).spec_segments_out().last().header.ack
                        == (final(self).spec_receiver().spec_ackno() is Some)
                    &&& (final(self).spec_receiver().spec_ackno() matches Some(a)
                        ==> final(self).spec_segments_out().last().header.ack_no.spec_raw()
                            == a)
                    &&& final(self).spec_segments_out().last().header.win as int == min(
                        final(self).spec_receiver().spec_capacity()
                            - final(self).spec_receiver().spec_output().spec_buffer_size(),
                        u16::MAX as int,
                    )
                })
            }),
    {
        if !self.active {
            return;
        }
        self.ms_since_last_seg_recv = 0;
        // A data-carrying ACK while our SYN is still unacknowledged is
        // discarded silently.
        let syn_sent = self.sender.next_seqno_abs() > 0
            && self.sender.next_seqno_abs() == self.sender.bytes_in_flight() as u64;
        if syn_sent && seg.header.ack && seg.payload.size() > 0 {
            return;
        }
        let mut ack_bad = false;
        proof {
            self.sender.lemma_wf();
        }
        if seg.header.ack {
            let ok = self.sender.ack_received(&seg.header.ack_no, seg.header.win);
            proof {
                assert(self.spec_sender().spec_next_seqno()
                    <= old(self).spec_sender().spec_next_seqno() + 0x1_0000);
            }
            if !ok {
                ack_bad = true;
            }
        }
        self.receiver.segment_received(seg);
        self.linger_mut();
        if seg.header.syn && self.sender.next_seqno_abs() == 0 {
            let closed = match self.sender.state() {
                Ok(SenderState::Closed) => true,
                _ => false,
            };
            if closed {
                let ghost sb = self.spec_sender();
                proof {
                    self.sender.lemma_wf();
                }
                self.sender.fill_window();
                proof {
                    self.sender.lemma_wf();
                    assert(self.spec_sender().spec_next_seqno()
                        <= sb.spec_next_seqno() + 0x1_0000);
                }
            }
        }
        let ghost g_pf = *self;
        if seg.header.rst {
            if syn_sent && !seg.header.ack {
                // An RST without ACK while in SYN-SENT is ignored.
            } else {
                self.set_rst();
                return;
            }
        }
        let occupies = seg.length_in_sequence_space() > 0;
        proof {
            self.sender.lemma_wf();
            assert(self.spec_sender().spec_next_seqno()
                <= old(self).spec_sender().spec_next_seqno() + 0x2_0000);
        }
        self.sender.fill_window();
        let ghost g_mf = *self;
        let sent = self.real_send();
        if (occupies || ack_bad) && !sent {
            self.sender.send_empty_segment();
            let _ = self.real_send();
        }
        proof {
            let c = old(self).spec_active() && seg.header.syn && !seg.header.ack
                && !seg.header.rst
                && old(self).spec_sender().spec_state()
                    == Ok::<SenderState, TCPConnectionError>(SenderState::Closed)
                && old(self).spec_sender().spec_next_seqno() == 0
                && old(self).spec_sender().spec_segments_out().len() == 0;
            if c {
                // The passive-open fill produced exactly the SYN; the main
                // fill could add nothing past an unacknowledged SYN; the
                // drain stamped and moved that one segment.
                let syn_q = g_pf.spec_sender().spec_segments_out();
                assert(syn_q =~= syn_q.skip(0));
                assert(syn_q.len() == 1);
                assert(syn_q[0].header.syn && !syn_q[0].header.fin && !syn_q[0].header.rst);
                assert(syn_q[0].payload@.len() == 0);
                assert(sum_seq_len(syn_q.take(0)) == 0) by {
                    assert(syn_q.take(0) =~= Seq::<TCPSegment>::empty());
                }
                assert(syn_q[0].header.seq_no.spec_raw()
                    == wrap_spec(0, old(self).spec_sender().spec_isn()));
                assert(g_pf.spec_sender().spec_outstanding().len() == 1);
                assert(g_pf.spec_sender().spec_outstanding()
                    =~= g_pf.spec_sender().spec_outstanding().skip(0));
                assert(crate::tcp_sender::seg_like(
                    g_pf.spec_sender().spec_outstanding().skip(0)[0],
                    syn_q[0],
                ));
                assert(g_pf.spec_sender().spec_outstanding()[0]
                    == g_pf.spec_sender().spec_outstanding().skip(0)[0]);
                assert(g_pf.spec_sender().spec_outstanding()[0].header.syn);
                assert(g_mf.spec_sender().spec_segments_out().len() == 1);
                assert(g_mf.spec_sender().spec_segments_out()
                    =~= g_mf.spec_sender().spec_segments_out().take(syn_q.len() as int));
                assert(g_mf.spec_sender().spec_segments_out() == syn_q);
                let len0 = old(self).spec_segments_out().len() as int;
                let i0: int = 0;
                assert(seg_stamped(self.spec_segments_out()[len0 + i0], syn_q[i0]));
                assert(seg_acked(
                    self.spec_segments_out()[len0 + i0],
                    syn_q[i0],
                    g_mf.spec_receiver().spec_ackno(),
                    g_mf.spec_receiver().spec_capacity()
                        - g_mf.spec_receiver().spec_output().spec_buffer_size(),
                ));
                assert(self.spec_segments_out().last()
                    == self.spec_segments_out()[len0 + i0]);
            }
        }
    }

    /// Advances time: accumulates the receive timer, feeds the
    /// sender's retransmission timer (an expiry re-emits the earliest
    /// outstanding segment), aborts with an RST once the consecutive
    /// retransmissions exceed the limit, and re-evaluates the linger
    /// and shutdown conditions.
    #[verifier::rlimit(100)]
    pub fn tick(&mut self, ms_since_last_tick: Milliseconds)
        requires
            old(self).wf(),
            old(self).room(),
        ensures
            final(self).wf(),
            !old(self).spec_active() ==> *final(self) == *old(self),
            old(self).spec_active() ==> final(self).spec_ms_since() == min(
                old(self).spec_ms_since() + ms_since_last_tick.0,
                u64::MAX as int,
            ),
            old(self).spec_active()
                && final(self).spec_sender().spec_consq_retxs()
                    > old(self).spec_cfg().max_retx_attempts ==> {
                &&& !final(self).spec_active()
                &&& final(self).spec_sender().spec_stream().spec_error()
                &&& final(self).spec_receiver().spec_output().spec_error()
                &&& final(self).spec_segments_out().len() > 0
                &&& final(self).spec_segments_out().last().header.rst
            },
            old(self).spec_active() && old(self).spec_inbound_ended()
                && old(self).spec_outbound_ended()
                && (!old(self).spec_linger()
                    || old(self).spec_ms_since() + ms_since_last_tick.0
                        >= 10 * (old(self).spec_cfg().rt_timeout as int))
                ==> !final(self).spec_active(),
            ({
                let m = ms_since_last_tick.0 as int;
                let fire = old(self).spec_sender().spec_timer_running()
                    && old(self).spec_sender().spec_timer() + m
                        >= old(self).spec_sender().spec_rto();
                let inc = old(self).spec_sender().spec_window() > 0
                    || (old(self).spec_sender().spec_outstanding().len() > 0
                        && old(self).spec_sender().spec_outstanding()[0].header.syn);
                let after = if fire && inc {
                    min(old(self).spec_sender().spec_consq_retxs() + 1, usize::MAX as int)
                } else {
                    old(self).spec_sender().spec_consq_retxs()
                };
                // The counters carry across the call, never shrinking.
                &&& (old(self).spec_active()
                    ==> final(self).spec_sender().spec_consq_retxs() == after
                        && final(self).spec_sender().spec_rto()
                            >= old(self).spec_sender().spec_rto())
                // Past the retransmission limit: abortive shutdown.
                &&& (old(self).spec_active() && fire && inc
                    && after > old(self).spec_cfg().max_retx_attempts ==> {
                    &&& !final(self).spec_active()
                    &&& final(self).spec_sender().spec_stream().spec_error()
                    &&& final(self).spec_receiver().spec_output().spec_error()
                    &&& final(self).spec_segments_out().len()
                        == old(self).spec_segments_out().len() + 1
                    &&& final(self).spec_segments_out().last().header.rst
                })
                // Under the limit, an expired timer re-emits the earliest
                // outstanding segment, stamped.
                &&& (old(self).spec_active() && fire
                    && after <= old(self).spec_cfg().max_retx_attempts
                    && old(self).spec_sender().spec_segments_out().len() == 0 ==> {
                    &&& final(self).spec_segments_out().len()
                        == old(self).spec_segments_out().len() + 1
                    &&& final(self).spec_segments_out().last().payload@
                        == old(self).spec_sender().spec_outstanding()[0].payload@
                    &&& final(self).spec_segments_out().last().header.syn
                        == old(self).spec_sender().spec_outstanding()[0].header.syn
                    &&& final(self).spec_segments_out().last().header.fin
                        == old(self).spec_sender().spec_outstanding()[0].header.fin
                    &&& final(self).spec_segments_out().last().header.seq_no
                        == old(self).spec_sender().spec_outstanding()[0].header.seq_no
                    &&& final(self).spec_sender().spec_timer() == 0
                    &&& final(self).spec_sender().spec_timer_running()
                })
                // And the connection stays up while nothing ends it: the
                // limit not hit, lingering still on, the bound not reached.
                &&& (old(self).spec_active()
                    && after <= old(self).spec_cfg().max_retx_attempts
                    && old(self).spec_linger()
                    && !(old(self).spec_inbound_ended()
                        && !old(self).spec_sender().spec_stream().spec_eof())
                    && old(self).spec_ms_since() + m
                        < 10 * (old(self).spec_cfg().rt_timeout as int)
                    ==> final(self).spec_active())
            }),
    {
        if !self.active {
            return;
        }
        let ms: u64 = if ms_since_last_tick.0 > u64::MAX - self.ms_since_last_seg_recv {
            u64::MAX
        } else {
            self.ms_since_last_seg_recv + ms_since_last_tick.0
        };
        self.ms_since_last_seg_recv = ms;
        proof {
            self.sender.lemma_wf();
        }
        self.sender.tick(ms_since_last_tick);
        let ghost g_t = *self;
        if self.sender.consq_retxs() > self.cfg.max_retx_attempts as usize {
            self.set_rst();
            self.send_rst();
            return;
        }
        let _ = self.real_send();
        self.linger_mut();
        self.active_mut();
        proof {
            let m = ms_since_last_tick.0 as int;
            let fire = old(self).spec_sender().spec_timer_running()
                && old(self).spec_sender().spec_timer() + m
                    >= old(self).spec_sender().spec_rto();
            if old(self).spec_active() && fire
                && old(self).spec_sender().spec_segments_out().len() == 0 {
                // The retransmitted copy is the only queued segment.
                let q = g_t.spec_sender().spec_segments_out();
                assert(q.len() == 1);
                assert(q =~= old(self).spec_sender().spec_segments_out().push(q.last()));
                assert(q[0] == q.last());
                let len0 = old(self).spec_segments_out().len() as int;
                let i0: int = 0;
                assert(seg_stamped(self.spec_segments_out()[len0 + i0], q[i0]));
                assert(self.spec_segments_out().last()
                    == self.spec_segments_out()[len0 + i0]);
            }
        }
    }
}

} // verus!
