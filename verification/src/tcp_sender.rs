//! The sending side of a connection: turns the outbound byte stream
//! into SYN, data and FIN segments, keeps the segments in flight until
//! they are acknowledged, retransmits on timeout with exponential
//! back-off, and respects the receiver's advertised window (a zero
//! window is probed with single bytes).

use vstd::prelude::*;

verus! {

use std::collections::VecDeque;
use crate::byte_stream::ByteStream;
use crate::tcp_config::{TCPConfig, MAX_PAYLOAD_SIZE};
use crate::tcp_segment::TCPSegment;
use crate::tcp_state::{SenderState, TCPConnectionError};
use crate::util::Milliseconds;
use crate::wrapping_integers::{WrappingU32, wrap_spec, unwrap_spec, lemma_unwrap_wrap_near};
use vstd::math::min;

/// Two segments that carry the same header and the same payload bytes.
pub open spec fn seg_like(a: TCPSegment, b: TCPSegment) -> bool {
    a.header == b.header && a.payload@ == b.payload@
}

/// Two runs of segments alike element by element.
pub open spec fn segs_like(a: Seq<TCPSegment>, b: Seq<TCPSegment>) -> bool {
    a.len() == b.len() && forall|i: int| 0 <= i < a.len() ==> seg_like(#[trigger] a[i], b[i])
}

/// The total sequence space occupied by a run of segments.
pub open spec fn sum_seq_len(s: Seq<TCPSegment>) -> int
    decreases s.len(),
{
    if s.len() == 0 {
        0
    } else {
        s[0].spec_seq_len() + sum_seq_len(s.drop_first())
    }
}

/// The payloads of a run of segments, concatenated in order.
pub open spec fn concat_payloads(s: Seq<TCPSegment>) -> Seq<u8>
    decreases s.len(),
{
    if s.len() == 0 {
        Seq::empty()
    } else {
        s[0].payload@ + concat_payloads(s.drop_first())
    }
}

proof fn lemma_sum_push(s: Seq<TCPSegment>, x: TCPSegment)
    ensures
        sum_seq_len(s.push(x)) == sum_seq_len(s) + x.spec_seq_len(),
        concat_payloads(s.push(x)) == concat_payloads(s) + x.payload@,
    decreases s.len(),
{
    assert(sum_seq_len(Seq::<TCPSegment>::empty()) == 0);
    assert(concat_payloads(Seq::<TCPSegment>::empty()) =~= Seq::<u8>::empty());
    if s.len() == 0 {
        assert(s.push(x).len() == 1);
        assert(s.push(x)[0] == x);
        assert(s.push(x).drop_first() =~= Seq::<TCPSegment>::empty());
        assert(sum_seq_len(s.push(x)) == x.spec_seq_len());
        assert(concat_payloads(s.push(x)) =~= concat_payloads(s) + x.payload@);
    } else {
        assert(s.push(x)[0] == s[0]);
        assert(s.push(x).drop_first() =~= s.drop_first().push(x));
        lemma_sum_push(s.drop_first(), x);
        assert(concat_payloads(s.push(x)) =~= concat_payloads(s) + x.payload@);
    }
}

proof fn lemma_sum_nonneg(s: Seq<TCPSegment>)
    ensures
        sum_seq_len(s) >= 0,
        sum_seq_len(s) >= concat_payloads(s).len(),
    decreases s.len(),
{
    if s.len() > 0 {
        lemma_sum_nonneg(s.drop_first());
    }
}

pub proof fn lemma_sum_concat(a: Seq<TCPSegment>, b: Seq<TCPSegment>)
    ensures
        sum_seq_len(a + b) == sum_seq_len(a) + sum_seq_len(b),
    decreases a.len(),
{
    if a.len() == 0 {
        assert(a + b =~= b);
    } else {
        assert((a + b)[0] == a[0]);
        assert((a + b).drop_first() =~= a.drop_first() + b);
        lemma_sum_concat(a.drop_first(), b);
    }
}

proof fn lemma_sum_elem(s: Seq<TCPSegment>, i: int)
    requires
        0 <= i < s.len(),
    ensures
        s[i].spec_seq_len() <= sum_seq_len(s),
    decreases s.len(),
{
    lemma_sum_nonneg(s.drop_first());
    if i == 0 {
    } else {
        lemma_sum_elem(s.drop_first(), i - 1);
        assert(s.drop_first()[i - 1] == s[i]);
    }
}

proof fn lemma_sum_like(a: Seq<TCPSegment>, b: Seq<TCPSegment>)
    requires
        segs_like(a, b),
    ensures
        sum_seq_len(a) == sum_seq_len(b),
        concat_payloads(a) == concat_payloads(b),
    decreases a.len(),
{
    if a.len() > 0 {
        assert(seg_like(a[0], b[0]));
        assert forall|i: int| 0 <= i < a.drop_first().len()
            implies seg_like(#[trigger] a.drop_first()[i], b.drop_first()[i]) by {
            assert(a.drop_first()[i] == a[i + 1]);
            assert(b.drop_first()[i] == b[i + 1]);
            assert(seg_like(a[i + 1], b[i + 1]));
        }
        lemma_sum_like(a.drop_first(), b.drop_first());
    }
}

pub struct TCPSender {
    isn: WrappingU32,
    segments_out: VecDeque<TCPSegment>,
    initial_retx_timeout: u64,
    stream_in: ByteStream,
    next_seqno: u64,
    segments_outstanding: VecDeque<TCPSegment>,
    bytes_in_flight: usize,
    receiver_window_size: u16,
    timer: u64,
    timer_running: bool,
    retx_timeout: u64,
    consq_retxs: usize,
    state: Result<SenderState, TCPConnectionError>,
    /// The absolute sequence number at which each outstanding segment
    /// starts, aligned with `segments_outstanding`.
    outstanding_abs: Ghost<Seq<int>>,
}

impl TCPSender {
    pub closed spec fn spec_isn(&self) -> u32 {
        self.isn.spec_raw() as u32
    }

    pub closed spec fn spec_next_seqno(&self) -> int {
        self.next_seqno as int
    }

    pub closed spec fn spec_bytes_in_flight(&self) -> int {
        self.bytes_in_flight as int
    }

    pub closed spec fn spec_stream(&self) -> ByteStream {
        self.stream_in
    }

    pub closed spec fn spec_outstanding(&self) -> Seq<TCPSegment> {
        self.segments_outstanding@
    }

    pub closed spec fn spec_segments_out(&self) -> Seq<TCPSegment> {
        self.segments_out@
    }

    pub closed spec fn spec_window(&self) -> int {
        self.receiver_window_size as int
    }

    pub closed spec fn spec_rto(&self) -> int {
        self.retx_timeout as int
    }

    pub closed spec fn spec_initial_rto(&self) -> int {
        self.initial_retx_timeout as int
    }

    pub closed spec fn spec_consq_retxs(&self) -> int {
        self.consq_retxs as int
    }

    pub closed spec fn spec_timer_running(&self) -> bool {
        self.timer_running
    }

    pub closed spec fn spec_timer(&self) -> int {
        self.timer as int
    }

    pub closed spec fn spec_state(&self) -> Result<SenderState, TCPConnectionError> {
        self.state
    }

    /// The absolute sequence number of the earliest byte in flight.
    pub open spec fn spec_earliest(&self) -> int {
        self.spec_next_seqno() - self.spec_bytes_in_flight()
    }

    pub closed spec fn wf(&self) -> bool {
        &&& self.stream_in.wf()
        &&& self.bytes_in_flight == sum_seq_len(self.segments_outstanding@)
        &&& self.bytes_in_flight <= self.next_seqno
        &&& self.bytes_in_flight <= 0x1_0000
        &&& self.outstanding_abs@.len() == self.segments_outstanding@.len()
        &&& forall|i: int| 0 <= i < self.segments_outstanding@.len()
            ==> (#[trigger] self.outstanding_abs@[i])
                == self.next_seqno - sum_seq_len(self.segments_outstanding@.skip(i))
        &&& forall|i: int| 0 <= i < self.segments_outstanding@.len()
            ==> (#[trigger] self.segments_outstanding@[i]).header.seq_no.spec_raw()
                == wrap_spec(self.outstanding_abs@[i], self.spec_isn())
        &&& forall|i: int| 0 <= i < self.segments_outstanding@.len()
            ==> (#[trigger] self.segments_outstanding@[i]).wf()
        &&& forall|i: int| 0 <= i < self.segments_outstanding@.len()
            ==> (#[trigger] self.segments_outstanding@[i]).spec_seq_len() >= 1
        &&& forall|i: int| 0 <= i < self.segments_out@.len()
            ==> (#[trigger] self.segments_out@[i]).wf()
        &&& self.retx_timeout >= self.initial_retx_timeout
        &&& (self.timer_running ==> self.segments_outstanding@.len() > 0)
    }

    pub fn with_config(cfg: &TCPConfig) -> (r: Self)
        ensures
            r.wf(),
            r.spec_next_seqno() == 0,
            r.spec_bytes_in_flight() == 0,
            r.spec_outstanding().len() == 0,
            r.spec_segments_out().len() == 0,
            r.spec_window() == 0,
            r.spec_rto() == cfg.timeout_default,
            r.spec_initial_rto() == cfg.timeout_default,
            r.spec_consq_retxs() == 0,
            !r.spec_timer_running(),
            r.spec_state() == Ok::<SenderState, TCPConnectionError>(SenderState::Closed),
            r.spec_stream().spec_capacity() == cfg.send_capacity,
            r.spec_stream().spec_buffer() == Seq::<u8>::empty(),
            !r.spec_stream().spec_input_ended(),
            !r.spec_stream().spec_error(),
            cfg.fixed_isn matches Some(v) ==> r.spec_isn() == v.spec_raw(),
    {
        let isn = match &cfg.fixed_isn {
            Some(i) => *i,
            None => WrappingU32::random(),
        };
        proof {
            assert(sum_seq_len(Seq::<TCPSegment>::empty()) == 0);
        }
        TCPSender {
            isn,
            segments_out: VecDeque::new(),
            initial_retx_timeout: cfg.timeout_default as u64,
            stream_in: ByteStream::new(cfg.send_capacity),
            next_seqno: 0,
            segments_outstanding: VecDeque::new(),
            bytes_in_flight: 0,
            receiver_window_size: 0,
            timer: 0,
            timer_running: false,
            retx_timeout: cfg.timeout_default as u64,
            consq_retxs: 0,
            state: Ok(SenderState::Closed),
            outstanding_abs: Ghost(Seq::empty()),
        }
    }

    /// Stamps `seg` with the next sequence number, queues it for output
    /// and as outstanding, advances the counters, and starts the timer
    /// if it was stopped.
    fn send_segment(&mut self, seg: TCPSegment)
        requires
            old(self).wf(),
            seg.wf(),
            1 <= seg.spec_seq_len(),
            old(self).spec_next_seqno() + seg.spec_seq_len() <= u64::MAX,
            old(self).spec_bytes_in_flight() + seg.spec_seq_len() <= 0x1_0000,
        ensures
            final(self).wf(),
            final(self).spec_segments_out() == old(self).spec_segments_out().push(
                final(self).spec_segments_out().last(),
            ),
            final(self).spec_outstanding() == old(self).spec_outstanding().push(
                final(self).spec_outstanding().last(),
            ),
            seg_like(final(self).spec_outstanding().last(),
                final(self).spec_segments_out().last()),
            final(self).spec_segments_out().last().header == (crate::tcp_header::TCPHeader {
                seq_no: final(self).spec_segments_out().last().header.seq_no,
                ..seg.header
            }),
            final(self).spec_segments_out().last().header.seq_no.spec_raw()
                == wrap_spec(old(self).spec_next_seqno(), old(self).spec_isn()),
            final(self).spec_segments_out().last().payload@ == seg.payload@,
            final(self).spec_next_seqno() == old(self).spec_next_seqno() + seg.spec_seq_len(),
            final(self).spec_bytes_in_flight()
                == old(self).spec_bytes_in_flight() + seg.spec_seq_len(),
            final(self).spec_timer_running(),
            final(self).spec_timer() == if old(self).spec_timer_running() {
                old(self).spec_timer()
            } else {
                0
            },
            final(self).spec_stream() == old(self).spec_stream(),
            final(self).spec_rto() == old(self).spec_rto(),
            final(self).spec_initial_rto() == old(self).spec_initial_rto(),
            final(self).spec_consq_retxs() == old(self).spec_consq_retxs(),
            final(self).spec_window() == old(self).spec_window(),
            final(self).spec_state() == old(self).spec_state(),
            final(self).spec_isn() == old(self).spec_isn(),
    {
        let mut seg = seg;
        seg.header.seq_no = WrappingU32::wrap(self.next_seqno, &self.isn);
        let len = seg.length_in_sequence_space();
        let ghost abs0 = self.next_seqno as int;
        self.next_seqno = self.next_seqno + (len as u64);
        self.bytes_in_flight = self.bytes_in_flight + len;
        self.segments_outstanding.push_back(seg.clone());
        self.segments_out.push_back(seg);
        self.outstanding_abs = Ghost(self.outstanding_abs@.push(abs0));
        if !self.timer_running {
            self.timer_running = true;
            self.timer = 0;
        }
        proof {
            let outs = self.segments_outstanding@;
            let outs0 = old(self).segments_outstanding@;
            lemma_sum_push(outs0, outs.last());
            assert(outs =~= outs0.push(outs.last()));
            assert(sum_seq_len(outs) == sum_seq_len(outs0) + outs.last().spec_seq_len());
            assert(sum_seq_len(Seq::<TCPSegment>::empty()) == 0);
            assert forall|i: int| 0 <= i < outs.len()
                implies (#[trigger] self.outstanding_abs@[i])
                    == self.next_seqno - sum_seq_len(outs.skip(i)) by {
                if i < outs.len() - 1 {
                    assert(old(self).outstanding_abs@[i]
                        == old(self).next_seqno - sum_seq_len(outs0.skip(i)));
                    assert(outs.skip(i) =~= outs0.skip(i).push(outs.last()));
                    lemma_sum_push(outs0.skip(i), outs.last());
                    assert(self.outstanding_abs@[i] == old(self).outstanding_abs@[i]);
                } else {
                    assert(outs.skip(i) =~= Seq::<TCPSegment>::empty().push(outs.last()));
                    lemma_sum_push(Seq::<TCPSegment>::empty(), outs.last());
                    assert(sum_seq_len(outs.skip(i)) == outs.last().spec_seq_len());
                    assert(self.outstanding_abs@[i] == old(self).next_seqno);
                }
            }
            assert(final(self).spec_segments_out()
                =~= old(self).spec_segments_out().push(final(self).spec_segments_out().last()));
            assert(final(self).spec_outstanding()
                =~= old(self).spec_outstanding().push(final(self).spec_outstanding().last()));
        }
    }

    /// A zero-length segment stamped with the next sequence number,
    /// queued for output only (never retransmitted).
    pub fn send_empty_segment(&mut self)
        requires
            old(self).wf(),
        ensures
            final(self).wf(),
            final(self).spec_segments_out().len() == old(self).spec_segments_out().len() + 1,
            final(self).spec_segments_out()
                == old(self).spec_segments_out().push(final(self).spec_segments_out().last()),
            final(self).spec_segments_out().last().payload@ == Seq::<u8>::empty(),
            !final(self).spec_segments_out().last().header.syn,
            !final(self).spec_segments_out().last().header.fin,
            !final(self).spec_segments_out().last().header.rst,
            final(self).spec_segments_out().last().header.seq_no.spec_raw()
                == wrap_spec(old(self).spec_next_seqno(), old(self).spec_isn()),
            final(self).unchanged_core(*old(self)),
    {
        let mut seg = TCPSegment::new_empty();
        seg.header.seq_no = WrappingU32::wrap(self.next_seqno, &self.isn);
        self.segments_out.push_back(seg);
        proof {
            assert(final(self).spec_segments_out()
                =~= old(self).spec_segments_out().push(final(self).spec_segments_out().last()));
        }
    }

    /// True when everything but the output queue is unchanged.
    pub open spec fn unchanged_core(&self, other: Self) -> bool {
        &&& self.spec_outstanding() == other.spec_outstanding()
        &&& self.spec_next_seqno() == other.spec_next_seqno()
        &&& self.spec_bytes_in_flight() == other.spec_bytes_in_flight()
        &&& self.spec_stream() == other.spec_stream()
        &&& self.spec_rto() == other.spec_rto()
        &&& self.spec_initial_rto() == other.spec_initial_rto()
        &&& self.spec_consq_retxs() == other.spec_consq_retxs()
        &&& self.spec_window() == other.spec_window()
        &&& self.spec_state() == other.spec_state()
        &&& self.spec_isn() == other.spec_isn()
        &&& self.spec_timer_running() == other.spec_timer_running()
        &&& self.spec_timer() == other.spec_timer()
    }

    pub fn bytes_in_flight(&self) -> (r: usize)
        ensures
            r == self.spec_bytes_in_flight(),
    {
        self.bytes_in_flight
    }

    pub fn consq_retxs(&self) -> (r: usize)
        ensures
            r == self.spec_consq_retxs(),
    {
        self.consq_retxs
    }

    pub fn segments_out(&self) -> (r: &VecDeque<TCPSegment>)
        ensures
            r@ == self.spec_segments_out(),
    {
        &self.segments_out
    }

    /// Removes and returns the oldest queued output segment.
    pub fn pop_segment(&mut self) -> (r: Option<TCPSegment>)
        requires
            old(self).wf(),
        ensures
            final(self).wf(),
            old(self).spec_segments_out().len() == 0 ==> r is None
                && final(self).spec_segments_out() == old(self).spec_segments_out(),
            old(self).spec_segments_out().len() > 0 ==> r == Some(
                old(self).spec_segments_out()[0],
            ) && final(self).spec_segments_out() == old(self).spec_segments_out().skip(1),
            r matches Some(s) ==> s.wf(),
            final(self).unchanged_core(*old(self)),
    {
        self.segments_out.pop_front()
    }

    pub fn next_seqno_abs(&self) -> (r: u64)
        ensures
            r == self.spec_next_seqno(),
    {
        self.next_seqno
    }

    pub fn next_seqno(&self) -> (r: WrappingU32)
        ensures
            r.spec_raw() == wrap_spec(self.spec_next_seqno(), self.spec_isn()),
    {
        WrappingU32::wrap(self.next_seqno, &self.isn)
    }

    pub fn stream_in(&self) -> (r: &ByteStream)
        ensures
            *r == self.spec_stream(),
            self.wf() ==> self.spec_stream().wf(),
    {
        &self.stream_in
    }

    /// Facts a caller may rely on about a well-formed sender.
    pub proof fn lemma_wf(&self)
        requires
            self.wf(),
        ensures
            self.spec_stream().wf(),
            0 <= self.spec_bytes_in_flight() <= 0x1_0000,
            self.spec_bytes_in_flight() <= self.spec_next_seqno(),
            self.spec_rto() >= self.spec_initial_rto(),
            forall|i: int| 0 <= i < self.spec_segments_out().len()
                ==> (#[trigger] self.spec_segments_out()[i]).wf(),
            self.spec_timer_running() ==> self.spec_outstanding().len() > 0,
            self.spec_bytes_in_flight() == 0 ==> self.spec_outstanding().len() == 0,
            self.spec_outstanding().len() > 0 ==> self.spec_outstanding()[0].spec_seq_len() >= 1,
    {
        if self.spec_bytes_in_flight() == 0 && self.spec_outstanding().len() > 0 {
            lemma_sum_ge_len(self.spec_outstanding());
        }
    }

    /// Writes into the outbound stream; returns how many bytes fit.
    pub fn write_in(&mut self, data: &[u8]) -> (n: usize)
        requires
            old(self).wf(),
            old(self).spec_stream().spec_bytes_written() + data@.len() <= usize::MAX,
        ensures
            final(self).wf(),
            n == min(
                data@.len() as int,
                old(self).spec_stream().spec_remaining_capacity() as int,
            ),
            final(self).spec_stream().spec_buffer()
                == old(self).spec_stream().spec_buffer() + data@.take(n as int),
            final(self).spec_stream().spec_bytes_written()
                == old(self).spec_stream().spec_bytes_written() + n,
            final(self).spec_stream().spec_history()
                == old(self).spec_stream().spec_history() + data@.take(n as int),
            final(self).spec_stream().spec_input_ended()
                == old(self).spec_stream().spec_input_ended(),
            final(self).spec_stream().spec_error() == old(self).spec_stream().spec_error(),
            final(self).spec_stream().spec_capacity() == old(self).spec_stream().spec_capacity(),
            final(self).spec_outstanding() == old(self).spec_outstanding(),
            final(self).spec_segments_out() == old(self).spec_segments_out(),
            final(self).spec_next_seqno() == old(self).spec_next_seqno(),
            final(self).spec_bytes_in_flight() == old(self).spec_bytes_in_flight(),
            final(self).spec_state() == old(self).spec_state(),
            final(self).spec_rto() == old(self).spec_rto(),
            final(self).spec_initial_rto() == old(self).spec_initial_rto(),
            final(self).spec_timer_running() == old(self).spec_timer_running(),
            final(self).spec_timer() == old(self).spec_timer(),
            final(self).spec_consq_retxs() == old(self).spec_consq_retxs(),
            final(self).spec_isn() == old(self).spec_isn(),
            final(self).spec_window() == old(self).spec_window(),
    {
        self.stream_in.write(data)
    }

    /// Ends the outbound stream's input.
    pub fn end_input_in(&mut self)
        requires
            old(self).wf(),
        ensures
            final(self).wf(),
            final(self).spec_stream().spec_input_ended(),
            final(self).spec_stream().spec_buffer() == old(self).spec_stream().spec_buffer(),
            final(self).spec_stream().spec_error() == old(self).spec_stream().spec_error(),
            final(self).spec_outstanding() == old(self).spec_outstanding(),
            final(self).spec_segments_out() == old(self).spec_segments_out(),
            final(self).spec_next_seqno() == old(self).spec_next_seqno(),
            final(self).spec_bytes_in_flight() == old(self).spec_bytes_in_flight(),
            final(self).spec_state() == old(self).spec_state(),
            final(self).spec_rto() == old(self).spec_rto(),
            final(self).spec_initial_rto() == old(self).spec_initial_rto(),
            final(self).spec_timer_running() == old(self).spec_timer_running(),
            final(self).spec_timer() == old(self).spec_timer(),
            final(self).spec_consq_retxs() == old(self).spec_consq_retxs(),
            final(self).spec_isn() == old(self).spec_isn(),
            final(self).spec_window() == old(self).spec_window(),
    {
        self.stream_in.end_input()
    }

    /// Marks the outbound stream as errored.
    pub fn set_in_error(&mut self)
        requires
            old(self).wf(),
        ensures
            final(self).wf(),
            final(self).spec_stream().spec_error(),
            final(self).spec_stream().spec_buffer() == old(self).spec_stream().spec_buffer(),
            final(self).spec_stream().spec_input_ended()
                == old(self).spec_stream().spec_input_ended(),
            final(self).spec_outstanding() == old(self).spec_outstanding(),
            final(self).spec_segments_out() == old(self).spec_segments_out(),
            final(self).spec_next_seqno() == old(self).spec_next_seqno(),
            final(self).spec_bytes_in_flight() == old(self).spec_bytes_in_flight(),
            final(self).spec_state() == old(self).spec_state(),
            final(self).spec_isn() == old(self).spec_isn(),
            final(self).spec_rto() == old(self).spec_rto(),
            final(self).spec_initial_rto() == old(self).spec_initial_rto(),
            final(self).spec_consq_retxs() == old(self).spec_consq_retxs(),
            final(self).spec_window() == old(self).spec_window(),
            final(self).spec_timer_running() == old(self).spec_timer_running(),
            final(self).spec_timer() == old(self).spec_timer(),
    {
        self.stream_in.set_error()
    }

    pub fn state(&self) -> (r: Result<SenderState, TCPConnectionError>)
        ensures
            r == self.spec_state(),
    {
        self.state
    }


    /// Converts the peer's ack to an absolute index against
    /// `next_seqno`; an ack above `next_seqno` or below the earliest
    /// outstanding byte is ignored entirely. A valid ack records the
    /// advertised window, drops every fully acknowledged outstanding
    /// segment (resetting the back-off and the timer), and refills the
    /// window.
    #[verifier::rlimit(100)]
    pub fn ack_received(&mut self, ackno: &WrappingU32, window_size: u16) -> (accepted: bool)
        requires
            old(self).wf(),
            old(self).spec_next_seqno() + 0x2_0000 <= u64::MAX,
        ensures
            final(self).wf(),
            ({
                let a = unwrap_spec(
                    ackno.spec_raw(),
                    old(self).spec_isn(),
                    old(self).spec_next_seqno() as u64,
                );
                let valid = a <= old(self).spec_next_seqno()
                    && (old(self).spec_outstanding().len() == 0
                        || a >= old(self).spec_earliest());
                &&& accepted == valid
                &&& (!valid ==> *final(self) == *old(self))
                &&& (valid && old(self).spec_outstanding().len() > 0
                    ==> old(self).spec_earliest() <= a <= old(self).spec_next_seqno())
                &&& (valid ==> {
                    &&& final(self).spec_next_seqno() <= old(self).spec_next_seqno() + 0x1_0000
                    &&& final(self).spec_next_seqno() >= old(self).spec_next_seqno()
                    &&& final(self).spec_window() == window_size
                    &&& (final(self).spec_outstanding().len() == 0
                        || final(self).spec_earliest()
                            + final(self).spec_outstanding()[0].spec_seq_len() > a)
                    &&& (old(self).spec_outstanding().len() > 0
                        && a >= old(self).spec_earliest()
                            + old(self).spec_outstanding()[0].spec_seq_len() ==> {
                        &&& final(self).spec_rto() == final(self).spec_initial_rto()
                        &&& final(self).spec_consq_retxs() == 0
                    })
                    &&& final(self).spec_consq_retxs() <= old(self).spec_consq_retxs()
                    &&& final(self).spec_rto() <= old(self).spec_rto()
                    &&& final(self).spec_initial_rto() == old(self).spec_initial_rto()
                    &&& final(self).spec_earliest() >= old(self).spec_earliest()
                    &&& (a == old(self).spec_next_seqno()
                        ==> final(self).spec_earliest() >= a)
                    &&& final(self).spec_isn() == old(self).spec_isn()
                    &&& final(self).spec_stream().spec_input_ended()
                        == old(self).spec_stream().spec_input_ended()
                    &&& final(self).spec_stream().spec_error()
                        == old(self).spec_stream().spec_error()
                })
            }),
    {
        let abs: u64 = WrappingU32::unwrap(ackno, &self.isn, self.next_seqno);
        let mut valid = abs <= self.next_seqno;
        if valid && self.segments_outstanding.len() > 0 {
            let front_abs: u64 = WrappingU32::unwrap(
                &self.segments_outstanding[0].header.seq_no,
                &self.isn,
                self.next_seqno,
            );
            proof {
                let e = old(self).spec_earliest();
                assert(self.outstanding_abs@[0]
                    == self.next_seqno - sum_seq_len(self.segments_outstanding@.skip(0)));
                assert(self.segments_outstanding@.skip(0) =~= self.segments_outstanding@);
                assert(self.outstanding_abs@[0] == e);
                assert(self.segments_outstanding@[0].header.seq_no.spec_raw()
                    == wrap_spec(e, self.spec_isn()));
                lemma_unwrap_wrap_near(e as u64, self.spec_isn(), self.next_seqno);
                assert(front_abs == e);
            }
            if abs < front_abs {
                valid = false;
            }
        }
        if !valid {
            return false;
        }
        self.receiver_window_size = window_size;
        let ghost n0 = self.next_seqno as int;
        let ghost rto0 = self.retx_timeout as int;
        let ghost consq0 = self.consq_retxs as int;
        let ghost e0 = self.spec_earliest();
        proof {
            if self.segments_outstanding@.len() > 0 {
                lemma_sum_elem(self.segments_outstanding@, 0);
            }
        }
        loop
            invariant
                self.wf(),
                self.next_seqno as int == n0,
                abs as int <= n0,
                self.spec_earliest() >= e0,
                self.spec_rto() <= rto0,
                self.spec_rto() >= self.spec_initial_rto(),
                self.spec_initial_rto() == old(self).spec_initial_rto(),
                self.spec_consq_retxs() <= consq0,
                self.spec_window() == window_size,
                self.spec_isn() == old(self).spec_isn(),
                self.spec_stream() == old(self).spec_stream(),
                self.spec_state() == old(self).spec_state(),
                abs as int == n0 ==> (self.spec_outstanding().len() == 0
                    || self.spec_earliest() + self.spec_outstanding()[0].spec_seq_len()
                        <= abs as int),
                self.spec_outstanding().len() <= old(self).spec_outstanding().len(),
                self.spec_outstanding().len() == old(self).spec_outstanding().len()
                    ==> self.spec_outstanding() == old(self).spec_outstanding()
                        && self.spec_earliest() == e0,
                self.spec_outstanding().len() < old(self).spec_outstanding().len()
                    ==> self.spec_rto() == self.spec_initial_rto()
                        && self.spec_consq_retxs() == 0,
            ensures
                self.spec_outstanding().len() == 0
                    || self.spec_earliest()
                        + self.spec_outstanding()[0].spec_seq_len() > abs as int,
                old(self).spec_outstanding().len() > 0
                    && abs as int >= e0 + old(self).spec_outstanding()[0].spec_seq_len()
                    ==> self.spec_rto() == self.spec_initial_rto()
                        && self.spec_consq_retxs() == 0,
            decreases self.segments_outstanding@.len(),
        {
            if self.segments_outstanding.len() == 0 {
                break;
            }
            proof {
                lemma_sum_elem(self.segments_outstanding@, 0);
            }
            let flen = self.segments_outstanding[0].length_in_sequence_space();
            let fstart: u64 = self.next_seqno - (self.bytes_in_flight as u64);
            if fstart + (flen as u64) > abs {
                proof {
                    if self.spec_outstanding().len() == old(self).spec_outstanding().len() {
                        assert(self.spec_earliest() == e0);
                        assert(self.spec_outstanding()[0]
                            == old(self).spec_outstanding()[0]);
                    }
                }
                break;
            }
            let ghost outs_pre = self.segments_outstanding@;
            let ghost abs_pre = self.outstanding_abs@;
            let _ = self.segments_outstanding.pop_front();
            self.bytes_in_flight = self.bytes_in_flight - flen;
            self.timer = 0;
            self.retx_timeout = self.initial_retx_timeout;
            self.consq_retxs = 0;
            self.outstanding_abs = Ghost(self.outstanding_abs@.drop_first());
            if self.segments_outstanding.len() == 0 {
                self.timer_running = false;
            }
            proof {
                let outs = self.segments_outstanding@;
                assert(outs =~= outs_pre.skip(1));
                assert(outs_pre.drop_first() =~= outs_pre.skip(1));
                assert(sum_seq_len(outs) == sum_seq_len(outs_pre) - outs_pre[0].spec_seq_len());
                assert forall|i: int| 0 <= i < outs.len()
                    implies (#[trigger] self.outstanding_abs@[i])
                        == self.next_seqno - sum_seq_len(outs.skip(i)) by {
                    assert(self.outstanding_abs@[i] == abs_pre[i + 1]);
                    assert(outs.skip(i) =~= outs_pre.skip(i + 1));
                }
                assert forall|i: int| 0 <= i < outs.len()
                    implies (#[trigger] outs[i]).header.seq_no.spec_raw()
                        == wrap_spec(self.outstanding_abs@[i], self.spec_isn())
                        && outs[i].wf() && outs[i].spec_seq_len() >= 1 by {
                    assert(outs[i] == outs_pre[i + 1]);
                    assert(self.outstanding_abs@[i] == abs_pre[i + 1]);
                }
                if outs.len() > 0 {
                    lemma_sum_elem(outs, 0);
                }
            }
        }
        if self.bytes_in_flight == 0 {
            self.timer_running = false;
        }
        proof {
            self.lemma_wf();
        }
        let ghost mid = *self;
        self.fill_window();
        proof {
            lemma_sum_nonneg(
                final(self).spec_outstanding().skip(mid.spec_outstanding().len() as int),
            );
            lemma_sum_nonneg(
                final(self).spec_segments_out().skip(mid.spec_segments_out().len() as int),
            );
            if abs as int == n0 {
                assert(mid.spec_outstanding().len() == 0) by {
                    if mid.spec_outstanding().len() > 0 {
                        lemma_sum_elem(mid.spec_outstanding(), 0);
                    }
                }
                assert(mid.spec_earliest() == n0);
            }
            assert(final(self).spec_next_seqno() - mid.spec_next_seqno()
                == final(self).spec_bytes_in_flight() - mid.spec_bytes_in_flight());
            final(self).lemma_wf();
            assert(final(self).spec_earliest() == mid.spec_earliest());
            if mid.spec_outstanding().len() > 0 {
                assert(final(self).spec_outstanding()
                    .take(mid.spec_outstanding().len() as int).len()
                    == mid.spec_outstanding().len());
                assert(final(self).spec_outstanding().len() >= mid.spec_outstanding().len());
                assert(final(self).spec_outstanding()[0] == final(self).spec_outstanding()
                    .take(mid.spec_outstanding().len() as int)[0]);
                assert(final(self).spec_outstanding()[0] == mid.spec_outstanding()[0]);
            } else {
                assert(final(self).spec_outstanding().len() > 0
                    ==> final(self).spec_outstanding()[0].spec_seq_len() >= 1);
            }
        }
        true
    }

    /// Advances the retransmission timer; when it expires, retransmits
    /// the earliest outstanding segment, doubles the timeout and counts
    /// the retransmission (unless the window is closed and the segment
    /// is not a SYN), and restarts the timer. The timeout and the
    /// retransmission count never decrease here.
    pub fn tick(&mut self, ms_since_last_tick: Milliseconds)
        requires
            old(self).wf(),
        ensures
            final(self).wf(),
            final(self).spec_rto() >= old(self).spec_rto(),
            final(self).spec_consq_retxs() >= old(self).spec_consq_retxs(),
            !old(self).spec_timer_running() ==> *final(self) == *old(self),
            old(self).spec_timer_running()
                && old(self).spec_timer() + ms_since_last_tick.0 < old(self).spec_rto() ==> {
                &&& final(self).spec_timer()
                    == old(self).spec_timer() + ms_since_last_tick.0
                &&& final(self).spec_segments_out() == old(self).spec_segments_out()
                &&& final(self).spec_outstanding() == old(self).spec_outstanding()
                &&& final(self).spec_consq_retxs() == old(self).spec_consq_retxs()
                &&& final(self).spec_rto() == old(self).spec_rto()
                &&& final(self).spec_next_seqno() == old(self).spec_next_seqno()
                &&& final(self).spec_bytes_in_flight() == old(self).spec_bytes_in_flight()
                &&& final(self).spec_stream() == old(self).spec_stream()
                &&& final(self).spec_state() == old(self).spec_state()
            },
            old(self).spec_timer_running()
                && old(self).spec_timer() + ms_since_last_tick.0 >= old(self).spec_rto() ==> {
                &&& final(self).spec_segments_out() == old(self).spec_segments_out().push(
                    final(self).spec_segments_out().last(),
                )
                &&& seg_like(
                    final(self).spec_segments_out().last(),
                    old(self).spec_outstanding()[0],
                )
                &&& final(self).spec_outstanding() == old(self).spec_outstanding()
                &&& final(self).spec_timer() == 0
                &&& final(self).spec_timer_running()
                &&& ((old(self).spec_window() > 0
                        || old(self).spec_outstanding()[0].header.syn) ==> {
                    &&& final(self).spec_consq_retxs() == vstd::math::min(
                        old(self).spec_consq_retxs() + 1, usize::MAX as int,
                    )
                    &&& final(self).spec_rto() == vstd::math::min(
                        2 * old(self).spec_rto(), u64::MAX as int,
                    )
                })
                &&& (!(old(self).spec_window() > 0
                        || old(self).spec_outstanding()[0].header.syn) ==> {
                    &&& final(self).spec_consq_retxs() == old(self).spec_consq_retxs()
                    &&& final(self).spec_rto() == old(self).spec_rto()
                })
                &&& final(self).spec_next_seqno() == old(self).spec_next_seqno()
                &&& final(self).spec_bytes_in_flight() == old(self).spec_bytes_in_flight()
                &&& final(self).spec_stream() == old(self).spec_stream()
                &&& final(self).spec_state() == old(self).spec_state()
                &&& final(self).spec_window() == old(self).spec_window()
            },
    {
        if !self.timer_running {
            return;
        }
        let e: u64 = if ms_since_last_tick.0 > u64::MAX - self.timer {
            u64::MAX
        } else {
            self.timer + ms_since_last_tick.0
        };
        self.timer = e;
        if e < self.retx_timeout {
            return;
        }
        let front = self.segments_outstanding[0].clone();
        let front_syn = front.header.syn;
        self.segments_out.push_back(front);
        if self.receiver_window_size > 0 || front_syn {
            self.consq_retxs = if self.consq_retxs == usize::MAX {
                usize::MAX
            } else {
                self.consq_retxs + 1
            };
            self.retx_timeout = if self.retx_timeout > u64::MAX / 2 {
                u64::MAX
            } else {
                self.retx_timeout * 2
            };
        }
        self.timer = 0;
        proof {
            assert(final(self).spec_segments_out()
                =~= old(self).spec_segments_out().push(final(self).spec_segments_out().last()));
        }
    }

    /// Adopts `state`: a different Ok replaces an Ok, an Err always
    /// replaces, and nothing else changes the stored state.
    pub fn set_state(&mut self, state: Result<SenderState, TCPConnectionError>)
        ensures
            final(self).spec_state() == spec_set_sender_state(old(self).spec_state(), state),
            final(self).spec_initial_rto() == old(self).spec_initial_rto(),
            final(self).spec_timer_running() == old(self).spec_timer_running(),
            final(self).spec_timer() == old(self).spec_timer(),
            final(self).spec_outstanding() == old(self).spec_outstanding(),
            final(self).spec_segments_out() == old(self).spec_segments_out(),
            final(self).spec_next_seqno() == old(self).spec_next_seqno(),
            final(self).spec_bytes_in_flight() == old(self).spec_bytes_in_flight(),
            final(self).spec_stream() == old(self).spec_stream(),
            final(self).spec_rto() == old(self).spec_rto(),
            final(self).spec_consq_retxs() == old(self).spec_consq_retxs(),
            final(self).spec_isn() == old(self).spec_isn(),
            final(self).spec_window() == old(self).spec_window(),
            old(self).wf() ==> final(self).wf(),
    {
        let take = match (&state, &self.state) {
            (Ok(targ), Ok(curr)) => targ != curr,
            (Err(_), _) => true,
            _ => false,
        };
        if take {
            self.state = state;
        }
    }

    /// Re-derives the stored state from the counters, as the lifecycle
    /// table defines it.
    pub fn renew_state(&mut self) -> (r: Result<SenderState, TCPConnectionError>)
        requires
            old(self).wf(),
        ensures
            final(self).wf(),
            r == final(self).spec_state(),
            final(self).spec_outstanding() == old(self).spec_outstanding(),
            final(self).spec_segments_out() == old(self).spec_segments_out(),
            final(self).spec_next_seqno() == old(self).spec_next_seqno(),
            final(self).spec_bytes_in_flight() == old(self).spec_bytes_in_flight(),
            final(self).spec_stream() == old(self).spec_stream(),
            final(self).spec_state() == spec_set_sender_state(
                old(self).spec_state(),
                if old(self).spec_stream().spec_error() {
                    Err::<SenderState, TCPConnectionError>(TCPConnectionError::SenderError)
                } else if old(self).spec_next_seqno() == 0 {
                    Ok::<SenderState, TCPConnectionError>(SenderState::Closed)
                } else if old(self).spec_next_seqno() == old(self).spec_bytes_in_flight() {
                    Ok::<SenderState, TCPConnectionError>(SenderState::SynSent)
                } else if !old(self).spec_stream().spec_eof() {
                    Ok::<SenderState, TCPConnectionError>(SenderState::SynAcked)
                } else if old(self).spec_next_seqno()
                    < old(self).spec_stream().spec_bytes_written() + 2 {
                    Ok::<SenderState, TCPConnectionError>(SenderState::SynAcked)
                } else if old(self).spec_bytes_in_flight() != 0 {
                    Ok::<SenderState, TCPConnectionError>(SenderState::FinSent)
                } else {
                    Ok::<SenderState, TCPConnectionError>(SenderState::FinAcked)
                },
            ),
    {
        let err = self.stream_in.error();
        let eof = self.stream_in.eof();
        let written = self.stream_in.bytes_written();
        if err {
            self.set_state(Err(TCPConnectionError::SenderError));
        } else if self.next_seqno == 0 {
            self.set_state(Ok(SenderState::Closed));
        } else if self.next_seqno == self.bytes_in_flight as u64 {
            self.set_state(Ok(SenderState::SynSent));
        } else if !eof {
            self.set_state(Ok(SenderState::SynAcked));
        } else if self.next_seqno < 2 || self.next_seqno - 2 < written as u64 {
            self.set_state(Ok(SenderState::SynAcked));
        } else if self.bytes_in_flight != 0 {
            self.set_state(Ok(SenderState::FinSent));
        } else {
            self.set_state(Ok(SenderState::FinAcked));
        }
        self.state
    }

    /// Fills the receiver's window: when still closed, sends the SYN;
    /// afterwards, pops stream bytes into segments of at most
    /// `MAX_PAYLOAD_SIZE`, appends the FIN once the stream has ended and
    /// the window has room for it, and treats an advertised zero window
    /// as one byte so the peer is probed.
    #[verifier::rlimit(100)]
    pub fn fill_window(&mut self)
        requires
            old(self).wf(),
            old(self).spec_next_seqno() + 0x2_0000 <= u64::MAX,
        ensures
            final(self).wf(),
            ({
                let appended = final(self).spec_segments_out().skip(
                    old(self).spec_segments_out().len() as int,
                );
                &&& final(self).spec_segments_out().len() >= old(self).spec_segments_out().len()
                &&& final(self).spec_segments_out().take(old(self).spec_segments_out().len() as int)
                    == old(self).spec_segments_out()
                &&& final(self).spec_outstanding().take(old(self).spec_outstanding().len() as int)
                    == old(self).spec_outstanding()
                &&& segs_like(
                    final(self).spec_outstanding().skip(old(self).spec_outstanding().len() as int),
                    appended,
                )
                &&& final(self).spec_outstanding().len()
                    == old(self).spec_outstanding().len() + appended.len()
                &&& final(self).spec_next_seqno()
                    == old(self).spec_next_seqno() + sum_seq_len(appended)
                &&& final(self).spec_bytes_in_flight()
                    == old(self).spec_bytes_in_flight() + sum_seq_len(appended)
                &&& concat_payloads(appended).len()
                    <= old(self).spec_stream().spec_buffer().len()
                &&& concat_payloads(appended) == old(self).spec_stream().spec_buffer().take(
                    concat_payloads(appended).len() as int,
                )
                &&& final(self).spec_stream().spec_buffer()
                    == old(self).spec_stream().spec_buffer().skip(
                        concat_payloads(appended).len() as int,
                    )
                &&& final(self).spec_stream().spec_bytes_written()
                    == old(self).spec_stream().spec_bytes_written()
                &&& final(self).spec_stream().spec_input_ended()
                    == old(self).spec_stream().spec_input_ended()
                &&& final(self).spec_stream().spec_error()
                    == old(self).spec_stream().spec_error()
                &&& final(self).spec_stream().spec_history()
                    == old(self).spec_stream().spec_history()
                &&& final(self).spec_stream().spec_capacity()
                    == old(self).spec_stream().spec_capacity()
                &&& final(self).spec_rto() == old(self).spec_rto()
                &&& final(self).spec_initial_rto() == old(self).spec_initial_rto()
                &&& final(self).spec_consq_retxs() == old(self).spec_consq_retxs()
                &&& final(self).spec_window() == old(self).spec_window()
                &&& final(self).spec_isn() == old(self).spec_isn()
                &&& (forall|i: int| 0 <= i < appended.len()
                    ==> !(#[trigger] appended[i]).header.rst && !appended[i].header.ack
                        && appended[i].payload@.len() <= MAX_PAYLOAD_SIZE
                        && appended[i].spec_seq_len() >= 1)
                &&& (old(self).spec_outstanding().len() > 0
                    && old(self).spec_outstanding()[0].header.syn ==> appended.len() == 0)
                &&& (forall|i: int| 0 <= i < appended.len()
                    ==> (#[trigger] appended[i]).header.seq_no.spec_raw() == wrap_spec(
                        old(self).spec_next_seqno() + sum_seq_len(appended.take(i)),
                        old(self).spec_isn(),
                    ))
                &&& (!old(self).spec_stream().spec_input_ended()
                    ==> forall|i: int| 0 <= i < appended.len()
                        ==> !(#[trigger] appended[i]).header.fin)
                &&& (!old(self).spec_stream().spec_input_ended()
                    && old(self).spec_state()
                        != Ok::<SenderState, TCPConnectionError>(SenderState::Closed)
                    ==> final(self).spec_state() == old(self).spec_state())
                &&& (forall|i: int| 0 <= i < appended.len()
                    ==> (#[trigger] appended[i]).header.syn
                        ==> old(self).spec_state()
                            == Ok::<SenderState, TCPConnectionError>(SenderState::Closed))
                &&& (old(self).spec_state()
                    == Ok::<SenderState, TCPConnectionError>(SenderState::Closed)
                    && old(self).spec_next_seqno() == 0 ==> {
                    &&& appended.len() == 1
                    &&& appended[0].header.syn
                    &&& !appended[0].header.fin
                    &&& appended[0].payload@.len() == 0
                    &&& appended[0].header.seq_no.spec_raw()
                        == wrap_spec(old(self).spec_next_seqno(), old(self).spec_isn())
                    &&& final(self).spec_state()
                        == Ok::<SenderState, TCPConnectionError>(SenderState::SynSent)
                })
                &&& ((old(self).spec_state()
                        == Ok::<SenderState, TCPConnectionError>(SenderState::SynAcked)
                    && (old(self).spec_outstanding().len() == 0
                        || !old(self).spec_outstanding()[0].header.syn)
                    && old(self).spec_bytes_in_flight() < spec_effective_window(
                        old(self).spec_window(),
                    )) ==> {
                    &&& (old(self).spec_stream().spec_buffer_size() > 0
                        || old(self).spec_stream().spec_eof() ==> appended.len() >= 1)
                    &&& (old(self).spec_stream().spec_eof() ==> {
                        &&& appended.len() == 1
                        &&& appended[0].header.fin
                        &&& appended[0].payload@.len() == 0
                        &&& final(self).spec_state()
                            == Ok::<SenderState, TCPConnectionError>(SenderState::FinSent)
                    })
                    &&& (old(self).spec_stream().spec_buffer_size() > 0
                        && old(self).spec_window() == 0
                        && old(self).spec_bytes_in_flight() == 0 ==> {
                        &&& appended.len() == 1
                        &&& appended[0].spec_seq_len() == 1
                    })
                    &&& (final(self).spec_bytes_in_flight()
                            == spec_effective_window(old(self).spec_window())
                        || (final(self).spec_stream().spec_buffer_size() == 0
                            && (!final(self).spec_stream().spec_input_ended()
                                || final(self).spec_state()
                                    == Ok::<SenderState, TCPConnectionError>(
                                        SenderState::FinSent,
                                    ))))
                })
            }),
    {
        let ghost out0 = self.segments_out@;
        let ghost outs0 = self.segments_outstanding@;
        let ghost st0 = self.stream_in;
        let ghost state0 = self.state;
        let ghost b0 = self.bytes_in_flight as int;
        let is_closed = match &self.state {
            Ok(SenderState::Closed) => true,
            _ => false,
        };
        if is_closed {
            if self.next_seqno != 0 {
                proof {
                    lemma_fill_nothing(*old(self), *self);
                }
                return;
            }
            proof {
                if self.segments_outstanding@.len() > 0 {
                    lemma_sum_elem(self.segments_outstanding@, 0);
                }
            }
            self.set_state(Ok(SenderState::SynSent));
            let mut seg = TCPSegment::new_empty();
            seg.header.syn = true;
            self.send_segment(seg);
            proof {
                let appended = final(self).spec_segments_out().skip(out0.len() as int);
                assert(sum_seq_len(Seq::<TCPSegment>::empty()) == 0);
                assert(concat_payloads(Seq::<TCPSegment>::empty()) =~= Seq::<u8>::empty());
                assert(appended =~= seq![final(self).spec_segments_out().last()]);
                assert(appended[0] == final(self).spec_segments_out().last());
                assert(appended.drop_first() =~= Seq::<TCPSegment>::empty());
                assert(appended[0].spec_seq_len() == 1);
                assert(sum_seq_len(appended) == 1);
                assert(concat_payloads(appended) =~= Seq::<u8>::empty());
                assert(concat_payloads(appended)
                    =~= st0.spec_buffer().take(concat_payloads(appended).len() as int));
                assert(st0.spec_buffer() =~= st0.spec_buffer().skip(0));
                assert(final(self).spec_segments_out().take(out0.len() as int) =~= out0);
                assert(final(self).spec_outstanding().take(outs0.len() as int) =~= outs0);
                let oapp = final(self).spec_outstanding().skip(outs0.len() as int);
                assert(oapp =~= seq![final(self).spec_outstanding().last()]);
                assert(oapp[0] == final(self).spec_outstanding().last());
                assert(segs_like(oapp, appended));
                assert(appended.take(0) =~= Seq::<TCPSegment>::empty());
                assert(sum_seq_len(appended.take(0)) == 0);
            }
            return;
        }
        let is_err = match &self.state {
            Err(_) => true,
            _ => false,
        };
        if is_err {
            proof {
                lemma_fill_nothing(*old(self), *self);
            }
            return;
        }
        if self.segments_outstanding.len() > 0 && self.segments_outstanding[0].header.syn {
            proof {
                lemma_fill_nothing(*old(self), *self);
            }
            return;
        }
        let is_fin_done = match &self.state {
            Ok(SenderState::FinSent) | Ok(SenderState::FinAcked) => true,
            _ => false,
        };
        if self.stream_in.buffer_empty() && !self.stream_in.input_ended() {
            proof {
                lemma_fill_nothing(*old(self), *self);
            }
            return;
        }
        if is_fin_done {
            proof {
                lemma_fill_nothing(*old(self), *self);
            }
            return;
        }
        let window: usize = if self.receiver_window_size == 0 {
            1
        } else {
            self.receiver_window_size as usize
        };
        if self.bytes_in_flight >= window {
            proof {
                lemma_fill_nothing(*old(self), *self);
            }
            return;
        }
        let ghost win = window as int;
        let mut free: usize = window - self.bytes_in_flight;
        proof {
            let app0 = self.spec_outstanding().skip(outs0.len() as int);
            assert(app0 =~= Seq::<TCPSegment>::empty());
            assert(sum_seq_len(app0) == 0);
            assert(concat_payloads(app0) =~= Seq::<u8>::empty());
            assert(st0.spec_buffer().take(0) =~= Seq::<u8>::empty());
            assert(st0.spec_buffer().skip(0) =~= st0.spec_buffer());
            assert(self.spec_segments_out().skip(out0.len() as int)
                =~= Seq::<TCPSegment>::empty());
            assert(self.spec_segments_out().take(out0.len() as int) =~= out0);
            assert(self.spec_outstanding().take(outs0.len() as int) =~= outs0);
        }
        while free > 0
            invariant
                self.wf(),
                old(self).wf(),
                win == spec_effective_window(old(self).spec_window()),
                0 < win <= 0x1_0000,
                free == win - self.spec_bytes_in_flight(),
                old(self).spec_next_seqno() + 0x2_0000 <= u64::MAX,
                out0 == old(self).spec_segments_out(),
                outs0 == old(self).spec_outstanding(),
                st0 == old(self).spec_stream(),
                state0 == old(self).spec_state(),
                b0 == old(self).spec_bytes_in_flight(),
                b0 < win,
                st0.spec_buffer_size() == 0 ==> st0.spec_input_ended(),
                self.spec_segments_out().len() >= out0.len(),
                self.spec_segments_out().take(out0.len() as int) == out0,
                self.spec_outstanding().len() >= outs0.len(),
                self.spec_outstanding().take(outs0.len() as int) == outs0,
                self.spec_outstanding().len() - outs0.len()
                    == self.spec_segments_out().len() - out0.len(),
                segs_like(
                    self.spec_outstanding().skip(outs0.len() as int),
                    self.spec_segments_out().skip(out0.len() as int),
                ),
                self.spec_next_seqno() == old(self).spec_next_seqno()
                    + sum_seq_len(self.spec_outstanding().skip(outs0.len() as int)),
                self.spec_bytes_in_flight() == b0
                    + sum_seq_len(self.spec_outstanding().skip(outs0.len() as int)),
                concat_payloads(self.spec_outstanding().skip(outs0.len() as int)).len()
                    <= st0.spec_buffer().len(),
                concat_payloads(self.spec_outstanding().skip(outs0.len() as int))
                    == st0.spec_buffer().take(
                        concat_payloads(
                            self.spec_outstanding().skip(outs0.len() as int),
                        ).len() as int,
                    ),
                self.spec_stream().spec_buffer() == st0.spec_buffer().skip(
                    concat_payloads(self.spec_outstanding().skip(outs0.len() as int)).len() as int,
                ),
                self.spec_stream().spec_bytes_written() == st0.spec_bytes_written(),
                self.spec_stream().spec_input_ended() == st0.spec_input_ended(),
                self.spec_stream().spec_error() == st0.spec_error(),
                self.spec_stream().spec_capacity() == st0.spec_capacity(),
                self.spec_stream().spec_history() == st0.spec_history(),
                self.spec_rto() == old(self).spec_rto(),
                self.spec_initial_rto() == old(self).spec_initial_rto(),
                self.spec_consq_retxs() == old(self).spec_consq_retxs(),
                self.spec_window() == old(self).spec_window(),
                self.spec_isn() == old(self).spec_isn(),
                forall|i: int| outs0.len() <= i < self.spec_outstanding().len()
                    ==> !(#[trigger] self.spec_outstanding()[i]).header.syn
                        && !self.spec_outstanding()[i].header.rst
                        && !self.spec_outstanding()[i].header.ack
                        && self.spec_outstanding()[i].payload@.len() <= MAX_PAYLOAD_SIZE,
                self.spec_state() == state0 || self.spec_state()
                    == Ok::<SenderState, TCPConnectionError>(SenderState::FinSent),
                state0 != Ok::<SenderState, TCPConnectionError>(SenderState::FinSent)
                    && state0 != Ok::<SenderState, TCPConnectionError>(SenderState::FinAcked)
                    && !(state0 is Err),
                (self.spec_state() != state0) <==> (spec_appended_fin(
                    self.spec_outstanding().skip(outs0.len() as int),
                ) && state0 != Ok::<SenderState, TCPConnectionError>(SenderState::FinSent)),
                !st0.spec_input_ended() ==> self.spec_state() == state0
                    && (forall|i: int| outs0.len() <= i < self.spec_outstanding().len()
                        ==> !(#[trigger] self.spec_outstanding()[i]).header.fin),
                st0.spec_eof() ==> (
                    (self.spec_outstanding().len() == outs0.len() && self.spec_state() == state0)
                    || (self.spec_outstanding().len() == outs0.len() + 1
                        && self.spec_outstanding().last().header.fin
                        && self.spec_outstanding().last().payload@.len() == 0
                        && self.spec_state()
                            == Ok::<SenderState, TCPConnectionError>(SenderState::FinSent))
                ),
            ensures
                self.spec_outstanding().len() > outs0.len(),
                free == 0 || (self.spec_stream().spec_buffer_size() == 0
                    && (!self.spec_stream().spec_input_ended() || self.spec_state()
                        == Ok::<SenderState, TCPConnectionError>(SenderState::FinSent))),
            decreases free,
        {
            let ghost app_pre = self.spec_outstanding().skip(outs0.len() as int);
            let ghost sapp_pre = self.spec_segments_out().skip(out0.len() as int);
            let buf_sz = self.stream_in.buffer_size();
            let mut payload_len: usize = if free < MAX_PAYLOAD_SIZE {
                free
            } else {
                MAX_PAYLOAD_SIZE
            };
            if buf_sz < payload_len {
                payload_len = buf_sz;
            }
            let payload = self.stream_in.read(payload_len);
            let mut seg = TCPSegment {
                header: crate::tcp_header::TCPHeader::default(),
                payload: crate::buffer::Buffer::new(payload),
            };
            let mut fin_now = false;
            let at_eof = self.stream_in.eof();
            let not_fin_yet = match &self.state {
                Ok(SenderState::FinSent) | Ok(SenderState::FinAcked) => false,
                _ => true,
            };
            if at_eof && free > payload_len && not_fin_yet {
                seg.header.fin = true;
                fin_now = true;
                self.set_state(Ok(SenderState::FinSent));
            }
            let len: usize = payload_len + (if fin_now { 1 } else { 0 });
            if len == 0 {
                proof {
                    assert(self.spec_stream().spec_buffer()
                        =~= st0.spec_buffer().skip(concat_payloads(app_pre).len() as int));
                    // An empty step can only mean the stream was empty and
                    // not yet at EOF, which the entry guards exclude unless
                    // something was already sent this call.
                    if app_pre.len() == 0 {
                        assert(sum_seq_len(app_pre) == 0);
                        assert(concat_payloads(app_pre).len() == 0);
                        assert(self.spec_stream().spec_buffer() =~= st0.spec_buffer());
                        assert(buf_sz == 0);
                        assert(st0.spec_input_ended());
                        assert(at_eof);
                        assert(self.spec_state() == state0);
                        assert(not_fin_yet);
                        assert(free > payload_len);
                        assert(fin_now);
                        assert(false);
                    }
                }
                break;
            }
            self.send_segment(seg);
            proof {
                let app_now = self.spec_outstanding().skip(outs0.len() as int);
                let newseg = self.spec_outstanding().last();
                assert(app_now =~= app_pre.push(newseg));
                lemma_sum_push(app_pre, newseg);
                assert(self.spec_segments_out().take(out0.len() as int) =~= out0);
                assert(self.spec_outstanding().take(outs0.len() as int) =~= outs0);
                let sapp_now = self.spec_segments_out().skip(out0.len() as int);
                assert(sapp_now =~= sapp_pre.push(self.spec_segments_out().last()));
                assert forall|i: int| 0 <= i < app_now.len()
                    implies seg_like(#[trigger] app_now[i], sapp_now[i]) by {
                    if i < app_pre.len() {
                        assert(app_now[i] == app_pre[i]);
                        assert(sapp_now[i] == sapp_pre[i]);
                    }
                }
                assert(concat_payloads(app_now) =~= concat_payloads(app_pre) + newseg.payload@);
                assert(newseg.payload@ == st0.spec_buffer().skip(
                    concat_payloads(app_pre).len() as int,
                ).take(payload_len as int));
                lemma_take_skip_take(
                    st0.spec_buffer(),
                    concat_payloads(app_pre).len() as int,
                    payload_len as int,
                );
                assert(concat_payloads(app_now) =~= st0.spec_buffer().take(
                    concat_payloads(app_now).len() as int,
                ));
                assert(self.spec_stream().spec_buffer() =~= st0.spec_buffer().skip(
                    concat_payloads(app_now).len() as int,
                ));
                // FIN bookkeeping.
                if fin_now {
                    assert(newseg.header.fin);
                    assert(app_now[app_now.len() - 1].header.fin);
                    assert(spec_appended_fin(app_now));
                } else {
                    if self.spec_state() == state0 {
                        assert(!spec_appended_fin(app_pre));
                        assert forall|i: int| 0 <= i < app_now.len()
                            implies !(#[trigger] app_now[i]).header.fin by {
                            if i < app_pre.len() {
                                assert(app_now[i] == app_pre[i]);
                            } else {
                                assert(app_now[i] == newseg);
                            }
                        }
                        assert(!spec_appended_fin(app_now));
                    } else {
                        assert(spec_appended_fin(app_pre));
                        let wi = choose|i: int| 0 <= i < app_pre.len()
                            && (#[trigger] app_pre[i]).header.fin;
                        assert(app_now[wi] == app_pre[wi]);
                        assert(spec_appended_fin(app_now));
                    }
                }
                // EOF bookkeeping.
                if st0.spec_eof() {
                    assert(st0.spec_buffer().len() == 0);
                    assert(concat_payloads(app_pre) =~= Seq::<u8>::empty());
                    assert(payload_len == 0);
                    assert(fin_now);
                    assert(app_pre.len() == 0);
                    assert(app_now.len() == 1);
                    assert(newseg.payload@.len() == 0);
                    assert(self.spec_outstanding().len() == outs0.len() + 1);
                    assert(self.spec_outstanding().last().header.fin);
                    assert(self.spec_state()
                        == Ok::<SenderState, TCPConnectionError>(SenderState::FinSent));
                }
                assert((self.spec_state() != state0) <==> (spec_appended_fin(app_now)
                    && state0 != Ok::<SenderState, TCPConnectionError>(SenderState::FinSent)));
            }
            free = free - len;
        }
        proof {
            let oapp = self.spec_outstanding().skip(outs0.len() as int);
            let sapp = self.spec_segments_out().skip(out0.len() as int);
            lemma_sum_like(oapp, sapp);
            assert forall|i: int| 0 <= i < sapp.len()
                implies !(#[trigger] sapp[i]).header.syn && !sapp[i].header.rst
                    && !sapp[i].header.ack
                    && sapp[i].payload@.len() <= MAX_PAYLOAD_SIZE
                    && sapp[i].spec_seq_len() >= 1 by {
                assert(seg_like(oapp[i], sapp[i]));
                assert(oapp[i] == self.spec_outstanding()[outs0.len() + i]);
            }
            if !st0.spec_input_ended() {
                assert forall|i: int| 0 <= i < sapp.len()
                    implies !(#[trigger] sapp[i]).header.fin by {
                    assert(seg_like(oapp[i], sapp[i]));
                    assert(oapp[i] == self.spec_outstanding()[outs0.len() + i]);
                }
            }
            assert forall|i: int| 0 <= i < sapp.len()
                implies (#[trigger] sapp[i]).header.seq_no.spec_raw() == wrap_spec(
                    old(self).spec_next_seqno() + sum_seq_len(sapp.take(i)),
                    old(self).spec_isn(),
                ) by {
                assert(seg_like(oapp[i], sapp[i]));
                let j = outs0.len() as int + i;
                assert(self.outstanding_abs@[j]
                    == self.next_seqno - sum_seq_len(self.spec_outstanding().skip(j)));
                assert((#[trigger] self.spec_outstanding()[j]).header.seq_no.spec_raw()
                    == wrap_spec(self.outstanding_abs@[j], self.spec_isn()));
                assert(oapp[i] == self.spec_outstanding()[j]);
                assert(self.spec_outstanding().skip(j) =~= oapp.skip(i));
                assert(oapp.take(i) + oapp.skip(i) =~= oapp);
                lemma_sum_concat(oapp.take(i), oapp.skip(i));
                assert forall|k: int| 0 <= k < i
                    implies seg_like(#[trigger] oapp.take(i)[k], sapp.take(i)[k]) by {
                    assert(oapp.take(i)[k] == oapp[k]);
                    assert(sapp.take(i)[k] == sapp[k]);
                }
                lemma_sum_like(oapp.take(i), sapp.take(i));
            }
            if state0 == Ok::<SenderState, TCPConnectionError>(SenderState::SynAcked)
                && (outs0.len() == 0 || !outs0[0].header.syn)
                && b0 < win {
                if st0.spec_buffer_size() > 0 && old(self).spec_window() == 0 && b0 == 0 {
                    assert(sum_seq_len(oapp) <= 1);
                    assert(oapp.len() >= 1);
                    assert forall|i: int| 0 <= i < oapp.len()
                        implies (#[trigger] oapp[i]).spec_seq_len() >= 1 by {
                        assert(oapp[i] == self.spec_outstanding()[outs0.len() + i]);
                    }
                    lemma_sum_first_rest(oapp);
                    assert(sapp.len() == 1);
                    assert(seg_like(oapp[0], sapp[0]));
                    assert(sapp[0].spec_seq_len() == 1);
                }
                if st0.spec_eof() {
                    assert(oapp.len() == 1);
                    assert(oapp[0] == self.spec_outstanding().last());
                    assert(seg_like(oapp[0], sapp[0]));
                    assert(sapp[0].header.fin);
                    assert(sapp[0].payload@.len() == 0);
                }
            }
        }
    }


}

/// Segments without SYN or FIN occupy exactly their payload bytes.
pub proof fn lemma_sum_payloads_only(s: Seq<TCPSegment>)
    requires
        forall|i: int| 0 <= i < s.len()
            ==> !(#[trigger] s[i]).header.syn && !s[i].header.fin,
    ensures
        sum_seq_len(s) == concat_payloads(s).len(),
    decreases s.len(),
{
    if s.len() > 0 {
        assert forall|i: int| 0 <= i < s.drop_first().len()
            implies !(#[trigger] s.drop_first()[i]).header.syn
                && !s.drop_first()[i].header.fin by {
            assert(s.drop_first()[i] == s[i + 1]);
        }
        lemma_sum_payloads_only(s.drop_first());
    }
}

/// Two runs whose segments carry the same payloads concatenate to the
/// same bytes.
pub proof fn lemma_concat_same_payloads(a: Seq<TCPSegment>, b: Seq<TCPSegment>)
    requires
        a.len() == b.len(),
        forall|i: int| 0 <= i < a.len() ==> (#[trigger] a[i]).payload@ == b[i].payload@,
    ensures
        concat_payloads(a) == concat_payloads(b),
    decreases a.len(),
{
    if a.len() > 0 {
        assert forall|i: int| 0 <= i < a.drop_first().len()
            implies (#[trigger] a.drop_first()[i]).payload@
                == b.drop_first()[i].payload@ by {
            assert(a.drop_first()[i] == a[i + 1]);
            assert(b.drop_first()[i] == b[i + 1]);
        }
        lemma_concat_same_payloads(a.drop_first(), b.drop_first());
        assert(concat_payloads(a) =~= concat_payloads(b));
    }
}

/// The advertised window with a zero treated as one byte for probing.
pub open spec fn spec_effective_window(win: int) -> int {
    if win == 0 { 1 } else { win }
}

/// True iff some segment of the run carries FIN.
pub open spec fn spec_appended_fin(s: Seq<TCPSegment>) -> bool {
    exists|i: int| 0 <= i < s.len() && (#[trigger] s[i]).header.fin
}

/// A state in which `fill_window` produces nothing keeps everything as
/// it was; used on each early return.
proof fn lemma_fill_nothing(a: TCPSender, b: TCPSender)
    requires
        a == b,
        a.wf(),
    ensures
        b.spec_segments_out().skip(a.spec_segments_out().len() as int)
            =~= Seq::<TCPSegment>::empty(),
        b.spec_outstanding().skip(a.spec_outstanding().len() as int)
            =~= Seq::<TCPSegment>::empty(),
        sum_seq_len(Seq::<TCPSegment>::empty()) == 0,
        concat_payloads(Seq::<TCPSegment>::empty()) =~= Seq::<u8>::empty(),
        b.spec_segments_out().take(a.spec_segments_out().len() as int)
            =~= a.spec_segments_out(),
        b.spec_outstanding().take(a.spec_outstanding().len() as int)
            =~= a.spec_outstanding(),
        a.spec_stream().spec_buffer().take(0) =~= Seq::<u8>::empty(),
        a.spec_stream().spec_buffer().skip(0) =~= a.spec_stream().spec_buffer(),
{
}

/// A run whose total sequence length is at most one and whose segments
/// each occupy at least one unit has at most one segment.
proof fn lemma_sum_first_rest(s: Seq<TCPSegment>)
    requires
        s.len() >= 1,
        sum_seq_len(s) <= 1,
        forall|i: int| 0 <= i < s.len() ==> (#[trigger] s[i]).spec_seq_len() >= 1,
    ensures
        s.len() == 1,
        s[0].spec_seq_len() == sum_seq_len(s),
{
    lemma_sum_ge_len(s);
    assert(s.drop_first() =~= s.skip(1));
    lemma_sum_nonneg(s.drop_first());
}

proof fn lemma_sum_ge_len(s: Seq<TCPSegment>)
    requires
        forall|i: int| 0 <= i < s.len() ==> (#[trigger] s[i]).spec_seq_len() >= 1,
    ensures
        sum_seq_len(s) >= s.len(),
    decreases s.len(),
{
    if s.len() > 0 {
        assert forall|i: int| 0 <= i < s.drop_first().len()
            implies (#[trigger] s.drop_first()[i]).spec_seq_len() >= 1 by {
            assert(s.drop_first()[i] == s[i + 1]);
        }
        lemma_sum_ge_len(s.drop_first());
    }
}

/// Taking `m` more bytes after the first `k` extends the taken prefix:
/// `take(k) + skip(k).take(m) == take(k + m)`.
proof fn lemma_take_skip_take(s: Seq<u8>, k: int, m: int)
    requires
        0 <= k,
        0 <= m,
        k + m <= s.len(),
    ensures
        s.take(k) + s.skip(k).take(m) == s.take(k + m),
{
    assert(s.take(k) + s.skip(k).take(m) =~= s.take(k + m));
}

/// The state-adoption rule: a different Ok replaces an Ok, an Err
/// always replaces, anything else keeps the current state.
pub open spec fn spec_set_sender_state(
    curr: Result<SenderState, TCPConnectionError>,
    targ: Result<SenderState, TCPConnectionError>,
) -> Result<SenderState, TCPConnectionError> {
    match (targ, curr) {
        (Ok(t), Ok(c)) => if t != c { targ } else { curr },
        (Err(_), _) => targ,
        _ => curr,
    }
}

} // verus!
