//! The receiving side of a connection: captures the peer's initial
//! sequence number from its SYN, maps each segment's payload to absolute
//! stream indices, feeds the reassembler, and publishes the next
//! expected acknowledgment number and the advertised window.

use vstd::prelude::*;

verus! {

use crate::byte_stream::ByteStream;
use crate::stream_reassembler::{ReassemblerModel, StreamReassembler, spec_push, clip_empty};
use crate::tcp_segment::TCPSegment;
use crate::tcp_state::{ReceiverState, TCPConnectionError};
use crate::wrapping_integers::{WrappingU32, wrap_spec, unwrap_spec};
use vstd::math::min;

/// The receiver's transition on one segment: a SYN in Listen captures
/// the ISN and feeds the payload at index zero; a repeated SYN, and any
/// segment arriving before the SYN, leave everything unchanged;
/// otherwise the payload lands at `unwrap(seqno) - 1` and a FIN moves
/// SynRcvd on to FinRcvd.
pub open spec fn recv_step(
    pre_state: Result<ReceiverState, TCPConnectionError>,
    pre_isn: u32,
    pre_reasm: ReassemblerModel,
    post_state: Result<ReceiverState, TCPConnectionError>,
    post_isn: u32,
    post_reasm: ReassemblerModel,
    seg: TCPSegment,
) -> bool {
    let listen = pre_state == Ok::<ReceiverState, TCPConnectionError>(ReceiverState::Listen);
    if seg.header.syn && listen {
        &&& post_isn == seg.header.seq_no.spec_raw()
        &&& post_reasm == spec_push(pre_reasm, seg.payload@, 0, seg.header.fin)
        &&& post_state == Ok::<ReceiverState, TCPConnectionError>(
            if seg.header.fin { ReceiverState::FinRcvd } else { ReceiverState::SynRcvd },
        )
    } else if seg.header.syn || listen {
        post_state == pre_state && post_isn == pre_isn && post_reasm == pre_reasm
    } else {
        let abs = unwrap_spec(seg.header.seq_no.spec_raw(), pre_isn, pre_reasm.head as u64);
        if abs == 0 {
            post_state == pre_state && post_isn == pre_isn && post_reasm == pre_reasm
        } else {
            &&& post_isn == pre_isn
            &&& post_reasm == spec_push(pre_reasm, seg.payload@, abs - 1, seg.header.fin)
            &&& post_state == (
                if seg.header.fin && pre_state == Ok::<ReceiverState, TCPConnectionError>(
                    ReceiverState::SynRcvd,
                ) {
                    Ok::<ReceiverState, TCPConnectionError>(ReceiverState::FinRcvd)
                } else {
                    pre_state
                }
            )
        }
    }
}

pub struct TCPReceiver {
    reassembler: StreamReassembler,
    isn: WrappingU32,
    capacity: usize,
    state: Result<ReceiverState, TCPConnectionError>,
}

impl TCPReceiver {
    pub closed spec fn spec_reasm(&self) -> ReassemblerModel {
        self.reassembler.model()
    }

    pub closed spec fn spec_output(&self) -> ByteStream {
        self.reassembler.spec_output()
    }

    pub closed spec fn spec_isn(&self) -> u32 {
        self.isn.spec_raw()
    }

    pub closed spec fn spec_state(&self) -> Result<ReceiverState, TCPConnectionError> {
        self.state
    }

    pub closed spec fn spec_capacity(&self) -> int {
        self.capacity as int
    }

    pub closed spec fn wf(&self) -> bool {
        &&& self.reassembler.wf()
        &&& self.reassembler.spec_capacity() == self.capacity
    }

    /// The acknowledgment number owed to the peer: nothing before the
    /// SYN; past it, one past the highest assembled byte, plus one more
    /// once the FIN has arrived and everything before it is assembled.
    pub open spec fn spec_ackno(&self) -> Option<u32> {
        if self.spec_state() == Ok::<ReceiverState, TCPConnectionError>(ReceiverState::Listen) {
            None
        } else if self.spec_state()
            == Ok::<ReceiverState, TCPConnectionError>(ReceiverState::FinRcvd)
            && self.spec_reasm().pending.dom().is_empty() {
            Some(wrap_spec(self.spec_reasm().head + 2, self.spec_isn() as u32))
        } else {
            Some(wrap_spec(self.spec_reasm().head + 1, self.spec_isn() as u32))
        }
    }

    pub fn new(capacity: usize) -> (r: Self)
        ensures
            r.wf(),
            r.spec_capacity() == capacity,
            r.spec_state() == Ok::<ReceiverState, TCPConnectionError>(ReceiverState::Listen),
            r.spec_isn() == 0,
            r.spec_reasm().head == 0,
            r.spec_reasm().pending =~= Map::<int, u8>::empty(),
            r.spec_reasm().delivered =~= Seq::<u8>::empty(),
            !r.spec_reasm().eof_flag,
            !r.spec_reasm().out_ended,
            r.spec_reasm().out_read == 0,
            !r.spec_output().spec_error(),
            r.spec_output().spec_buffer_size() == 0,
            !r.spec_output().spec_input_ended(),
    {
        TCPReceiver {
            reassembler: StreamReassembler::new(capacity),
            isn: WrappingU32::new(0),
            capacity,
            state: Ok(ReceiverState::Listen),
        }
    }

    pub fn with_config(cfg: &crate::tcp_config::TCPConfig) -> (r: Self)
        ensures
            r.wf(),
            r.spec_capacity() == cfg.recv_capacity,
            r.spec_state() == Ok::<ReceiverState, TCPConnectionError>(ReceiverState::Listen),
            r.spec_isn() == 0,
            r.spec_reasm().head == 0,
            r.spec_reasm().pending =~= Map::<int, u8>::empty(),
            r.spec_reasm().delivered =~= Seq::<u8>::empty(),
            !r.spec_reasm().eof_flag,
            !r.spec_reasm().out_ended,
            r.spec_reasm().out_read == 0,
            !r.spec_output().spec_error(),
            r.spec_output().spec_buffer_size() == 0,
            !r.spec_output().spec_input_ended(),
    {
        Self::new(cfg.recv_capacity)
    }

    /// The next expected sequence number, wrapped, or `None` before the
    /// SYN has arrived.
    pub fn ackno(&self) -> (r: Option<WrappingU32>)
        requires
            self.wf(),
        ensures
            r is Some <==> self.spec_ackno() is Some,
            r is Some ==> r->0.spec_raw() == self.spec_ackno()->0,
    {
        let head = self.reassembler.head_index();
        let empty = self.reassembler.is_empty();
        let listen = match &self.state {
            Ok(ReceiverState::Listen) => true,
            _ => false,
        };
        let fin_done = match &self.state {
            Ok(ReceiverState::FinRcvd) => empty,
            _ => false,
        };
        if listen {
            None
        } else {
            let off: u64 = if fin_done { 2 } else { 1 };
            let low: u64 = (head as u64) % 0x1_0000_0000u64 + off;
            let r = WrappingU32::wrap(low, &self.isn);
            proof {
                lemma_wrap_mod_shift(head as int, off as int, self.isn.spec_raw() as u32);
            }
            Some(r)
        }
    }

    /// The advertised window: the room left in the inbound stream.
    pub fn win_size(&self) -> (r: usize)
        requires
            self.wf(),
        ensures
            r == self.spec_capacity() - self.spec_output().spec_buffer_size(),
    {
        proof {
            self.reassembler.lemma_wf_output();
        }
        self.capacity - self.reassembler.stream_out().buffer_size()
    }

    /// Relates the receiver to its inbound stream: facts a caller of
    /// `stream_out` may rely on.
    pub proof fn lemma_wf_output(&self)
        requires
            self.wf(),
        ensures
            self.spec_output().wf(),
            self.spec_output().spec_capacity() == self.spec_capacity(),
            self.spec_output().spec_bytes_written() == self.spec_reasm().head,
            self.spec_output().spec_history() == self.spec_reasm().delivered,
            self.spec_output().spec_bytes_read() == self.spec_reasm().out_read,
            self.spec_output().spec_input_ended() == self.spec_reasm().out_ended,
            crate::stream_reassembler::inv(self.spec_reasm()),
    {
        self.reassembler.lemma_wf_output();
    }

    /// The next absolute index the reassembler will deliver.
    pub fn head_index(&self) -> (r: usize)
        ensures
            r == self.spec_reasm().head,
    {
        self.reassembler.head_index()
    }

    /// The fixed capacity this receiver was created with.
    pub fn capacity(&self) -> (r: usize)
        ensures
            r == self.spec_capacity(),
    {
        self.capacity
    }

    pub fn unassembled_bytes(&self) -> (r: usize)
        requires
            self.wf(),
        ensures
            r == self.spec_reasm().pending.dom().len(),
            (r == 0) <==> self.spec_reasm().pending.dom().is_empty(),
    {
        self.reassembler.unassemble_bytes()
    }

    /// A read-only view of the inbound stream.
    pub fn stream_out(&self) -> (r: &ByteStream)
        ensures
            *r == self.spec_output(),
    {
        self.reassembler.stream_out()
    }

    /// Reads (pops) up to `len` bytes from the inbound stream.
    pub fn read_out(&mut self, len: usize) -> (r: Vec<u8>)
        requires
            old(self).wf(),
        ensures
            final(self).wf(),
            r@ == old(self).spec_output().spec_buffer().take(
                min(len as int, old(self).spec_output().spec_buffer_size() as int),
            ),
            final(self).spec_output().spec_buffer()
                == old(self).spec_output().spec_buffer().skip(r@.len() as int),
            final(self).spec_reasm() == (ReassemblerModel {
                out_read: old(self).spec_reasm().out_read + r@.len(),
                ..old(self).spec_reasm()
            }),
            final(self).spec_state() == old(self).spec_state(),
            final(self).spec_isn() == old(self).spec_isn(),
            final(self).spec_capacity() == old(self).spec_capacity(),
            final(self).spec_output().spec_input_ended()
                == old(self).spec_output().spec_input_ended(),
            final(self).spec_output().spec_error() == old(self).spec_output().spec_error(),
    {
        self.reassembler.read_out(len)
    }

    /// Marks the inbound stream as errored.
    pub fn set_out_error(&mut self)
        requires
            old(self).wf(),
        ensures
            final(self).wf(),
            final(self).spec_output().spec_error(),
            final(self).spec_reasm() == old(self).spec_reasm(),
            final(self).spec_state() == old(self).spec_state(),
            final(self).spec_isn() == old(self).spec_isn(),
            final(self).spec_capacity() == old(self).spec_capacity(),
            final(self).spec_output().spec_input_ended()
                == old(self).spec_output().spec_input_ended(),
    {
        self.reassembler.set_out_error()
    }

    /// Handles one arriving segment: a SYN in Listen captures the ISN
    /// and indexes its payload at zero; afterwards a segment's payload
    /// sits at `unwrap(seqno) - 1`; segments before the SYN, and a SYN
    /// repeated outside Listen, are dropped.
    pub fn segment_received(&mut self, seg: &TCPSegment)
        requires
            old(self).wf(),
            seg.wf(),
            old(self).spec_reasm().head + old(self).spec_capacity() <= usize::MAX,
        ensures
            final(self).wf(),
            final(self).spec_capacity() == old(self).spec_capacity(),
            final(self).spec_output().spec_error() == old(self).spec_output().spec_error(),
            recv_step(
                old(self).spec_state(),
                old(self).spec_isn(),
                old(self).spec_reasm(),
                final(self).spec_state(),
                final(self).spec_isn(),
                final(self).spec_reasm(),
                *seg,
            ),
    {
        let is_listen = match &self.state {
            Ok(ReceiverState::Listen) => true,
            _ => false,
        };
        if seg.header.syn {
            if !is_listen {
                return;
            }
            self.isn = seg.header.seq_no;
            self.state = Ok(ReceiverState::SynRcvd);
            if seg.header.fin {
                self.state = Ok(ReceiverState::FinRcvd);
            }
            let payload = seg.payload.to_vec();
            self.reassembler.push_substring(payload.as_slice(), 0, seg.header.fin);
            return;
        }
        if is_listen {
            return;
        }
        let head = self.reassembler.head_index();
        let abs: u64 = WrappingU32::unwrap(&seg.header.seq_no, &self.isn, head as u64);
        if abs == 0 {
            return;
        }
        let is_syn_rcvd = match &self.state {
            Ok(ReceiverState::SynRcvd) => true,
            _ => false,
        };
        if seg.header.fin && is_syn_rcvd {
            self.state = Ok(ReceiverState::FinRcvd);
        }
        let bound: u64 = (head as u64) + (self.capacity as u64);
        let idx: usize = if abs - 1 < bound { (abs - 1) as usize } else {
            head + self.capacity
        };
        let payload = seg.payload.to_vec();
        let ghost m0 = self.reassembler.model();
        self.reassembler.push_substring(payload.as_slice(), idx, seg.header.fin);
        proof {
            if abs - 1 >= bound {
                assert(clip_empty(seg.payload@.len() as int, idx as int, m0.head, m0.capacity));
                assert(clip_empty(seg.payload@.len() as int, abs - 1, m0.head, m0.capacity));
                assert(spec_push(m0, seg.payload@, idx as int, seg.header.fin)
                    == spec_push(m0, seg.payload@, abs - 1, seg.header.fin));
            }
        }
    }

    /// Re-derives the stored state from what the streams show: an
    /// errored stream wins, then no-ISN means Listen, an ended inbound
    /// stream means FinRcvd, and anything else SynRcvd.
    pub fn renew_state(&mut self) -> (r: Result<ReceiverState, TCPConnectionError>)
        requires
            old(self).wf(),
        ensures
            final(self).wf(),
            final(self).spec_reasm() == old(self).spec_reasm(),
            final(self).spec_isn() == old(self).spec_isn(),
            final(self).spec_capacity() == old(self).spec_capacity(),
            r == final(self).spec_state(),
            final(self).spec_state() == spec_set_state(
                old(self).spec_state(),
                if old(self).spec_output().spec_error() {
                    Err::<ReceiverState, TCPConnectionError>(TCPConnectionError::ReceiverError)
                } else if old(self).spec_ackno() is None {
                    Ok::<ReceiverState, TCPConnectionError>(ReceiverState::Listen)
                } else if old(self).spec_output().spec_input_ended() {
                    Ok::<ReceiverState, TCPConnectionError>(ReceiverState::FinRcvd)
                } else {
                    Ok::<ReceiverState, TCPConnectionError>(ReceiverState::SynRcvd)
                },
            ),
    {
        let err = self.reassembler.stream_out().error();
        let ended = self.reassembler.stream_out().input_ended();
        let none_ackno = self.ackno().is_none();
        if err {
            self.set_state(Err(TCPConnectionError::ReceiverError));
        } else if none_ackno {
            self.set_state(Ok(ReceiverState::Listen));
        } else if ended {
            self.set_state(Ok(ReceiverState::FinRcvd));
        } else {
            self.set_state(Ok(ReceiverState::SynRcvd));
        }
        self.state
    }

    pub fn state(&self) -> (r: Result<ReceiverState, TCPConnectionError>)
        ensures
            r == self.spec_state(),
    {
        self.state
    }

    /// Adopts `state`: a different Ok replaces an Ok, an Err always
    /// replaces, and nothing else changes the stored state.
    pub fn set_state(&mut self, state: Result<ReceiverState, TCPConnectionError>)
        ensures
            final(self).spec_state() == spec_set_state(old(self).spec_state(), state),
            final(self).spec_reasm() == old(self).spec_reasm(),
            final(self).spec_isn() == old(self).spec_isn(),
            final(self).spec_capacity() == old(self).spec_capacity(),
            final(self).spec_output() == old(self).spec_output(),
            old(self).wf() ==> final(self).wf(),
    {
        let take = match (&state, &self.state) {
            (Ok(targ), Ok(curr)) => targ != curr,
            (Err(_), _) => true,
            _ => false,
        };
        if take {
            self.state = state;
        }
    }
}

/// The state-adoption rule: a different Ok replaces an Ok, an Err
/// always replaces, anything else keeps the current state.
pub open spec fn spec_set_state(
    curr: Result<ReceiverState, TCPConnectionError>,
    targ: Result<ReceiverState, TCPConnectionError>,
) -> Result<ReceiverState, TCPConnectionError> {
    match (targ, curr) {
        (Ok(t), Ok(c)) => if t != c { targ } else { curr },
        (Err(_), _) => targ,
        _ => curr,
    }
}

/// Shifting the low 32 bits before wrapping does not change the wrap:
/// `wrap((h mod 2^32) + off) == wrap(h + off)`.
proof fn lemma_wrap_mod_shift(h: int, off: int, isn: u32)
    requires
        h >= 0,
    ensures
        wrap_spec((h % crate::wrapping_integers::seq_space()) + off, isn)
            == wrap_spec(h + off, isn),
{
    let c = crate::wrapping_integers::seq_space();
    vstd::arithmetic::div_mod::lemma_fundamental_div_mod(h, c);
    vstd::arithmetic::div_mod::lemma_mod_multiples_vanish(
        h / c,
        (h % c) + off + (isn as int),
        c,
    );
}

} // verus!
