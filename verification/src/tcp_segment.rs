//! A TCP segment: a header and a payload.

use vstd::prelude::*;

verus! {

use crate::buffer::Buffer;
use crate::parser::{NetParser, ParseError};
use crate::tcp_header::{TCPHeader, header_bytes};
use crate::util::{InternetChecksum, checksum_sum, fold_checksum};

#[derive(Debug)]
pub struct TCPSegment {
    pub header: TCPHeader,
    pub payload: Buffer,
}

impl Clone for TCPSegment {
    fn clone(&self) -> (r: Self)
        ensures
            r.header == self.header,
            r.payload@ == self.payload@,
            self.wf() ==> r.wf(),
    {
        TCPSegment { header: self.header, payload: self.payload.clone() }
    }
}

/// How much sequence space a segment occupies: its payload plus one
/// for SYN and one for FIN.
pub open spec fn seg_seq_len(h: TCPHeader, payload: Seq<u8>) -> int {
    payload.len() + (if h.syn { 1 as int } else { 0 }) + (if h.fin { 1 as int } else { 0 })
}

impl TCPSegment {
    pub open spec fn wf(&self) -> bool {
        self.payload.wf()
    }

    pub open spec fn spec_seq_len(&self) -> int {
        seg_seq_len(self.header, self.payload@)
    }

    /// An empty segment with a default header.
    pub fn new_empty() -> (r: Self)
        ensures
            r.wf(),
            r.payload@ == Seq::<u8>::empty(),
            !r.header.syn && !r.header.fin && !r.header.ack && !r.header.rst,
            r.header.seq_no.spec_raw() == 0,
            r.spec_seq_len() == 0,
    {
        TCPSegment { header: TCPHeader::default(), payload: Buffer::empty() }
    }

    pub fn header(&self) -> (r: &TCPHeader)
        ensures
            *r == self.header,
    {
        &self.header
    }

    pub fn payload(&self) -> (r: &Buffer)
        ensures
            *r == self.payload,
    {
        &self.payload
    }

    /// The payload length plus one for SYN and one for FIN.
    pub fn length_in_sequence_space(&self) -> (r: usize)
        requires
            self.wf(),
            self.payload@.len() + 2 <= usize::MAX,
        ensures
            r == self.spec_seq_len(),
    {
        self.payload.size() + (if self.header.syn { 1 } else { 0 })
            + (if self.header.fin { 1 } else { 0 })
    }
}

impl TCPSegment {
    /// Parses a segment from wire bytes: verifies the checksum (seeded
    /// with the pseudo-header sum), then splits header and payload.
    pub fn parse(&mut self, buffer: Buffer, datagram_layer_checksum: u32)
        -> (r: Result<(), ParseError>)
        requires
            buffer.wf(),
        ensures
            final(self).wf() || !old(self).wf(),
            fold_checksum(checksum_sum(buffer@, datagram_layer_checksum as int)) != 0xFFFF
                ==> r == Err::<(), ParseError>(ParseError::BadChecksum),
            ({
                let b = buffer@;
                (b.len() >= 20 && (b[12] as int) / 16 >= 5
                    && b.len() >= ((b[12] as int) / 16) * 4
                    && fold_checksum(checksum_sum(b, datagram_layer_checksum as int)) == 0xFFFF)
                    ==> {
                    &&& r is Ok
                    &&& final(self).wf()
                    &&& final(self).header.seq_no.spec_raw()
                        == crate::parser::be32(b[4], b[5], b[6], b[7])
                    &&& final(self).header.ack_no.spec_raw()
                        == crate::parser::be32(b[8], b[9], b[10], b[11])
                    &&& final(self).header.ack == (((b[13] as int) / 16) % 2 == 1)
                    &&& final(self).header.rst == (((b[13] as int) / 4) % 2 == 1)
                    &&& final(self).header.syn == (((b[13] as int) / 2) % 2 == 1)
                    &&& final(self).header.fin == ((b[13] as int) % 2 == 1)
                    &&& final(self).header.win == crate::parser::be16(b[14], b[15])
                    &&& final(self).payload@ == b.skip(((b[12] as int) / 16) * 4)
                }
            }),
    {
        let mut checksum = InternetChecksum::new(datagram_layer_checksum);
        let bytes = buffer.to_vec();
        checksum.add(bytes.as_slice());
        if checksum.value() != 0 {
            return Err(ParseError::BadChecksum);
        }
        let mut p = NetParser::new(buffer);
        let parsed = self.header.parse(&mut p);
        match parsed {
            Err(e) => Err(e),
            Ok(_) => {
                self.payload = p.take_buffer();
                p.get_result()
            },
        }
    }

    /// Serializes the segment: the header with its checksum computed
    /// over the pseudo-header sum, the zero-checksum header bytes and
    /// the payload, followed by the payload.
    pub fn serialize(&self, datagram_layer_checksum: u32) -> (r: Result<Vec<u8>, ParseError>)
        requires
            self.wf(),
        ensures
            self.header.data_offset < 5
                ==> r == Err::<Vec<u8>, ParseError>(ParseError::HeaderTooShort),
            self.header.data_offset >= 5 ==> ({
                let h0 = TCPHeader { check_sum: 0, ..self.header };
                let stamped = TCPHeader {
                    check_sum: (0xFFFF - fold_checksum(checksum_sum(
                        self.payload@,
                        checksum_sum(header_bytes(h0), datagram_layer_checksum as int),
                    ))) as u16,
                    ..self.header
                };
                r matches Ok(v) && v@ == header_bytes(stamped) + self.payload@
            }),
    {
        if self.header.data_offset < 5 {
            return Err(ParseError::HeaderTooShort);
        }
        let mut h0 = self.header;
        h0.check_sum = 0;
        let zeroed = match h0.serialize() {
            Ok(v) => v,
            Err(e) => {
                return Err(e);
            },
        };
        let mut ck = InternetChecksum::new(datagram_layer_checksum);
        ck.add(zeroed.as_slice());
        let payload = self.payload.to_vec();
        ck.add(payload.as_slice());
        let mut stamped = h0;
        stamped.check_sum = ck.value();
        let mut out = match stamped.serialize() {
            Ok(v) => v,
            Err(e) => {
                return Err(e);
            },
        };
        let mut i: usize = 0;
        while i < payload.len()
            invariant
                i <= payload@.len(),
                out@ == header_bytes(stamped) + payload@.take(i as int),
                stamped.data_offset >= 5,
            decreases payload@.len() - i,
        {
            out.push(payload[i]);
            proof {
                assert(out@ =~= header_bytes(stamped) + payload@.take(i as int + 1));
            }
            i = i + 1;
        }
        proof {
            assert(payload@.take(payload@.len() as int) =~= payload@);
            assert(out@ =~= header_bytes(stamped) + payload@);
        }
        Ok(out)
    }
}

} // verus!
