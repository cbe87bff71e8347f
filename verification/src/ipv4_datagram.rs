//! An IPv4 datagram: a header and a payload, with parsing and
//! serialization including the header checksum.

use vstd::prelude::*;

verus! {

use crate::buffer::Buffer;
use crate::ipv4_header::{IPv4Header, ipv4_header_bytes};
use crate::parser::{NetParser, ParseError};
use crate::util::{InternetChecksum, checksum_sum, fold_checksum};

#[derive(Debug)]
pub struct IPv4Datagram {
    pub header: IPv4Header,
    pub payload: Buffer,
}

pub type InternetDatagram = IPv4Datagram;

impl IPv4Datagram {
    pub open spec fn wf(&self) -> bool {
        self.payload.wf()
    }

    pub fn new_empty() -> (r: Self)
        ensures
            r.wf(),
            r.payload@ == Seq::<u8>::empty(),
            r.header.ver == 4 && r.header.hlen == 5,
    {
        IPv4Datagram { header: IPv4Header::default(), payload: Buffer::empty() }
    }

    /// Parses a datagram: the header (with its checksum), then the
    /// payload, whose length must match what the header claims.
    pub fn try_parse(&mut self, buf: Buffer) -> (r: Result<(), ParseError>)
        requires
            buf.wf(),
        ensures
            final(self).wf() || !old(self).wf(),
            r is Ok ==> {
                &&& final(self).wf()
                &&& final(self).header.ver == 4
                &&& final(self).header.len as int
                    == final(self).payload@.len() + 4 * (final(self).header.hlen as int)
                &&& final(self).payload@
                    == buf@.skip(4 * (final(self).header.hlen as int))
            },
    {
        let mut p = NetParser::new(buf);
        let parsed = self.header.try_parse(&mut p);
        match parsed {
            Err(e) => {
                return Err(e);
            },
            Ok(_) => {},
        }
        if p.is_err() {
            return p.get_result();
        }
        if (self.header.len as usize) < 4 * (self.header.hlen as usize) {
            return Err(ParseError::TruncatedPacket);
        }
        self.payload = p.take_buffer();
        if self.payload.size() != (self.payload_length_checked() as usize) {
            return Err(ParseError::PacketTooShort);
        }
        Ok(())
    }

    fn payload_length_checked(&self) -> (r: u16)
        requires
            self.header.len >= 4 * (self.header.hlen as int),
        ensures
            r == self.header.len - 4 * (self.header.hlen as int),
    {
        self.header.payload_length()
    }

    /// Serializes the datagram: the header with its checksum computed
    /// over its own zero-checksum bytes, then the payload.
    pub fn try_serialize(&self) -> (r: Result<Vec<u8>, ParseError>)
        requires
            self.wf(),
        ensures
            self.header.ver == 4 && self.header.hlen == 5
                && self.header.len as int == self.payload@.len() + 20 ==> ({
                let h0 = IPv4Header { cksum: 0, ..self.header };
                let stamped = IPv4Header {
                    cksum: (0xFFFF - fold_checksum(
                        checksum_sum(ipv4_header_bytes(h0), 0),
                    )) as u16,
                    ..self.header
                };
                r matches Ok(v) && v@ == ipv4_header_bytes(stamped) + self.payload@
            }),
    {
        if self.header.ver != 4 || self.header.hlen != 5 {
            return Err(ParseError::Unsupported);
        }
        if (self.header.len as usize) < 4 * (self.header.hlen as usize)
            || self.payload.size() != (self.header.len as usize) - 20 {
            return Err(ParseError::PayloadSizeMismatch);
        }
        let mut h0 = self.header;
        h0.cksum = 0;
        let zeroed = match h0.try_serialize() {
            Ok(v) => v,
            Err(e) => {
                return Err(e);
            },
        };
        let mut ck = InternetChecksum::new(0);
        ck.add(zeroed.as_slice());
        let mut stamped = h0;
        stamped.cksum = ck.value();
        let mut out = match stamped.try_serialize() {
            Ok(v) => v,
            Err(e) => {
                return Err(e);
            },
        };
        proof {
            assert(zeroed@ =~= ipv4_header_bytes(h0));
            assert(out@ =~= ipv4_header_bytes(stamped));
        }
        let payload = self.payload.to_vec();
        let mut i: usize = 0;
        while i < payload.len()
            invariant
                i <= payload@.len(),
                out@ == ipv4_header_bytes(stamped) + payload@.take(i as int),
            decreases payload@.len() - i,
        {
            out.push(payload[i]);
            proof {
                assert(out@ =~= ipv4_header_bytes(stamped) + payload@.take(i as int + 1));
            }
            i = i + 1;
        }
        proof {
            assert(payload@.take(payload@.len() as int) =~= payload@);
            assert(out@ =~= ipv4_header_bytes(stamped) + payload@);
        }
        Ok(out)
    }

    pub fn header(&self) -> (r: &IPv4Header)
        ensures
            *r == self.header,
    {
        &self.header
    }

    pub fn payload(&self) -> (r: &Buffer)
        ensures
            *r == self.payload,
    {
        &self.payload
    }
}

} // verus!
