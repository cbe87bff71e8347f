//! An Ethernet frame: a header and a payload.

use vstd::prelude::*;

verus! {

use crate::buffer::Buffer;
use crate::ethernet_header::{EthernetHeader, ethernet_header_bytes};
use crate::parser::{NetParser, ParseError};

#[derive(Debug)]
pub struct EthernetFrame {
    pub header: EthernetHeader,
    pub payload: Buffer,
}

impl EthernetFrame {
    pub open spec fn wf(&self) -> bool {
        self.payload.wf()
    }

    pub fn new_empty() -> (r: Self)
        ensures
            r.wf(),
            r.payload@ == Seq::<u8>::empty(),
    {
        EthernetFrame {
            header: EthernetHeader {
                dst: crate::ethernet_header::EthernetAddress([0, 0, 0, 0, 0, 0]),
                src: crate::ethernet_header::EthernetAddress([0, 0, 0, 0, 0, 0]),
                ty: 0,
            },
            payload: Buffer::empty(),
        }
    }

    /// Parses a frame: the 14-byte header, then the payload.
    pub fn parse(&mut self, buf: Buffer) -> (r: Result<(), ParseError>)
        requires
            buf.wf(),
        ensures
            final(self).wf() || !old(self).wf(),
            buf@.len() >= 14 ==> {
                &&& r is Ok
                &&& final(self).wf()
                &&& final(self).header.dst.0@ == buf@.take(6)
                &&& final(self).header.src.0@ == buf@.skip(6).take(6)
                &&& final(self).header.ty
                    == crate::parser::be16(buf@[12], buf@[13])
                &&& final(self).payload@ == buf@.skip(14)
            },
            buf@.len() < 14 ==> r == Err::<(), ParseError>(ParseError::PacketTooShort),
    {
        let mut p = NetParser::new(buf);
        let parsed = self.header.parse(&mut p);
        match parsed {
            Err(e) => {
                return Err(e);
            },
            Ok(_) => {},
        }
        self.payload = p.take_buffer();
        p.get_result()
    }

    /// Serializes the frame: the header bytes followed by the payload.
    pub fn serialize(&self) -> (r: Vec<u8>)
        requires
            self.wf(),
        ensures
            r@ == ethernet_header_bytes(self.header) + self.payload@,
    {
        let mut out = self.header.serialze();
        let payload = self.payload.to_vec();
        let mut i: usize = 0;
        while i < payload.len()
            invariant
                i <= payload@.len(),
                out@ == ethernet_header_bytes(self.header) + payload@.take(i as int),
            decreases payload@.len() - i,
        {
            out.push(payload[i]);
            proof {
                assert(out@ =~= ethernet_header_bytes(self.header)
                    + payload@.take(i as int + 1));
            }
            i = i + 1;
        }
        proof {
            assert(payload@.take(payload@.len() as int) =~= payload@);
            assert(out@ =~= ethernet_header_bytes(self.header) + self.payload@);
        }
        out
    }

    pub fn header(&self) -> (r: &EthernetHeader)
        ensures
            *r == self.header,
    {
        &self.header
    }

    pub fn payload(&self) -> (r: &Buffer)
        ensures
            *r == self.payload,
    {
        &self.payload
    }
}

} // verus!
