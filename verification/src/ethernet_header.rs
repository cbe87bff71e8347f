//! The Ethernet header: destination and source hardware addresses and
//! the frame type.

use vstd::prelude::*;

verus! {

use crate::parser::{NetParser, NetUnparser, ParseError, be16, bytes16};

pub const ETHERNET_HEADER_LENGTH: usize = 14;
pub const ETHERNET_TYPE_IPV4: u16 = 0x800;
pub const ETHERNET_TYPE_ARP: u16 = 0x806;

#[derive(Debug, Clone, Copy)]
pub struct EthernetAddress(pub [u8; 6]);

impl EthernetAddress {
    /// The all-ones broadcast address.
    pub fn broadcast() -> (r: Self)
        ensures
            forall|i: int| 0 <= i < 6 ==> r.0@[i] == 0xFF,
    {
        EthernetAddress([0xFF, 0xFF, 0xFF, 0xFF, 0xFF, 0xFF])
    }
}

#[derive(Debug, Clone, Copy)]
pub struct EthernetHeader {
    pub dst: EthernetAddress,
    pub src: EthernetAddress,
    pub ty: u16,
}

/// The 14 wire bytes of the header.
pub open spec fn ethernet_header_bytes(h: EthernetHeader) -> Seq<u8> {
    h.dst.0@ + h.src.0@ + bytes16(h.ty)
}

impl EthernetHeader {
    /// Parses the header from the front of `p`.
    pub fn parse(&mut self, p: &mut NetParser) -> (r: Result<(), ParseError>)
        requires
            old(p).wf(),
        ensures
            final(p).wf(),
            ({
                let b = old(p).spec_buf();
                (b.len() >= 14 && old(p).spec_result() is Ok) ==> {
                    &&& r is Ok
                    &&& final(self).dst.0@ == b.take(6)
                    &&& final(self).src.0@ == b.skip(6).take(6)
                    &&& final(self).ty == be16(b[12], b[13])
                    &&& final(p).spec_buf() == b.skip(14)
                    &&& final(p).spec_result() is Ok
                }
            }),
            old(p).spec_buf().len() < 14 ==> r == Err::<(), ParseError>(
                ParseError::PacketTooShort,
            ),
    {
        let ghost b = old(p).spec_buf();
        if p.buffer().size() < ETHERNET_HEADER_LENGTH {
            return Err(ParseError::PacketTooShort);
        }
        let d0 = p.parse_u8();
        let d1 = p.parse_u8();
        let d2 = p.parse_u8();
        let d3 = p.parse_u8();
        let d4 = p.parse_u8();
        let d5 = p.parse_u8();
        self.dst = EthernetAddress([d0, d1, d2, d3, d4, d5]);
        let s0 = p.parse_u8();
        let s1 = p.parse_u8();
        let s2 = p.parse_u8();
        let s3 = p.parse_u8();
        let s4 = p.parse_u8();
        let s5 = p.parse_u8();
        self.src = EthernetAddress([s0, s1, s2, s3, s4, s5]);
        self.ty = p.parse_u16();
        proof {
            if old(p).spec_result() is Ok {
                assert(final(self).dst.0@ =~= b.take(6));
                assert(final(self).src.0@ =~= b.skip(6).take(6));
                assert(p.spec_buf() =~= b.skip(14));
            }
        }
        p.get_result()
    }

    /// Serializes the header to its 14 wire bytes.
    pub fn serialze(&self) -> (r: Vec<u8>)
        ensures
            r@ == ethernet_header_bytes(*self),
    {
        let mut ser: Vec<u8> = Vec::new();
        let mut i: usize = 0;
        while i < 6
            invariant
                i <= 6,
                ser@ == self.dst.0@.take(i as int),
            decreases 6 - i,
        {
            NetUnparser::u8(&mut ser, self.dst.0[i]);
            proof {
                assert(ser@ =~= self.dst.0@.take(i as int + 1));
            }
            i = i + 1;
        }
        let mut j: usize = 0;
        while j < 6
            invariant
                j <= 6,
                ser@ == self.dst.0@.take(6) + self.src.0@.take(j as int),
            decreases 6 - j,
        {
            NetUnparser::u8(&mut ser, self.src.0[j]);
            proof {
                assert(ser@ =~= self.dst.0@.take(6) + self.src.0@.take(j as int + 1));
            }
            j = j + 1;
        }
        NetUnparser::u16(&mut ser, self.ty);
        proof {
            assert(self.dst.0@.take(6) =~= self.dst.0@);
            assert(self.src.0@.take(6) =~= self.src.0@);
            assert(ser@ =~= ethernet_header_bytes(*self));
        }
        ser
    }
}

} // verus!
