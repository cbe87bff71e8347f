//! The IPv4 header as plain fields, its wire form, and the
//! pseudo-header sum that seeds the TCP checksum.

use vstd::prelude::*;

verus! {

use crate::parser::{NetParser, NetUnparser, ParseError, be16, be32, bytes16, bytes32};
use crate::util::InternetChecksum;

pub const IPV4_HEADER_LENGTH: usize = 20;
pub const IPV4_DEFAULT_TTL: u8 = 128;
pub const IPV4_PROTO_TCP: u8 = 6;

#[derive(Debug, Clone, Copy, PartialEq, Eq, Structural)]
pub struct IPv4Header {
    pub ver: u8,
    pub hlen: u8,
    pub tos: u8,
    pub len: u16,
    pub id: u16,
    pub df: bool,
    pub mf: bool,
    pub offset: u16,
    pub ttl: u8,
    pub proto: u8,
    pub cksum: u16,
    pub src: u32,
    pub dst: u32,
}

impl Default for IPv4Header {
    /// A fresh header for a TCP payload: version four, the plain
    /// 20-byte header, don't-fragment, default TTL.
    fn default() -> (r: Self)
        ensures
            r.ver == 4 && r.hlen == 5 && r.tos == 0 && r.len == 0 && r.id == 0,
            r.df && !r.mf && r.offset == 0,
            r.ttl == IPV4_DEFAULT_TTL && r.proto == IPV4_PROTO_TCP,
            r.cksum == 0 && r.src == 0 && r.dst == 0,
    {
        IPv4Header {
            ver: 4,
            hlen: 5,
            tos: 0,
            len: 0,
            id: 0,
            df: true,
            mf: false,
            offset: 0,
            ttl: IPV4_DEFAULT_TTL,
            proto: IPV4_PROTO_TCP,
            cksum: 0,
            src: 0,
            dst: 0,
        }
    }
}

/// The fragment-offset word: the two flag bits and the 13-bit offset.
pub open spec fn frag_word(h: IPv4Header) -> int {
    (if h.df { 0x4000 as int } else { 0 }) + (if h.mf { 0x2000 as int } else { 0 })
        + (h.offset as int) % 0x2000
}

/// The 20 fixed wire bytes of the header.
pub open spec fn ipv4_header_bytes(h: IPv4Header) -> Seq<u8> {
    seq![(((h.ver as int) % 16) * 16 + (h.hlen as int) % 16) as u8, h.tos]
        + bytes16(h.len) + bytes16(h.id) + bytes16(frag_word(h) as u16)
        + seq![h.ttl, h.proto] + bytes16(h.cksum) + bytes32(h.src) + bytes32(h.dst)
}

impl IPv4Header {
    /// Serializes the header to `4 * hlen` bytes: the fixed fields,
    /// then zeroed option space.
    pub fn try_serialize(&self) -> (r: Result<Vec<u8>, ParseError>)
        ensures
            self.ver != 4 ==> r == Err::<Vec<u8>, ParseError>(ParseError::WrongIPVersion),
            self.ver == 4 && self.hlen < 5
                ==> r == Err::<Vec<u8>, ParseError>(ParseError::HeaderTooShort),
            self.ver == 4 && self.hlen >= 5 ==> (r matches Ok(v)
                && v@.take(20) == ipv4_header_bytes(*self)
                && v@.len() == 4 * (self.hlen as int)
                && (forall|i: int| 20 <= i < v@.len() ==> v@[i] == 0)),
    {
        if self.ver != 4 {
            return Err(ParseError::WrongIPVersion);
        }
        if self.hlen < 5 {
            return Err(ParseError::HeaderTooShort);
        }
        let mut ret: Vec<u8> = Vec::new();
        NetUnparser::u8(&mut ret, (self.ver % 16) * 16 + self.hlen % 16);
        NetUnparser::u8(&mut ret, self.tos);
        NetUnparser::u16(&mut ret, self.len);
        NetUnparser::u16(&mut ret, self.id);
        let fo: u16 = (if self.df { 0x4000u16 } else { 0u16 })
            + (if self.mf { 0x2000u16 } else { 0u16 }) + self.offset % 0x2000;
        NetUnparser::u16(&mut ret, fo);
        NetUnparser::u8(&mut ret, self.ttl);
        NetUnparser::u8(&mut ret, self.proto);
        NetUnparser::u16(&mut ret, self.cksum);
        NetUnparser::u32(&mut ret, self.src);
        NetUnparser::u32(&mut ret, self.dst);
        proof {
            assert(ret@ =~= ipv4_header_bytes(*self));
        }
        let total: usize = 4 * (self.hlen as usize);
        while ret.len() < total
            invariant
                ret@.len() <= total,
                ret@.take(20) =~= ipv4_header_bytes(*self),
                ret@.len() >= 20,
                forall|i: int| 20 <= i < ret@.len() ==> ret@[i] == 0,
            decreases total - ret@.len(),
        {
            ret.push(0);
            proof {
                assert(ret@.take(20) =~= ipv4_header_bytes(*self));
            }
        }
        Ok(ret)
    }

    /// Parses the header from the front of `p`: checks the version,
    /// the claimed header length, the total length against the buffer,
    /// and the header checksum; consumes header and options.
    pub fn try_parse(&mut self, p: &mut NetParser) -> (r: Result<(), ParseError>)
        requires
            old(p).wf(),
        ensures
            final(p).wf(),
            r is Ok ==> {
                &&& final(self).ver == 4
                &&& final(self).hlen >= 5
                &&& old(p).spec_buf().len() == final(self).len
                &&& old(p).spec_buf().len() >= 4 * (final(self).hlen as int)
                &&& final(p).spec_buf()
                    == old(p).spec_buf().skip(4 * (final(self).hlen as int))
            },
            ({
                let b = old(p).spec_buf();
                (b.len() >= 20 && (b[0] as int) / 16 == 4 && (b[0] as int) % 16 >= 5
                    && b.len() == be16(b[2], b[3])
                    && b.len() >= ((b[0] as int) % 16) * 4
                    && old(p).spec_result() is Ok
                    && crate::util::fold_checksum(crate::util::checksum_sum(
                        b.take(((b[0] as int) % 16) * 4), 0,
                    )) == 0xFFFF) ==> {
                    &&& r is Ok
                    &&& final(self).ver == 4
                    &&& final(self).hlen == (b[0] as int) % 16
                    &&& final(self).tos == b[1]
                    &&& final(self).len == be16(b[2], b[3])
                    &&& final(self).id == be16(b[4], b[5])
                    &&& final(self).df == (((be16(b[6], b[7]) as int) / 0x4000) % 2 == 1)
                    &&& final(self).mf == (((be16(b[6], b[7]) as int) / 0x2000) % 2 == 1)
                    &&& final(self).offset == (be16(b[6], b[7]) as int) % 0x2000
                    &&& final(self).ttl == b[8]
                    &&& final(self).proto == b[9]
                    &&& final(self).cksum == be16(b[10], b[11])
                    &&& final(self).src == be32(b[12], b[13], b[14], b[15])
                    &&& final(self).dst == be32(b[16], b[17], b[18], b[19])
                    &&& final(p).spec_buf() == b.skip(((b[0] as int) % 16) * 4)
                }
            }),
    {
        let ghost b = old(p).spec_buf();
        if p.buffer().size() < IPV4_HEADER_LENGTH {
            return Err(ParseError::PacketTooShort);
        }
        let whole = p.buffer().to_vec();
        let first_byte = p.parse_u8();
        let ver = first_byte / 16;
        if ver != 4 {
            return Err(ParseError::WrongIPVersion);
        }
        let hlen = first_byte % 16;
        if hlen < 5 {
            return Err(ParseError::HeaderTooShort);
        }
        self.ver = ver;
        self.hlen = hlen;
        self.tos = p.parse_u8();
        self.len = p.parse_u16();
        self.id = p.parse_u16();
        let fo_val = p.parse_u16();
        self.df = (fo_val / 0x4000) % 2 == 1;
        self.mf = (fo_val / 0x2000) % 2 == 1;
        self.offset = fo_val % 0x2000;
        self.ttl = p.parse_u8();
        self.proto = p.parse_u8();
        self.cksum = p.parse_u16();
        self.src = p.parse_u32();
        self.dst = p.parse_u32();
        if (self.len as usize) != whole.len() {
            return Err(ParseError::TruncatedPacket);
        }
        proof {
            if old(p).spec_result() is Ok {
                assert(p.spec_buf() =~= b.skip(20));
            }
        }
        let header_len: usize = (hlen as usize) * 4;
        p.remove_prefix(header_len - IPV4_HEADER_LENGTH);
        if p.is_err() {
            return p.get_result();
        }
        proof {
            assert(old(p).spec_result() is Ok);
            assert(b.skip(20).skip(header_len - 20) =~= b.skip(header_len as int));
        }
        // Verify the header checksum over the header and option bytes.
        let mut checksum = InternetChecksum::new(0);
        let mut hdr: Vec<u8> = Vec::new();
        let mut i: usize = 0;
        while i < header_len
            invariant
                i <= header_len,
                header_len <= whole@.len(),
                hdr@ == whole@.take(i as int),
            decreases header_len - i,
        {
            hdr.push(whole[i]);
            proof {
                assert(whole@.take(i as int + 1) =~= whole@.take(i as int).push(whole@[i as int]));
            }
            i = i + 1;
        }
        checksum.add(hdr.as_slice());
        if checksum.value() != 0 {
            return Err(ParseError::BadChecksum);
        }
        Ok(())
    }

    /// The length of the payload the total length leaves after the
    /// fixed header bytes counted by `hlen`.
    pub fn payload_length(&self) -> (r: u16)
        requires
            self.len >= 4 * (self.hlen as int),
        ensures
            r == self.len - 4 * (self.hlen as int),
    {
        self.len - 4 * (self.hlen as u16)
    }

    /// The pseudo-header sum that seeds the TCP checksum: both
    /// addresses as 16-bit words, the protocol, and the payload length.
    pub fn pseudo_cksum(&self) -> (r: u32)
        requires
            self.len >= 4 * (self.hlen as int),
        ensures
            r == (self.src as int) / 0x1_0000 + (self.src as int) % 0x1_0000
                + (self.dst as int) / 0x1_0000 + (self.dst as int) % 0x1_0000
                + self.proto + (self.len - 4 * (self.hlen as int)),
    {
        let mut pcksum: u32 = self.src / 0x1_0000 + self.src % 0x1_0000;
        pcksum = pcksum + self.dst / 0x1_0000 + self.dst % 0x1_0000;
        pcksum = pcksum + self.proto as u32;
        pcksum = pcksum + self.payload_length() as u32;
        pcksum
    }
}

} // verus!
