//! The TCP header as plain fields: ports, sequence and acknowledgment
//! numbers, flags, window, checksum and urgent pointer.

use vstd::prelude::*;

verus! {

use crate::parser::{NetParser, NetUnparser, ParseError, be16, be32, bytes16, bytes32};
use crate::util::{chars_to_string, push_dec};
use crate::wrapping_integers::WrappingU32;

/// The fixed part of a TCP header is 20 bytes.
pub const TCP_HEADER_LENGTH: usize = 20;

#[derive(Debug, Clone, Copy, PartialEq, Eq, Structural)]
pub struct TCPHeader {
    pub src_port: u16,
    pub dst_port: u16,
    pub seq_no: WrappingU32,
    pub ack_no: WrappingU32,
    pub data_offset: u8,
    pub urg: bool,
    pub ack: bool,
    pub psh: bool,
    pub rst: bool,
    pub syn: bool,
    pub fin: bool,
    pub win: u16,
    pub check_sum: u16,
    pub urg_ptr: u16,
}

impl Default for TCPHeader {
    /// All fields zero or false, with the data offset naming the plain
    /// 20-byte header.
    fn default() -> (r: Self)
        ensures
            r.src_port == 0 && r.dst_port == 0,
            r.seq_no.spec_raw() == 0 && r.ack_no.spec_raw() == 0,
            r.data_offset == 5,
            !r.urg && !r.ack && !r.psh && !r.rst && !r.syn && !r.fin,
            r.win == 0 && r.check_sum == 0 && r.urg_ptr == 0,
    {
        TCPHeader {
            src_port: 0,
            dst_port: 0,
            seq_no: WrappingU32::new(0),
            ack_no: WrappingU32::new(0),
            data_offset: 5,
            urg: false,
            ack: false,
            psh: false,
            rst: false,
            syn: false,
            fin: false,
            win: 0,
            check_sum: 0,
            urg_ptr: 0,
        }
    }
}

/// The flags byte of a header.
pub open spec fn flags_byte(h: TCPHeader) -> int {
    (if h.urg { 32 as int } else { 0 }) + (if h.ack { 16 as int } else { 0 })
        + (if h.psh { 8 as int } else { 0 }) + (if h.rst { 4 as int } else { 0 })
        + (if h.syn { 2 as int } else { 0 }) + (if h.fin { 1 as int } else { 0 })
}

/// The 20 wire bytes of a header, big-endian fields in order.
pub open spec fn header_bytes(h: TCPHeader) -> Seq<u8> {
    bytes16(h.src_port) + bytes16(h.dst_port) + bytes32(h.seq_no.spec_raw())
        + bytes32(h.ack_no.spec_raw())
        + seq![(((h.data_offset as int) % 16) * 16) as u8, flags_byte(h) as u8]
        + bytes16(h.win) + bytes16(h.check_sum) + bytes16(h.urg_ptr)
}

impl TCPHeader {
    /// Serializes the header to its 20 wire bytes; a data offset
    /// claiming less than the fixed header is refused.
    pub fn serialize(&self) -> (r: Result<Vec<u8>, ParseError>)
        ensures
            self.data_offset >= 5 ==> (r matches Ok(v) && v@ == header_bytes(*self)),
            self.data_offset < 5 ==> r == Err::<Vec<u8>, ParseError>(ParseError::HeaderTooShort),
    {
        if self.data_offset < 5 {
            return Err(ParseError::HeaderTooShort);
        }
        let mut buf: Vec<u8> = Vec::new();
        NetUnparser::u16(&mut buf, self.src_port);
        NetUnparser::u16(&mut buf, self.dst_port);
        NetUnparser::u32(&mut buf, self.seq_no.raw_val());
        NetUnparser::u32(&mut buf, self.ack_no.raw_val());
        NetUnparser::u8(&mut buf, (self.data_offset % 16) * 16);
        let flags: u8 = (if self.urg { 32u8 } else { 0u8 }) + (if self.ack { 16u8 } else { 0u8 })
            + (if self.psh { 8u8 } else { 0u8 }) + (if self.rst { 4u8 } else { 0u8 })
            + (if self.syn { 2u8 } else { 0u8 }) + (if self.fin { 1u8 } else { 0u8 });
        NetUnparser::u8(&mut buf, flags);
        NetUnparser::u16(&mut buf, self.win);
        NetUnparser::u16(&mut buf, self.check_sum);
        NetUnparser::u16(&mut buf, self.urg_ptr);
        proof {
            assert(buf@ =~= header_bytes(*self));
        }
        Ok(buf)
    }

    /// Parses the header from the front of `p`, consuming the whole
    /// header including any options; the fields come straight from the
    /// wire bytes.
    pub fn parse(&mut self, p: &mut NetParser) -> (r: Result<(), ParseError>)
        requires
            old(p).wf(),
        ensures
            final(p).wf(),
            ({
                let b = old(p).spec_buf();
                &&& (b.len() >= 20 && (b[12] as int) / 16 >= 5
                    && b.len() >= ((b[12] as int) / 16) * 4
                    && old(p).spec_result() is Ok) ==> {
                    &&& r is Ok
                    &&& final(self).src_port == be16(b[0], b[1])
                    &&& final(self).dst_port == be16(b[2], b[3])
                    &&& final(self).seq_no.spec_raw() == be32(b[4], b[5], b[6], b[7])
                    &&& final(self).ack_no.spec_raw() == be32(b[8], b[9], b[10], b[11])
                    &&& final(self).data_offset == (b[12] as int) / 16
                    &&& final(self).urg == (((b[13] as int) / 32) % 2 == 1)
                    &&& final(self).ack == (((b[13] as int) / 16) % 2 == 1)
                    &&& final(self).psh == (((b[13] as int) / 8) % 2 == 1)
                    &&& final(self).rst == (((b[13] as int) / 4) % 2 == 1)
                    &&& final(self).syn == (((b[13] as int) / 2) % 2 == 1)
                    &&& final(self).fin == ((b[13] as int) % 2 == 1)
                    &&& final(self).win == be16(b[14], b[15])
                    &&& final(self).check_sum == be16(b[16], b[17])
                    &&& final(self).urg_ptr == be16(b[18], b[19])
                    &&& final(p).spec_buf() == b.skip(((b[12] as int) / 16) * 4)
                    &&& final(p).spec_result() is Ok
                }
                &&& (b.len() >= 20 && (b[12] as int) / 16 < 5 ==> r == Err::<(), ParseError>(
                    ParseError::HeaderTooShort,
                ))
            }),
    {
        let ghost b = old(p).spec_buf();
        self.src_port = p.parse_u16();
        self.dst_port = p.parse_u16();
        self.seq_no = WrappingU32::new(p.parse_u32());
        self.ack_no = WrappingU32::new(p.parse_u32());
        let offset_byte = p.parse_u8();
        self.data_offset = offset_byte / 16;
        let flags = p.parse_u8();
        self.urg = (flags / 32) % 2 == 1;
        self.ack = (flags / 16) % 2 == 1;
        self.psh = (flags / 8) % 2 == 1;
        self.rst = (flags / 4) % 2 == 1;
        self.syn = (flags / 2) % 2 == 1;
        self.fin = flags % 2 == 1;
        self.win = p.parse_u16();
        self.check_sum = p.parse_u16();
        self.urg_ptr = p.parse_u16();
        if self.data_offset < 5 {
            return Err(ParseError::HeaderTooShort);
        }
        proof {
            if b.len() >= 20 && old(p).spec_result() is Ok {
                assert(p.spec_buf() =~= b.skip(20));
            }
        }
        p.remove_prefix((self.data_offset as usize) * 4 - TCP_HEADER_LENGTH);
        proof {
            if b.len() >= 20 && (b[12] as int) / 16 >= 5
                && b.len() >= ((b[12] as int) / 16) * 4
                && old(p).spec_result() is Ok {
                assert(b.skip(20).skip(((b[12] as int) / 16) * 4 - 20)
                    =~= b.skip(((b[12] as int) / 16) * 4));
            }
        }
        if p.is_err() {
            return p.get_result();
        }
        Ok(())
    }
}

fn push_str_chars(out: &mut Vec<char>, s: &[char])
    ensures
        final(out)@ == old(out)@ + s@,
{
    let mut i: usize = 0;
    while i < s.len()
        invariant
            i <= s@.len(),
            out@ == old(out)@ + s@.take(i as int),
        decreases s@.len() - i,
    {
        out.push(s[i]);
        proof {
            assert(out@ =~= old(out)@ + s@.take(i as int + 1));
        }
        i = i + 1;
    }
    proof {
        assert(s@.take(s@.len() as int) =~= s@);
    }
}

impl TCPHeader {
    /// A one-line description: the flag letters, the sequence and
    /// acknowledgment numbers and the window.
    pub fn summary(&self) -> String {
        let mut out: Vec<char> = Vec::new();
        push_str_chars(&mut out, &['T', 'C', 'P', '(']);
        if self.syn {
            out.push('S');
        }
        if self.ack {
            out.push('A');
        }
        if self.rst {
            out.push('R');
        }
        if self.fin {
            out.push('F');
        }
        if self.psh {
            out.push('P');
        }
        if self.urg {
            out.push('U');
        }
        push_str_chars(&mut out, &[' ', 's', 'e', 'q', '=']);
        push_dec(&mut out, self.seq_no.raw_val() as u64);
        push_str_chars(&mut out, &[' ', 'a', 'c', 'k', '=']);
        push_dec(&mut out, self.ack_no.raw_val() as u64);
        push_str_chars(&mut out, &[' ', 'w', 'i', 'n', '=']);
        push_dec(&mut out, self.win as u64);
        out.push(')');
        chars_to_string(&out)
    }

    /// A longer description: every field on its own line.
    pub fn to_string(&self) -> String {
        let mut out: Vec<char> = Vec::new();
        push_str_chars(&mut out, &['s', 'r', 'c', ' ', 'p', 'o', 'r', 't', ':', ' ']);
        push_dec(&mut out, self.src_port as u64);
        push_str_chars(&mut out, &['\n', 'd', 's', 't', ' ', 'p', 'o', 'r', 't', ':', ' ']);
        push_dec(&mut out, self.dst_port as u64);
        push_str_chars(&mut out, &['\n', 's', 'e', 'q', 'n', 'o', ':', ' ']);
        push_dec(&mut out, self.seq_no.raw_val() as u64);
        push_str_chars(&mut out, &['\n', 'a', 'c', 'k', 'n', 'o', ':', ' ']);
        push_dec(&mut out, self.ack_no.raw_val() as u64);
        push_str_chars(&mut out, &['\n', 'w', 'i', 'n', ':', ' ']);
        push_dec(&mut out, self.win as u64);
        push_str_chars(&mut out, &['\n']);
        chars_to_string(&out)
    }
}

} // verus!
