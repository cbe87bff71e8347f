//! Reading and writing big-endian integers at the front of a buffer,
//! with a sticky parse result.

use vstd::prelude::*;

verus! {

use crate::buffer::Buffer;

#[derive(Debug, Clone, Copy, PartialEq, Eq, Structural)]
pub enum ParseError {
    BadChecksum,
    PacketTooShort,
    WrongIPVersion,
    HeaderTooShort,
    TruncatedPacket,
    Unsupported,
    PayloadSizeMismatch,
}

impl ParseError {
    /// A short description of the error.
    pub fn as_string(&self) -> (r: String)
        ensures
            *self is BadChecksum ==> r@ == "Bad checksum"@,
            *self is PacketTooShort ==> r@ == "Not enough data to finish parsing"@,
            *self is WrongIPVersion ==> r@ == "Got a version of IP other than 4"@,
            *self is HeaderTooShort ==> r@ == "Header length is shorter than minimum required"@,
            *self is TruncatedPacket ==> r@ == "Packet length is shorter than header claims"@,
            *self is Unsupported ==> r@ == "Packet uses unsupported features"@,
            *self is PayloadSizeMismatch ==> r@ == "Payload size mismatch"@,
    {
        match self {
            ParseError::BadChecksum => "Bad checksum".to_owned(),
            ParseError::PacketTooShort => "Not enough data to finish parsing".to_owned(),
            ParseError::WrongIPVersion => "Got a version of IP other than 4".to_owned(),
            ParseError::HeaderTooShort => {
                "Header length is shorter than minimum required".to_owned()
            },
            ParseError::TruncatedPacket => {
                "Packet length is shorter than header claims".to_owned()
            },
            ParseError::Unsupported => "Packet uses unsupported features".to_owned(),
            ParseError::PayloadSizeMismatch => "Payload size mismatch".to_owned(),
        }
    }
}

/// The big-endian value of two bytes.
pub open spec fn be16(b0: u8, b1: u8) -> int {
    (b0 as int) * 0x100 + (b1 as int)
}

/// The big-endian value of four bytes.
pub open spec fn be32(b0: u8, b1: u8, b2: u8, b3: u8) -> int {
    (b0 as int) * 0x100_0000 + (b1 as int) * 0x1_0000 + (b2 as int) * 0x100 + (b3 as int)
}

/// The two big-endian bytes of a 16-bit value.
pub open spec fn bytes16(v: u16) -> Seq<u8> {
    seq![(v / 0x100) as u8, (v % 0x100) as u8]
}

/// The four big-endian bytes of a 32-bit value.
pub open spec fn bytes32(v: u32) -> Seq<u8> {
    seq![
        (v / 0x100_0000) as u8,
        ((v / 0x1_0000) % 0x100) as u8,
        ((v / 0x100) % 0x100) as u8,
        (v % 0x100) as u8,
    ]
}

/// A parser that consumes the front of a buffer; the first failure is
/// latched and every later read yields zero.
pub struct NetParser {
    buffer: Buffer,
    result: Result<(), ParseError>,
}

impl NetParser {
    pub closed spec fn spec_buf(&self) -> Seq<u8> {
        self.buffer@
    }

    pub closed spec fn spec_result(&self) -> Result<(), ParseError> {
        self.result
    }

    pub closed spec fn wf(&self) -> bool {
        self.buffer.wf()
    }

    pub fn new(buffer: Buffer) -> (r: Self)
        requires
            buffer.wf(),
        ensures
            r.wf(),
            r.spec_buf() == buffer@,
            r.spec_result() is Ok,
    {
        NetParser { buffer, result: Ok(()) }
    }

    pub fn buffer(&self) -> (r: &Buffer)
        ensures
            r@ == self.spec_buf(),
            self.wf() ==> r.wf(),
    {
        &self.buffer
    }

    /// Moves the remaining bytes out, leaving the parser empty.
    pub fn take_buffer(&mut self) -> (r: Buffer)
        requires
            old(self).wf(),
        ensures
            final(self).wf(),
            r.wf(),
            r@ == old(self).spec_buf(),
            final(self).spec_buf() == Seq::<u8>::empty(),
            final(self).spec_result() == old(self).spec_result(),
    {
        self.buffer.take()
    }

    pub fn get_result(&self) -> (r: Result<(), ParseError>)
        ensures
            r == self.spec_result(),
    {
        self.result
    }

    /// Latches a result; an error can only be replaced by another error.
    pub fn set_result(&mut self, result: Result<(), ParseError>)
        ensures
            final(self).spec_result() == result,
            final(self).spec_buf() == old(self).spec_buf(),
            final(self).wf() == old(self).wf(),
    {
        self.result = result;
    }

    pub fn is_err(&self) -> (r: bool)
        ensures
            r == (self.spec_result() is Err),
    {
        self.result.is_err()
    }

    /// Reads one byte; with fewer than one byte left, latches
    /// `PacketTooShort` and yields zero.
    pub fn parse_u8(&mut self) -> (r: u8)
        requires
            old(self).wf(),
        ensures
            final(self).wf(),
            old(self).spec_buf().len() >= 1 ==> {
                &&& r == old(self).spec_buf()[0]
                &&& final(self).spec_buf() == old(self).spec_buf().skip(1)
                &&& final(self).spec_result() == old(self).spec_result()
            },
            old(self).spec_buf().len() < 1 ==> {
                &&& r == 0
                &&& final(self).spec_buf() == old(self).spec_buf()
                &&& final(self).spec_result()
                    == Err::<(), ParseError>(ParseError::PacketTooShort)
            },
    {
        if self.buffer.size() < 1 {
            self.result = Err(ParseError::PacketTooShort);
            return 0;
        }
        let b = self.buffer.at(0);
        self.buffer.remove_prefix(1);
        b
    }

    /// Reads a big-endian 16-bit value; with fewer than two bytes left,
    /// latches `PacketTooShort` and yields zero.
    pub fn parse_u16(&mut self) -> (r: u16)
        requires
            old(self).wf(),
        ensures
            final(self).wf(),
            old(self).spec_buf().len() >= 2 ==> {
                &&& r == be16(old(self).spec_buf()[0], old(self).spec_buf()[1])
                &&& final(self).spec_buf() == old(self).spec_buf().skip(2)
                &&& final(self).spec_result() == old(self).spec_result()
            },
            old(self).spec_buf().len() < 2 ==> {
                &&& r == 0
                &&& final(self).spec_buf() == old(self).spec_buf()
                &&& final(self).spec_result()
                    == Err::<(), ParseError>(ParseError::PacketTooShort)
            },
    {
        if self.buffer.size() < 2 {
            self.result = Err(ParseError::PacketTooShort);
            return 0;
        }
        let b0 = self.buffer.at(0);
        let b1 = self.buffer.at(1);
        self.buffer.remove_prefix(2);
        (b0 as u16) * 0x100 + (b1 as u16)
    }

    /// Reads a big-endian 32-bit value; with fewer than four bytes
    /// left, latches `PacketTooShort` and yields zero.
    pub fn parse_u32(&mut self) -> (r: u32)
        requires
            old(self).wf(),
        ensures
            final(self).wf(),
            old(self).spec_buf().len() >= 4 ==> {
                &&& r == be32(
                    old(self).spec_buf()[0],
                    old(self).spec_buf()[1],
                    old(self).spec_buf()[2],
                    old(self).spec_buf()[3],
                )
                &&& final(self).spec_buf() == old(self).spec_buf().skip(4)
                &&& final(self).spec_result() == old(self).spec_result()
            },
            old(self).spec_buf().len() < 4 ==> {
                &&& r == 0
                &&& final(self).spec_buf() == old(self).spec_buf()
                &&& final(self).spec_result()
                    == Err::<(), ParseError>(ParseError::PacketTooShort)
            },
    {
        if self.buffer.size() < 4 {
            self.result = Err(ParseError::PacketTooShort);
            return 0;
        }
        let b0 = self.buffer.at(0);
        let b1 = self.buffer.at(1);
        let b2 = self.buffer.at(2);
        let b3 = self.buffer.at(3);
        self.buffer.remove_prefix(4);
        (b0 as u32) * 0x100_0000 + (b1 as u32) * 0x1_0000 + (b2 as u32) * 0x100 + (b3 as u32)
    }

    /// Discards `n` bytes; with fewer left, latches `PacketTooShort`.
    pub fn remove_prefix(&mut self, n: usize)
        requires
            old(self).wf(),
        ensures
            final(self).wf(),
            n <= old(self).spec_buf().len() ==> {
                &&& final(self).spec_buf() == old(self).spec_buf().skip(n as int)
                &&& final(self).spec_result() == old(self).spec_result()
            },
            n > old(self).spec_buf().len() ==> {
                &&& final(self).spec_buf() == old(self).spec_buf()
                &&& final(self).spec_result()
                    == Err::<(), ParseError>(ParseError::PacketTooShort)
            },
    {
        if n > self.buffer.size() {
            self.result = Err(ParseError::PacketTooShort);
            return;
        }
        self.buffer.remove_prefix(n);
    }
}

/// Writes big-endian integers onto the end of a byte vector.
pub struct NetUnparser;

impl NetUnparser {
    pub fn u8(s: &mut Vec<u8>, val: u8)
        ensures
            final(s)@ == old(s)@.push(val),
    {
        s.push(val);
    }

    pub fn u16(s: &mut Vec<u8>, val: u16)
        ensures
            final(s)@ == old(s)@ + bytes16(val),
            be16(final(s)@[old(s)@.len() as int], final(s)@[old(s)@.len() as int + 1]) == val,
    {
        s.push((val / 0x100) as u8);
        s.push((val % 0x100) as u8);
        proof {
            assert(final(s)@ =~= old(s)@ + bytes16(val));
        }
    }

    pub fn u32(s: &mut Vec<u8>, val: u32)
        ensures
            final(s)@ == old(s)@ + bytes32(val),
            be32(
                final(s)@[old(s)@.len() as int],
                final(s)@[old(s)@.len() as int + 1],
                final(s)@[old(s)@.len() as int + 2],
                final(s)@[old(s)@.len() as int + 3],
            ) == val,
    {
        s.push((val / 0x100_0000) as u8);
        s.push(((val / 0x1_0000) % 0x100) as u8);
        s.push(((val / 0x100) % 0x100) as u8);
        s.push((val % 0x100) as u8);
        proof {
            assert(final(s)@ =~= old(s)@ + bytes32(val));
            lemma_be32_compose(val);
        }
    }
}

/// The big-endian decomposition of a 32-bit value recomposes to it.
proof fn lemma_be32_compose(v: u32)
    ensures
        be32(
            (v / 0x100_0000) as u8,
            ((v / 0x1_0000) % 0x100) as u8,
            ((v / 0x100) % 0x100) as u8,
            (v % 0x100) as u8,
        ) == v,
{
    assert(be32(
        (v / 0x100_0000) as u8,
        ((v / 0x1_0000) % 0x100) as u8,
        ((v / 0x100) % 0x100) as u8,
        (v % 0x100) as u8,
    ) == v) by (nonlinear_arith);
}

} // verus!
