//! Small helpers: a millisecond counter, the Internet checksum, and a
//! hex dump formatter.

use vstd::prelude::*;

verus! {

/// A span or instant measured in milliseconds.
#[derive(Debug, Default, Clone, Copy, PartialEq, Eq, Structural)]
pub struct Milliseconds(pub u64);

/// One fold step: the low 16 bits plus the carry bits above them.
pub open spec fn fold_once(sum: int) -> int {
    sum % 0x1_0000 + sum / 0x1_0000
}

/// The checksum accumulator folded into 16 bits: carries are added back
/// until none remain.
pub open spec fn fold_checksum(sum: int) -> int
    decreases sum,
    via fold_checksum_dec
{
    if sum < 0x1_0000 {
        sum
    } else {
        fold_checksum(fold_once(sum))
    }
}

#[via_fn]
proof fn fold_checksum_dec(sum: int) {
    if sum >= 0x1_0000 {
        assert(fold_once(sum) < sum) by (nonlinear_arith)
            requires
                sum >= 0x1_0000,
        ;
    }
}

/// The running 32-bit sum of the Internet checksum over `data` (16-bit
/// big-endian words, an odd trailing byte padded with zero), starting
/// from `initial`, wrapping at 32 bits.
pub open spec fn checksum_sum(data: Seq<u8>, initial: int) -> int
    decreases data.len(),
{
    if data.len() == 0 {
        initial
    } else if data.len() == 1 {
        (initial + data[0] * 256) % 0x1_0000_0000
    } else {
        checksum_sum(data.skip(2), (initial + data[0] * 256 + data[1]) % 0x1_0000_0000)
    }
}

/// The RFC 1071 Internet checksum: a sum of 16-bit big-endian words
/// that is folded and complemented on demand.
#[derive(Debug, Clone, Copy)]
pub struct InternetChecksum {
    sum: u32,
}

impl InternetChecksum {
    pub closed spec fn spec_sum(&self) -> int {
        self.sum as int
    }

    pub fn new(initial_sum: u32) -> (r: Self)
        ensures
            r.spec_sum() == initial_sum,
    {
        InternetChecksum { sum: initial_sum }
    }

    /// Adds `data` to the running sum, two big-endian bytes per word, a
    /// trailing odd byte padded with zero.
    pub fn add(&mut self, data: &[u8])
        ensures
            final(self).spec_sum() == checksum_sum(data@, old(self).spec_sum()),
    {
        let ghost sum0 = self.sum as int;
        proof {
            assert(data@.skip(0) =~= data@);
        }
        let mut i: usize = 0;
        while i < data.len() && i + 1 < data.len()
            invariant
                i <= data.len(),
                checksum_sum(data@, sum0)
                    == checksum_sum(data@.skip(i as int), self.sum as int),
            decreases data.len() - i,
        {
            let ghost pre = data@.skip(i as int);
            let word: u32 = (data[i] as u32) * 256 + (data[i + 1] as u32);
            let next: u64 = (self.sum as u64) + (word as u64);
            self.sum = (next % 0x1_0000_0000u64) as u32;
            proof {
                assert(pre.len() >= 2);
                assert(pre[0] == data@[i as int]);
                assert(pre[1] == data@[i as int + 1]);
                assert(pre.skip(2) =~= data@.skip(i as int + 2));
            }
            i = i + 2;
        }
        if i < data.len() {
            let ghost pre = data@.skip(i as int);
            let word: u32 = (data[i] as u32) * 256;
            let next: u64 = (self.sum as u64) + (word as u64);
            self.sum = (next % 0x1_0000_0000u64) as u32;
            proof {
                assert(pre.len() == 1);
                assert(pre[0] == data@[i as int]);
            }
        } else {
            proof {
                assert(data@.skip(i as int).len() == 0);
            }
        }
    }

    /// Folds the carries into 16 bits and returns the one's complement.
    pub fn value(&self) -> (r: u16)
        ensures
            r == 0xFFFF - fold_checksum(self.spec_sum()),
    {
        let mut sum: u32 = self.sum;
        while sum >> 16 != 0
            invariant
                fold_checksum(self.spec_sum()) == fold_checksum(sum as int),
            decreases sum,
        {
            let lo: u32 = sum & 0xFFFF;
            let hi: u32 = sum >> 16;
            proof {
                assert(lo == sum % 0x1_0000 && hi == sum / 0x1_0000 && sum >= 0x1_0000)
                    by (bit_vector)
                    requires
                        lo == sum & 0xFFFF,
                        hi == sum >> 16,
                        hi != 0,
                ;
                assert(lo + hi < sum) by (nonlinear_arith)
                    requires
                        lo == sum % 0x1_0000,
                        hi == sum / 0x1_0000,
                        sum >= 0x1_0000,
                ;
            }
            sum = lo + hi;
        }
        proof {
            assert(sum < 0x1_0000) by (bit_vector)
                requires
                    sum >> 16 == 0,
            ;
        }
        0xFFFFu16 - (sum as u16)
    }
}

/// One hexadecimal digit as its lower-case ASCII character.
pub open spec fn hex_digit(v: int) -> char {
    if v == 0 { '0' } else if v == 1 { '1' } else if v == 2 { '2' } else if v == 3 { '3' }
    else if v == 4 { '4' } else if v == 5 { '5' } else if v == 6 { '6' } else if v == 7 { '7' }
    else if v == 8 { '8' } else if v == 9 { '9' } else if v == 10 { 'a' } else if v == 11 { 'b' }
    else if v == 12 { 'c' } else if v == 13 { 'd' } else if v == 14 { 'e' } else { 'f' }
}

fn push_hex_digit(out: &mut Vec<char>, v: u8)
    requires
        v < 16,
    ensures
        final(out)@ == old(out)@.push(hex_digit(v as int)),
{
    let c: char = match v {
        0 => '0', 1 => '1', 2 => '2', 3 => '3', 4 => '4', 5 => '5', 6 => '6', 7 => '7',
        8 => '8', 9 => '9', 10 => 'a', 11 => 'b', 12 => 'c', 13 => 'd', 14 => 'e', _ => 'f',
    };
    out.push(c);
}

/// Formats `data` as a classic hex dump, `indent` spaces before each
/// line: an 8-digit offset, the bytes in big-endian pairs with an extra
/// space after the eighth byte, then the printable characters.
pub fn hexdump(data: &[u8], indent: usize) -> (r: String)
    requires
        data@.len() <= usize::MAX - 16,
    ensures
        (r@.len() == 0) <==> (data@.len() == 0),
{
    let mut out: Vec<char> = Vec::new();
    let mut base: usize = 0;
    while base < data.len()
        invariant
            data@.len() <= usize::MAX - 16,
            data@.len() == 0 ==> out@.len() == 0,
            base > 0 ==> out@.len() > 0,
        decreases data.len() - base,
    {
        let n: usize = if data.len() - base < 16 { data.len() - base } else { 16 };
        let mut i: usize = 0;
        while i < indent
            invariant
                i <= indent,
            decreases indent - i,
        {
            out.push(' ');
            i = i + 1;
        }
        // 8-digit hexadecimal offset.
        let mut shift: usize = 8;
        while shift > 0
            invariant
                shift <= 8,
            decreases shift,
        {
            shift = shift - 1;
            let b64: u64 = base as u64;
            let s4: u64 = (shift as u64) * 4;
            proof {
                let bb = b64;
                let ss = s4;
                assert((bb >> ss) & 0xF < 16) by (bit_vector);
            }
            let nib: u8 = ((b64 >> s4) & 0xF) as u8;
            push_hex_digit(&mut out, nib);
        }
        out.push(':');
        out.push(' ');
        let mut j: usize = 0;
        while j < n
            invariant
                j <= n,
                n <= 16,
                base + n <= data@.len(),
                data@.len() <= usize::MAX - 16,
            decreases n - j,
        {
            let b = data[base + j];
            push_hex_digit(&mut out, b / 16);
            push_hex_digit(&mut out, b % 16);
            if j % 2 == 1 {
                out.push(' ');
            }
            if j == 7 {
                out.push(' ');
            }
            j = j + 1;
        }
        // Pad short lines so the character column lines up.
        let written: usize = 2 * n + n / 2 + (if n >= 8 { 1usize } else { 0usize });
        let full: usize = 41;
        let mut pad: usize = if full > written { full - written + 1 } else { 1 };
        while pad > 0
            invariant
                pad <= 42,
            decreases pad,
        {
            out.push(' ');
            pad = pad - 1;
        }
        let mut j2: usize = 0;
        while j2 < n
            invariant
                j2 <= n,
                n <= 16,
                base + n <= data@.len(),
                data@.len() <= usize::MAX - 16,
            decreases n - j2,
        {
            let b = data[base + j2];
            if 32 <= b && b < 127 {
                out.push(b as char);
            } else {
                out.push('.');
            }
            j2 = j2 + 1;
        }
        out.push('\n');
        base = base + n;
    }
    chars_to_string(&out)
}

/// Appends the decimal digits of `n`, most significant first.
pub fn push_dec(out: &mut Vec<char>, n: u64)
    ensures
        final(out)@.len() > old(out)@.len(),
{
    let mut tmp: Vec<char> = Vec::new();
    let mut m: u64 = n;
    loop
        invariant_except_break
            true,
        ensures
            tmp@.len() > 0,
        decreases m,
    {
        push_hex_digit(&mut tmp, (m % 10) as u8);
        let next = m / 10;
        if next == 0 {
            break;
        }
        proof {
            assert(next < m) by (nonlinear_arith)
                requires
                    next == m / 10,
                    next != 0,
            ;
        }
        m = next;
    }
    let ghost t0 = tmp@.len();
    while tmp.len() > 0
        invariant
            tmp@.len() <= t0,
            out@.len() == old(out)@.len() + t0 - tmp@.len(),
        decreases tmp@.len(),
    {
        let c = tmp.pop().unwrap();
        out.push(c);
    }
}

/// Relies on String's FromIterator over chars: builds the string
/// holding exactly the given characters.
#[verifier::external_body]
pub fn chars_to_string(chars: &Vec<char>) -> (r: String)
    ensures
        r@ == chars@,
{
    chars.iter().collect()
}

} // verus!
