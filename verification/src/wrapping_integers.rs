//! 32-bit wrapping sequence numbers and their conversion to and from
//! 64-bit absolute stream indices.
//!
//! `wrap` is addition modulo 2^32 relative to an initial sequence number
//! (ISN); `unwrap` recovers the 64-bit index whose low 32 bits match and
//! which lies closest to a caller-supplied checkpoint, ties broken toward
//! the candidate at or above the checkpoint.

use vstd::prelude::*;

verus! {

use vstd::arithmetic::div_mod::lemma_fundamental_div_mod;
use vstd::arithmetic::div_mod::lemma_mod_multiples_vanish;

/// 2^32, the size of the sequence-number space.
pub open spec fn seq_space() -> int {
    0x1_0000_0000
}

#[derive(Debug, Clone, Copy, PartialEq, Eq, Structural)]
pub struct WrappingU32 {
    raw_val: u32,
}

/// `(n + isn) mod 2^32`.
pub open spec fn wrap_spec(n: int, isn: u32) -> u32 {
    ((n + (isn as int)) % seq_space()) as u32
}

/// `(seq - isn) mod 2^32`: the offset of `seq` past the ISN.
pub open spec fn offset_spec(seq: u32, isn: u32) -> int {
    ((seq as int) - (isn as int)) % seq_space()
}

/// The 64-bit value whose low 32 bits equal `(seq - isn) mod 2^32` and
/// which is closest to `checkpoint`; a tie is broken toward the candidate
/// at or above `checkpoint`, and a candidate outside `u64` is never taken.
pub open spec fn unwrap_spec(seq: u32, isn: u32, checkpoint: u64) -> u64 {
    let offset = offset_spec(seq, isn);
    let cp = checkpoint as int;
    let base = (cp / seq_space()) * seq_space();
    let cand = base + offset;
    if cand >= cp {
        if cand - cp <= seq_space() / 2 || cand < seq_space() {
            cand as u64
        } else {
            (cand - seq_space()) as u64
        }
    } else {
        if cp - cand >= seq_space() / 2 && cand + seq_space() <= u64::MAX {
            (cand + seq_space()) as u64
        } else {
            cand as u64
        }
    }
}

impl WrappingU32 {
    pub closed spec fn spec_raw(&self) -> u32 {
        self.raw_val
    }

    pub fn new(raw_val: u32) -> (r: Self)
        ensures
            r.spec_raw() == raw_val,
    {
        WrappingU32 { raw_val }
    }

    pub fn raw_val(&self) -> (r: u32)
        ensures
            r == self.spec_raw(),
    {
        self.raw_val
    }

    /// Relies on rand::random: a uniformly drawn `u32`. Nothing is
    /// promised of the value.
    #[verifier::external_body]
    pub fn random() -> Self {
        WrappingU32 { raw_val: rand::random::<u32>() }
    }

    /// The wrapping sequence number for absolute index `n` relative to `isn`.
    pub fn wrap(n: u64, isn: &Self) -> (r: Self)
        ensures
            r.spec_raw() == wrap_spec(n as int, isn.spec_raw() as u32),
    {
        let low: u64 = n % 0x1_0000_0000u64;
        let sum: u64 = low + (isn.raw_val as u64);
        let raw: u64 = sum % 0x1_0000_0000u64;
        proof {
            lemma_mod_multiples_vanish(
                (n as int) / seq_space(),
                (isn.raw_val as int) + ((n as int) % seq_space()),
                seq_space(),
            );
            lemma_fundamental_div_mod(n as int, seq_space());
        }
        WrappingU32 { raw_val: raw as u32 }
    }

    /// The absolute index for `n`: low 32 bits `(n - isn) mod 2^32`,
    /// value closest to `check_point` (ties toward the candidate at or
    /// above it, and never outside `u64`).
    pub fn unwrap(n: &Self, isn: &Self, check_point: u64) -> (r: u64)
        ensures
            r == unwrap_spec(n.spec_raw() as u32, isn.spec_raw() as u32, check_point),
            (r as int) % seq_space() == offset_spec(n.spec_raw() as u32, isn.spec_raw() as u32),
    {
        let offset: u64 = if n.raw_val >= isn.raw_val {
            (n.raw_val - isn.raw_val) as u64
        } else {
            (n.raw_val as u64) + 0x1_0000_0000u64 - (isn.raw_val as u64)
        };
        proof {
            if n.raw_val >= isn.raw_val {
                assert(offset == offset_spec(n.raw_val, isn.raw_val)) by {
                    assert(((n.raw_val as int) - (isn.raw_val as int)) % seq_space()
                        == (n.raw_val as int) - (isn.raw_val as int));
                };
            } else {
                lemma_mod_multiples_vanish(
                    -1,
                    (n.raw_val as int) - (isn.raw_val as int) + seq_space(),
                    seq_space(),
                );
            }
        }
        let q: u64 = check_point / 0x1_0000_0000u64;
        let base: u64 = q * 0x1_0000_0000u64;
        proof {
            lemma_fundamental_div_mod(check_point as int, seq_space());
            assert(base == (check_point as int / seq_space()) * seq_space()) by {
                assert(q == check_point as int / seq_space());
                assert(q < seq_space()) by {
                    lemma_fundamental_div_mod(check_point as int, seq_space());
                };
            };
        }
        let cand: u64 = base + offset;
        if cand >= check_point {
            if cand - check_point <= 0x8000_0000u64 || cand < 0x1_0000_0000u64 {
                proof {
                    lemma_cand_mod(base as int, offset as int);
                }
                cand
            } else {
                proof {
                    lemma_cand_mod((base - seq_space()) as int, offset as int);
                }
                cand - 0x1_0000_0000u64
            }
        } else {
            if check_point - cand >= 0x8000_0000u64 && cand <= u64::MAX - 0x1_0000_0000u64 {
                proof {
                    lemma_cand_mod((base + seq_space()) as int, offset as int);
                }
                cand + 0x1_0000_0000u64
            } else {
                proof {
                    lemma_cand_mod(base as int, offset as int);
                }
                cand
            }
        }
    }
}

/// For a base that is a multiple of 2^32 and an offset below 2^32,
/// `(base + offset) mod 2^32 == offset`.
proof fn lemma_cand_mod(base: int, offset: int)
    requires
        base % seq_space() == 0,
        0 <= offset < seq_space(),
    ensures
        (base + offset) % seq_space() == offset,
{
    lemma_fundamental_div_mod(base, seq_space());
    lemma_mod_multiples_vanish(base / seq_space(), offset, seq_space());
}

/// Round trip for an index at or below a nearby checkpoint: the
/// closest candidate is the index itself.
pub proof fn lemma_unwrap_wrap_near(n: u64, isn: u32, cp: u64)
    requires
        n <= cp,
        cp - n < 0x8000_0000,
    ensures
        unwrap_spec(wrap_spec(n as int, isn), isn, cp) == n,
{
    let c = seq_space();
    let w = wrap_spec(n as int, isn);
    lemma_fundamental_div_mod((n as int) + (isn as int), c);
    let k = ((n as int) + (isn as int)) / c;
    assert((w as int) == (n as int) + (isn as int) - c * k);
    lemma_mod_multiples_vanish(-k, n as int, c);
    assert(offset_spec(w, isn) == (n as int) % c);
    let off = (n as int) % c;
    lemma_fundamental_div_mod(n as int, c);
    let qn = (n as int) / c;
    assert(n as int == qn * c + off);
    lemma_fundamental_div_mod(cp as int, c);
    let qc = (cp as int) / c;
    let base = qc * c;
    let cand = base + off;
    assert(0 <= (cp as int) % c < c);
    assert(qn <= qc <= qn + 1) by (nonlinear_arith)
        requires
            n as int == qn * c + off,
            cp as int == qc * c + (cp as int) % c,
            0 <= off < c,
            0 <= (cp as int) % c < c,
            n <= cp,
            cp - n < 0x8000_0000,
            c == 0x1_0000_0000,
    ;
    if qc == qn {
        assert(cand == n);
        if cand >= cp {
            assert(cand == cp);
        } else {
            assert((cp as int) - cand < 0x8000_0000);
            assert(!((cp as int) - cand >= c / 2));
        }
    } else {
        assert(qc == qn + 1);
        assert(cand == (n as int) + c);
        assert(cand >= cp) by (nonlinear_arith)
            requires
                cand == (n as int) + c,
                cp - n < 0x8000_0000,
                c == 0x1_0000_0000,
        ;
        assert(cand - (cp as int) == c - ((cp as int) - (n as int)));
        assert(cand - (cp as int) > c / 2);
        assert(cand >= c) by (nonlinear_arith)
            requires
                cand == base + off,
                base == qc * c,
                qc == qn + 1,
                qn >= 0,
                off >= 0,
                c == 0x1_0000_0000,
        ;
        assert(cand - c == n);
    }
}

/// Round trip: unwrapping a wrapped index against itself as the
/// checkpoint recovers the index exactly, for every index and ISN.
pub proof fn lemma_wrap_unwrap_roundtrip(n: u64, isn: u32)
    ensures
        unwrap_spec(wrap_spec(n as int, isn), isn, n) == n,
{
    let c = seq_space();
    let w = wrap_spec(n as int, isn);
    lemma_fundamental_div_mod((n as int) + (isn as int), c);
    let k = ((n as int) + (isn as int)) / c;
    assert((w as int) == (n as int) + (isn as int) - c * k);
    lemma_mod_multiples_vanish(-k, n as int, c);
    assert(((w as int) - (isn as int)) % c == (n as int) % c);
    assert(offset_spec(w, isn) == (n as int) % c);
    lemma_fundamental_div_mod(n as int, c);
    assert(((n as int) / c) * c + (n as int) % c == n as int);
}

} // verus!
