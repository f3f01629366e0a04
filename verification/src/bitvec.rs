//! Fixed-width bit vectors, the concrete half of the runtime value model.
//!
//! A `Bv` is a bit vector of width `len` (at most 64 bits) whose payload is
//! kept in the low `len` bits of `bits`; all higher bits are zero. Every
//! operation states its result directly over the payload bits, using the
//! total shift functions `shl64` / `shr64`.

use vstd::prelude::*;

verus! {

/// Mask with the low `len` bits set.
pub open spec fn mask64(len: u32) -> u64 {
    if len >= 64 {
        u64::MAX
    } else {
        ((1u64 << len) - 1) as u64
    }
}

/// Left shift, total: shifting by 64 or more gives zero.
pub open spec fn shl64(x: u64, s: u32) -> u64 {
    if s >= 64 {
        0
    } else {
        x << s
    }
}

/// Right shift, total: shifting by 64 or more gives zero.
pub open spec fn shr64(x: u64, s: u32) -> u64 {
    if s >= 64 {
        0
    } else {
        x >> s
    }
}

/// A bit vector of width `len <= 64`, stored in the low bits of `bits`.
#[derive(Clone, Copy, Debug, PartialEq, Eq, Structural, Hash)]
pub struct Bv {
    pub len: u32,
    pub bits: u64,
}

impl Bv {
    /// Well-formed: the width fits and no bit above the width is set.
    pub open spec fn wf(self) -> bool {
        self.len <= 64 && self.bits & mask64(self.len) == self.bits
    }

    /// The mask for width `len`.
    fn mask(len: u32) -> (r: u64)
        requires
            len <= 64,
        ensures
            r == mask64(len),
    {
        if len >= 64 {
            u64::MAX
        } else {
            proof {
                assert(len < 64 ==> (1u64 << len) >= 1) by (bit_vector);
            }
            (1u64 << len) - 1
        }
    }

    /// Build a vector of width `len` from the low `len` bits of `bits`.
    pub fn new(len: u32, bits: u64) -> (r: Bv)
        requires
            len <= 64,
        ensures
            r.len == len,
            r.bits == bits & mask64(len),
            r.wf(),
    {
        let m = Self::mask(len);
        proof {
            assert((bits & m) & m == bits & m) by (bit_vector);
        }
        Bv { len, bits: bits & m }
    }

    /// The all-zero vector of width `len`.
    pub fn zeros(len: u32) -> (r: Bv)
        requires
            len <= 64,
        ensures
            r.len == len,
            r.bits == 0,
            r.wf(),
    {
        proof {
            assert(0u64 & mask64(len) == 0u64) by (bit_vector);
        }
        Bv { len, bits: 0 }
    }

    /// The all-one vector of width `len`.
    pub fn ones(len: u32) -> (r: Bv)
        requires
            len <= 64,
        ensures
            r.len == len,
            r.bits == mask64(len),
            r.wf(),
    {
        let m = Self::mask(len);
        proof {
            assert(m & m == m) by (bit_vector);
        }
        Bv { len, bits: m }
    }

    /// A 16-bit vector holding `v`.
    pub fn from_u16(v: u16) -> (r: Bv)
        ensures
            r.len == 16,
            r.bits == v,
            r.wf(),
    {
        proof {
            let b = v as u64;
            assert(b <= 0xffff ==> b & (((1u64 << 16) - 1) as u64) == b) by (bit_vector);
        }
        Bv { len: 16, bits: v as u64 }
    }

    /// A 32-bit vector holding `v`.
    pub fn from_u32(v: u32) -> (r: Bv)
        ensures
            r.len == 32,
            r.bits == v,
            r.wf(),
    {
        proof {
            let b = v as u64;
            assert(b <= 0xffff_ffff ==> b & (((1u64 << 32) - 1) as u64) == b) by (bit_vector);
        }
        Bv { len: 32, bits: v as u64 }
    }

    /// Concatenation: `self` provides the high bits, `other` the low bits.
    pub fn concat(&self, other: &Bv) -> (r: Bv)
        requires
            self.wf(),
            other.wf(),
            self.len + other.len <= 64,
        ensures
            r.len == self.len + other.len,
            r.bits == shl64(self.bits, other.len) | other.bits,
            r.wf(),
    {
        if other.len >= 64 {
            proof {
                let b = other.bits;
                assert(0u64 | b == b) by (bit_vector);
            }
            Bv { len: 64, bits: other.bits }
        } else {
            let bits = (self.bits << other.len) | other.bits;
            proof {
                let a = self.bits;
                let b = other.bits;
                let al = self.len;
                let bl = other.len;
                assert(((a << bl) | b) & mask64((al + bl) as u32) == ((a << bl) | b))
                    by (bit_vector)
                    requires
                        al + bl <= 64,
                        bl < 64,
                        a & mask64(al) == a,
                        b & mask64(bl) == b,
                ;
            }
            Bv { len: self.len + other.len, bits }
        }
    }

    /// The `length`-bit slice starting at bit `from` (counting from bit 0).
    pub fn slice(&self, from: u32, length: u32) -> (r: Bv)
        requires
            self.wf(),
            from + length <= self.len,
        ensures
            r.len == length,
            r.bits == shr64(self.bits, from) & mask64(length),
            r.wf(),
    {
        let shifted = if from >= 64 {
            0
        } else {
            self.bits >> from
        };
        Bv::new(length, shifted)
    }

    /// Replace the bits `from .. from + v.len` of `self` by `v`.
    pub fn set_slice(&self, from: u32, v: &Bv) -> (r: Bv)
        requires
            self.wf(),
            v.wf(),
            from + v.len <= self.len,
        ensures
            r.len == self.len,
            r.bits == (self.bits & !shl64(mask64(v.len), from)) | shl64(v.bits, from),
            r.wf(),
    {
        if from >= 64 {
            proof {
                let a = self.bits;
                assert((a & !0u64) | 0u64 == a) by (bit_vector);
            }
            Bv { len: self.len, bits: self.bits }
        } else {
            let hole = !(Self::mask(v.len) << from);
            let bits = (self.bits & hole) | (v.bits << from);
            proof {
                let a = self.bits;
                let b = v.bits;
                let al = self.len;
                let bl = v.len;
                assert(((a & !(mask64(bl) << from)) | (b << from)) & mask64(al) == ((a & !(mask64(
                    bl,
                ) << from)) | (b << from)))
                    by (bit_vector)
                    requires
                        from + bl <= al,
                        al <= 64,
                        from < 64,
                        a & mask64(al) == a,
                        b & mask64(bl) == b,
                ;
            }
            Bv { len: self.len, bits }
        }
    }

    /// Bit `i` of the vector, as a boolean.
    pub fn access(&self, i: u32) -> (r: bool)
        requires
            self.wf(),
            i < self.len,
        ensures
            r == (shr64(self.bits, i) & 1 == 1),
    {
        (self.bits >> i) & 1 == 1
    }

    /// Bitwise complement within the width.
    pub fn not(&self) -> (r: Bv)
        requires
            self.wf(),
        ensures
            r.len == self.len,
            r.bits == !self.bits & mask64(self.len),
            r.wf(),
    {
        Bv::new(self.len, !self.bits)
    }

    /// Bitwise and; both operands must share a width.
    pub fn and(&self, other: &Bv) -> (r: Bv)
        requires
            self.wf(),
            other.wf(),
            self.len == other.len,
        ensures
            r.len == self.len,
            r.bits == self.bits & other.bits,
            r.wf(),
    {
        let bits = self.bits & other.bits;
        proof {
            let a = self.bits;
            let b = other.bits;
            let m = mask64(self.len);
            assert((a & b) & m == a & b) by (bit_vector)
                requires
                    a & m == a,
            ;
        }
        Bv { len: self.len, bits }
    }

    /// Bitwise or; both operands must share a width.
    pub fn or(&self, other: &Bv) -> (r: Bv)
        requires
            self.wf(),
            other.wf(),
            self.len == other.len,
        ensures
            r.len == self.len,
            r.bits == self.bits | other.bits,
            r.wf(),
    {
        let bits = self.bits | other.bits;
        proof {
            let a = self.bits;
            let b = other.bits;
            let m = mask64(self.len);
            assert((a | b) & m == a | b) by (bit_vector)
                requires
                    a & m == a,
                    b & m == b,
            ;
        }
        Bv { len: self.len, bits }
    }

    /// Bitwise xor; both operands must share a width.
    pub fn xor(&self, other: &Bv) -> (r: Bv)
        requires
            self.wf(),
            other.wf(),
            self.len == other.len,
        ensures
            r.len == self.len,
            r.bits == self.bits ^ other.bits,
            r.wf(),
    {
        let bits = self.bits ^ other.bits;
        proof {
            let a = self.bits;
            let b = other.bits;
            let m = mask64(self.len);
            assert((a ^ b) & m == a ^ b) by (bit_vector)
                requires
                    a & m == a,
                    b & m == b,
            ;
        }
        Bv { len: self.len, bits }
    }

    /// Addition modulo `2^len`.
    pub fn add(&self, other: &Bv) -> (r: Bv)
        requires
            self.wf(),
            other.wf(),
            self.len == other.len,
        ensures
            r.len == self.len,
            r.bits == ((self.bits + other.bits) % 0x1_0000_0000_0000_0000) as u64 & mask64(
                self.len,
            ),
            r.wf(),
    {
        let sum = self.bits.wrapping_add(other.bits);
        Bv::new(self.len, sum)
    }

    /// Subtraction modulo `2^len`.
    pub fn sub(&self, other: &Bv) -> (r: Bv)
        requires
            self.wf(),
            other.wf(),
            self.len == other.len,
        ensures
            r.len == self.len,
            r.bits == ((self.bits - other.bits) % 0x1_0000_0000_0000_0000) as u64 & mask64(
                self.len,
            ),
            r.wf(),
    {
        let diff = self.bits.wrapping_sub(other.bits);
        Bv::new(self.len, diff)
    }

    /// The payload as an unsigned integer; always fits in a `u64`.
    pub fn lower_u64(&self) -> (r: u64)
        ensures
            r == self.bits,
    {
        self.bits
    }
}

} // verus!
