//! Instruction encodings: hex decoding, byte-order handling, and the
//! translation of (partially symbolic) opcode patterns into runtime values
//! backed by fresh solver variables.

use vstd::prelude::*;
use vstd::string::StringSliceAdditionalSpecFns;

use crate::bitvec::Bv;
use crate::bitvec::mask64;
use crate::bitvec::shr64;
use crate::smt::SmtExp;
use crate::smt::Solver;
use crate::smt::Ty;
use crate::value::BitsSegment;
use crate::value::Segs;
use crate::value::segs_from_vec;
use crate::value::Val;

verus! {

/// An error in the instruction encoding or in a setup constraint.
#[derive(Clone, Copy, Debug, PartialEq, Eq, Structural)]
pub enum EncodingError {
    /// A hex opcode string has an odd number of digits.
    OddHexLength,
    /// A character in a hex opcode string is not a hexadecimal digit.
    BadHexDigit,
    /// The opcode is longer than the eight bytes supported.
    UnsupportedLength,
    /// An opcode pattern has no segments at all.
    EmptyPattern,
    /// A symbolic field name occurs twice with different widths.
    MixedFieldWidths,
    /// A setup constraint names a field the pattern does not declare.
    UnknownConstraintField,
}

/// Whether a byte is an ASCII hexadecimal digit.
pub open spec fn is_hex_digit(b: u8) -> bool {
    (48 <= b <= 57) || (97 <= b <= 102) || (65 <= b <= 70)
}

/// The numeric value of an ASCII hexadecimal digit.
pub open spec fn hex_digit_val(b: u8) -> u8 {
    if 48 <= b <= 57 {
        (b - 48) as u8
    } else if 97 <= b <= 102 {
        (b - 87) as u8
    } else if 65 <= b <= 70 {
        (b - 55) as u8
    } else {
        0
    }
}

/// The byte encoded by two hexadecimal digits.
pub open spec fn hex_pair_val(hi: u8, lo: u8) -> u8 {
    (hex_digit_val(hi) * 16 + hex_digit_val(lo)) as u8
}

/// Decode a string of hexadecimal digits into bytes, two digits per byte.
/// The string must have even length and consist of hex digits only;
/// otherwise the encoding error says which condition failed.
pub fn hex_bytes(s: &str) -> (r: Result<Vec<u8>, EncodingError>)
    ensures
        match r {
            Ok(bytes) => {
                &&& s.spec_bytes().len() % 2 == 0
                &&& forall|i: int|
                    0 <= i < s.spec_bytes().len() ==> is_hex_digit(s.spec_bytes()[i])
                &&& bytes@.len() == s.spec_bytes().len() / 2
                &&& forall|i: int|
                    0 <= i < bytes@.len() ==> bytes@[i] == hex_pair_val(
                        s.spec_bytes()[2 * i],
                        s.spec_bytes()[2 * i + 1],
                    )
            },
            Err(EncodingError::OddHexLength) => s.spec_bytes().len() % 2 != 0,
            Err(EncodingError::BadHexDigit) => s.spec_bytes().len() % 2 == 0 && exists|i: int|
                0 <= i < s.spec_bytes().len() && !is_hex_digit(s.spec_bytes()[i]),
            Err(_) => false,
        },
{
    let bs = s.as_bytes();
    if bs.len() % 2 != 0 {
        return Err(EncodingError::OddHexLength);
    }
    let mut bytes: Vec<u8> = Vec::new();
    let mut i: usize = 0;
    while i < bs.len()
        invariant
            bs@ == s.spec_bytes(),
            i % 2 == 0,
            i <= bs@.len(),
            bs@.len() % 2 == 0,
            bytes@.len() == i / 2,
            forall|j: int| 0 <= j < i ==> is_hex_digit(bs@[j]),
            forall|j: int|
                0 <= j < bytes@.len() ==> bytes@[j] == hex_pair_val(bs@[2 * j], bs@[2 * j + 1]),
        decreases bs@.len() - i,
    {
        let hi = bs[i];
        let lo = bs[i + 1];
        let hv = if 48 <= hi && hi <= 57 {
            hi - 48
        } else if 97 <= hi && hi <= 102 {
            hi - 87
        } else if 65 <= hi && hi <= 70 {
            hi - 55
        } else {
            return Err(EncodingError::BadHexDigit);
        };
        let lv = if 48 <= lo && lo <= 57 {
            lo - 48
        } else if 97 <= lo && lo <= 102 {
            lo - 87
        } else if 65 <= lo && lo <= 70 {
            lo - 55
        } else {
            return Err(EncodingError::BadHexDigit);
        };
        bytes.push(hv * 16 + lv);
        i += 2;
    }
    Ok(bytes)
}

/// The value of a byte sequence read most significant byte first.
pub open spec fn be_value(bs: Seq<u8>) -> int
    decreases bs.len(),
{
    if bs.len() == 0 {
        0
    } else {
        be_value(bs.drop_last()) * 256 + bs.last()
    }
}

/// 256 raised to the power `n`.
pub open spec fn pow256(n: nat) -> int
    decreases n,
{
    if n == 0 {
        1
    } else {
        256 * pow256((n - 1) as nat)
    }
}

/// A byte sequence's big-endian value is bounded by `256^len`.
pub proof fn lemma_be_value_bound(bs: Seq<u8>)
    ensures
        0 <= be_value(bs) < pow256(bs.len()),
    decreases bs.len(),
{
    if bs.len() > 0 {
        lemma_be_value_bound(bs.drop_last());
    }
}

/// `pow256` is positive.
pub proof fn lemma_pow256_pos(n: nat)
    ensures
        pow256(n) >= 1,
    decreases n,
{
    if n > 0 {
        lemma_pow256_pos((n - 1) as nat);
    }
}

/// `pow256` grows with its argument.
pub proof fn lemma_pow256_le(m: nat, n: nat)
    requires
        m <= n,
    ensures
        pow256(m) <= pow256(n),
    decreases n,
{
    if m < n {
        lemma_pow256_le(m, (n - 1) as nat);
        lemma_pow256_pos((n - 1) as nat);
        assert(pow256(n) == 256 * pow256((n - 1) as nat));
    }
}

/// Assemble opcode bytes into a single bit vector. Two- and four-byte
/// opcodes honour the requested byte order; other lengths are read most
/// significant byte first. Opcodes longer than eight bytes are not
/// supported.
pub fn opcode_bytes(opcode: Vec<u8>, little_endian: bool) -> (r: Result<Bv, EncodingError>)
    ensures
        match r {
            Ok(bv) => {
                &&& opcode@.len() <= 8
                &&& bv.wf()
                &&& bv.len == 8 * opcode@.len()
                &&& opcode@.len() == 2 ==> bv.bits == (if little_endian {
                    opcode@[0] + 256 * opcode@[1]
                } else {
                    opcode@[1] + 256 * opcode@[0]
                })
                &&& opcode@.len() == 4 ==> bv.bits == (if little_endian {
                    opcode@[0] + 256 * opcode@[1] + 65536 * opcode@[2] + 16777216 * opcode@[3]
                } else {
                    opcode@[3] + 256 * opcode@[2] + 65536 * opcode@[1] + 16777216 * opcode@[0]
                })
                &&& opcode@.len() != 2 && opcode@.len() != 4 ==> bv.bits == be_value(opcode@)
            },
            Err(e) => e == EncodingError::UnsupportedLength && opcode@.len() > 8,
        },
{
    if opcode.len() > 8 {
        return Err(EncodingError::UnsupportedLength);
    }
    if opcode.len() == 2 {
        let v: u64 = if little_endian {
            opcode[0] as u64 + 256 * (opcode[1] as u64)
        } else {
            opcode[1] as u64 + 256 * (opcode[0] as u64)
        };
        proof {
            assert(v < 0x10000);
            assert(v < 0x10000 ==> v & mask64(16) == v) by (bit_vector);
        }
        Ok(Bv { len: 16, bits: v })
    } else if opcode.len() == 4 {
        let v: u64 = if little_endian {
            opcode[0] as u64 + 256 * (opcode[1] as u64) + 65536 * (opcode[2] as u64) + 16777216 * (
            opcode[3] as u64)
        } else {
            opcode[3] as u64 + 256 * (opcode[2] as u64) + 65536 * (opcode[1] as u64) + 16777216 * (
            opcode[0] as u64)
        };
        proof {
            assert(v < 0x1_0000_0000);
            assert(v < 0x1_0000_0000 ==> v & mask64(32) == v) by (bit_vector);
        }
        Ok(Bv { len: 32, bits: v })
    } else {
        let mut acc: u64 = 0;
        let mut i: usize = 0;
        while i < opcode.len()
            invariant
                i <= opcode@.len(),
                opcode@.len() <= 8,
                acc == be_value(opcode@.subrange(0, i as int)),
                acc < pow256(i as nat),
            decreases opcode@.len() - i,
        {
            proof {
                lemma_pow256_le(i as nat, 7);
                lemma_pow256_values();
                assert(opcode@.subrange(0, i + 1).drop_last() =~= opcode@.subrange(0, i as int));
            }
            acc = acc * 256 + opcode[i] as u64;
            i += 1;
        }
        proof {
            assert(opcode@.subrange(0, opcode@.len() as int) =~= opcode@);
            lemma_pow256_le(opcode@.len(), 8);
            lemma_pow256_values();
            let nbits = (8 * opcode@.len()) as u32;
            let a = acc;
            if opcode@.len() < 8 {
                lemma_be_value_bound(opcode@);
                assert(pow256(opcode@.len()) == (1u64 << ((8 * opcode@.len()) as u32)) as int) by {
                    lemma_pow256_shift(opcode@.len() as nat);
                };
                assert(a < (1u64 << nbits) && nbits < 64 ==> a & mask64(nbits) == a)
                    by (bit_vector);
            } else {
                assert(a & mask64(64) == a) by (bit_vector);
            }
        }
        Ok(Bv { len: 8 * (opcode.len() as u32), bits: acc })
    }
}

/// For widths below eight bytes, `256^n` equals the shifted bit `1 << 8n`.
proof fn lemma_pow256_shift(n: nat)
    requires
        n < 8,
    ensures
        pow256(n) == (1u64 << ((8 * n) as u32)) as int,
{
    lemma_pow256_values();
    assert((1u64 << 0) == 0x1 && (1u64 << 8) == 0x100 && (1u64 << 16) == 0x1_0000 && (1u64 << 24)
        == 0x100_0000 && (1u64 << 32) == 0x1_0000_0000 && (1u64 << 40) == 0x100_0000_0000 && (1u64
        << 48) == 0x1_0000_0000_0000 && (1u64 << 56) == 0x100_0000_0000_0000) by (bit_vector);
}

/// The small powers of 256, written out.
proof fn lemma_pow256_values()
    ensures
        pow256(0) == 1,
        pow256(1) == 256,
        pow256(2) == 65536,
        pow256(3) == 16777216,
        pow256(4) == 0x1_0000_0000,
        pow256(5) == 0x100_0000_0000,
        pow256(6) == 0x1_0000_0000_0000,
        pow256(7) == 0x100_0000_0000_0000,
        pow256(8) == 0x1_0000_0000_0000_0000,
{
    assert(pow256(0) == 1);
    assert(pow256(1) == 256 * pow256(0));
    assert(pow256(2) == 256 * pow256(1));
    assert(pow256(3) == 256 * pow256(2));
    assert(pow256(4) == 256 * pow256(3));
    assert(pow256(5) == 256 * pow256(4));
    assert(pow256(6) == 256 * pow256(5));
    assert(pow256(7) == 256 * pow256(6));
    assert(pow256(8) == 256 * pow256(7));
}

/// One element of an opcode pattern: a run of concrete bits or a named
/// symbolic field of a given width.
#[derive(Debug)]
pub enum InstructionSegment {
    Concrete(Bv),
    Symbolic(String, u32),
}

/// The binary digit character for one bit.
pub open spec fn bin_char(b: bool) -> char {
    if b {
        '1'
    } else {
        '0'
    }
}

/// The binary rendering of a bit vector, most significant bit first.
pub open spec fn bv_chars(bv: Bv) -> Seq<char> {
    Seq::new(bv.len as nat, |i: int| bin_char(shr64(bv.bits, (bv.len - 1 - i) as u32) & 1 == 1))
}

/// The rendering of one pattern segment: concrete bits as `0b...`,
/// symbolic fields by their name.
pub open spec fn seg_chars(seg: InstructionSegment) -> Seq<char> {
    match seg {
        InstructionSegment::Concrete(bv) => seq!['0', 'b'] + bv_chars(bv),
        InstructionSegment::Symbolic(name, _) => name@,
    }
}

/// The rendering of the first `n` segments, each followed by one space.
pub open spec fn insn_chars(segs: Seq<InstructionSegment>, n: int) -> Seq<char>
    decreases n,
{
    if n <= 0 {
        Seq::empty()
    } else {
        insn_chars(segs, n - 1) + seg_chars(segs[n - 1]) + seq![' ']
    }
}

/// Render an opcode pattern for display: each segment followed by a space,
/// concrete segments in binary, symbolic segments by name.
pub fn instruction_to_string(opcode: &Vec<InstructionSegment>) -> (r: String)
    ensures
        r@ == insn_chars(opcode@, opcode@.len() as int),
{
    let mut s = String::new();
    let mut i: usize = 0;
    while i < opcode.len()
        invariant
            i <= opcode@.len(),
            s@ == insn_chars(opcode@, i as int),
        decreases opcode@.len() - i,
    {
        match &opcode[i] {
            InstructionSegment::Concrete(bv) => {
                s.append("0b");
                proof {
                    reveal_strlit("0b");
                    assert(bv_chars(*bv).subrange(0, 0) =~= Seq::<char>::empty());
                    assert(s@ =~= insn_chars(opcode@, i as int) + seq!['0', 'b'] + bv_chars(
                        *bv,
                    ).subrange(0, 0));
                }
                let mut j: u32 = 0;
                while j < bv.len
                    invariant
                        j <= bv.len,
                        bv.len <= u32::MAX,
                        s@ == insn_chars(opcode@, i as int) + seq!['0', 'b'] + bv_chars(
                            *bv,
                        ).subrange(0, j as int),
                        opcode@[i as int] == InstructionSegment::Concrete(*bv),
                        i < opcode@.len(),
                    decreases bv.len - j,
                {
                    let ghost j0 = j as int;
                    let bitpos = bv.len - 1 - j;
                    let bit = if bitpos >= 64 {
                        false
                    } else {
                        (bv.bits >> bitpos) & 1 == 1
                    };
                    proof {
                        assert(0u64 & 1u64 == 0) by (bit_vector);
                        assert(bv_chars(*bv)[j0] == bin_char(bit));
                    }
                    if bit {
                        s.append("1");
                        proof {
                            reveal_strlit("1");
                            assert("1"@ =~= seq![bin_char(bit)]);
                        }
                    } else {
                        s.append("0");
                        proof {
                            reveal_strlit("0");
                            assert("0"@ =~= seq![bin_char(bit)]);
                        }
                    }
                    j += 1;
                    proof {
                        assert(s@ =~= insn_chars(opcode@, i as int) + seq!['0', 'b'] + bv_chars(
                            *bv,
                        ).subrange(0, j as int));
                    }
                }
                proof {
                    assert(bv_chars(*bv).subrange(0, bv.len as int) =~= bv_chars(*bv));
                }
            },
            InstructionSegment::Symbolic(name, _) => {
                let copy: String = name.clone();
                s.append(copy.as_str());
            },
        }
        s.append(" ");
        i += 1;
        proof {
            reveal_strlit(" ");
            assert(s@ =~= insn_chars(opcode@, i as int));
        }
    }
    s
}


/// A setup constraint over the named fields of a partial instruction.
#[derive(Debug)]
pub enum CExp {
    /// A named symbolic field of the pattern.
    Field(String),
    Bits(Bv),
    Bool(bool),
    Not(Box<CExp>),
    And(Box<CExp>, Box<CExp>),
    Or(Box<CExp>, Box<CExp>),
    Eq(Box<CExp>, Box<CExp>),
    Neq(Box<CExp>, Box<CExp>),
}

/// Whether some symbolic segment of the pattern is named `name` and was
/// given the solver variable `v`.
pub open spec fn binds_opcode(
    opcode: Seq<InstructionSegment>,
    ss: Seq<BitsSegment>,
    name: Seq<char>,
    v: usize,
) -> bool {
    exists|i: int|
        #![trigger opcode[i], ss[i]]
        0 <= i < opcode.len() && (opcode[i] matches InstructionSegment::Symbolic(n, _) && n@
            == name) && ss[i] == BitsSegment::Symbolic(v)
}

/// Whether the variable table maps `name` to the solver variable `v`.
pub open spec fn table_binds(table: Seq<(String, u32, usize)>, name: Seq<char>, v: usize) -> bool {
    exists|k: int| 0 <= k < table.len() && table[k].0@ == name && table[k].2 == v
}

/// Whether the variable table has an entry for `name`.
pub open spec fn table_has(table: Seq<(String, u32, usize)>, name: Seq<char>) -> bool {
    exists|k: int| 0 <= k < table.len() && table[k].0@ == name
}

/// Whether some symbolic segment of the pattern is named `name`.
pub open spec fn has_seg_field(opcode: Seq<InstructionSegment>, name: Seq<char>) -> bool {
    exists|i: int|
        #![trigger opcode[i]]
        0 <= i < opcode.len() && (opcode[i] matches InstructionSegment::Symbolic(n, _) && n@
            == name)
}

/// Whether `e` is the translation of the constraint `c`, with each named
/// field replaced by the solver variable of the matching pattern segment.
pub open spec fn c_translated(
    c: CExp,
    opcode: Seq<InstructionSegment>,
    ss: Seq<BitsSegment>,
    e: SmtExp,
) -> bool
    decreases c,
{
    match c {
        CExp::Field(n) => e matches SmtExp::Var(v) && binds_opcode(opcode, ss, n@, v),
        CExp::Bits(bv) => e == SmtExp::Bits(bv),
        CExp::Bool(b) => e == SmtExp::Bool(b),
        CExp::Not(a) => e matches SmtExp::Not(x) && c_translated(*a, opcode, ss, *x),
        CExp::And(a, b) => e matches SmtExp::And(x, y) && c_translated(*a, opcode, ss, *x)
            && c_translated(*b, opcode, ss, *y),
        CExp::Or(a, b) => e matches SmtExp::Or(x, y) && c_translated(*a, opcode, ss, *x)
            && c_translated(*b, opcode, ss, *y),
        CExp::Eq(a, b) => e matches SmtExp::Eq(x, y) && c_translated(*a, opcode, ss, *x)
            && c_translated(*b, opcode, ss, *y),
        CExp::Neq(a, b) => e matches SmtExp::Not(inner) && (*inner matches SmtExp::Eq(x, y)
            && c_translated(*a, opcode, ss, *x) && c_translated(*b, opcode, ss, *y)),
    }
}

/// Whether every field a constraint names is declared by the pattern.
pub open spec fn c_fields_known(c: CExp, opcode: Seq<InstructionSegment>) -> bool
    decreases c,
{
    match c {
        CExp::Field(n) => has_seg_field(opcode, n@),
        CExp::Bits(_) => true,
        CExp::Bool(_) => true,
        CExp::Not(a) => c_fields_known(*a, opcode),
        CExp::And(a, b) => c_fields_known(*a, opcode) && c_fields_known(*b, opcode),
        CExp::Or(a, b) => c_fields_known(*a, opcode) && c_fields_known(*b, opcode),
        CExp::Eq(a, b) => c_fields_known(*a, opcode) && c_fields_known(*b, opcode),
        CExp::Neq(a, b) => c_fields_known(*a, opcode) && c_fields_known(*b, opcode),
    }
}

/// Whether one field name occurs with two different widths.
pub open spec fn width_clash(opcode: Seq<InstructionSegment>) -> bool {
    exists|i: int, j: int|
        #![trigger opcode[i], opcode[j]]
        0 <= i < opcode.len() && 0 <= j < opcode.len() && match (opcode[i], opcode[j]) {
            (InstructionSegment::Symbolic(n1, w1), InstructionSegment::Symbolic(n2, w2)) => n1@
                == n2@ && w1 != w2,
            _ => false,
        }
}

/// The element-wise relation between an opcode pattern and the segments of
/// the value built from it: concrete runs are kept as they are, and each
/// named field is a fresh solver variable of the field's width, with equal
/// names sharing one variable and distinct names getting distinct ones.
pub open spec fn mixed_result(
    opcode: Seq<InstructionSegment>,
    ss: Seq<BitsSegment>,
    d0: int,
    decls: Seq<Ty>,
) -> bool {
    &&& ss.len() == opcode.len()
    &&& forall|i: int|
        #![trigger opcode[i]]
        0 <= i < opcode.len() ==> match opcode[i] {
            InstructionSegment::Concrete(bv) => ss[i] == BitsSegment::Concrete(bv),
            InstructionSegment::Symbolic(_, w) => ss[i] matches BitsSegment::Symbolic(v) && d0 <= v
                < decls.len() && decls[v as int] == Ty::BitVec(w),
        }
    &&& forall|i: int, j: int|
        #![trigger opcode[i], opcode[j]]
        0 <= i < opcode.len() && 0 <= j < opcode.len() ==> match (opcode[i], opcode[j]) {
            (InstructionSegment::Symbolic(n1, _), InstructionSegment::Symbolic(n2, _)) => (n1@
                == n2@) <==> (ss[i] == ss[j]),
            _ => true,
        }
}

/// Resolve one constraint against the variable table built from the
/// pattern segments: `entries` associates a field name and width with the
/// solver variable declared for it.
fn translate_constraint(
    c: &CExp,
    var_map: &Vec<(String, u32, usize)>,
    Ghost(opcode): Ghost<Seq<InstructionSegment>>,
    Ghost(ss): Ghost<Seq<BitsSegment>>,
) -> (r: Result<SmtExp, EncodingError>)
    requires
        forall|name: Seq<char>, v: usize|
            #[trigger] binds_opcode(opcode, ss, name, v) <==> table_binds(var_map@, name, v),
        forall|name: Seq<char>|
            #[trigger] has_seg_field(opcode, name) <==> table_has(var_map@, name),
    ensures
        match r {
            Ok(e) => c_translated(*c, opcode, ss, e),
            Err(err) => err == EncodingError::UnknownConstraintField && !c_fields_known(
                *c,
                opcode,
            ),
        },
    decreases *c,
{
    match c {
        CExp::Field(n) => {
            let mut k: usize = 0;
            let mut found: bool = false;
            let mut found_var: usize = 0;
            let mut found_idx: Ghost<int> = Ghost(0);
            while k < var_map.len()
                invariant
                    k <= var_map@.len(),
                    !found ==> forall|j: int| 0 <= j < k ==> var_map@[j].0@ != n@,
                    found ==> 0 <= found_idx@ < var_map@.len() && var_map@[found_idx@].0@ == n@
                        && var_map@[found_idx@].2 == found_var,
                decreases var_map@.len() - k,
            {
                if !found {
                    if var_map[k].0 == *n {
                        found = true;
                        found_var = var_map[k].2;
                        found_idx = Ghost(k as int);
                    }
                }
                k += 1;
            }
            if found {
                proof {
                    assert(table_binds(var_map@, n@, found_var));
                    assert(binds_opcode(opcode, ss, n@, found_var));
                }
                Ok(SmtExp::Var(found_var))
            } else {
                proof {
                    assert(!table_has(var_map@, n@)) by {
                        if table_has(var_map@, n@) {
                            let j = choose|j: int|
                                0 <= j < var_map@.len() && var_map@[j].0@ == n@;
                            assert(false);
                        }
                    }
                    assert(!has_seg_field(opcode, n@));
                }
                Err(EncodingError::UnknownConstraintField)
            }
        },
        CExp::Bits(bv) => Ok(SmtExp::Bits(*bv)),
        CExp::Bool(b) => Ok(SmtExp::Bool(*b)),
        CExp::Not(a) => {
            let x = translate_constraint(a, var_map, Ghost(opcode), Ghost(ss))?;
            Ok(SmtExp::Not(Box::new(x)))
        },
        CExp::And(a, b) => {
            let x = translate_constraint(a, var_map, Ghost(opcode), Ghost(ss))?;
            let y = translate_constraint(b, var_map, Ghost(opcode), Ghost(ss))?;
            Ok(SmtExp::And(Box::new(x), Box::new(y)))
        },
        CExp::Or(a, b) => {
            let x = translate_constraint(a, var_map, Ghost(opcode), Ghost(ss))?;
            let y = translate_constraint(b, var_map, Ghost(opcode), Ghost(ss))?;
            Ok(SmtExp::Or(Box::new(x), Box::new(y)))
        },
        CExp::Eq(a, b) => {
            let x = translate_constraint(a, var_map, Ghost(opcode), Ghost(ss))?;
            let y = translate_constraint(b, var_map, Ghost(opcode), Ghost(ss))?;
            Ok(SmtExp::Eq(Box::new(x), Box::new(y)))
        },
        CExp::Neq(a, b) => {
            let x = translate_constraint(a, var_map, Ghost(opcode), Ghost(ss))?;
            let y = translate_constraint(b, var_map, Ghost(opcode), Ghost(ss))?;
            Ok(SmtExp::Not(Box::new(SmtExp::Eq(Box::new(x), Box::new(y)))))
        },
    }
}

/// Scan the pattern segments, declaring one fresh solver variable per
/// distinct field name; fails when one name occurs with two widths.
#[verifier::rlimit(50)]
fn build_segments(opcode: &Vec<InstructionSegment>, solver: &mut Solver) -> (r: Result<
    (Vec<BitsSegment>, Vec<(String, u32, usize)>),
    EncodingError,
>)
    ensures
        final(solver).decls@.len() >= old(solver).decls@.len(),
        final(solver).decls@.subrange(0, old(solver).decls@.len() as int) == old(solver).decls@,
        final(solver).asserts@ == old(solver).asserts@,
        r matches Err(e) ==> e == EncodingError::MixedFieldWidths && width_clash(opcode@),
        r matches Ok(p) ==> {
            &&& !width_clash(opcode@)
            &&& p.0@.len() == opcode@.len()
            &&& mixed_result(opcode@, p.0@, old(solver).decls@.len() as int, final(solver).decls@)
            &&& forall|name: Seq<char>, v: usize|
                #[trigger] binds_opcode(opcode@, p.0@, name, v) <==> table_binds(p.1@, name, v)
            &&& forall|name: Seq<char>|
                #[trigger] has_seg_field(opcode@, name) <==> table_has(p.1@, name)
        },
{
    let ghost d0 = solver.decls@;
    proof {
        assert(solver.decls@.subrange(0, d0.len() as int) =~= d0);
    }
    let mut built: Vec<BitsSegment> = Vec::new();
    let mut var_map: Vec<(String, u32, usize)> = Vec::new();
    // ghost witnesses: for each segment, its table entry; for each table
    // entry, the segment it came from
    let ghost mut wmap: Seq<int> = Seq::empty();
    let ghost mut src: Seq<int> = Seq::empty();
    let mut i: usize = 0;
    while i < opcode.len()
        invariant
            i <= opcode@.len(),
            built@.len() == i,
            wmap.len() == i,
            src.len() == var_map@.len(),
            solver.asserts@ == old(solver).asserts@,
            solver.decls@.len() >= d0.len(),
            solver.decls@.subrange(0, d0.len() as int) == d0,
            d0 == old(solver).decls@,
            // every table entry is a declared fresh bit-vector variable
            forall|k: int|
                0 <= k < var_map@.len() ==> d0.len() <= #[trigger] var_map@[k].2
                    < solver.decls@.len() && solver.decls@[var_map@[k].2 as int] == Ty::BitVec(
                    var_map@[k].1,
                ),
            // table names are distinct
            forall|k1: int, k2: int|
                0 <= k1 < k2 < var_map@.len() ==> var_map@[k1].0@ != var_map@[k2].0@,
            // table variables are distinct
            forall|k1: int, k2: int|
                0 <= k1 < k2 < var_map@.len() ==> var_map@[k1].2 != var_map@[k2].2,
            // each processed segment is mirrored, symbolic ones through
            // their recorded table entry
            forall|j: int|
                #![trigger opcode@[j]]
                0 <= j < i ==> match opcode@[j] {
                    InstructionSegment::Concrete(bv) => built@[j] == BitsSegment::Concrete(bv),
                    InstructionSegment::Symbolic(n, w) => 0 <= wmap[j] < var_map@.len()
                        && var_map@[wmap[j]].0@ == n@ && var_map@[wmap[j]].1 == w && built@[j]
                        == BitsSegment::Symbolic(var_map@[wmap[j]].2),
                },
            // every table entry came from its recorded segment
            forall|k: int|
                0 <= k < var_map@.len() ==> 0 <= #[trigger] src[k] < i && match opcode@[src[k]] {
                    InstructionSegment::Symbolic(n, w) => n@ == var_map@[k].0@ && w
                        == var_map@[k].1 && built@[src[k]] == BitsSegment::Symbolic(
                        var_map@[k].2,
                    ),
                    _ => false,
                },
        decreases opcode@.len() - i,
    {
        match &opcode[i] {
            InstructionSegment::Concrete(bv) => {
                built.push(BitsSegment::Concrete(*bv));
                proof {
                    wmap = wmap.push(0);
                }
            },
            InstructionSegment::Symbolic(name, size) => {
                let mut k: usize = 0;
                let mut found: bool = false;
                let mut found_at: usize = 0;
                while k < var_map.len()
                    invariant
                        k <= var_map@.len(),
                        !found ==> forall|j: int| 0 <= j < k ==> var_map@[j].0@ != name@,
                        found ==> found_at < var_map@.len() && var_map@[found_at as int].0@
                            == name@,
                    decreases var_map@.len() - k,
                {
                    if !found {
                        if var_map[k].0 == *name {
                            found = true;
                            found_at = k;
                        }
                    }
                    k += 1;
                }
                if found {
                    if var_map[found_at].1 != *size {
                        proof {
                            let kk = found_at as int;
                            let jj = src[kk];
                            assert(match (opcode@[jj], opcode@[i as int]) {
                                (
                                    InstructionSegment::Symbolic(n1, w1),
                                    InstructionSegment::Symbolic(n2, w2),
                                ) => n1@ == n2@ && w1 != w2,
                                _ => false,
                            });
                            assert(width_clash(opcode@));
                        }
                        return Err(EncodingError::MixedFieldWidths);
                    }
                    built.push(BitsSegment::Symbolic(var_map[found_at].2));
                    proof {
                        wmap = wmap.push(found_at as int);
                    }
                } else {
                    let v = solver.declare_const(Ty::BitVec(*size));
                    var_map.push((name.clone(), *size, v));
                    built.push(BitsSegment::Symbolic(v));
                    proof {
                        wmap = wmap.push(var_map@.len() - 1);
                        src = src.push(i as int);
                        assert(solver.decls@.subrange(0, d0.len() as int) =~= d0);
                    }
                }
            },
        }
        i += 1;
    }
    let ghost ssv = built@;
    proof {
        // the variable table and the built segments name the same bindings
        assert forall|name: Seq<char>, v: usize|
            #[trigger] binds_opcode(opcode@, ssv, name, v) implies table_binds(
            var_map@,
            name,
            v,
        ) by {
            let j = choose|j: int|
                #![trigger opcode@[j], ssv[j]]
                0 <= j < opcode@.len() && (opcode@[j] matches InstructionSegment::Symbolic(n, _)
                    && n@ == name) && ssv[j] == BitsSegment::Symbolic(v);
            let kk = wmap[j];
            assert(0 <= kk < var_map@.len() && var_map@[kk].0@ == name && var_map@[kk].2 == v);
            assert(table_binds(var_map@, name, v));
        }
        assert forall|name: Seq<char>, v: usize|
            table_binds(var_map@, name, v) implies #[trigger] binds_opcode(
            opcode@,
            ssv,
            name,
            v,
        ) by {
            let k = choose|k: int|
                0 <= k < var_map@.len() && var_map@[k].0@ == name && var_map@[k].2 == v;
            let jj = src[k];
            assert((opcode@[jj] matches InstructionSegment::Symbolic(n, _) && n@ == name) && ssv[jj]
                == BitsSegment::Symbolic(v));
        }
        assert forall|name: Seq<char>| #[trigger]
            has_seg_field(opcode@, name) implies table_has(var_map@, name) by {
            let j = choose|j: int|
                #![trigger opcode@[j]]
                0 <= j < opcode@.len() && (opcode@[j] matches InstructionSegment::Symbolic(n, _)
                    && n@ == name);
            let kk = wmap[j];
            assert(0 <= kk < var_map@.len() && var_map@[kk].0@ == name);
            assert(table_has(var_map@, name));
        }
        assert forall|name: Seq<char>|
            table_has(var_map@, name) implies #[trigger] has_seg_field(opcode@, name) by {
            let k = choose|k: int| 0 <= k < var_map@.len() && var_map@[k].0@ == name;
            let jj = src[k];
            assert(opcode@[jj] matches InstructionSegment::Symbolic(n, _) && n@ == name);
        }
        // no clash survives the scan
        assert(!width_clash(opcode@)) by {
            if width_clash(opcode@) {
                let (i1, j1) = choose|i1: int, j1: int|
                    #![trigger opcode@[i1], opcode@[j1]]
                    0 <= i1 < opcode@.len() && 0 <= j1 < opcode@.len() && match (
                        opcode@[i1],
                        opcode@[j1],
                    ) {
                        (
                            InstructionSegment::Symbolic(n1, w1),
                            InstructionSegment::Symbolic(n2, w2),
                        ) => n1@ == n2@ && w1 != w2,
                        _ => false,
                    };
                let k1 = wmap[i1];
                let k2 = wmap[j1];
                assert(var_map@[k1].0@ == var_map@[k2].0@);
                assert(k1 == k2);
                assert(false);
            }
        }
        // the element-wise result relation
        assert(mixed_result(opcode@, ssv, d0.len() as int, solver.decls@)) by {
            assert forall|i1: int, j1: int|
                #![trigger opcode@[i1], opcode@[j1]]
                0 <= i1 < opcode@.len() && 0 <= j1 < opcode@.len() implies match (
                opcode@[i1],
                opcode@[j1],
            ) {
                (InstructionSegment::Symbolic(n1, _), InstructionSegment::Symbolic(n2, _)) => (n1@
                    == n2@) <==> (ssv[i1] == ssv[j1]),
                _ => true,
            } by {
                match (opcode@[i1], opcode@[j1]) {
                    (
                        InstructionSegment::Symbolic(n1, _),
                        InstructionSegment::Symbolic(n2, _),
                    ) => {
                        let k1 = wmap[i1];
                        let k2 = wmap[j1];
                        if n1@ == n2@ {
                            assert(var_map@[k1].0@ == var_map@[k2].0@);
                            assert(k1 == k2);
                        }
                        if ssv[i1] == ssv[j1] {
                            assert(var_map@[k1].2 == var_map@[k2].2);
                            assert(k1 == k2);
                        }
                    },
                    _ => {},
                }
            }
        }
    }
    Ok((built, var_map))
}

/// Turn an opcode pattern into the runtime value the interpreter executes:
/// a single concrete segment stays a concrete bit vector; any other
/// pattern becomes a mixed-bits value in which every named field is a
/// fresh solver variable of the declared width (one variable per name),
/// after which each setup constraint is resolved against those variables
/// and asserted into the session.
#[verifier::rlimit(50)]
pub fn instruction_to_val(
    opcode: &Vec<InstructionSegment>,
    constraints: &Vec<CExp>,
    solver: &mut Solver,
) -> (r: Result<Val, EncodingError>)
    ensures
        final(solver).decls@.len() >= old(solver).decls@.len(),
        final(solver).decls@.subrange(0, old(solver).decls@.len() as int) == old(solver).decls@,
        final(solver).asserts@.len() >= old(solver).asserts@.len(),
        final(solver).asserts@.subrange(0, old(solver).asserts@.len() as int) == old(
            solver,
        ).asserts@,
        opcode@.len() == 0 ==> r == Err::<Val, EncodingError>(EncodingError::EmptyPattern),
        opcode@.len() == 1 ==> (opcode@[0] matches InstructionSegment::Concrete(bv) ==> (r
            == Ok::<Val, EncodingError>(Val::Concrete(bv)) && final(solver).decls@ == old(
            solver,
        ).decls@ && final(solver).asserts@ == old(solver).asserts@)),
        opcode@.len() >= 1 && !(opcode@.len() == 1 && opcode@[0] matches
            InstructionSegment::Concrete(_)) ==> {
            &&& width_clash(opcode@) <==> r == Err::<Val, EncodingError>(
                EncodingError::MixedFieldWidths,
            )
            &&& (r matches Err(e) ==> (e == EncodingError::MixedFieldWidths || (e
                == EncodingError::UnknownConstraintField && exists|k: int|
                0 <= k < constraints@.len() && !c_fields_known(constraints@[k], opcode@))))
            &&& (r matches Ok(v) ==> (v matches Val::MixedBits(bx) && {
                let ss = crate::value::segs_seq(*bx);
                &&& mixed_result(opcode@, ss, old(solver).decls@.len() as int, final(solver).decls@)
                &&& final(solver).asserts@.len() == old(solver).asserts@.len()
                    + constraints@.len()
                &&& forall|k: int|
                    0 <= k < constraints@.len() ==> c_translated(
                        constraints@[k],
                        opcode@,
                        ss,
                        final(solver).asserts@[old(solver).asserts@.len() + k],
                    )
            }))
        },
{
    let ghost d0 = solver.decls@;
    let ghost a0 = solver.asserts@;
    proof {
        assert(solver.decls@.subrange(0, d0.len() as int) =~= d0);
        assert(solver.asserts@.subrange(0, a0.len() as int) =~= a0);
    }
    if opcode.len() == 0 {
        return Err(EncodingError::EmptyPattern);
    }
    if opcode.len() == 1 {
        match &opcode[0] {
            InstructionSegment::Concrete(bv) => {
                return Ok(Val::Concrete(*bv));
            },
            _ => {},
        }
    }
    let (built, var_map) = match build_segments(opcode, solver) {
        Ok(p) => p,
        Err(e) => {
            proof {
                assert(solver.asserts@.subrange(0, a0.len() as int) =~= a0);
            }
            return Err(e);
        },
    };
    let ghost ssv = built@;
    let mut c: usize = 0;
    while c < constraints.len()
        invariant
            c <= constraints@.len(),
            d0 == old(solver).decls@,
            a0 == old(solver).asserts@,
            solver.decls@.len() >= d0.len(),
            solver.decls@.subrange(0, d0.len() as int) == d0,
            solver.asserts@.len() == a0.len() + c,
            solver.asserts@.subrange(0, a0.len() as int) == a0,
            mixed_result(opcode@, ssv, d0.len() as int, solver.decls@),
            forall|k: int|
                0 <= k < c ==> c_translated(
                    constraints@[k],
                    opcode@,
                    ssv,
                    solver.asserts@[a0.len() + k],
                ),
            forall|name: Seq<char>, v: usize|
                #[trigger] binds_opcode(opcode@, ssv, name, v) <==> table_binds(
                    var_map@,
                    name,
                    v,
                ),
            forall|name: Seq<char>|
                #[trigger] has_seg_field(opcode@, name) <==> table_has(var_map@, name),
            built@ == ssv,
            built@.len() >= 1,
            opcode@.len() >= 1,
            !(opcode@.len() == 1 && opcode@[0] matches InstructionSegment::Concrete(_)),
            !width_clash(opcode@),
        decreases constraints@.len() - c,
    {
        match translate_constraint(&constraints[c], &var_map, Ghost(opcode@), Ghost(ssv)) {
            Ok(e) => {
                solver.add_assert(e);
                proof {
                    assert(solver.asserts@.subrange(0, a0.len() as int) =~= a0);
                }
            },
            Err(_) => {
                return Err(EncodingError::UnknownConstraintField);
            },
        }
        c += 1;
    }
    let segs = segs_from_vec(&built);
    Ok(Val::MixedBits(Box::new(segs)))
}

} // verus!
