//! Tagged runtime values: concrete bit vectors, references to solver
//! variables, mixed concrete/symbolic bit patterns, and aggregates.

use vstd::prelude::*;

use crate::bitvec::Bv;
use crate::smt::SmtExp;

verus! {

/// One segment of a partially-known bit pattern: a concrete run of bits or
/// a reference to a declared solver variable.
#[derive(Clone, Copy, Debug, PartialEq, Eq, Structural)]
pub enum BitsSegment {
    Concrete(Bv),
    Symbolic(usize),
}

/// An ordered, non-empty sequence of bit segments, most significant first.
#[derive(Debug)]
pub enum Segs {
    One(BitsSegment),
    Cons(BitsSegment, Box<Segs>),
}

/// A list of values.
#[derive(Debug)]
pub enum ValList {
    Nil,
    Cons(Box<Val>, Box<ValList>),
}

/// A runtime value.
#[derive(Debug)]
pub enum Val {
    /// A fixed-width concrete bit vector.
    Concrete(Bv),
    /// A reference to a variable declared in the owning solver session.
    Symbolic(usize),
    /// A partially-known bit pattern, most significant segment first.
    MixedBits(Box<Segs>),
    Unit,
    Bool(bool),
    /// A concrete machine integer.
    I(i64),
    /// A member of an enumeration: enumeration identifier and member index.
    Enum(u32, u32),
    /// A list of values.
    List(Box<ValList>),
}

/// A deep copy of a segment sequence.
pub fn clone_segs(s: &Segs) -> (r: Segs)
    ensures
        r == *s,
    decreases *s,
{
    match s {
        Segs::One(seg) => Segs::One(*seg),
        Segs::Cons(seg, rest) => Segs::Cons(*seg, Box::new(clone_segs(rest))),
    }
}

/// A deep copy of a value.
pub fn clone_val(v: &Val) -> (r: Val)
    ensures
        r == *v,
    decreases *v,
{
    match v {
        Val::Concrete(bv) => Val::Concrete(*bv),
        Val::Symbolic(s) => Val::Symbolic(*s),
        Val::MixedBits(segs) => Val::MixedBits(Box::new(clone_segs(segs))),
        Val::Unit => Val::Unit,
        Val::Bool(b) => Val::Bool(*b),
        Val::I(n) => Val::I(*n),
        Val::Enum(e, m) => Val::Enum(*e, *m),
        Val::List(xs) => Val::List(Box::new(clone_val_list(xs))),
    }
}

/// A deep copy of a value list.
pub fn clone_val_list(xs: &ValList) -> (r: ValList)
    ensures
        r == *xs,
    decreases *xs,
{
    match xs {
        ValList::Nil => ValList::Nil,
        ValList::Cons(v, rest) => ValList::Cons(
            Box::new(clone_val(v)),
            Box::new(clone_val_list(rest)),
        ),
    }
}

/// Structural equality of segment sequences.
pub fn segs_eq(a: &Segs, b: &Segs) -> (r: bool)
    ensures
        r <==> *a == *b,
    decreases *a,
{
    match (a, b) {
        (Segs::One(x), Segs::One(y)) => x == y,
        (Segs::Cons(x, xs), Segs::Cons(y, ys)) => x == y && segs_eq(xs, ys),
        _ => false,
    }
}

/// Structural equality of values.
pub fn val_eq(a: &Val, b: &Val) -> (r: bool)
    ensures
        r <==> *a == *b,
    decreases *a,
{
    match (a, b) {
        (Val::Concrete(x), Val::Concrete(y)) => x == y,
        (Val::Symbolic(x), Val::Symbolic(y)) => x == y,
        (Val::MixedBits(xs), Val::MixedBits(ys)) => segs_eq(xs, ys),
        (Val::Unit, Val::Unit) => true,
        (Val::Bool(x), Val::Bool(y)) => x == y,
        (Val::I(x), Val::I(y)) => x == y,
        (Val::Enum(e1, m1), Val::Enum(e2, m2)) => e1 == e2 && m1 == m2,
        (Val::List(xs), Val::List(ys)) => val_list_eq(xs, ys),
        _ => false,
    }
}

/// Structural equality of value lists.
pub fn val_list_eq(a: &ValList, b: &ValList) -> (r: bool)
    ensures
        r <==> *a == *b,
    decreases *a,
{
    match (a, b) {
        (ValList::Nil, ValList::Nil) => true,
        (ValList::Cons(x, xs), ValList::Cons(y, ys)) => val_eq(x, y) && val_list_eq(xs, ys),
        _ => false,
    }
}

/// The solver expression a single bit segment stands for.
pub open spec fn seg_exp(seg: BitsSegment) -> SmtExp {
    match seg {
        BitsSegment::Concrete(bv) => SmtExp::Bits(bv),
        BitsSegment::Symbolic(v) => SmtExp::Var(v),
    }
}

/// The solver expression a segment sequence stands for: the segments
/// concatenated most significant first.
pub open spec fn segs_smt_exp(segs: Segs) -> SmtExp
    decreases segs,
{
    match segs {
        Segs::One(seg) => seg_exp(seg),
        Segs::Cons(seg, rest) => SmtExp::Concat(
            Box::new(seg_exp(seg)),
            Box::new(segs_smt_exp(*rest)),
        ),
    }
}

/// The solver expression a bits-like value stands for, if it has one.
pub open spec fn smt_exp_of(v: Val) -> Option<SmtExp> {
    match v {
        Val::Concrete(bv) => Some(SmtExp::Bits(bv)),
        Val::Symbolic(s) => Some(SmtExp::Var(s)),
        Val::Bool(b) => Some(SmtExp::Bool(b)),
        Val::MixedBits(segs) => Some(segs_smt_exp(*segs)),
        _ => None,
    }
}

/// Translate a segment sequence into its concatenation expression.
pub fn segs_to_exp(segs: &Segs) -> (r: SmtExp)
    ensures
        r == segs_smt_exp(*segs),
    decreases *segs,
{
    match segs {
        Segs::One(seg) => match seg {
            BitsSegment::Concrete(bv) => SmtExp::Bits(*bv),
            BitsSegment::Symbolic(v) => SmtExp::Var(*v),
        },
        Segs::Cons(seg, rest) => {
            let head = match seg {
                BitsSegment::Concrete(bv) => SmtExp::Bits(*bv),
                BitsSegment::Symbolic(v) => SmtExp::Var(*v),
            };
            SmtExp::Concat(Box::new(head), Box::new(segs_to_exp(rest)))
        },
    }
}

/// Translate a bits-like value into the solver expression it stands for.
pub fn val_to_exp(v: &Val) -> (r: Option<SmtExp>)
    ensures
        r == smt_exp_of(*v),
{
    match v {
        Val::Concrete(bv) => Some(SmtExp::Bits(*bv)),
        Val::Symbolic(s) => Some(SmtExp::Var(*s)),
        Val::Bool(b) => Some(SmtExp::Bool(*b)),
        Val::MixedBits(segs) => Some(segs_to_exp(segs)),
        _ => None,
    }
}


/// The segments of a segment sequence, in order.
pub open spec fn segs_seq(s: Segs) -> Seq<BitsSegment>
    decreases s,
{
    match s {
        Segs::One(seg) => seq![seg],
        Segs::Cons(seg, rest) => seq![seg] + segs_seq(*rest),
    }
}

/// Build a segment sequence from a non-empty vector of segments.
pub fn segs_from_vec(v: &Vec<BitsSegment>) -> (r: Segs)
    requires
        v@.len() >= 1,
    ensures
        segs_seq(r) == v@,
    decreases v@.len(),
{
    let mut r = Segs::One(v[v.len() - 1]);
    proof {
        assert(segs_seq(r) =~= v@.subrange(v@.len() - 1, v@.len() as int));
    }
    let mut i: usize = v.len() - 1;
    while i > 0
        invariant
            i < v@.len(),
            segs_seq(r) == v@.subrange(i as int, v@.len() as int),
        decreases i,
    {
        i -= 1;
        r = Segs::Cons(v[i], Box::new(r));
        proof {
            assert(segs_seq(r) =~= v@.subrange(i as int, v@.len() as int));
        }
    }
    proof {
        assert(v@.subrange(0, v@.len() as int) =~= v@);
    }
    r
}

} // verus!
