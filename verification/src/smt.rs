//! The solver session: declarations, assertions, checkpoints and a
//! satisfiability check.
//!
//! A session owns the list of declared variables and the list of asserted
//! constraints. A checkpoint is a value snapshot of that history; restoring
//! it materializes an independent session reflecting exactly the
//! declarations and assertions visible at snapshot time, so sibling paths
//! never share mutable solver state.
//!
//! Constraints are expressions with a total evaluation semantics
//! (`eval_exp`): an ill-typed application evaluates to a junk boolean, so
//! satisfiability (`sat_all`) is defined for every assertion set.

use vstd::prelude::*;

use crate::bitvec::Bv;
use crate::bitvec::mask64;
use crate::bitvec::shl64;
use crate::bitvec::shr64;

verus! {

/// The type of a declared solver variable.
#[derive(Clone, Copy, Debug, PartialEq, Eq, Structural)]
pub enum Ty {
    Bool,
    BitVec(u32),
}

/// A solver expression over declared variables.
#[derive(Debug)]
pub enum SmtExp {
    Var(usize),
    Bool(bool),
    Bits(Bv),
    Not(Box<SmtExp>),
    And(Box<SmtExp>, Box<SmtExp>),
    Or(Box<SmtExp>, Box<SmtExp>),
    Eq(Box<SmtExp>, Box<SmtExp>),
    Ite(Box<SmtExp>, Box<SmtExp>, Box<SmtExp>),
    Extract(u32, u32, Box<SmtExp>),
    Concat(Box<SmtExp>, Box<SmtExp>),
    Bvnot(Box<SmtExp>),
    Bvand(Box<SmtExp>, Box<SmtExp>),
    Bvor(Box<SmtExp>, Box<SmtExp>),
    Bvxor(Box<SmtExp>, Box<SmtExp>),
    Bvadd(Box<SmtExp>, Box<SmtExp>),
    Bvsub(Box<SmtExp>, Box<SmtExp>),
}

/// A value an expression can evaluate to.
#[derive(Clone, Copy, Debug, PartialEq, Eq, Structural)]
pub enum SmtVal {
    Bool(bool),
    Bits(Bv),
}

/// Variable lookup in an environment; out-of-range variables read as false.
pub open spec fn lookup(env: Seq<SmtVal>, v: usize) -> SmtVal {
    if v < env.len() {
        env[v as int]
    } else {
        SmtVal::Bool(false)
    }
}

/// Slice of a concrete bit vector, as a value-level function.
pub open spec fn slice_spec(bv: Bv, from: u32, length: u32) -> Bv {
    Bv { len: length, bits: shr64(bv.bits, from) & mask64(length) }
}

/// Concatenation of concrete bit vectors, as a value-level function.
pub open spec fn concat_spec(a: Bv, b: Bv) -> Bv {
    Bv { len: (a.len + b.len) as u32, bits: shl64(a.bits, b.len) | b.bits }
}

/// Total evaluation of an expression under an environment. Ill-typed
/// applications evaluate to the junk value `Bool(false)`.
pub open spec fn eval_exp(env: Seq<SmtVal>, e: SmtExp) -> SmtVal
    decreases e,
{
    match e {
        SmtExp::Var(v) => lookup(env, v),
        SmtExp::Bool(b) => SmtVal::Bool(b),
        SmtExp::Bits(bv) => SmtVal::Bits(bv),
        SmtExp::Not(a) => match eval_exp(env, *a) {
            SmtVal::Bool(x) => SmtVal::Bool(!x),
            _ => SmtVal::Bool(false),
        },
        SmtExp::And(a, b) => match (eval_exp(env, *a), eval_exp(env, *b)) {
            (SmtVal::Bool(x), SmtVal::Bool(y)) => SmtVal::Bool(x && y),
            _ => SmtVal::Bool(false),
        },
        SmtExp::Or(a, b) => match (eval_exp(env, *a), eval_exp(env, *b)) {
            (SmtVal::Bool(x), SmtVal::Bool(y)) => SmtVal::Bool(x || y),
            _ => SmtVal::Bool(false),
        },
        SmtExp::Eq(a, b) => SmtVal::Bool(eval_exp(env, *a) == eval_exp(env, *b)),
        SmtExp::Ite(c, a, b) => match eval_exp(env, *c) {
            SmtVal::Bool(true) => eval_exp(env, *a),
            _ => eval_exp(env, *b),
        },
        SmtExp::Extract(hi, lo, a) => match eval_exp(env, *a) {
            SmtVal::Bits(bv) => if lo <= hi && hi < bv.len {
                SmtVal::Bits(slice_spec(bv, lo, (hi - lo + 1) as u32))
            } else {
                SmtVal::Bool(false)
            },
            _ => SmtVal::Bool(false),
        },
        SmtExp::Concat(a, b) => match (eval_exp(env, *a), eval_exp(env, *b)) {
            (SmtVal::Bits(x), SmtVal::Bits(y)) => if x.len + y.len <= 64 {
                SmtVal::Bits(concat_spec(x, y))
            } else {
                SmtVal::Bool(false)
            },
            _ => SmtVal::Bool(false),
        },
        SmtExp::Bvnot(a) => match eval_exp(env, *a) {
            SmtVal::Bits(x) => SmtVal::Bits(Bv { len: x.len, bits: !x.bits & mask64(x.len) }),
            _ => SmtVal::Bool(false),
        },
        SmtExp::Bvand(a, b) => match (eval_exp(env, *a), eval_exp(env, *b)) {
            (SmtVal::Bits(x), SmtVal::Bits(y)) => if x.len == y.len {
                SmtVal::Bits(Bv { len: x.len, bits: x.bits & y.bits })
            } else {
                SmtVal::Bool(false)
            },
            _ => SmtVal::Bool(false),
        },
        SmtExp::Bvor(a, b) => match (eval_exp(env, *a), eval_exp(env, *b)) {
            (SmtVal::Bits(x), SmtVal::Bits(y)) => if x.len == y.len {
                SmtVal::Bits(Bv { len: x.len, bits: x.bits | y.bits })
            } else {
                SmtVal::Bool(false)
            },
            _ => SmtVal::Bool(false),
        },
        SmtExp::Bvxor(a, b) => match (eval_exp(env, *a), eval_exp(env, *b)) {
            (SmtVal::Bits(x), SmtVal::Bits(y)) => if x.len == y.len {
                SmtVal::Bits(Bv { len: x.len, bits: x.bits ^ y.bits })
            } else {
                SmtVal::Bool(false)
            },
            _ => SmtVal::Bool(false),
        },
        SmtExp::Bvadd(a, b) => match (eval_exp(env, *a), eval_exp(env, *b)) {
            (SmtVal::Bits(x), SmtVal::Bits(y)) => if x.len == y.len {
                SmtVal::Bits(
                    Bv {
                        len: x.len,
                        bits: ((x.bits + y.bits) % 0x1_0000_0000_0000_0000) as u64 & mask64(x.len),
                    },
                )
            } else {
                SmtVal::Bool(false)
            },
            _ => SmtVal::Bool(false),
        },
        SmtExp::Bvsub(a, b) => match (eval_exp(env, *a), eval_exp(env, *b)) {
            (SmtVal::Bits(x), SmtVal::Bits(y)) => if x.len == y.len {
                SmtVal::Bits(
                    Bv {
                        len: x.len,
                        bits: ((x.bits - y.bits) % 0x1_0000_0000_0000_0000) as u64 & mask64(x.len),
                    },
                )
            } else {
                SmtVal::Bool(false)
            },
            _ => SmtVal::Bool(false),
        },
    }
}

/// Whether `e` mentions the variable `v`.
pub open spec fn uses_var(e: SmtExp, v: usize) -> bool
    decreases e,
{
    match e {
        SmtExp::Var(w) => w == v,
        SmtExp::Bool(_) => false,
        SmtExp::Bits(_) => false,
        SmtExp::Not(a) => uses_var(*a, v),
        SmtExp::And(a, b) => uses_var(*a, v) || uses_var(*b, v),
        SmtExp::Or(a, b) => uses_var(*a, v) || uses_var(*b, v),
        SmtExp::Eq(a, b) => uses_var(*a, v) || uses_var(*b, v),
        SmtExp::Ite(c, a, b) => uses_var(*c, v) || uses_var(*a, v) || uses_var(*b, v),
        SmtExp::Extract(_, _, a) => uses_var(*a, v),
        SmtExp::Concat(a, b) => uses_var(*a, v) || uses_var(*b, v),
        SmtExp::Bvnot(a) => uses_var(*a, v),
        SmtExp::Bvand(a, b) => uses_var(*a, v) || uses_var(*b, v),
        SmtExp::Bvor(a, b) => uses_var(*a, v) || uses_var(*b, v),
        SmtExp::Bvxor(a, b) => uses_var(*a, v) || uses_var(*b, v),
        SmtExp::Bvadd(a, b) => uses_var(*a, v) || uses_var(*b, v),
        SmtExp::Bvsub(a, b) => uses_var(*a, v) || uses_var(*b, v),
    }
}

/// Whether `e` mentions no variable at all.
pub open spec fn closed(e: SmtExp) -> bool
    decreases e,
{
    match e {
        SmtExp::Var(_) => false,
        SmtExp::Bool(_) => true,
        SmtExp::Bits(_) => true,
        SmtExp::Not(a) => closed(*a),
        SmtExp::And(a, b) => closed(*a) && closed(*b),
        SmtExp::Or(a, b) => closed(*a) && closed(*b),
        SmtExp::Eq(a, b) => closed(*a) && closed(*b),
        SmtExp::Ite(c, a, b) => closed(*c) && closed(*a) && closed(*b),
        SmtExp::Extract(_, _, a) => closed(*a),
        SmtExp::Concat(a, b) => closed(*a) && closed(*b),
        SmtExp::Bvnot(a) => closed(*a),
        SmtExp::Bvand(a, b) => closed(*a) && closed(*b),
        SmtExp::Bvor(a, b) => closed(*a) && closed(*b),
        SmtExp::Bvxor(a, b) => closed(*a) && closed(*b),
        SmtExp::Bvadd(a, b) => closed(*a) && closed(*b),
        SmtExp::Bvsub(a, b) => closed(*a) && closed(*b),
    }
}

/// Evaluation only looks at the variables an expression mentions.
pub proof fn lemma_eval_agrees(env1: Seq<SmtVal>, env2: Seq<SmtVal>, e: SmtExp)
    requires
        forall|v: usize| uses_var(e, v) ==> lookup(env1, v) == lookup(env2, v),
    ensures
        eval_exp(env1, e) == eval_exp(env2, e),
    decreases e,
{
    match e {
        SmtExp::Not(a) => lemma_eval_agrees(env1, env2, *a),
        SmtExp::And(a, b) => {
            lemma_eval_agrees(env1, env2, *a);
            lemma_eval_agrees(env1, env2, *b);
        },
        SmtExp::Or(a, b) => {
            lemma_eval_agrees(env1, env2, *a);
            lemma_eval_agrees(env1, env2, *b);
        },
        SmtExp::Eq(a, b) => {
            lemma_eval_agrees(env1, env2, *a);
            lemma_eval_agrees(env1, env2, *b);
        },
        SmtExp::Ite(c, a, b) => {
            lemma_eval_agrees(env1, env2, *c);
            lemma_eval_agrees(env1, env2, *a);
            lemma_eval_agrees(env1, env2, *b);
        },
        SmtExp::Extract(_, _, a) => lemma_eval_agrees(env1, env2, *a),
        SmtExp::Concat(a, b) => {
            lemma_eval_agrees(env1, env2, *a);
            lemma_eval_agrees(env1, env2, *b);
        },
        SmtExp::Bvnot(a) => lemma_eval_agrees(env1, env2, *a),
        SmtExp::Bvand(a, b) => {
            lemma_eval_agrees(env1, env2, *a);
            lemma_eval_agrees(env1, env2, *b);
        },
        SmtExp::Bvor(a, b) => {
            lemma_eval_agrees(env1, env2, *a);
            lemma_eval_agrees(env1, env2, *b);
        },
        SmtExp::Bvxor(a, b) => {
            lemma_eval_agrees(env1, env2, *a);
            lemma_eval_agrees(env1, env2, *b);
        },
        SmtExp::Bvadd(a, b) => {
            lemma_eval_agrees(env1, env2, *a);
            lemma_eval_agrees(env1, env2, *b);
        },
        SmtExp::Bvsub(a, b) => {
            lemma_eval_agrees(env1, env2, *a);
            lemma_eval_agrees(env1, env2, *b);
        },
        _ => (),
    }
}

/// A closed expression evaluates the same under every environment.
pub proof fn lemma_closed_eval(env1: Seq<SmtVal>, env2: Seq<SmtVal>, e: SmtExp)
    requires
        closed(e),
    ensures
        eval_exp(env1, e) == eval_exp(env2, e),
    decreases e,
{
    match e {
        SmtExp::Not(a) => lemma_closed_eval(env1, env2, *a),
        SmtExp::And(a, b) => {
            lemma_closed_eval(env1, env2, *a);
            lemma_closed_eval(env1, env2, *b);
        },
        SmtExp::Or(a, b) => {
            lemma_closed_eval(env1, env2, *a);
            lemma_closed_eval(env1, env2, *b);
        },
        SmtExp::Eq(a, b) => {
            lemma_closed_eval(env1, env2, *a);
            lemma_closed_eval(env1, env2, *b);
        },
        SmtExp::Ite(c, a, b) => {
            lemma_closed_eval(env1, env2, *c);
            lemma_closed_eval(env1, env2, *a);
            lemma_closed_eval(env1, env2, *b);
        },
        SmtExp::Extract(_, _, a) => lemma_closed_eval(env1, env2, *a),
        SmtExp::Concat(a, b) => {
            lemma_closed_eval(env1, env2, *a);
            lemma_closed_eval(env1, env2, *b);
        },
        SmtExp::Bvnot(a) => lemma_closed_eval(env1, env2, *a),
        SmtExp::Bvand(a, b) => {
            lemma_closed_eval(env1, env2, *a);
            lemma_closed_eval(env1, env2, *b);
        },
        SmtExp::Bvor(a, b) => {
            lemma_closed_eval(env1, env2, *a);
            lemma_closed_eval(env1, env2, *b);
        },
        SmtExp::Bvxor(a, b) => {
            lemma_closed_eval(env1, env2, *a);
            lemma_closed_eval(env1, env2, *b);
        },
        SmtExp::Bvadd(a, b) => {
            lemma_closed_eval(env1, env2, *a);
            lemma_closed_eval(env1, env2, *b);
        },
        SmtExp::Bvsub(a, b) => {
            lemma_closed_eval(env1, env2, *a);
            lemma_closed_eval(env1, env2, *b);
        },
        _ => (),
    }
}

/// An environment satisfies an assertion set when every assertion
/// evaluates to true.
pub open spec fn sat_all(env: Seq<SmtVal>, asserts: Seq<SmtExp>) -> bool {
    forall|i: int| 0 <= i < asserts.len() ==> eval_exp(env, asserts[i]) == SmtVal::Bool(true)
}

/// A set of assertions the solver can refute outright: one of them is
/// closed and does not evaluate to true.
pub open spec fn refuted(asserts: Seq<SmtExp>) -> bool {
    exists|i: int|
        0 <= i < asserts.len() && closed(asserts[i]) && eval_exp(Seq::empty(), asserts[i])
            != SmtVal::Bool(true)
}

/// A refuted assertion set has no satisfying environment.
pub proof fn lemma_refuted_unsat(asserts: Seq<SmtExp>)
    requires
        refuted(asserts),
    ensures
        forall|env: Seq<SmtVal>| !sat_all(env, asserts),
{
    let i = choose|i: int|
        0 <= i < asserts.len() && closed(asserts[i]) && eval_exp(Seq::empty(), asserts[i])
            != SmtVal::Bool(true);
    assert forall|env: Seq<SmtVal>| !sat_all(env, asserts) by {
        lemma_closed_eval(env, Seq::empty(), asserts[i]);
    }
}


/// Result of a satisfiability check.
#[derive(Clone, Copy, Debug, PartialEq, Eq, Structural)]
pub enum SatResult {
    Sat,
    Unsat,
    Unknown,
}

/// The default value a candidate model assigns to a variable of type `t`:
/// all-zero bits, or all-one bits when `ones` is set.
pub open spec fn default_val(t: Ty, ones: bool) -> SmtVal {
    match t {
        Ty::Bool => SmtVal::Bool(ones),
        Ty::BitVec(w) => SmtVal::Bits(
            Bv { len: w, bits: if ones { mask64(w) } else { 0 } },
        ),
    }
}

/// The candidate environment that assigns every declared variable its
/// default value.
pub open spec fn default_env(decls: Seq<Ty>, ones: bool) -> Seq<SmtVal> {
    Seq::new(decls.len(), |i: int| default_val(decls[i], ones))
}

/// One constraint-propagation step on a candidate environment: an assertion
/// that pins a variable (to a right-hand side value, or to a boolean
/// literal) overwrites that variable's candidate value.
pub open spec fn prop_step(env: Seq<SmtVal>, e: SmtExp) -> Seq<SmtVal> {
    match e {
        SmtExp::Var(v) => if v < env.len() {
            env.update(v as int, SmtVal::Bool(true))
        } else {
            env
        },
        SmtExp::Not(a) => match *a {
            SmtExp::Var(v) => if v < env.len() {
                env.update(v as int, SmtVal::Bool(false))
            } else {
                env
            },
            _ => env,
        },
        SmtExp::Eq(a, b) => match *a {
            SmtExp::Var(v) => if v < env.len() {
                env.update(v as int, eval_exp(env, *b))
            } else {
                env
            },
            _ => env,
        },
        _ => env,
    }
}

/// Propagation of the first `n` assertions, in order.
pub open spec fn propagate(env: Seq<SmtVal>, asserts: Seq<SmtExp>, n: int) -> Seq<SmtVal>
    decreases n,
{
    if n <= 0 {
        env
    } else {
        prop_step(propagate(env, asserts, n - 1), asserts[n - 1])
    }
}

/// The deterministic satisfiability check: refute on a closed assertion
/// that fails, otherwise search for a model among the two propagated
/// candidate environments.
pub open spec fn spec_check_sat(decls: Seq<Ty>, asserts: Seq<SmtExp>) -> SatResult {
    if refuted(asserts) {
        SatResult::Unsat
    } else if sat_all(propagate(default_env(decls, false), asserts, asserts.len() as int), asserts) {
        SatResult::Sat
    } else if sat_all(propagate(default_env(decls, true), asserts, asserts.len() as int), asserts) {
        SatResult::Sat
    } else {
        SatResult::Unknown
    }
}

/// A `Sat` verdict names a concrete satisfying environment.
pub proof fn lemma_sat_has_model(decls: Seq<Ty>, asserts: Seq<SmtExp>)
    requires
        spec_check_sat(decls, asserts) == SatResult::Sat,
    ensures
        exists|env: Seq<SmtVal>| sat_all(env, asserts),
{
    if sat_all(propagate(default_env(decls, false), asserts, asserts.len() as int), asserts) {
        assert(sat_all(propagate(default_env(decls, false), asserts, asserts.len() as int), asserts));
    } else {
        assert(sat_all(propagate(default_env(decls, true), asserts, asserts.len() as int), asserts));
    }
}

/// Mask with the low `len` bits set, for any requested width.
pub(crate) fn mask_any(len: u32) -> (r: u64)
    ensures
        r == mask64(len),
{
    if len >= 64 {
        u64::MAX
    } else {
        proof {
            assert(len < 64 ==> (1u64 << len) >= 1) by (bit_vector);
        }
        (1u64 << len) - 1
    }
}

/// A deep copy of an expression.
pub fn clone_exp(e: &SmtExp) -> (r: SmtExp)
    ensures
        r == *e,
    decreases *e,
{
    match e {
        SmtExp::Var(v) => SmtExp::Var(*v),
        SmtExp::Bool(b) => SmtExp::Bool(*b),
        SmtExp::Bits(bv) => SmtExp::Bits(*bv),
        SmtExp::Not(a) => SmtExp::Not(Box::new(clone_exp(a))),
        SmtExp::And(a, b) => SmtExp::And(Box::new(clone_exp(a)), Box::new(clone_exp(b))),
        SmtExp::Or(a, b) => SmtExp::Or(Box::new(clone_exp(a)), Box::new(clone_exp(b))),
        SmtExp::Eq(a, b) => SmtExp::Eq(Box::new(clone_exp(a)), Box::new(clone_exp(b))),
        SmtExp::Ite(c, a, b) => SmtExp::Ite(
            Box::new(clone_exp(c)),
            Box::new(clone_exp(a)),
            Box::new(clone_exp(b)),
        ),
        SmtExp::Extract(hi, lo, a) => SmtExp::Extract(*hi, *lo, Box::new(clone_exp(a))),
        SmtExp::Concat(a, b) => SmtExp::Concat(Box::new(clone_exp(a)), Box::new(clone_exp(b))),
        SmtExp::Bvnot(a) => SmtExp::Bvnot(Box::new(clone_exp(a))),
        SmtExp::Bvand(a, b) => SmtExp::Bvand(Box::new(clone_exp(a)), Box::new(clone_exp(b))),
        SmtExp::Bvor(a, b) => SmtExp::Bvor(Box::new(clone_exp(a)), Box::new(clone_exp(b))),
        SmtExp::Bvxor(a, b) => SmtExp::Bvxor(Box::new(clone_exp(a)), Box::new(clone_exp(b))),
        SmtExp::Bvadd(a, b) => SmtExp::Bvadd(Box::new(clone_exp(a)), Box::new(clone_exp(b))),
        SmtExp::Bvsub(a, b) => SmtExp::Bvsub(Box::new(clone_exp(a)), Box::new(clone_exp(b))),
    }
}

/// A deep copy of a list of expressions.
pub fn clone_exps(es: &Vec<SmtExp>) -> (r: Vec<SmtExp>)
    ensures
        r@ == es@,
    decreases es@.len(),
{
    let mut r: Vec<SmtExp> = Vec::new();
    let mut i: usize = 0;
    while i < es.len()
        invariant
            i <= es@.len(),
            r@ == es@.subrange(0, i as int),
        decreases es@.len() - i,
    {
        r.push(clone_exp(&es[i]));
        i += 1;
        proof {
            assert(r@ =~= es@.subrange(0, i as int));
        }
    }
    proof {
        assert(r@ =~= es@);
    }
    r
}

/// Structural equality of expressions.
pub fn exp_eq(a: &SmtExp, b: &SmtExp) -> (r: bool)
    ensures
        r <==> *a == *b,
    decreases *a,
{
    match (a, b) {
        (SmtExp::Var(x), SmtExp::Var(y)) => x == y,
        (SmtExp::Bool(x), SmtExp::Bool(y)) => x == y,
        (SmtExp::Bits(x), SmtExp::Bits(y)) => x == y,
        (SmtExp::Not(x), SmtExp::Not(y)) => exp_eq(x, y),
        (SmtExp::And(x1, x2), SmtExp::And(y1, y2)) => exp_eq(x1, y1) && exp_eq(x2, y2),
        (SmtExp::Or(x1, x2), SmtExp::Or(y1, y2)) => exp_eq(x1, y1) && exp_eq(x2, y2),
        (SmtExp::Eq(x1, x2), SmtExp::Eq(y1, y2)) => exp_eq(x1, y1) && exp_eq(x2, y2),
        (SmtExp::Ite(x1, x2, x3), SmtExp::Ite(y1, y2, y3)) => exp_eq(x1, y1) && exp_eq(x2, y2)
            && exp_eq(x3, y3),
        (SmtExp::Extract(h1, l1, x), SmtExp::Extract(h2, l2, y)) => h1 == h2 && l1 == l2 && exp_eq(
            x,
            y,
        ),
        (SmtExp::Concat(x1, x2), SmtExp::Concat(y1, y2)) => exp_eq(x1, y1) && exp_eq(x2, y2),
        (SmtExp::Bvnot(x), SmtExp::Bvnot(y)) => exp_eq(x, y),
        (SmtExp::Bvand(x1, x2), SmtExp::Bvand(y1, y2)) => exp_eq(x1, y1) && exp_eq(x2, y2),
        (SmtExp::Bvor(x1, x2), SmtExp::Bvor(y1, y2)) => exp_eq(x1, y1) && exp_eq(x2, y2),
        (SmtExp::Bvxor(x1, x2), SmtExp::Bvxor(y1, y2)) => exp_eq(x1, y1) && exp_eq(x2, y2),
        (SmtExp::Bvadd(x1, x2), SmtExp::Bvadd(y1, y2)) => exp_eq(x1, y1) && exp_eq(x2, y2),
        (SmtExp::Bvsub(x1, x2), SmtExp::Bvsub(y1, y2)) => exp_eq(x1, y1) && exp_eq(x2, y2),
        _ => false,
    }
}

/// Whether `e` mentions no variable, executably.
pub fn closed_exec(e: &SmtExp) -> (r: bool)
    ensures
        r == closed(*e),
    decreases *e,
{
    match e {
        SmtExp::Var(_) => false,
        SmtExp::Bool(_) => true,
        SmtExp::Bits(_) => true,
        SmtExp::Not(a) => closed_exec(a),
        SmtExp::And(a, b) => closed_exec(a) && closed_exec(b),
        SmtExp::Or(a, b) => closed_exec(a) && closed_exec(b),
        SmtExp::Eq(a, b) => closed_exec(a) && closed_exec(b),
        SmtExp::Ite(c, a, b) => closed_exec(c) && closed_exec(a) && closed_exec(b),
        SmtExp::Extract(_, _, a) => closed_exec(a),
        SmtExp::Concat(a, b) => closed_exec(a) && closed_exec(b),
        SmtExp::Bvnot(a) => closed_exec(a),
        SmtExp::Bvand(a, b) => closed_exec(a) && closed_exec(b),
        SmtExp::Bvor(a, b) => closed_exec(a) && closed_exec(b),
        SmtExp::Bvxor(a, b) => closed_exec(a) && closed_exec(b),
        SmtExp::Bvadd(a, b) => closed_exec(a) && closed_exec(b),
        SmtExp::Bvsub(a, b) => closed_exec(a) && closed_exec(b),
    }
}

/// Whether `e` mentions the variable `v`, executably.
pub fn uses_var_exec(e: &SmtExp, v: usize) -> (r: bool)
    ensures
        r == uses_var(*e, v),
    decreases *e,
{
    match e {
        SmtExp::Var(w) => *w == v,
        SmtExp::Bool(_) => false,
        SmtExp::Bits(_) => false,
        SmtExp::Not(a) => uses_var_exec(a, v),
        SmtExp::And(a, b) => uses_var_exec(a, v) || uses_var_exec(b, v),
        SmtExp::Or(a, b) => uses_var_exec(a, v) || uses_var_exec(b, v),
        SmtExp::Eq(a, b) => uses_var_exec(a, v) || uses_var_exec(b, v),
        SmtExp::Ite(c, a, b) => uses_var_exec(c, v) || uses_var_exec(a, v) || uses_var_exec(b, v),
        SmtExp::Extract(_, _, a) => uses_var_exec(a, v),
        SmtExp::Concat(a, b) => uses_var_exec(a, v) || uses_var_exec(b, v),
        SmtExp::Bvnot(a) => uses_var_exec(a, v),
        SmtExp::Bvand(a, b) => uses_var_exec(a, v) || uses_var_exec(b, v),
        SmtExp::Bvor(a, b) => uses_var_exec(a, v) || uses_var_exec(b, v),
        SmtExp::Bvxor(a, b) => uses_var_exec(a, v) || uses_var_exec(b, v),
        SmtExp::Bvadd(a, b) => uses_var_exec(a, v) || uses_var_exec(b, v),
        SmtExp::Bvsub(a, b) => uses_var_exec(a, v) || uses_var_exec(b, v),
    }
}

/// Total evaluation of an expression, executably.
pub fn eval(env: &Vec<SmtVal>, e: &SmtExp) -> (r: SmtVal)
    ensures
        r == eval_exp(env@, *e),
    decreases *e,
{
    match e {
        SmtExp::Var(v) => if *v < env.len() {
            env[*v]
        } else {
            SmtVal::Bool(false)
        },
        SmtExp::Bool(b) => SmtVal::Bool(*b),
        SmtExp::Bits(bv) => SmtVal::Bits(*bv),
        SmtExp::Not(a) => match eval(env, a) {
            SmtVal::Bool(x) => SmtVal::Bool(!x),
            _ => SmtVal::Bool(false),
        },
        SmtExp::And(a, b) => match (eval(env, a), eval(env, b)) {
            (SmtVal::Bool(x), SmtVal::Bool(y)) => SmtVal::Bool(x && y),
            _ => SmtVal::Bool(false),
        },
        SmtExp::Or(a, b) => match (eval(env, a), eval(env, b)) {
            (SmtVal::Bool(x), SmtVal::Bool(y)) => SmtVal::Bool(x || y),
            _ => SmtVal::Bool(false),
        },
        SmtExp::Eq(a, b) => SmtVal::Bool(eval(env, a) == eval(env, b)),
        SmtExp::Ite(c, a, b) => match eval(env, c) {
            SmtVal::Bool(true) => eval(env, a),
            _ => eval(env, b),
        },
        SmtExp::Extract(hi, lo, a) => match eval(env, a) {
            SmtVal::Bits(bv) => if *lo <= *hi && *hi < bv.len {
                let m = mask_any(*hi - *lo + 1);
                let shifted = if *lo >= 64 {
                    0
                } else {
                    bv.bits >> *lo
                };
                SmtVal::Bits(Bv { len: *hi - *lo + 1, bits: shifted & m })
            } else {
                SmtVal::Bool(false)
            },
            _ => SmtVal::Bool(false),
        },
        SmtExp::Concat(a, b) => match (eval(env, a), eval(env, b)) {
            (SmtVal::Bits(x), SmtVal::Bits(y)) => if x.len as u64 + y.len as u64 <= 64 {
                let shifted = if y.len >= 64 {
                    0
                } else {
                    x.bits << y.len
                };
                SmtVal::Bits(Bv { len: x.len + y.len, bits: shifted | y.bits })
            } else {
                SmtVal::Bool(false)
            },
            _ => SmtVal::Bool(false),
        },
        SmtExp::Bvnot(a) => match eval(env, a) {
            SmtVal::Bits(x) => SmtVal::Bits(Bv { len: x.len, bits: !x.bits & mask_any(x.len) }),
            _ => SmtVal::Bool(false),
        },
        SmtExp::Bvand(a, b) => match (eval(env, a), eval(env, b)) {
            (SmtVal::Bits(x), SmtVal::Bits(y)) => if x.len == y.len {
                SmtVal::Bits(Bv { len: x.len, bits: x.bits & y.bits })
            } else {
                SmtVal::Bool(false)
            },
            _ => SmtVal::Bool(false),
        },
        SmtExp::Bvor(a, b) => match (eval(env, a), eval(env, b)) {
            (SmtVal::Bits(x), SmtVal::Bits(y)) => if x.len == y.len {
                SmtVal::Bits(Bv { len: x.len, bits: x.bits | y.bits })
            } else {
                SmtVal::Bool(false)
            },
            _ => SmtVal::Bool(false),
        },
        SmtExp::Bvxor(a, b) => match (eval(env, a), eval(env, b)) {
            (SmtVal::Bits(x), SmtVal::Bits(y)) => if x.len == y.len {
                SmtVal::Bits(Bv { len: x.len, bits: x.bits ^ y.bits })
            } else {
                SmtVal::Bool(false)
            },
            _ => SmtVal::Bool(false),
        },
        SmtExp::Bvadd(a, b) => match (eval(env, a), eval(env, b)) {
            (SmtVal::Bits(x), SmtVal::Bits(y)) => if x.len == y.len {
                SmtVal::Bits(Bv { len: x.len, bits: x.bits.wrapping_add(y.bits) & mask_any(x.len) })
            } else {
                SmtVal::Bool(false)
            },
            _ => SmtVal::Bool(false),
        },
        SmtExp::Bvsub(a, b) => match (eval(env, a), eval(env, b)) {
            (SmtVal::Bits(x), SmtVal::Bits(y)) => if x.len == y.len {
                SmtVal::Bits(Bv { len: x.len, bits: x.bits.wrapping_sub(y.bits) & mask_any(x.len) })
            } else {
                SmtVal::Bool(false)
            },
            _ => SmtVal::Bool(false),
        },
    }
}

/// An opaque, copyable snapshot of a session's assertion history.
/// Restoring it in any thread reproduces exactly the declarations and
/// assertions that were visible when it was taken.
#[derive(Debug)]
pub struct Checkpoint {
    pub decls: Vec<Ty>,
    pub asserts: Vec<SmtExp>,
}

impl Checkpoint {
    /// A value copy of the snapshot; checkpoints are transferred by value,
    /// never shared.
    pub fn duplicate(&self) -> (r: Checkpoint)
        ensures
            r.decls@ == self.decls@,
            r.asserts@ == self.asserts@,
    {
        let mut decls: Vec<Ty> = Vec::new();
        let mut i: usize = 0;
        while i < self.decls.len()
            invariant
                i <= self.decls@.len(),
                decls@ == self.decls@.subrange(0, i as int),
            decreases self.decls@.len() - i,
        {
            decls.push(self.decls[i]);
            i += 1;
            proof {
                assert(decls@ =~= self.decls@.subrange(0, i as int));
            }
        }
        proof {
            assert(decls@ =~= self.decls@);
        }
        Checkpoint { decls, asserts: clone_exps(&self.asserts) }
    }
}

/// One incremental solver session: the variables declared and the
/// constraints asserted so far.
#[derive(Debug)]
pub struct Solver {
    pub decls: Vec<Ty>,
    pub asserts: Vec<SmtExp>,
}

impl Solver {
    /// A fresh session with no declarations and no assertions.
    pub fn new() -> (s: Solver)
        ensures
            s.decls@.len() == 0,
            s.asserts@.len() == 0,
    {
        Solver { decls: Vec::new(), asserts: Vec::new() }
    }

    /// Declare a fresh variable; identifiers increase monotonically within
    /// the session.
    pub fn declare_const(&mut self, ty: Ty) -> (v: usize)
        ensures
            v == old(self).decls@.len(),
            final(self).decls@ == old(self).decls@.push(ty),
            final(self).asserts@ == old(self).asserts@,
    {
        let v = self.decls.len();
        self.decls.push(ty);
        v
    }

    /// Assert a constraint.
    pub fn add_assert(&mut self, e: SmtExp)
        ensures
            final(self).decls@ == old(self).decls@,
            final(self).asserts@ == old(self).asserts@.push(e),
    {
        self.asserts.push(e);
    }

    /// Capture the current state without altering it.
    pub fn checkpoint(&self) -> (ck: Checkpoint)
        ensures
            ck.decls@ == self.decls@,
            ck.asserts@ == self.asserts@,
    {
        Checkpoint { decls: clone_tys(&self.decls), asserts: clone_exps(&self.asserts) }
    }

    /// Materialize an independent session reflecting exactly the
    /// declarations and assertions up to the checkpoint.
    pub fn restore(ck: &Checkpoint) -> (s: Solver)
        ensures
            s.decls@ == ck.decls@,
            s.asserts@ == ck.asserts@,
    {
        Solver { decls: clone_tys(&ck.decls), asserts: clone_exps(&ck.asserts) }
    }

    /// Check the satisfiability of the asserted constraints. `Sat` comes
    /// with a concrete model, `Unsat` with a refutation; `Unknown` confirms
    /// neither.
    pub fn check_sat(&self) -> (r: SatResult)
        ensures
            r == spec_check_sat(self.decls@, self.asserts@),
            r == SatResult::Sat ==> exists|env: Seq<SmtVal>| sat_all(env, self.asserts@),
            r == SatResult::Unsat ==> forall|env: Seq<SmtVal>| !sat_all(env, self.asserts@),
    {
        if self.refute() {
            proof {
                lemma_refuted_unsat(self.asserts@);
            }
            SatResult::Unsat
        } else {
            let env0 = self.candidate(false);
            if self.holds_all(&env0) {
                SatResult::Sat
            } else {
                let env1 = self.candidate(true);
                if self.holds_all(&env1) {
                    SatResult::Sat
                } else {
                    SatResult::Unknown
                }
            }
        }
    }

    /// Search for a closed assertion that fails.
    fn refute(&self) -> (r: bool)
        ensures
            r == refuted(self.asserts@),
    {
        let empty: Vec<SmtVal> = Vec::new();
        let mut i: usize = 0;
        while i < self.asserts.len()
            invariant
                i <= self.asserts@.len(),
                empty@ == Seq::<SmtVal>::empty(),
                forall|j: int|
                    0 <= j < i ==> !(closed(self.asserts@[j]) && eval_exp(
                        Seq::empty(),
                        self.asserts@[j],
                    ) != SmtVal::Bool(true)),
            decreases self.asserts@.len() - i,
        {
            if closed_exec(&self.asserts[i]) {
                let v = eval(&empty, &self.asserts[i]);
                if !(v == SmtVal::Bool(true)) {
                    return true;
                }
            }
            i += 1;
        }
        false
    }

    /// Build a propagated candidate environment from the given defaults.
    fn candidate(&self, ones: bool) -> (env: Vec<SmtVal>)
        ensures
            env@ == propagate(
                default_env(self.decls@, ones),
                self.asserts@,
                self.asserts@.len() as int,
            ),
    {
        let mut env: Vec<SmtVal> = Vec::new();
        let mut i: usize = 0;
        while i < self.decls.len()
            invariant
                i <= self.decls@.len(),
                env@ == default_env(self.decls@, ones).subrange(0, i as int),
            decreases self.decls@.len() - i,
        {
            let v = match self.decls[i] {
                Ty::Bool => SmtVal::Bool(ones),
                Ty::BitVec(w) => SmtVal::Bits(
                    Bv { len: w, bits: if ones { mask_any(w) } else { 0 } },
                ),
            };
            env.push(v);
            i += 1;
            proof {
                assert(env@ =~= default_env(self.decls@, ones).subrange(0, i as int));
            }
        }
        proof {
            assert(env@ =~= default_env(self.decls@, ones));
        }
        let mut k: usize = 0;
        while k < self.asserts.len()
            invariant
                k <= self.asserts@.len(),
                env@ == propagate(default_env(self.decls@, ones), self.asserts@, k as int),
            decreases self.asserts@.len() - k,
        {
            match &self.asserts[k] {
                SmtExp::Var(v) => {
                    if *v < env.len() {
                        env.set(*v, SmtVal::Bool(true));
                    }
                },
                SmtExp::Not(a) => {
                    match &**a {
                        SmtExp::Var(v) => {
                            if *v < env.len() {
                                env.set(*v, SmtVal::Bool(false));
                            }
                        },
                        _ => {},
                    }
                },
                SmtExp::Eq(a, b) => {
                    match &**a {
                        SmtExp::Var(v) => {
                            if *v < env.len() {
                                let val = eval(&env, b);
                                env.set(*v, val);
                            }
                        },
                        _ => {},
                    }
                },
                _ => {},
            }
            k += 1;
        }
        env
    }

    /// Whether every assertion evaluates to true under `env`.
    fn holds_all(&self, env: &Vec<SmtVal>) -> (r: bool)
        ensures
            r == sat_all(env@, self.asserts@),
    {
        let mut i: usize = 0;
        while i < self.asserts.len()
            invariant
                i <= self.asserts@.len(),
                forall|j: int|
                    0 <= j < i ==> eval_exp(env@, self.asserts@[j]) == SmtVal::Bool(true),
            decreases self.asserts@.len() - i,
        {
            let v = eval(env, &self.asserts[i]);
            if !(v == SmtVal::Bool(true)) {
                return false;
            }
            i += 1;
        }
        true
    }
}

/// A value copy of a declaration list.
pub fn clone_tys(tys: &Vec<Ty>) -> (r: Vec<Ty>)
    ensures
        r@ == tys@,
{
    let mut r: Vec<Ty> = Vec::new();
    let mut i: usize = 0;
    while i < tys.len()
        invariant
            i <= tys@.len(),
            r@ == tys@.subrange(0, i as int),
        decreases tys@.len() - i,
    {
        r.push(tys[i]);
        i += 1;
        proof {
            assert(r@ =~= tys@.subrange(0, i as int));
        }
    }
    proof {
        assert(r@ =~= tys@);
    }
    r
}

} // verus!
