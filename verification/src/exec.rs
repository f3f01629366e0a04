//! The execution frame and the task scheduler: advancing one task through
//! its function's instruction list, forking at symbolic branches, and
//! exploring every feasible path.
//!
//! The instruction form is flat: every operation reads atoms (locals or
//! literals) and writes one local, so each instruction is one observable
//! step. A task owns its frame and a solver checkpoint; a worker
//! materializes a private session from the checkpoint, never sharing
//! solver state between siblings.

use vstd::prelude::*;
use vstd::multiset::Multiset;


use crate::bitvec::Bv;
use crate::bitvec::mask64;
use crate::event::EvDef;
use crate::event::Event;
use crate::event::clone_event;
use crate::smt::Checkpoint;
use crate::smt::SatResult;
use crate::smt::SmtExp;
use crate::smt::Solver;
use crate::smt::Ty;
use crate::smt::clone_exp;
use crate::smt::clone_exps;
use crate::smt::spec_check_sat;
use crate::value::Val;
use crate::value::ValList;
use crate::value::clone_val;
use crate::value::clone_val_list;
use crate::value::val_eq;
use crate::value::smt_exp_of;
use crate::value::val_to_exp;
use crate::value::Segs;

verus! {

broadcast use vstd::multiset::group_multiset_axioms;

/// An operand: a local variable or a literal.
#[derive(Clone, Copy, Debug, PartialEq, Eq, Structural)]
pub enum Atom {
    Local(usize),
    Bits(Bv),
    Bool(bool),
    I(i64),
    Unit,
}

/// A unary operation.
#[derive(Clone, Copy, Debug, PartialEq, Eq, Structural)]
pub enum UnOp {
    Not,
    Bvnot,
    /// The `length`-bit slice starting at `from`.
    Slice(u32, u32),
    Unsigned,
    Head,
    Tail,
}

/// A binary operation.
#[derive(Clone, Copy, Debug, PartialEq, Eq, Structural)]
pub enum BinOp {
    And,
    Or,
    Eq,
    Neq,
    Bvand,
    Bvor,
    Bvxor,
    Bvadd,
    Bvsub,
    Concat,
    /// Test one bit, given by the integer operand.
    Bvaccess,
    /// Overwrite a slice starting at the given position.
    SetSlice(u32),
    Iadd,
    Isub,
    Ilt,
    Ilteq,
    Igt,
    Igteq,
}

/// One instruction of a semantic function.
#[derive(Clone, Copy, Debug, PartialEq, Eq, Structural)]
pub enum Instr {
    /// `local := atom`.
    Copy(usize, Atom),
    /// `local := op(atom)`.
    Unary(usize, UnOp, Atom),
    /// `local := op(atom, atom)`.
    Binary(usize, BinOp, Atom, Atom),
    /// `local := registers[reg]`, recording a read event.
    ReadReg(usize, u32),
    /// `registers[reg] := atom`, recording a write event.
    WriteReg(u32, Atom),
    /// `local :=` a fresh symbolic value for the memory read at the atom's
    /// address, recording a read event.
    ReadMem { dst: usize, addr: Atom, bytes: u32, kind: u32 },
    /// Record a memory write event; the store is never mutated in place.
    WriteMem { addr: Atom, data: Atom, bytes: u32 },
    /// Record a branch to a computed address.
    Branch(Atom),
    /// If the guard holds, continue at `target`, else fall through.
    Jump(Atom, usize),
    Goto(usize),
    /// Record a cycle boundary.
    Cycle,
    End,
    /// Abort the task with an error.
    Failure,
}

/// A semantic function: its instruction list and the number of locals.
#[derive(Debug)]
pub struct Program {
    pub instrs: Vec<Instr>,
    pub n_locals: usize,
}

/// Control can only move forward: every jump or goto target lies strictly
/// beyond the instruction it is written at, so path exploration is a
/// finite tree. Semantics that loop backwards are rejected by the
/// explorer's precondition — a decidable strengthening of the assumption
/// that the input program terminates.
pub open spec fn wf_prog(instrs: Seq<Instr>) -> bool {
    forall|i: int|
        0 <= i < instrs.len() ==> match #[trigger] instrs[i] {
            Instr::Jump(_, t) => t > i,
            Instr::Goto(t) => t > i,
            _ => true,
        }
}

impl Program {
    /// Check that every jump and goto moves strictly forward.
    pub fn check_wf(&self) -> (r: bool)
        ensures
            r == wf_prog(self.instrs@),
    {
        let mut i: usize = 0;
        while i < self.instrs.len()
            invariant
                i <= self.instrs@.len(),
                forall|j: int|
                    0 <= j < i ==> match #[trigger] self.instrs@[j] {
                        Instr::Jump(_, t) => t > j,
                        Instr::Goto(t) => t > j,
                        _ => true,
                    },
            decreases self.instrs@.len() - i,
        {
            match self.instrs[i] {
                Instr::Jump(_, t) => if t <= i {
                    return false;
                },
                Instr::Goto(t) => if t <= i {
                    return false;
                },
                _ => {},
            }
            i += 1;
        }
        true
    }
}

/// An execution error; solver infeasibility is not among these — an
/// infeasible path is pruned silently.
#[derive(Clone, Copy, Debug, PartialEq, Eq, Structural)]
pub enum ExecError {
    /// An operation applied to values of the wrong shape.
    TypeMismatch,
    /// An out-of-bounds bit access, local index, or width.
    OutOfBounds,
    /// A register that the frame does not hold.
    UnknownRegister,
    /// Integer arithmetic left the machine range.
    ArithmeticOverflow,
    /// An operation the engine does not define on these operands.
    UndefinedOperation,
    /// The explicit failure instruction.
    Failure,
}

/// Interpreter state for one task: control position, local bindings, the
/// register view, the events recorded so far (chronological), and the
/// accumulated path condition.
#[derive(Debug)]
pub struct Frame {
    pub pc: usize,
    pub locals: Vec<Val>,
    pub regs: Vec<Option<Val>>,
    pub events: Vec<Event>,
    pub cond: Vec<SmtExp>,
}

/// The unit of schedulable work: a numeric identifier, a frame, and the
/// solver checkpoint this path's assertions live at.
#[derive(Debug)]
pub struct Task {
    pub id: u64,
    pub frame: Frame,
    pub ckpt: Checkpoint,
}

/// The mathematical model of a task.
pub ghost struct TaskR {
    pub id: u64,
    pub pc: int,
    pub locals: Seq<Val>,
    pub regs: Seq<Option<Val>>,
    pub events: Seq<Event>,
    pub cond: Seq<SmtExp>,
    pub decls: Seq<Ty>,
    pub asserts: Seq<SmtExp>,
}

/// The model a task denotes.
pub open spec fn task_view(t: Task) -> TaskR {
    TaskR {
        id: t.id,
        pc: t.frame.pc as int,
        locals: t.frame.locals@,
        regs: t.frame.regs@,
        events: t.frame.events@,
        cond: t.frame.cond@,
        decls: t.ckpt.decls@,
        asserts: t.ckpt.asserts@,
    }
}

/// A completed path: the checkpoint it ended at, its event trace in
/// most-recent-first order, and its path condition.
#[derive(Debug)]
pub struct TracePath {
    pub id: u64,
    pub ckpt: Checkpoint,
    pub events: Vec<Event>,
    pub cond: Vec<SmtExp>,
}

/// The mathematical model of a completed path.
pub ghost struct TraceR {
    pub id: u64,
    pub decls: Seq<Ty>,
    pub asserts: Seq<SmtExp>,
    pub events: Seq<Event>,
    pub cond: Seq<SmtExp>,
}

/// One terminal result: a completed path or a per-task execution error.
#[derive(Debug)]
pub enum TraceResult {
    Path(TracePath),
    Abort(u64, ExecError),
}

/// The mathematical model of a terminal result.
pub ghost enum TR {
    Path(TraceR),
    Abort(u64, ExecError),
}

/// The model a terminal result denotes.
pub open spec fn result_view(r: TraceResult) -> TR {
    match r {
        TraceResult::Path(p) => TR::Path(
            TraceR {
                id: p.id,
                decls: p.ckpt.decls@,
                asserts: p.ckpt.asserts@,
                events: p.events@,
                cond: p.cond@,
            },
        ),
        TraceResult::Abort(id, e) => TR::Abort(id, e),
    }
}

/// What one observable step does: finish, continue, or fork into at most
/// two sibling tasks (already pruned for feasibility).
pub ghost enum StepR {
    Done(TR),
    Next(TaskR),
    Fork(Option<TaskR>, Option<TaskR>),
}

/// The result of applying an operation: a concrete value, or a symbolic
/// result of the given type defined by the given expression.
#[derive(Debug)]
pub enum OpOut {
    Direct(Val),
    Sym(Ty, SmtExp),
}

/// Read an operand from the locals.
pub open spec fn atom_val(locals: Seq<Val>, a: Atom) -> Result<Val, ExecError> {
    match a {
        Atom::Local(i) => if i < locals.len() {
            Ok(locals[i as int])
        } else {
            Err(ExecError::OutOfBounds)
        },
        Atom::Bits(bv) => Ok(Val::Concrete(bv)),
        Atom::Bool(b) => Ok(Val::Bool(b)),
        Atom::I(n) => Ok(Val::I(n)),
        Atom::Unit => Ok(Val::Unit),
    }
}

/// Read an operand from the locals, executably.
pub fn atom_val_exec(locals: &Vec<Val>, a: &Atom) -> (r: Result<Val, ExecError>)
    ensures
        r == atom_val(locals@, *a),
{
    match a {
        Atom::Local(i) => if *i < locals.len() {
            Ok(clone_val(&locals[*i]))
        } else {
            Err(ExecError::OutOfBounds)
        },
        Atom::Bits(bv) => Ok(Val::Concrete(*bv)),
        Atom::Bool(b) => Ok(Val::Bool(*b)),
        Atom::I(n) => Ok(Val::I(*n)),
        Atom::Unit => Ok(Val::Unit),
    }
}

/// Whether a value is boolean-shaped: a concrete boolean or a symbolic
/// variable declared boolean.
pub open spec fn boolish(v: Val, decls: Seq<Ty>) -> bool {
    match v {
        Val::Bool(_) => true,
        Val::Symbolic(s) => s < decls.len() && decls[s as int] == Ty::Bool,
        _ => false,
    }
}

/// The width of a bits-shaped value, if it has one no wider than 64:
/// concrete vectors carry theirs, symbolic variables are declared with
/// one, and a mixed pattern's is the sum of its segments'.
pub open spec fn bits_width(v: Val, decls: Seq<Ty>) -> Option<u32> {
    match v {
        Val::Concrete(bv) => if bv.len <= 64 {
            Some(bv.len)
        } else {
            None
        },
        Val::Symbolic(s) => if s < decls.len() {
            match decls[s as int] {
                Ty::BitVec(w) => if w <= 64 {
                    Some(w)
                } else {
                    None
                },
                _ => None,
            }
        } else {
            None
        },
        Val::MixedBits(segs) => segs_width(*segs, decls),
        _ => None,
    }
}

/// The total width of a segment sequence, if every segment has one and
/// the sum stays within 64 bits.
pub open spec fn segs_width(segs: Segs, decls: Seq<Ty>) -> Option<u32>
    decreases segs,
{
    match segs {
        Segs::One(seg) => seg_width(seg, decls),
        Segs::Cons(seg, rest) => match (seg_width(seg, decls), segs_width(*rest, decls)) {
            (Some(a), Some(b)) => if a + b <= 64 {
                Some((a + b) as u32)
            } else {
                None
            },
            _ => None,
        },
    }
}

/// The width of one segment, if it has one no wider than 64.
pub open spec fn seg_width(seg: crate::value::BitsSegment, decls: Seq<Ty>) -> Option<u32> {
    match seg {
        crate::value::BitsSegment::Concrete(bv) => if bv.len <= 64 {
            Some(bv.len)
        } else {
            None
        },
        crate::value::BitsSegment::Symbolic(s) => if s < decls.len() {
            match decls[s as int] {
                Ty::BitVec(w) => if w <= 64 {
                    Some(w)
                } else {
                    None
                },
                _ => None,
            }
        } else {
            None
        },
    }
}

/// The width of a bits-shaped value, executably.
pub fn bits_width_exec(v: &Val, decls: &Vec<Ty>) -> (r: Option<u32>)
    ensures
        r == bits_width(*v, decls@),
{
    match v {
        Val::Concrete(bv) => if bv.len <= 64 {
            Some(bv.len)
        } else {
            None
        },
        Val::Symbolic(s) => if *s < decls.len() {
            match decls[*s] {
                Ty::BitVec(w) => if w <= 64 {
                    Some(w)
                } else {
                    None
                },
                _ => None,
            }
        } else {
            None
        },
        Val::MixedBits(segs) => segs_width_exec(segs, decls),
        _ => None,
    }
}

/// The total width of a segment sequence, executably.
pub fn segs_width_exec(segs: &Segs, decls: &Vec<Ty>) -> (r: Option<u32>)
    ensures
        r == segs_width(*segs, decls@),
    decreases *segs,
{
    match segs {
        Segs::One(seg) => seg_width_exec(seg, decls),
        Segs::Cons(seg, rest) => match (seg_width_exec(seg, decls), segs_width_exec(rest, decls)) {
            (Some(a), Some(b)) => if a as u64 + b as u64 <= 64 {
                Some(a + b)
            } else {
                None
            },
            _ => None,
        },
    }
}

/// The width of one segment, executably.
pub fn seg_width_exec(seg: &crate::value::BitsSegment, decls: &Vec<Ty>) -> (r: Option<u32>)
    ensures
        r == seg_width(*seg, decls@),
{
    match seg {
        crate::value::BitsSegment::Concrete(bv) => if bv.len <= 64 {
            Some(bv.len)
        } else {
            None
        },
        crate::value::BitsSegment::Symbolic(s) => if *s < decls.len() {
            match decls[*s] {
                Ty::BitVec(w) => if w <= 64 {
                    Some(w)
                } else {
                    None
                },
                _ => None,
            }
        } else {
            None
        },
    }
}

/// Whether a value takes the symbolic route through an operation: it has
/// a solver expression but is not a concrete vector or boolean.
pub open spec fn symbolicish(v: Val) -> bool {
    match v {
        Val::Symbolic(_) => true,
        Val::MixedBits(_) => true,
        _ => false,
    }
}


/// Apply a unary operation to a value. Concrete operands produce concrete
/// results; bits- or boolean-shaped symbolic operands produce a fresh
/// symbolic result defined by the corresponding solver expression.
pub open spec fn apply_unary(op: UnOp, v: Val, decls: Seq<Ty>) -> Result<OpOut, ExecError> {
    match op {
        UnOp::Not => match v {
            Val::Bool(b) => Ok(OpOut::Direct(Val::Bool(!b))),
            Val::Symbolic(s) => if boolish(v, decls) {
                Ok(OpOut::Sym(Ty::Bool, SmtExp::Not(Box::new(SmtExp::Var(s)))))
            } else {
                Err(ExecError::TypeMismatch)
            },
            _ => Err(ExecError::TypeMismatch),
        },
        UnOp::Bvnot => match v {
            Val::Concrete(x) => Ok(
                OpOut::Direct(Val::Concrete(Bv { len: x.len, bits: !x.bits & mask64(x.len) })),
            ),
            _ => if symbolicish(v) {
                match (bits_width(v, decls), smt_exp_of(v)) {
                    (Some(w), Some(e)) => Ok(
                        OpOut::Sym(Ty::BitVec(w), SmtExp::Bvnot(Box::new(e))),
                    ),
                    _ => Err(ExecError::TypeMismatch),
                }
            } else {
                Err(ExecError::TypeMismatch)
            },
        },
        UnOp::Slice(from, length) => match v {
            Val::Concrete(x) => if length >= 1 && from + length <= x.len && x.len <= 64 {
                Ok(OpOut::Direct(Val::Concrete(crate::smt::slice_spec(x, from, length))))
            } else {
                Err(ExecError::OutOfBounds)
            },
            _ => if symbolicish(v) {
                match (bits_width(v, decls), smt_exp_of(v)) {
                    (Some(w), Some(e)) => if length >= 1 && from + length <= w {
                        Ok(
                            OpOut::Sym(
                                Ty::BitVec(length),
                                SmtExp::Extract((from + length - 1) as u32, from, Box::new(e)),
                            ),
                        )
                    } else {
                        Err(ExecError::OutOfBounds)
                    },
                    _ => Err(ExecError::TypeMismatch),
                }
            } else {
                Err(ExecError::TypeMismatch)
            },
        },
        UnOp::Unsigned => match v {
            Val::Concrete(x) => if x.len <= 63 {
                Ok(OpOut::Direct(Val::I(x.bits as i64)))
            } else {
                Err(ExecError::ArithmeticOverflow)
            },
            _ => Err(ExecError::UndefinedOperation),
        },
        UnOp::Head => match v {
            Val::List(l) => match *l {
                ValList::Cons(h, _) => Ok(OpOut::Direct(*h)),
                ValList::Nil => Err(ExecError::OutOfBounds),
            },
            _ => Err(ExecError::TypeMismatch),
        },
        UnOp::Tail => match v {
            Val::List(l) => match *l {
                ValList::Cons(_, rest) => Ok(OpOut::Direct(Val::List(rest))),
                ValList::Nil => Err(ExecError::OutOfBounds),
            },
            _ => Err(ExecError::TypeMismatch),
        },
    }
}

/// Apply a unary operation, executably.
pub fn apply_unary_exec(op: &UnOp, v: &Val, decls: &Vec<Ty>) -> (r: Result<OpOut, ExecError>)
    ensures
        r == apply_unary(*op, *v, decls@),
{
    match op {
        UnOp::Not => match v {
            Val::Bool(b) => Ok(OpOut::Direct(Val::Bool(!*b))),
            Val::Symbolic(s) => if *s < decls.len() && decls[*s] == Ty::Bool {
                Ok(OpOut::Sym(Ty::Bool, SmtExp::Not(Box::new(SmtExp::Var(*s)))))
            } else {
                Err(ExecError::TypeMismatch)
            },
            _ => Err(ExecError::TypeMismatch),
        },
        UnOp::Bvnot => match v {
            Val::Concrete(x) => Ok(
                OpOut::Direct(
                    Val::Concrete(Bv { len: x.len, bits: !x.bits & crate::smt::mask_any(x.len) }),
                ),
            ),
            Val::Symbolic(_) | Val::MixedBits(_) => match (
                bits_width_exec(v, decls),
                val_to_exp(v),
            ) {
                (Some(w), Some(e)) => Ok(OpOut::Sym(Ty::BitVec(w), SmtExp::Bvnot(Box::new(e)))),
                _ => Err(ExecError::TypeMismatch),
            },
            _ => Err(ExecError::TypeMismatch),
        },
        UnOp::Slice(from, length) => match v {
            Val::Concrete(x) => if *length >= 1 && (*from as u64) + (*length as u64) <= (
            x.len as u64) && x.len <= 64 {
                let m = crate::smt::mask_any(*length);
                let shifted = if *from >= 64 {
                    0
                } else {
                    x.bits >> *from
                };
                Ok(OpOut::Direct(Val::Concrete(Bv { len: *length, bits: shifted & m })))
            } else {
                Err(ExecError::OutOfBounds)
            },
            Val::Symbolic(_) | Val::MixedBits(_) => match (
                bits_width_exec(v, decls),
                val_to_exp(v),
            ) {
                (Some(w), Some(e)) => if *length >= 1 && (*from as u64) + (*length as u64) <= (
                w as u64) {
                    Ok(
                        OpOut::Sym(
                            Ty::BitVec(*length),
                            SmtExp::Extract(*from + *length - 1, *from, Box::new(e)),
                        ),
                    )
                } else {
                    Err(ExecError::OutOfBounds)
                },
                _ => Err(ExecError::TypeMismatch),
            },
            _ => Err(ExecError::TypeMismatch),
        },
        UnOp::Unsigned => match v {
            Val::Concrete(x) => if x.len <= 63 {
                Ok(OpOut::Direct(Val::I(x.bits as i64)))
            } else {
                Err(ExecError::ArithmeticOverflow)
            },
            _ => Err(ExecError::UndefinedOperation),
        },
        UnOp::Head => match v {
            Val::List(l) => match &**l {
                ValList::Cons(h, _) => Ok(OpOut::Direct(clone_val(h))),
                ValList::Nil => Err(ExecError::OutOfBounds),
            },
            _ => Err(ExecError::TypeMismatch),
        },
        UnOp::Tail => match v {
            Val::List(l) => match &**l {
                ValList::Cons(_, rest) => Ok(
                    OpOut::Direct(Val::List(Box::new(clone_val_list(rest)))),
                ),
                ValList::Nil => Err(ExecError::OutOfBounds),
            },
            _ => Err(ExecError::TypeMismatch),
        },
    }
}

/// The symbolic expression route is open when both operands have one and
/// at least one is not concrete.
pub open spec fn sym_route(a: Val, b: Val) -> bool {
    (symbolicish(a) || symbolicish(b)) && smt_exp_of(a) is Some && smt_exp_of(b) is Some
}

/// Apply a binary operation to two values.
pub open spec fn apply_binary(op: BinOp, a: Val, b: Val, decls: Seq<Ty>) -> Result<
    OpOut,
    ExecError,
> {
    match op {
        BinOp::And | BinOp::Or => {
            if !(boolish(a, decls) && boolish(b, decls)) {
                Err(ExecError::TypeMismatch)
            } else {
                match (a, b) {
                    (Val::Bool(x), Val::Bool(y)) => Ok(
                        OpOut::Direct(
                            Val::Bool(
                                if op == BinOp::And {
                                    x && y
                                } else {
                                    x || y
                                },
                            ),
                        ),
                    ),
                    _ => {
                        let ea = smt_exp_of(a)->Some_0;
                        let eb = smt_exp_of(b)->Some_0;
                        Ok(
                            OpOut::Sym(
                                Ty::Bool,
                                if op == BinOp::And {
                                    SmtExp::And(Box::new(ea), Box::new(eb))
                                } else {
                                    SmtExp::Or(Box::new(ea), Box::new(eb))
                                },
                            ),
                        )
                    },
                }
            }
        },
        BinOp::Eq | BinOp::Neq => {
            if symbolicish(a) || symbolicish(b) {
                match (smt_exp_of(a), smt_exp_of(b)) {
                    (Some(ea), Some(eb)) => {
                        let eq = SmtExp::Eq(Box::new(ea), Box::new(eb));
                        Ok(
                            OpOut::Sym(
                                Ty::Bool,
                                if op == BinOp::Eq {
                                    eq
                                } else {
                                    SmtExp::Not(Box::new(eq))
                                },
                            ),
                        )
                    },
                    _ => Err(ExecError::TypeMismatch),
                }
            } else {
                Ok(
                    OpOut::Direct(
                        Val::Bool(
                            if op == BinOp::Eq {
                                a == b
                            } else {
                                a != b
                            },
                        ),
                    ),
                )
            }
        },
        BinOp::Bvand | BinOp::Bvor | BinOp::Bvxor | BinOp::Bvadd | BinOp::Bvsub => {
            match (a, b) {
                (Val::Concrete(x), Val::Concrete(y)) => if x.len == y.len {
                    Ok(OpOut::Direct(Val::Concrete(bv_arith(op, x, y))))
                } else {
                    Err(ExecError::TypeMismatch)
                },
                _ => {
                    if sym_route(a, b) {
                        match (bits_width(a, decls), bits_width(b, decls)) {
                            (Some(wa), Some(wb)) => if wa == wb {
                                let ea = smt_exp_of(a)->Some_0;
                                let eb = smt_exp_of(b)->Some_0;
                                Ok(OpOut::Sym(Ty::BitVec(wa), bv_arith_exp(op, ea, eb)))
                            } else {
                                Err(ExecError::TypeMismatch)
                            },
                            _ => Err(ExecError::TypeMismatch),
                        }
                    } else {
                        Err(ExecError::TypeMismatch)
                    }
                },
            }
        },
        BinOp::Concat => {
            match (a, b) {
                (Val::Concrete(x), Val::Concrete(y)) => if x.len + y.len <= 64 {
                    Ok(OpOut::Direct(Val::Concrete(crate::smt::concat_spec(x, y))))
                } else {
                    Err(ExecError::OutOfBounds)
                },
                _ => {
                    if sym_route(a, b) {
                        match (bits_width(a, decls), bits_width(b, decls)) {
                            (Some(wa), Some(wb)) => if wa + wb <= 64 {
                                let ea = smt_exp_of(a)->Some_0;
                                let eb = smt_exp_of(b)->Some_0;
                                Ok(
                                    OpOut::Sym(
                                        Ty::BitVec((wa + wb) as u32),
                                        SmtExp::Concat(Box::new(ea), Box::new(eb)),
                                    ),
                                )
                            } else {
                                Err(ExecError::OutOfBounds)
                            },
                            _ => Err(ExecError::TypeMismatch),
                        }
                    } else {
                        Err(ExecError::TypeMismatch)
                    }
                },
            }
        },
        BinOp::Bvaccess => {
            match (a, b) {
                (Val::Concrete(x), Val::I(i)) => if 0 <= i < x.len && x.len <= 64 {
                    Ok(OpOut::Direct(Val::Bool(crate::bitvec::shr64(x.bits, i as u32) & 1 == 1)))
                } else {
                    Err(ExecError::OutOfBounds)
                },
                (_, Val::I(i)) => {
                    if symbolicish(a) {
                        match (bits_width(a, decls), smt_exp_of(a)) {
                            (Some(w), Some(ea)) => if 0 <= i < w {
                                Ok(
                                    OpOut::Sym(
                                        Ty::Bool,
                                        SmtExp::Eq(
                                            Box::new(
                                                SmtExp::Extract(i as u32, i as u32, Box::new(ea)),
                                            ),
                                            Box::new(SmtExp::Bits(Bv { len: 1, bits: 1 })),
                                        ),
                                    ),
                                )
                            } else {
                                Err(ExecError::OutOfBounds)
                            },
                            _ => Err(ExecError::TypeMismatch),
                        }
                    } else {
                        Err(ExecError::TypeMismatch)
                    }
                },
                _ => Err(ExecError::UndefinedOperation),
            }
        },
        BinOp::SetSlice(from) => {
            match (a, b) {
                (Val::Concrete(x), Val::Concrete(y)) => if from + y.len <= x.len && x.len <= 64 {
                    Ok(
                        OpOut::Direct(
                            Val::Concrete(
                                Bv {
                                    len: x.len,
                                    bits: (x.bits & !crate::bitvec::shl64(mask64(y.len), from))
                                        | crate::bitvec::shl64(y.bits, from),
                                },
                            ),
                        ),
                    )
                } else {
                    Err(ExecError::OutOfBounds)
                },
                _ => Err(ExecError::UndefinedOperation),
            }
        },
        BinOp::Iadd | BinOp::Isub => {
            match (a, b) {
                (Val::I(x), Val::I(y)) => {
                    let s = if op == BinOp::Iadd {
                        x + y
                    } else {
                        x - y
                    };
                    if i64::MIN <= s <= i64::MAX {
                        Ok(OpOut::Direct(Val::I(s as i64)))
                    } else {
                        Err(ExecError::ArithmeticOverflow)
                    }
                },
                _ => Err(ExecError::TypeMismatch),
            }
        },
        BinOp::Ilt | BinOp::Ilteq | BinOp::Igt | BinOp::Igteq => {
            match (a, b) {
                (Val::I(x), Val::I(y)) => Ok(
                    OpOut::Direct(
                        Val::Bool(
                            match op {
                                BinOp::Ilt => x < y,
                                BinOp::Ilteq => x <= y,
                                BinOp::Igt => x > y,
                                _ => x >= y,
                            },
                        ),
                    ),
                ),
                _ => Err(ExecError::TypeMismatch),
            }
        },
    }
}

/// The concrete result of a bit-vector arithmetic or logic operation on
/// same-width operands.
pub open spec fn bv_arith(op: BinOp, x: Bv, y: Bv) -> Bv {
    match op {
        BinOp::Bvand => Bv { len: x.len, bits: x.bits & y.bits },
        BinOp::Bvor => Bv { len: x.len, bits: x.bits | y.bits },
        BinOp::Bvxor => Bv { len: x.len, bits: x.bits ^ y.bits },
        BinOp::Bvadd => Bv {
            len: x.len,
            bits: ((x.bits + y.bits) % 0x1_0000_0000_0000_0000) as u64 & mask64(x.len),
        },
        _ => Bv {
            len: x.len,
            bits: ((x.bits - y.bits) % 0x1_0000_0000_0000_0000) as u64 & mask64(x.len),
        },
    }
}

/// The solver expression for a bit-vector arithmetic or logic operation.
pub open spec fn bv_arith_exp(op: BinOp, ea: SmtExp, eb: SmtExp) -> SmtExp {
    match op {
        BinOp::Bvand => SmtExp::Bvand(Box::new(ea), Box::new(eb)),
        BinOp::Bvor => SmtExp::Bvor(Box::new(ea), Box::new(eb)),
        BinOp::Bvxor => SmtExp::Bvxor(Box::new(ea), Box::new(eb)),
        BinOp::Bvadd => SmtExp::Bvadd(Box::new(ea), Box::new(eb)),
        _ => SmtExp::Bvsub(Box::new(ea), Box::new(eb)),
    }
}

/// Apply a binary operation, executably.
#[verifier::rlimit(50)]
pub fn apply_binary_exec(op: &BinOp, a: &Val, b: &Val, decls: &Vec<Ty>) -> (r: Result<
    OpOut,
    ExecError,
>)
    ensures
        r == apply_binary(*op, *a, *b, decls@),
{
    match op {
        BinOp::And | BinOp::Or => {
            let ba = match a {
                Val::Bool(_) => true,
                Val::Symbolic(s) => *s < decls.len() && decls[*s] == Ty::Bool,
                _ => false,
            };
            let bb = match b {
                Val::Bool(_) => true,
                Val::Symbolic(s) => *s < decls.len() && decls[*s] == Ty::Bool,
                _ => false,
            };
            if !(ba && bb) {
                return Err(ExecError::TypeMismatch);
            }
            match (a, b) {
                (Val::Bool(x), Val::Bool(y)) => Ok(
                    OpOut::Direct(
                        Val::Bool(
                            if matches!(op, BinOp::And) {
                                *x && *y
                            } else {
                                *x || *y
                            },
                        ),
                    ),
                ),
                _ => {
                    let ea = match val_to_exp(a) {
                        Some(e) => e,
                        None => {
                            return Err(ExecError::TypeMismatch);
                        },
                    };
                    let eb = match val_to_exp(b) {
                        Some(e) => e,
                        None => {
                            return Err(ExecError::TypeMismatch);
                        },
                    };
                    Ok(
                        OpOut::Sym(
                            Ty::Bool,
                            if matches!(op, BinOp::And) {
                                SmtExp::And(Box::new(ea), Box::new(eb))
                            } else {
                                SmtExp::Or(Box::new(ea), Box::new(eb))
                            },
                        ),
                    )
                },
            }
        },
        BinOp::Eq | BinOp::Neq => {
            let sym = matches!(a, Val::Symbolic(_) | Val::MixedBits(_)) || matches!(
                b,
                Val::Symbolic(_) | Val::MixedBits(_),
            );
            if sym {
                match (val_to_exp(a), val_to_exp(b)) {
                    (Some(ea), Some(eb)) => {
                        let eq = SmtExp::Eq(Box::new(ea), Box::new(eb));
                        Ok(
                            OpOut::Sym(
                                Ty::Bool,
                                if matches!(op, BinOp::Eq) {
                                    eq
                                } else {
                                    SmtExp::Not(Box::new(eq))
                                },
                            ),
                        )
                    },
                    _ => Err(ExecError::TypeMismatch),
                }
            } else {
                let e = val_eq(a, b);
                Ok(
                    OpOut::Direct(
                        Val::Bool(
                            if matches!(op, BinOp::Eq) {
                                e
                            } else {
                                !e
                            },
                        ),
                    ),
                )
            }
        },
        BinOp::Bvand | BinOp::Bvor | BinOp::Bvxor | BinOp::Bvadd | BinOp::Bvsub => {
            match (a, b) {
                (Val::Concrete(x), Val::Concrete(y)) => {
                    if x.len == y.len {
                        let bits = match op {
                            BinOp::Bvand => x.bits & y.bits,
                            BinOp::Bvor => x.bits | y.bits,
                            BinOp::Bvxor => x.bits ^ y.bits,
                            BinOp::Bvadd => x.bits.wrapping_add(y.bits) & crate::smt::mask_any(
                                x.len,
                            ),
                            _ => x.bits.wrapping_sub(y.bits) & crate::smt::mask_any(x.len),
                        };
                        Ok(OpOut::Direct(Val::Concrete(Bv { len: x.len, bits })))
                    } else {
                        Err(ExecError::TypeMismatch)
                    }
                },
                _ => {
                    let sym = matches!(a, Val::Symbolic(_) | Val::MixedBits(_)) || matches!(
                        b,
                        Val::Symbolic(_) | Val::MixedBits(_),
                    );
                    if sym {
                        match (val_to_exp(a), val_to_exp(b)) {
                            (Some(ea), Some(eb)) => {
                                match (bits_width_exec(a, decls), bits_width_exec(b, decls)) {
                                    (Some(wa), Some(wb)) => {
                                        if wa == wb {
                                            let e = match op {
                                                BinOp::Bvand => SmtExp::Bvand(
                                                    Box::new(ea),
                                                    Box::new(eb),
                                                ),
                                                BinOp::Bvor => SmtExp::Bvor(
                                                    Box::new(ea),
                                                    Box::new(eb),
                                                ),
                                                BinOp::Bvxor => SmtExp::Bvxor(
                                                    Box::new(ea),
                                                    Box::new(eb),
                                                ),
                                                BinOp::Bvadd => SmtExp::Bvadd(
                                                    Box::new(ea),
                                                    Box::new(eb),
                                                ),
                                                _ => SmtExp::Bvsub(Box::new(ea), Box::new(eb)),
                                            };
                                            Ok(OpOut::Sym(Ty::BitVec(wa), e))
                                        } else {
                                            Err(ExecError::TypeMismatch)
                                        }
                                    },
                                    _ => Err(ExecError::TypeMismatch),
                                }
                            },
                            _ => Err(ExecError::TypeMismatch),
                        }
                    } else {
                        Err(ExecError::TypeMismatch)
                    }
                },
            }
        },
        BinOp::Concat => {
            match (a, b) {
                (Val::Concrete(x), Val::Concrete(y)) => {
                    if (x.len as u64) + (y.len as u64) <= 64 {
                        let shifted = if y.len >= 64 {
                            0
                        } else {
                            x.bits << y.len
                        };
                        Ok(
                            OpOut::Direct(
                                Val::Concrete(Bv { len: x.len + y.len, bits: shifted | y.bits }),
                            ),
                        )
                    } else {
                        Err(ExecError::OutOfBounds)
                    }
                },
                _ => {
                    let sym = matches!(a, Val::Symbolic(_) | Val::MixedBits(_)) || matches!(
                        b,
                        Val::Symbolic(_) | Val::MixedBits(_),
                    );
                    if sym {
                        match (val_to_exp(a), val_to_exp(b)) {
                            (Some(ea), Some(eb)) => {
                                match (bits_width_exec(a, decls), bits_width_exec(b, decls)) {
                                    (Some(wa), Some(wb)) => {
                                        if (wa as u64) + (wb as u64) <= 64 {
                                            Ok(
                                                OpOut::Sym(
                                                    Ty::BitVec(wa + wb),
                                                    SmtExp::Concat(Box::new(ea), Box::new(eb)),
                                                ),
                                            )
                                        } else {
                                            Err(ExecError::OutOfBounds)
                                        }
                                    },
                                    _ => Err(ExecError::TypeMismatch),
                                }
                            },
                            _ => Err(ExecError::TypeMismatch),
                        }
                    } else {
                        Err(ExecError::TypeMismatch)
                    }
                },
            }
        },
        BinOp::Bvaccess => {
            match (a, b) {
                (Val::Concrete(x), Val::I(i)) => {
                    if 0 <= *i && (*i as u64) < (x.len as u64) && x.len <= 64 {
                        let sh = *i as u32;
                        let bit = if sh >= 64 {
                            0
                        } else {
                            x.bits >> sh
                        };
                        Ok(OpOut::Direct(Val::Bool(bit & 1 == 1)))
                    } else {
                        Err(ExecError::OutOfBounds)
                    }
                },
                (_, Val::I(i)) => {
                    let sym = matches!(a, Val::Symbolic(_) | Val::MixedBits(_));
                    if sym {
                        match (bits_width_exec(a, decls), val_to_exp(a)) {
                            (Some(w), Some(ea)) => {
                                if 0 <= *i && (*i as u64) < (w as u64) {
                                    Ok(
                                        OpOut::Sym(
                                            Ty::Bool,
                                            SmtExp::Eq(
                                                Box::new(
                                                    SmtExp::Extract(
                                                        *i as u32,
                                                        *i as u32,
                                                        Box::new(ea),
                                                    ),
                                                ),
                                                Box::new(SmtExp::Bits(Bv { len: 1, bits: 1 })),
                                            ),
                                        ),
                                    )
                                } else {
                                    Err(ExecError::OutOfBounds)
                                }
                            },
                            _ => Err(ExecError::TypeMismatch),
                        }
                    } else {
                        Err(ExecError::TypeMismatch)
                    }
                },
                _ => Err(ExecError::UndefinedOperation),
            }
        },
        BinOp::SetSlice(from) => {
            match (a, b) {
                (Val::Concrete(x), Val::Concrete(y)) => {
                    if (*from as u64) + (y.len as u64) <= (x.len as u64) && x.len <= 64 {
                        let bits = if *from >= 64 {
                            x.bits
                        } else {
                            (x.bits & !(crate::smt::mask_any(y.len) << *from)) | (y.bits << *from)
                        };
                        proof {
                            if from >= 64 {
                                let xb = x.bits;
                                assert((xb & !0u64) | 0u64 == xb) by (bit_vector);
                            }
                        }
                        Ok(OpOut::Direct(Val::Concrete(Bv { len: x.len, bits })))
                    } else {
                        Err(ExecError::OutOfBounds)
                    }
                },
                _ => Err(ExecError::UndefinedOperation),
            }
        },
        BinOp::Iadd | BinOp::Isub => {
            match (a, b) {
                (Val::I(x), Val::I(y)) => {
                    let s: i128 = if matches!(op, BinOp::Iadd) {
                        *x as i128 + *y as i128
                    } else {
                        *x as i128 - *y as i128
                    };
                    if i64::MIN as i128 <= s && s <= i64::MAX as i128 {
                        Ok(OpOut::Direct(Val::I(s as i64)))
                    } else {
                        Err(ExecError::ArithmeticOverflow)
                    }
                },
                _ => Err(ExecError::TypeMismatch),
            }
        },
        BinOp::Ilt | BinOp::Ilteq | BinOp::Igt | BinOp::Igteq => {
            match (a, b) {
                (Val::I(x), Val::I(y)) => Ok(
                    OpOut::Direct(
                        Val::Bool(
                            match op {
                                BinOp::Ilt => *x < *y,
                                BinOp::Ilteq => *x <= *y,
                                BinOp::Igt => *x > *y,
                                _ => *x >= *y,
                            },
                        ),
                    ),
                ),
                _ => Err(ExecError::TypeMismatch),
            }
        },
    }
}


/// One observable step of a task, as a mathematical function: the
/// instruction at the control position applied to the frame. A symbolic
/// branch guard is not resolved here; it produces a fork whose arms carry
/// the guard (or its negation) asserted into their own checkpoints. An arm
/// is kept only when the session's own check answers satisfiable: an arm
/// the two-candidate model search cannot confirm is pruned silently, the
/// same way an unsatisfiable one is — a deliberately conservative policy,
/// stated here because a complete solver would keep such an arm.
pub open spec fn step_spec(instrs: Seq<Instr>, t: TaskR) -> StepR {
    if !(0 <= t.pc < instrs.len()) {
        StepR::Done(finished(t))
    } else {
        match instrs[t.pc] {
            Instr::End => StepR::Done(finished(t)),
            Instr::Failure => StepR::Done(TR::Abort(t.id, ExecError::Failure)),
            Instr::Cycle => StepR::Next(
                TaskR { pc: t.pc + 1, events: t.events.push(Event::Cycle), ..t },
            ),
            Instr::Goto(g) => StepR::Next(TaskR { pc: g as int, ..t }),
            Instr::Copy(dst, a) => match atom_val(t.locals, a) {
                Err(e) => StepR::Done(TR::Abort(t.id, e)),
                Ok(v) => if dst < t.locals.len() {
                    StepR::Next(TaskR { pc: t.pc + 1, locals: t.locals.update(dst as int, v), ..t })
                } else {
                    StepR::Done(TR::Abort(t.id, ExecError::OutOfBounds))
                },
            },
            Instr::Unary(dst, op, a) => match atom_val(t.locals, a) {
                Err(e) => StepR::Done(TR::Abort(t.id, e)),
                Ok(v) => match apply_unary(op, v, t.decls) {
                    Err(e) => StepR::Done(TR::Abort(t.id, e)),
                    Ok(out) => op_dest(t, dst, out),
                },
            },
            Instr::Binary(dst, op, a, b) => match (atom_val(t.locals, a), atom_val(t.locals, b)) {
                (Err(e), _) => StepR::Done(TR::Abort(t.id, e)),
                (_, Err(e)) => StepR::Done(TR::Abort(t.id, e)),
                (Ok(va), Ok(vb)) => match apply_binary(op, va, vb, t.decls) {
                    Err(e) => StepR::Done(TR::Abort(t.id, e)),
                    Ok(out) => op_dest(t, dst, out),
                },
            },
            Instr::ReadReg(dst, r) => if !(r < t.regs.len() && t.regs[r as int] is Some) {
                StepR::Done(TR::Abort(t.id, ExecError::UnknownRegister))
            } else if !(dst < t.locals.len()) {
                StepR::Done(TR::Abort(t.id, ExecError::OutOfBounds))
            } else {
                let v = t.regs[r as int]->0;
                StepR::Next(
                    TaskR {
                        pc: t.pc + 1,
                        locals: t.locals.update(dst as int, v),
                        events: t.events.push(Event::ReadReg(r, v)),
                        ..t
                    },
                )
            },
            Instr::WriteReg(r, a) => match atom_val(t.locals, a) {
                Err(e) => StepR::Done(TR::Abort(t.id, e)),
                Ok(v) => if r < t.regs.len() && t.regs[r as int] is Some {
                    StepR::Next(
                        TaskR {
                            pc: t.pc + 1,
                            regs: t.regs.update(r as int, Some(v)),
                            events: t.events.push(Event::WriteReg(r, v)),
                            ..t
                        },
                    )
                } else {
                    StepR::Done(TR::Abort(t.id, ExecError::UnknownRegister))
                },
            },
            Instr::ReadMem { dst, addr, bytes, kind } => match atom_val(t.locals, addr) {
                Err(e) => StepR::Done(TR::Abort(t.id, e)),
                Ok(av) => if !(1 <= bytes <= 8) {
                    StepR::Done(TR::Abort(t.id, ExecError::OutOfBounds))
                } else if !(dst < t.locals.len()) {
                    StepR::Done(TR::Abort(t.id, ExecError::OutOfBounds))
                } else {
                    let fresh = t.decls.len() as usize;
                    let ty = Ty::BitVec((8 * bytes) as u32);
                    StepR::Next(
                        TaskR {
                            pc: t.pc + 1,
                            locals: t.locals.update(dst as int, Val::Symbolic(fresh)),
                            events: t.events.push(Event::Smt(EvDef::DeclareConst(fresh, ty))).push(
                                Event::ReadMem {
                                    value: Val::Symbolic(fresh),
                                    address: av,
                                    bytes,
                                    kind,
                                },
                            ),
                            decls: t.decls.push(ty),
                            ..t
                        },
                    )
                },
            },
            Instr::WriteMem { addr, data, bytes } => match (
                atom_val(t.locals, addr),
                atom_val(t.locals, data),
            ) {
                (Err(e), _) => StepR::Done(TR::Abort(t.id, e)),
                (_, Err(e)) => StepR::Done(TR::Abort(t.id, e)),
                (Ok(av), Ok(dv)) => StepR::Next(
                    TaskR {
                        pc: t.pc + 1,
                        events: t.events.push(Event::WriteMem { address: av, data: dv, bytes }),
                        ..t
                    },
                ),
            },
            Instr::Branch(a) => match atom_val(t.locals, a) {
                Err(e) => StepR::Done(TR::Abort(t.id, e)),
                Ok(av) => StepR::Next(
                    TaskR { pc: t.pc + 1, events: t.events.push(Event::Branch { address: av }), ..t
                    },
                ),
            },
            Instr::Jump(g, target) => match atom_val(t.locals, g) {
                Err(e) => StepR::Done(TR::Abort(t.id, e)),
                Ok(Val::Bool(true)) => StepR::Next(TaskR { pc: target as int, ..t }),
                Ok(Val::Bool(false)) => StepR::Next(TaskR { pc: t.pc + 1, ..t }),
                Ok(Val::Symbolic(sv)) => if sv < t.decls.len() && t.decls[sv as int] == Ty::Bool {
                    let g1 = SmtExp::Var(sv);
                    let g2 = SmtExp::Not(Box::new(SmtExp::Var(sv)));
                    let t1 = arm(t, target as int, g1);
                    let t2 = arm(t, t.pc + 1, g2);
                    StepR::Fork(
                        if spec_check_sat(t.decls, t1.asserts) == SatResult::Sat {
                            Some(t1)
                        } else {
                            None
                        },
                        if spec_check_sat(t.decls, t2.asserts) == SatResult::Sat {
                            Some(t2)
                        } else {
                            None
                        },
                    )
                } else {
                    StepR::Done(TR::Abort(t.id, ExecError::TypeMismatch))
                },
                Ok(_) => StepR::Done(TR::Abort(t.id, ExecError::TypeMismatch)),
            },
        }
    }
}

/// The completed path a task yields at its end: its events exposed
/// most-recent-first, with its path condition and checkpoint.
pub open spec fn finished(t: TaskR) -> TR {
    TR::Path(
        TraceR {
            id: t.id,
            decls: t.decls,
            asserts: t.asserts,
            events: t.events.reverse(),
            cond: t.cond,
        },
    )
}

/// One fork arm: the guard strengthened into the path condition and
/// asserted into the arm's own checkpoint, recorded in the trace.
pub open spec fn arm(t: TaskR, pc: int, guard: SmtExp) -> TaskR {
    TaskR {
        pc,
        cond: t.cond.push(guard),
        asserts: t.asserts.push(guard),
        events: t.events.push(Event::Smt(EvDef::Assert(guard))),
        ..t
    }
}

/// Write an operation result to its destination local; a symbolic result
/// declares a fresh variable defined by its expression.
pub open spec fn op_dest(t: TaskR, dst: usize, out: OpOut) -> StepR {
    if !(dst < t.locals.len()) {
        StepR::Done(TR::Abort(t.id, ExecError::OutOfBounds))
    } else {
        match out {
            OpOut::Direct(v) => StepR::Next(
                TaskR { pc: t.pc + 1, locals: t.locals.update(dst as int, v), ..t },
            ),
            OpOut::Sym(ty, e) => {
                let fresh = t.decls.len() as usize;
                StepR::Next(
                    TaskR {
                        pc: t.pc + 1,
                        locals: t.locals.update(dst as int, Val::Symbolic(fresh)),
                        events: t.events.push(Event::Smt(EvDef::DefineConst(fresh, e))),
                        decls: t.decls.push(ty),
                        asserts: t.asserts.push(
                            SmtExp::Eq(Box::new(SmtExp::Var(fresh)), Box::new(e)),
                        ),
                        ..t
                    },
                )
            },
        }
    }
}

/// The execution outcome of one step, executably.
#[derive(Debug)]
pub enum StepOut {
    Done(TraceResult),
    Next(Task),
    Fork(Option<Task>, Option<Task>),
}

/// The model a step outcome denotes.
pub open spec fn step_out_view(s: StepOut) -> StepR {
    match s {
        StepOut::Done(r) => StepR::Done(result_view(r)),
        StepOut::Next(t) => StepR::Next(task_view(t)),
        StepOut::Fork(a, b) => StepR::Fork(
            match a {
                Some(t) => Some(task_view(t)),
                None => None,
            },
            match b {
                Some(t) => Some(task_view(t)),
                None => None,
            },
        ),
    }
}

/// A deep copy of a local-variable store.
fn clone_vals(vs: &Vec<Val>) -> (r: Vec<Val>)
    ensures
        r@ == vs@,
{
    let mut r: Vec<Val> = Vec::new();
    let mut i: usize = 0;
    while i < vs.len()
        invariant
            i <= vs@.len(),
            r@ == vs@.subrange(0, i as int),
        decreases vs@.len() - i,
    {
        r.push(clone_val(&vs[i]));
        i += 1;
        proof {
            assert(r@ =~= vs@.subrange(0, i as int));
        }
    }
    proof {
        assert(r@ =~= vs@);
    }
    r
}

/// A deep copy of a register view.
fn clone_regs(vs: &Vec<Option<Val>>) -> (r: Vec<Option<Val>>)
    ensures
        r@ == vs@,
{
    let mut r: Vec<Option<Val>> = Vec::new();
    let mut i: usize = 0;
    while i < vs.len()
        invariant
            i <= vs@.len(),
            r@ == vs@.subrange(0, i as int),
        decreases vs@.len() - i,
    {
        match &vs[i] {
            Some(v) => r.push(Some(clone_val(v))),
            None => r.push(None),
        }
        i += 1;
        proof {
            assert(r@ =~= vs@.subrange(0, i as int));
        }
    }
    proof {
        assert(r@ =~= vs@);
    }
    r
}

/// A deep copy of a frame.
fn clone_frame(f: &Frame) -> (r: Frame)
    ensures
        r.pc == f.pc,
        r.locals@ == f.locals@,
        r.regs@ == f.regs@,
        r.events@ == f.events@,
        r.cond@ == f.cond@,
{
    Frame {
        pc: f.pc,
        locals: clone_vals(&f.locals),
        regs: clone_regs(&f.regs),
        events: crate::event::clone_events(&f.events),
        cond: clone_exps(&f.cond),
    }
}

/// The trace in most-recent-first order.
fn reversed_events(events: &Vec<Event>) -> (r: Vec<Event>)
    ensures
        r@ == events@.reverse(),
{
    let mut r: Vec<Event> = Vec::new();
    let mut i: usize = 0;
    while i < events.len()
        invariant
            i <= events@.len(),
            r@.len() == i,
            forall|j: int| 0 <= j < i ==> r@[j] == events@[events@.len() - 1 - j],
        decreases events@.len() - i,
    {
        r.push(clone_event(&events[events.len() - 1 - i]));
        i += 1;
    }
    proof {
        assert(r@ =~= events@.reverse());
    }
    r
}

/// Advance a task by one observable step: run the instruction at its
/// control position, completing the path, continuing, or forking at a
/// symbolic branch with each feasible arm checkpointed independently.
#[verifier::rlimit(100)]
pub fn step(prog: &Program, t: Task) -> (s: StepOut)
    ensures
        step_out_view(s) == step_spec(prog.instrs@, task_view(t)),
{
    let ghost tv = task_view(t);
    let Task { id, frame, ckpt } = t;
    let Frame { pc, locals, regs, events, cond } = frame;
    if pc >= prog.instrs.len() {
        return StepOut::Done(
            TraceResult::Path(TracePath { id, ckpt, events: reversed_events(&events), cond }),
        );
    }
    match &prog.instrs[pc] {
        Instr::End => StepOut::Done(
            TraceResult::Path(TracePath { id, ckpt, events: reversed_events(&events), cond }),
        ),
        Instr::Failure => StepOut::Done(TraceResult::Abort(id, ExecError::Failure)),
        Instr::Cycle => {
            let mut events = events;
            events.push(Event::Cycle);
            StepOut::Next(Task { id, frame: Frame { pc: pc + 1, locals, regs, events, cond }, ckpt })
        },
        Instr::Goto(g) => StepOut::Next(
            Task { id, frame: Frame { pc: *g, locals, regs, events, cond }, ckpt },
        ),
        Instr::Copy(dst, a) => match atom_val_exec(&locals, a) {
            Err(e) => StepOut::Done(TraceResult::Abort(id, e)),
            Ok(v) => if *dst < locals.len() {
                let mut locals = locals;
                locals.set(*dst, v);
                StepOut::Next(
                    Task { id, frame: Frame { pc: pc + 1, locals, regs, events, cond }, ckpt },
                )
            } else {
                StepOut::Done(TraceResult::Abort(id, ExecError::OutOfBounds))
            },
        },
        Instr::Unary(dst, op, a) => match atom_val_exec(&locals, a) {
            Err(e) => StepOut::Done(TraceResult::Abort(id, e)),
            Ok(v) => match apply_unary_exec(op, &v, &ckpt.decls) {
                Err(e) => StepOut::Done(TraceResult::Abort(id, e)),
                Ok(out) => op_dest_exec(id, pc, locals, regs, events, cond, ckpt, *dst, out),
            },
        },
        Instr::Binary(dst, op, a, b) => match atom_val_exec(&locals, a) {
            Err(e) => StepOut::Done(TraceResult::Abort(id, e)),
            Ok(va) => match atom_val_exec(&locals, b) {
                Err(e) => StepOut::Done(TraceResult::Abort(id, e)),
                Ok(vb) => match apply_binary_exec(op, &va, &vb, &ckpt.decls) {
                    Err(e) => StepOut::Done(TraceResult::Abort(id, e)),
                    Ok(out) => op_dest_exec(id, pc, locals, regs, events, cond, ckpt, *dst, out),
                },
            },
        },
        Instr::ReadReg(dst, r) => {
            if !((*r as u64) < (regs.len() as u64) && matches!(regs[*r as usize], Some(_))) {
                return StepOut::Done(TraceResult::Abort(id, ExecError::UnknownRegister));
            }
            if !(*dst < locals.len()) {
                return StepOut::Done(TraceResult::Abort(id, ExecError::OutOfBounds));
            }
            let v = match &regs[*r as usize] {
                Some(v) => clone_val(v),
                None => Val::Unit,
            };
            let mut locals = locals;
            let mut events = events;
            locals.set(*dst, clone_val(&v));
            events.push(Event::ReadReg(*r, v));
            StepOut::Next(Task { id, frame: Frame { pc: pc + 1, locals, regs, events, cond }, ckpt })
        },
        Instr::WriteReg(r, a) => match atom_val_exec(&locals, a) {
            Err(e) => StepOut::Done(TraceResult::Abort(id, e)),
            Ok(v) => {
                if !((*r as u64) < (regs.len() as u64) && matches!(regs[*r as usize], Some(_))) {
                    return StepOut::Done(TraceResult::Abort(id, ExecError::UnknownRegister));
                }
                let mut regs = regs;
                let mut events = events;
                regs.set(*r as usize, Some(clone_val(&v)));
                events.push(Event::WriteReg(*r, v));
                StepOut::Next(
                    Task { id, frame: Frame { pc: pc + 1, locals, regs, events, cond }, ckpt },
                )
            },
        },
        Instr::ReadMem { dst, addr, bytes, kind } => match atom_val_exec(&locals, addr) {
            Err(e) => StepOut::Done(TraceResult::Abort(id, e)),
            Ok(av) => {
                if !(1 <= *bytes && *bytes <= 8) {
                    return StepOut::Done(TraceResult::Abort(id, ExecError::OutOfBounds));
                }
                if !(*dst < locals.len()) {
                    return StepOut::Done(TraceResult::Abort(id, ExecError::OutOfBounds));
                }
                let mut ckpt = ckpt;
                let mut locals = locals;
                let mut events = events;
                let fresh = ckpt.decls.len();
                let ty = Ty::BitVec(8 * *bytes);
                ckpt.decls.push(ty);
                locals.set(*dst, Val::Symbolic(fresh));
                events.push(Event::Smt(EvDef::DeclareConst(fresh, ty)));
                events.push(
                    Event::ReadMem {
                        value: Val::Symbolic(fresh),
                        address: av,
                        bytes: *bytes,
                        kind: *kind,
                    },
                );
                StepOut::Next(
                    Task { id, frame: Frame { pc: pc + 1, locals, regs, events, cond }, ckpt },
                )
            },
        },
        Instr::WriteMem { addr, data, bytes } => match atom_val_exec(&locals, addr) {
            Err(e) => StepOut::Done(TraceResult::Abort(id, e)),
            Ok(av) => match atom_val_exec(&locals, data) {
                Err(e) => StepOut::Done(TraceResult::Abort(id, e)),
                Ok(dv) => {
                    let mut events = events;
                    events.push(Event::WriteMem { address: av, data: dv, bytes: *bytes });
                    StepOut::Next(
                        Task { id, frame: Frame { pc: pc + 1, locals, regs, events, cond }, ckpt },
                    )
                },
            },
        },
        Instr::Branch(a) => match atom_val_exec(&locals, a) {
            Err(e) => StepOut::Done(TraceResult::Abort(id, e)),
            Ok(av) => {
                let mut events = events;
                events.push(Event::Branch { address: av });
                StepOut::Next(
                    Task { id, frame: Frame { pc: pc + 1, locals, regs, events, cond }, ckpt },
                )
            },
        },
        Instr::Jump(g, target) => match atom_val_exec(&locals, g) {
            Err(e) => StepOut::Done(TraceResult::Abort(id, e)),
            Ok(Val::Bool(true)) => StepOut::Next(
                Task { id, frame: Frame { pc: *target, locals, regs, events, cond }, ckpt },
            ),
            Ok(Val::Bool(false)) => StepOut::Next(
                Task { id, frame: Frame { pc: pc + 1, locals, regs, events, cond }, ckpt },
            ),
            Ok(Val::Symbolic(sv)) => {
                if !(sv < ckpt.decls.len() && ckpt.decls[sv] == Ty::Bool) {
                    return StepOut::Done(TraceResult::Abort(id, ExecError::TypeMismatch));
                }
                let frame = Frame { pc, locals, regs, events, cond };
                // each arm materializes its own session from the parent
                // checkpoint, asserts its guard, and is kept only when
                // the solver confirms its path condition satisfiable
                let mut s1 = Solver::restore(&ckpt);
                s1.add_assert(SmtExp::Var(sv));
                let c1 = if s1.check_sat() == SatResult::Sat {
                    let f1 = clone_frame(&frame);
                    let mut f1 = f1;
                    f1.pc = *target;
                    f1.cond.push(SmtExp::Var(sv));
                    f1.events.push(Event::Smt(EvDef::Assert(SmtExp::Var(sv))));
                    Some(Task { id, frame: f1, ckpt: s1.checkpoint() })
                } else {
                    None
                };
                let mut s2 = Solver::restore(&ckpt);
                s2.add_assert(SmtExp::Not(Box::new(SmtExp::Var(sv))));
                let c2 = if s2.check_sat() == SatResult::Sat {
                    let mut f2 = frame;
                    f2.pc = pc + 1;
                    f2.cond.push(SmtExp::Not(Box::new(SmtExp::Var(sv))));
                    f2.events.push(
                        Event::Smt(EvDef::Assert(SmtExp::Not(Box::new(SmtExp::Var(sv))))),
                    );
                    Some(Task { id, frame: f2, ckpt: s2.checkpoint() })
                } else {
                    None
                };
                StepOut::Fork(c1, c2)
            },
            Ok(_) => StepOut::Done(TraceResult::Abort(id, ExecError::TypeMismatch)),
        },
    }
}

/// Write an operation result to its destination, executably.
fn op_dest_exec(
    id: u64,
    pc: usize,
    locals: Vec<Val>,
    regs: Vec<Option<Val>>,
    events: Vec<Event>,
    cond: Vec<SmtExp>,
    ckpt: Checkpoint,
    dst: usize,
    out: OpOut,
) -> (s: StepOut)
    requires
        pc < usize::MAX,
    ensures
        step_out_view(s) == op_dest(
            TaskR {
                id,
                pc: pc as int,
                locals: locals@,
                regs: regs@,
                events: events@,
                cond: cond@,
                decls: ckpt.decls@,
                asserts: ckpt.asserts@,
            },
            dst,
            out,
        ),
{
    if !(dst < locals.len()) {
        return StepOut::Done(TraceResult::Abort(id, ExecError::OutOfBounds));
    }
    match out {
        OpOut::Direct(v) => {
            let mut locals = locals;
            locals.set(dst, v);
            StepOut::Next(Task { id, frame: Frame { pc: pc + 1, locals, regs, events, cond }, ckpt })
        },
        OpOut::Sym(ty, e) => {
            let mut ckpt = ckpt;
            let mut locals = locals;
            let mut events = events;
            let fresh = ckpt.decls.len();
            ckpt.decls.push(ty);
            ckpt.asserts.push(SmtExp::Eq(Box::new(SmtExp::Var(fresh)), Box::new(clone_exp(&e))));
            locals.set(dst, Val::Symbolic(fresh));
            events.push(Event::Smt(EvDef::DefineConst(fresh, e)));
            StepOut::Next(Task { id, frame: Frame { pc: pc + 1, locals, regs, events, cond }, ckpt })
        },
    }
}


/// What is left of the program beyond a task's control position.
pub open spec fn remaining(instrs: Seq<Instr>, t: TaskR) -> int {
    if t.pc <= instrs.len() {
        instrs.len() - t.pc
    } else {
        0
    }
}

/// Every successor a step yields stands strictly later in the program.
proof fn lemma_step_forward(instrs: Seq<Instr>, t: TaskR)
    requires
        wf_prog(instrs),
        0 <= t.pc,
    ensures
        match step_spec(instrs, t) {
            StepR::Done(_) => true,
            StepR::Next(t2) => t.pc < t2.pc,
            StepR::Fork(a, b) => (a matches Some(t1) ==> t.pc < t1.pc) && (b matches Some(t2)
                ==> t.pc < t2.pc),
        },
{
    if 0 <= t.pc < instrs.len() {
        assert(match instrs[t.pc] {
            Instr::Jump(_, tg) => tg > t.pc,
            Instr::Goto(tg) => tg > t.pc,
            _ => true,
        });
    }
}

/// The multiset of terminal results a task's exploration tree yields:
/// its own result when it finishes, otherwise the union over the feasible
/// branch arms. This is a function of the task alone — no schedule and no
/// worker count appears in it.
pub open spec fn task_results(instrs: Seq<Instr>, t: TaskR) -> Multiset<TR>
    decreases remaining(instrs, t),
        when wf_prog(instrs) && 0 <= t.pc
    via task_results_dec
{
    match step_spec(instrs, t) {
        StepR::Done(r) => Multiset::empty().insert(r),
        StepR::Next(t2) => task_results(instrs, t2),
        StepR::Fork(a, b) => (match a {
            Some(t1) => task_results(instrs, t1),
            None => Multiset::empty(),
        }).add(
            match b {
                Some(t2) => task_results(instrs, t2),
                None => Multiset::empty(),
            },
        ),
    }
}

#[via_fn]
proof fn task_results_dec(instrs: Seq<Instr>, t: TaskR) {
    lemma_step_forward(instrs, t);
}

/// The size of a task's exploration tree.
pub open spec fn tree_size(instrs: Seq<Instr>, t: TaskR) -> nat
    decreases remaining(instrs, t),
        when wf_prog(instrs) && 0 <= t.pc
    via tree_size_dec
{
    match step_spec(instrs, t) {
        StepR::Done(_) => 1,
        StepR::Next(t2) => 1 + tree_size(instrs, t2),
        StepR::Fork(a, b) => 1 + (match a {
            Some(t1) => tree_size(instrs, t1),
            None => 0,
        }) + (match b {
            Some(t2) => tree_size(instrs, t2),
            None => 0,
        }),
    }
}

#[via_fn]
proof fn tree_size_dec(instrs: Seq<Instr>, t: TaskR) {
    lemma_step_forward(instrs, t);
}

/// The combined result multiset of a list of pending tasks.
pub open spec fn tasks_results(instrs: Seq<Instr>, ts: Seq<TaskR>) -> Multiset<TR>
    decreases ts.len(),
{
    if ts.len() == 0 {
        Multiset::empty()
    } else {
        task_results(instrs, ts[0]).add(tasks_results(instrs, ts.drop_first()))
    }
}

/// The combined tree size of a list of pending tasks.
pub open spec fn tasks_size(instrs: Seq<Instr>, ts: Seq<TaskR>) -> nat
    decreases ts.len(),
{
    if ts.len() == 0 {
        0
    } else {
        tree_size(instrs, ts[0]) + tasks_size(instrs, ts.drop_first())
    }
}

/// Removing one pending task splits the combined results accordingly.
proof fn lemma_tasks_results_remove(instrs: Seq<Instr>, ts: Seq<TaskR>, i: int)
    requires
        0 <= i < ts.len(),
    ensures
        tasks_results(instrs, ts) == task_results(instrs, ts[i]).add(
            tasks_results(instrs, ts.remove(i)),
        ),
        tasks_size(instrs, ts) == tree_size(instrs, ts[i]) + tasks_size(instrs, ts.remove(i)),
    decreases ts.len(),
{
    reveal_with_fuel(tasks_results, 3);
    reveal_with_fuel(tasks_size, 3);
    if i == 0 {
        assert(ts.remove(0) =~= ts.drop_first());
    } else {
        lemma_tasks_results_remove(instrs, ts.drop_first(), i - 1);
        assert(ts.remove(i).drop_first() =~= ts.drop_first().remove(i - 1));
        assert(ts.remove(i)[0] == ts[0]);
        assert(tasks_results(instrs, ts.remove(i)) == task_results(instrs, ts[0]).add(
            tasks_results(instrs, ts.drop_first().remove(i - 1)),
        ));
        assert(tasks_results(instrs, ts) == task_results(instrs, ts[0]).add(
            tasks_results(instrs, ts.drop_first()),
        ));
        assert(tasks_results(instrs, ts) =~= task_results(instrs, ts[i]).add(
            tasks_results(instrs, ts.remove(i)),
        ));
    }
}

/// Appending one pending task extends the combined results accordingly.
proof fn lemma_tasks_results_push(instrs: Seq<Instr>, ts: Seq<TaskR>, t: TaskR)
    ensures
        tasks_results(instrs, ts.push(t)) == tasks_results(instrs, ts).add(
            task_results(instrs, t),
        ),
        tasks_size(instrs, ts.push(t)) == tasks_size(instrs, ts) + tree_size(instrs, t),
    decreases ts.len(),
{
    reveal_with_fuel(tasks_results, 3);
    reveal_with_fuel(tasks_size, 3);
    if ts.len() == 0 {
        assert(ts.push(t)[0] == t);
        assert(ts.push(t).drop_first() =~= Seq::<TaskR>::empty());
        assert(tasks_results(instrs, ts.push(t)) =~= tasks_results(instrs, ts).add(
            task_results(instrs, t),
        ));
    } else {
        lemma_tasks_results_push(instrs, ts.drop_first(), t);
        assert(ts.push(t).drop_first() =~= ts.drop_first().push(t));
        assert(ts.push(t)[0] == ts[0]);
        assert(tasks_results(instrs, ts.push(t)) =~= tasks_results(instrs, ts).add(
            task_results(instrs, t),
        ));
    }
}

/// Explore every feasible path of the initial task, pushing each terminal
/// result (completed path or execution error). The order in which pending
/// tasks are serviced is taken from `schedule` (empty: newest first — a
/// worker runs its task to completion before taking another).
///
/// The returned multiset of results equals `task_results` of the initial
/// task, a function of the task alone: two runs with the same input give
/// the same results, and the schedule — and hence any worker count or
/// interleaving it models — cannot change the set of terminal paths, only
/// their arrival order.
#[verifier::rlimit(100)]
#[verifier::spinoff_prover]
pub fn explore(prog: &Program, init: Task, schedule: &Vec<u64>) -> (results: Vec<TraceResult>)
    requires
        wf_prog(prog.instrs@),
    ensures
        results@.map_values(|r: TraceResult| result_view(r)).to_multiset() == task_results(
            prog.instrs@,
            task_view(init),
        ),
{
    let ghost instrs = prog.instrs@;
    let ghost iv = task_view(init);
    let ghost goal = task_results(prog.instrs@, iv);
    let mut results: Vec<TraceResult> = Vec::new();
    let ghost mut rv: Seq<TR> = Seq::empty();
    let mut worklist: Vec<Task> = Vec::new();
    let ghost mut wv: Seq<TaskR> = Seq::empty();
    worklist.push(init);
    proof {
        reveal_with_fuel(tasks_results, 2);
        wv = wv.push(iv);
        assert(wv.drop_first() =~= Seq::<TaskR>::empty());
        rv.to_multiset_ensures();
        assert forall|a: TR| rv.to_multiset().count(a) == 0 by {
            assert(!rv.contains(a));
        }
        assert(rv.to_multiset() =~= Multiset::<TR>::empty());
        assert(rv.to_multiset().add(tasks_results(instrs, wv)) =~= goal);
    }
    let mut sched_at: usize = 0;
    while worklist.len() > 0
        invariant
            instrs == prog.instrs@,
            wf_prog(instrs),
            wv.len() == worklist@.len(),
            forall|i: int| 0 <= i < wv.len() ==> wv[i] == task_view(worklist@[i]),
            rv.len() == results@.len(),
            forall|i: int| 0 <= i < rv.len() ==> rv[i] == result_view(results@[i]),
            schedule@.len() > 0 ==> sched_at < schedule@.len(),
            schedule@.len() == 0 ==> sched_at == 0,
            rv.to_multiset().add(tasks_results(instrs, wv)) == goal,
        decreases tasks_size(instrs, wv),
    {
        let p: usize = if schedule.len() == 0 {
            worklist.len() - 1
        } else {
            let q = (schedule[sched_at] as usize) % worklist.len();
            sched_at = if sched_at + 1 < schedule.len() {
                sched_at + 1
            } else {
                0
            };
            q
        };
        let t = worklist.remove(p);
        let ghost tv = wv[p as int];
        proof {
            assert(task_view(t) == tv);
            lemma_tasks_results_remove(instrs, wv, p as int);
            wv = wv.remove(p as int);
        }
        let ghost before_results = tasks_results(instrs, wv);
        let ghost before_size = tasks_size(instrs, wv);
        let out = step(prog, t);
        let ghost ov = step_out_view(out);
        proof {
            assert(ov == step_spec(instrs, tv));
            assert(0 <= tv.pc);
        }
        match out {
            StepOut::Done(r) => {
                proof {
                    assert(ov == StepR::Done(result_view(r)));
                    assert(task_results(instrs, tv) == Multiset::empty().insert(result_view(r)));
                    assert(tree_size(instrs, tv) == 1);
                    let rv0 = rv;
                    rv0.to_multiset_ensures();
                    rv = rv.push(result_view(r));
                    assert(rv.to_multiset() =~= rv0.to_multiset().insert(result_view(r)));
                    assert(rv.to_multiset().add(tasks_results(instrs, wv)) =~= goal);
                }
                results.push(r);
            },
            StepOut::Next(t2) => {
                proof {
                    assert(ov == StepR::Next(task_view(t2)));
                    assert(task_results(instrs, tv) == task_results(instrs, task_view(t2)));
                    assert(tree_size(instrs, tv) == 1 + tree_size(instrs, task_view(t2)));
                    lemma_tasks_results_push(instrs, wv, task_view(t2));
                    wv = wv.push(task_view(t2));
                    assert(rv.to_multiset().add(tasks_results(instrs, wv)) =~= goal);
                }
                worklist.push(t2);
            },
            StepOut::Fork(a, b) => {
                proof {
                    assert(task_results(instrs, tv) == (match ov->Fork_0 {
                        Some(t1) => task_results(instrs, t1),
                        None => Multiset::empty(),
                    }).add(
                        match ov->Fork_1 {
                            Some(t2) => task_results(instrs, t2),
                            None => Multiset::empty(),
                        },
                    ));
                    assert(tree_size(instrs, tv) == 1 + (match ov->Fork_0 {
                        Some(t1) => tree_size(instrs, t1),
                        None => 0,
                    }) + (match ov->Fork_1 {
                        Some(t2) => tree_size(instrs, t2),
                        None => 0,
                    }));
                }
                match a {
                    Some(t1) => {
                        proof {
                            lemma_tasks_results_push(instrs, wv, task_view(t1));
                            wv = wv.push(task_view(t1));
                        }
                        worklist.push(t1);
                    },
                    None => {},
                }
                match b {
                    Some(t2) => {
                        proof {
                            lemma_tasks_results_push(instrs, wv, task_view(t2));
                            wv = wv.push(task_view(t2));
                        }
                        worklist.push(t2);
                    },
                    None => {},
                }
                proof {
                    assert(rv.to_multiset().add(tasks_results(instrs, wv)) =~= goal);
                    assert(tasks_size(instrs, wv) < before_size + tree_size(instrs, tv));
                }
            },
        }
    }
    proof {
        reveal_with_fuel(tasks_results, 1);
        assert(wv =~= Seq::<TaskR>::empty());
        assert(tasks_results(instrs, wv) =~= Multiset::<TR>::empty());
        assert(rv.to_multiset().add(Multiset::<TR>::empty()) =~= rv.to_multiset());
        assert(results@.map_values(|r: TraceResult| result_view(r)) =~= rv);
    }
    results
}

/// Appending a non-closed assertion cannot make a set refutable.
proof fn lemma_refuted_push(asserts: Seq<SmtExp>, e: SmtExp)
    requires
        !crate::smt::refuted(asserts),
        !crate::smt::closed(e),
    ensures
        !crate::smt::refuted(asserts.push(e)),
{
    if crate::smt::refuted(asserts.push(e)) {
        let i = choose|i: int|
            0 <= i < asserts.push(e).len() && crate::smt::closed(asserts.push(e)[i])
                && crate::smt::eval_exp(Seq::empty(), asserts.push(e)[i]) != crate::smt::SmtVal::Bool(
                true,
            );
        if i < asserts.len() {
            assert(asserts.push(e)[i] == asserts[i]);
            assert(crate::smt::refuted(asserts));
        } else {
            assert(asserts.push(e)[i] == e);
        }
    }
}

/// Pruning soundness: when the initial path condition is not refutable,
/// no emitted path's recorded path condition is solver-refutable — every
/// branch arm was admitted only on a satisfiable check, and the
/// definitions added between branches never introduce a closed, false
/// assertion.
#[verifier::rlimit(100)]
#[verifier::spinoff_prover]
pub proof fn lemma_pruning_soundness(instrs: Seq<Instr>, t: TaskR)
    requires
        wf_prog(instrs),
        0 <= t.pc,
        !crate::smt::refuted(t.asserts),
    ensures
        forall|p: TraceR| #[trigger]
            task_results(instrs, t).contains(TR::Path(p)) ==> !crate::smt::refuted(p.asserts),
    decreases remaining(instrs, t),
{
    reveal_with_fuel(crate::smt::closed, 3);
    lemma_step_forward(instrs, t);
    match step_spec(instrs, t) {
        StepR::Done(r) => {
            match r {
                TR::Path(p) => {
                    assert(p.asserts == t.asserts);
                },
                TR::Abort(_, _) => {},
            }
        },
        StepR::Next(t2) => {
            assert(t2.asserts == t.asserts || exists|e: SmtExp|
                !crate::smt::closed(e) && t2.asserts == t.asserts.push(e)) by {
                if 0 <= t.pc < instrs.len() {
                    match instrs[t.pc] {
                        Instr::Unary(dst, op, a) => {
                            if t2.asserts != t.asserts {
                                let fresh = t.decls.len() as usize;
                                let out = apply_unary(
                                    op,
                                    atom_val(t.locals, a)->Ok_0,
                                    t.decls,
                                )->Ok_0;
                                let e = SmtExp::Eq(
                                    Box::new(SmtExp::Var(fresh)),
                                    Box::new(out->Sym_1),
                                );
                                assert(!crate::smt::closed(e));
                                assert(t2.asserts == t.asserts.push(e));
                            }
                        },
                        Instr::Binary(dst, op, a, b) => {
                            if t2.asserts != t.asserts {
                                let fresh = t.decls.len() as usize;
                                let out = apply_binary(
                                    op,
                                    atom_val(t.locals, a)->Ok_0,
                                    atom_val(t.locals, b)->Ok_0,
                                    t.decls,
                                )->Ok_0;
                                let e = SmtExp::Eq(
                                    Box::new(SmtExp::Var(fresh)),
                                    Box::new(out->Sym_1),
                                );
                                assert(!crate::smt::closed(e));
                                assert(t2.asserts == t.asserts.push(e));
                            }
                        },
                        _ => {},
                    }
                }
            }
            if t2.asserts == t.asserts {
                lemma_pruning_soundness(instrs, t2);
            } else {
                let e = choose|e: SmtExp|
                    !crate::smt::closed(e) && t2.asserts == t.asserts.push(e);
                lemma_refuted_push(t.asserts, e);
                lemma_pruning_soundness(instrs, t2);
            }
            assert(task_results(instrs, t) == task_results(instrs, t2));
        },
        StepR::Fork(a, b) => {
            match a {
                Some(t1) => {
                    assert(spec_check_sat(t.decls, t1.asserts) == SatResult::Sat);
                    assert(!crate::smt::refuted(t1.asserts));
                    lemma_pruning_soundness(instrs, t1);
                },
                None => {},
            }
            match b {
                Some(t2) => {
                    assert(spec_check_sat(t.decls, t2.asserts) == SatResult::Sat);
                    assert(!crate::smt::refuted(t2.asserts));
                    lemma_pruning_soundness(instrs, t2);
                },
                None => {},
            }
            let ra = match a {
                Some(t1) => task_results(instrs, t1),
                None => Multiset::<TR>::empty(),
            };
            let rb = match b {
                Some(t2) => task_results(instrs, t2),
                None => Multiset::<TR>::empty(),
            };
            assert(task_results(instrs, t) == ra.add(rb));
            assert forall|p: TraceR| #[trigger]
                task_results(instrs, t).contains(TR::Path(p)) implies !crate::smt::refuted(
                p.asserts,
            ) by {
                assert(ra.count(TR::Path(p)) + rb.count(TR::Path(p)) > 0);
                if ra.count(TR::Path(p)) > 0 {
                    assert(ra.contains(TR::Path(p)));
                } else {
                    assert(rb.contains(TR::Path(p)));
                }
            }
        },
    }
}

/// Build the initial task for a semantic function: the opcode value in
/// local 0, the remaining locals unit, the given registers and checkpoint.
pub fn task_with_checkpoint(
    id: u64,
    prog: &Program,
    arg: Val,
    regs: Vec<Option<Val>>,
    ckpt: Checkpoint,
) -> (t: Task)
    requires
        prog.n_locals >= 1,
    ensures
        task_view(t) == (TaskR {
            id,
            pc: 0,
            locals: Seq::new(prog.n_locals as nat, |i: int| Val::Unit).update(0, arg),
            regs: regs@,
            events: Seq::<Event>::empty(),
            cond: Seq::<SmtExp>::empty(),
            decls: ckpt.decls@,
            asserts: ckpt.asserts@,
        }),
{
    let mut locals: Vec<Val> = Vec::new();
    let mut i: usize = 0;
    while i < prog.n_locals
        invariant
            i <= prog.n_locals,
            locals@ =~= Seq::new(i as nat, |j: int| Val::Unit),
        decreases prog.n_locals - i,
    {
        locals.push(Val::Unit);
        i += 1;
        proof {
            assert(locals@ =~= Seq::new(i as nat, |j: int| Val::Unit));
        }
    }
    locals.set(0, arg);
    proof {
        assert(locals@ =~= Seq::new(prog.n_locals as nat, |i: int| Val::Unit).update(0, arg));
    }
    Task {
        id,
        frame: Frame { pc: 0, locals, regs, events: Vec::new(), cond: Vec::new() },
        ckpt,
    }
}

} // verus!
