//! The Event Simplifier: a pipeline of trace-rewriting passes, each total
//! and pure, applied to one event path (in chronological order) at a time:
//! hide-initialization, remove-unused, propagate-forwards-used-once,
//! commute-extract, and eval. The pipeline is run to a fixed point of the
//! pass sequence, so applying it to its own output changes nothing.

use vstd::prelude::*;

use crate::bitvec::Bv;
use crate::event::EvDef;
use crate::event::Event;
use crate::event::clone_event;
use crate::event::events_eq;
use crate::event::is_cycle;
use crate::event::is_read_reg;
use crate::event::is_write_reg;
use crate::smt::SmtExp;
use crate::smt::SmtVal;
use crate::smt::clone_exp;
use crate::smt::eval_exp;
use crate::smt::uses_var;
use crate::smt::uses_var_exec;
use crate::value::Segs;
use crate::value::Val;
use crate::value::ValList;

verus! {

/// Whether a runtime value mentions the solver variable `x`.
pub open spec fn val_uses(v: Val, x: usize) -> bool
    decreases v,
{
    match v {
        Val::Symbolic(s) => s == x,
        Val::MixedBits(segs) => segs_uses(*segs, x),
        Val::List(l) => list_uses(*l, x),
        _ => false,
    }
}

/// Whether a segment sequence mentions the solver variable `x`.
pub open spec fn segs_uses(s: Segs, x: usize) -> bool
    decreases s,
{
    match s {
        Segs::One(seg) => seg_uses(seg, x),
        Segs::Cons(seg, rest) => seg_uses(seg, x) || segs_uses(*rest, x),
    }
}

/// Whether one segment mentions the solver variable `x`.
pub open spec fn seg_uses(seg: crate::value::BitsSegment, x: usize) -> bool {
    match seg {
        crate::value::BitsSegment::Symbolic(s) => s == x,
        _ => false,
    }
}

/// Whether a value list mentions the solver variable `x`.
pub open spec fn list_uses(l: ValList, x: usize) -> bool
    decreases l,
{
    match l {
        ValList::Nil => false,
        ValList::Cons(v, rest) => val_uses(*v, x) || list_uses(*rest, x),
    }
}

/// Whether a value mentions `x`, executably.
pub fn val_uses_exec(v: &Val, x: usize) -> (r: bool)
    ensures
        r == val_uses(*v, x),
    decreases *v,
{
    match v {
        Val::Symbolic(s) => *s == x,
        Val::MixedBits(segs) => segs_uses_exec(segs, x),
        Val::List(l) => list_uses_exec(l, x),
        _ => false,
    }
}

/// Whether a segment sequence mentions `x`, executably.
pub fn segs_uses_exec(s: &Segs, x: usize) -> (r: bool)
    ensures
        r == segs_uses(*s, x),
    decreases *s,
{
    match s {
        Segs::One(seg) => match seg {
            crate::value::BitsSegment::Symbolic(v) => *v == x,
            _ => false,
        },
        Segs::Cons(seg, rest) => (match seg {
            crate::value::BitsSegment::Symbolic(v) => *v == x,
            _ => false,
        }) || segs_uses_exec(rest, x),
    }
}

/// Whether a value list mentions `x`, executably.
pub fn list_uses_exec(l: &ValList, x: usize) -> (r: bool)
    ensures
        r == list_uses(*l, x),
    decreases *l,
{
    match l {
        ValList::Nil => false,
        ValList::Cons(v, rest) => val_uses_exec(v, x) || list_uses_exec(rest, x),
    }
}

/// The solver variable an event declares or defines, if any.
pub open spec fn ev_def(e: Event) -> Option<usize> {
    match e {
        Event::Smt(EvDef::DeclareConst(v, _)) => Some(v),
        Event::Smt(EvDef::DefineConst(v, _)) => Some(v),
        _ => None,
    }
}

/// Whether an event mentions the solver variable `x` (in a solver
/// expression or inside one of its values).
pub open spec fn ev_uses(e: Event, x: usize) -> bool {
    match e {
        Event::Smt(EvDef::DeclareConst(_, _)) => false,
        Event::Smt(EvDef::DefineConst(_, ex)) => uses_var(ex, x),
        Event::Smt(EvDef::Assert(ex)) => uses_var(ex, x),
        Event::ReadReg(_, v) => val_uses(v, x),
        Event::WriteReg(_, v) => val_uses(v, x),
        Event::ReadMem { value, address, .. } => val_uses(value, x) || val_uses(address, x),
        Event::WriteMem { address, data, .. } => val_uses(address, x) || val_uses(data, x),
        Event::Branch { address } => val_uses(address, x),
        Event::Instr(v) => val_uses(v, x),
        Event::Cycle => false,
    }
}

/// Whether an event mentions `x`, executably.
pub fn ev_uses_exec(e: &Event, x: usize) -> (r: bool)
    ensures
        r == ev_uses(*e, x),
{
    match e {
        Event::Smt(EvDef::DeclareConst(_, _)) => false,
        Event::Smt(EvDef::DefineConst(_, ex)) => uses_var_exec(ex, x),
        Event::Smt(EvDef::Assert(ex)) => uses_var_exec(ex, x),
        Event::ReadReg(_, v) => val_uses_exec(v, x),
        Event::WriteReg(_, v) => val_uses_exec(v, x),
        Event::ReadMem { value, address, .. } => val_uses_exec(value, x) || val_uses_exec(
            address,
            x,
        ),
        Event::WriteMem { address, data, .. } => val_uses_exec(address, x) || val_uses_exec(
            data,
            x,
        ),
        Event::Branch { address } => val_uses_exec(address, x),
        Event::Instr(v) => val_uses_exec(v, x),
        Event::Cycle => false,
    }
}

/// Whether an event survives `remove_unused` on its own: everything but a
/// bare declaration or definition is of interest (memory and register
/// activity, markers, asserted constraints).
pub open spec fn is_root(e: Event) -> bool {
    ev_def(e) is None
}

/// The hide-initialization pass: drop register reads and writes that
/// happen before the first cycle boundary — they only set up architecture
/// state. `seen` says whether a cycle boundary has gone by.
pub open spec fn hide_init(es: Seq<Event>, seen: bool) -> Seq<Event>
    decreases es.len(),
{
    if es.len() == 0 {
        Seq::empty()
    } else {
        let first = es[0];
        let rest = hide_init(es.drop_first(), seen || is_cycle(first));
        if !seen && (is_read_reg(first) || is_write_reg(first)) {
            rest
        } else {
            seq![first] + rest
        }
    }
}

/// Hide-initialization, executably.
pub fn hide_initialization(events: &Vec<Event>) -> (r: Vec<Event>)
    ensures
        r@ == hide_init(events@, false),
{
    let mut out: Vec<Event> = Vec::new();
    let mut seen: bool = false;
    let mut i: usize = 0;
    proof {
        assert(events@.skip(0) =~= events@);
        assert(hide_init(events@, false) =~= out@ + hide_init(events@.skip(0), false));
    }
    while i < events.len()
        invariant
            i <= events@.len(),
            hide_init(events@, false) == out@ + hide_init(events@.skip(i as int), seen),
        decreases events@.len() - i,
    {
        let ghost pre = events@.skip(i as int);
        proof {
            assert(pre.drop_first() =~= events@.skip(i + 1));
            assert(pre[0] == events@[i as int]);
        }
        let e = &events[i];
        let keep = seen || !(e.read_reg() || e.write_reg());
        if e.cycle() {
            seen = true;
        }
        if keep {
            out.push(clone_event(e));
        }
        proof {
            assert(hide_init(events@, false) =~= out@ + hide_init(events@.skip(i + 1), seen));
        }
        i += 1;
    }
    proof {
        assert(events@.skip(events@.len() as int) =~= Seq::<Event>::empty());
        assert(hide_init(events@, false) =~= out@);
    }
    out
}

/// Hiding initialization never lengthens a path, and a path of the same
/// length came through unchanged.
pub proof fn lemma_hide_init_len(es: Seq<Event>, seen: bool)
    ensures
        hide_init(es, seen).len() <= es.len(),
        hide_init(es, seen).len() == es.len() ==> hide_init(es, seen) == es,
    decreases es.len(),
{
    if es.len() > 0 {
        lemma_hide_init_len(es.drop_first(), seen || is_cycle(es[0]));
        if hide_init(es, seen).len() == es.len() {
            assert(hide_init(es, seen) =~= es);
        }
    }
}

/// The remove-unused pass, from the back: an event is kept when it is of
/// interest on its own or defines a variable some later kept event
/// mentions; the second component is the set of variables the kept events
/// mention.
pub open spec fn ru(es: Seq<Event>) -> (Seq<Event>, Set<usize>)
    decreases es.len(),
{
    if es.len() == 0 {
        (Seq::empty(), Set::empty())
    } else {
        let r = ru(es.drop_first());
        let first = es[0];
        let keep = match ev_def(first) {
            Some(v) => r.1.contains(v),
            None => true,
        };
        if keep {
            (seq![first] + r.0, r.1.union(Set::new(|x: usize| ev_uses(first, x))))
        } else {
            (r.0, r.1)
        }
    }
}

/// The reference closure keeps at most what was there, and keeps
/// everything only when it drops nothing.
pub proof fn lemma_ru_len(es: Seq<Event>)
    ensures
        ru(es).0.len() <= es.len(),
        ru(es).0.len() == es.len() ==> ru(es).0 == es,
    decreases es.len(),
{
    if es.len() > 0 {
        lemma_ru_len(es.drop_first());
        if ru(es).0.len() == es.len() {
            assert(ru(es).0 =~= es);
        }
    }
}

/// A bound above every variable an event mentions, declares or defines —
/// except the largest machine integer, which no bound of this type can
/// fence in; it is tracked separately by the caller.
fn ev_bound(e: &Event) -> (r: usize)
    ensures
        forall|x: usize| #[trigger] ev_uses(*e, x) ==> x < r || x == usize::MAX,
        ev_def(*e) matches Some(v) ==> v < r || v == usize::MAX,
{
    let d = match e {
        Event::Smt(EvDef::DeclareConst(v, _)) => if *v < usize::MAX {
            *v + 1
        } else {
            0
        },
        Event::Smt(EvDef::DefineConst(v, _)) => if *v < usize::MAX {
            *v + 1
        } else {
            0
        },
        _ => 0,
    };
    let u = use_bound(e);
    max_usize(d, u)
}

/// A bound above every variable an expression mentions, except the
/// largest machine integer.
fn exp_bound(x: &SmtExp) -> (r: usize)
    ensures
        forall|v: usize| #[trigger] uses_var(*x, v) ==> v < r || v == usize::MAX,
    decreases *x,
{
    let q: usize = match x {
        SmtExp::Var(w) => {
            let q = if *w < usize::MAX {
                *w + 1
            } else {
                0
            };
            proof {
                assert forall|v: usize| #[trigger] uses_var(*x, v) implies v < q || v
                    == usize::MAX by {
                    assert(v == *w);
                }
            }
            q
        },
        SmtExp::Bool(_) => {
            proof {
                assert forall|v: usize| #[trigger] uses_var(*x, v) implies v < 0 || v
                    == usize::MAX by {
                    assert(!uses_var(*x, v));
                }
            }
            0
        },
        SmtExp::Bits(_) => {
            proof {
                assert forall|v: usize| #[trigger] uses_var(*x, v) implies v < 0 || v
                    == usize::MAX by {
                    assert(!uses_var(*x, v));
                }
            }
            0
        },
        SmtExp::Not(a) => {
            let q = exp_bound(a);
            proof {
                assert forall|v: usize| #[trigger] uses_var(*x, v) implies v < q || v
                    == usize::MAX by {
                    assert(uses_var(**a, v));
                }
            }
            q
        },
        SmtExp::Extract(_, _, a) => {
            let q = exp_bound(a);
            proof {
                assert forall|v: usize| #[trigger] uses_var(*x, v) implies v < q || v
                    == usize::MAX by {
                    assert(uses_var(**a, v));
                }
            }
            q
        },
        SmtExp::Bvnot(a) => {
            let q = exp_bound(a);
            proof {
                assert forall|v: usize| #[trigger] uses_var(*x, v) implies v < q || v
                    == usize::MAX by {
                    assert(uses_var(**a, v));
                }
            }
            q
        },
        SmtExp::And(a, b) => {
            let q = max_usize(exp_bound(a), exp_bound(b));
            proof {
                assert forall|v: usize| #[trigger] uses_var(*x, v) implies v < q || v
                    == usize::MAX by {
                    assert(uses_var(**a, v) || uses_var(**b, v));
                }
            }
            q
        },
        SmtExp::Or(a, b) => {
            let q = max_usize(exp_bound(a), exp_bound(b));
            proof {
                assert forall|v: usize| #[trigger] uses_var(*x, v) implies v < q || v
                    == usize::MAX by {
                    assert(uses_var(**a, v) || uses_var(**b, v));
                }
            }
            q
        },
        SmtExp::Eq(a, b) => {
            let q = max_usize(exp_bound(a), exp_bound(b));
            proof {
                assert forall|v: usize| #[trigger] uses_var(*x, v) implies v < q || v
                    == usize::MAX by {
                    assert(uses_var(**a, v) || uses_var(**b, v));
                }
            }
            q
        },
        SmtExp::Concat(a, b) => {
            let q = max_usize(exp_bound(a), exp_bound(b));
            proof {
                assert forall|v: usize| #[trigger] uses_var(*x, v) implies v < q || v
                    == usize::MAX by {
                    assert(uses_var(**a, v) || uses_var(**b, v));
                }
            }
            q
        },
        SmtExp::Bvand(a, b) => {
            let q = max_usize(exp_bound(a), exp_bound(b));
            proof {
                assert forall|v: usize| #[trigger] uses_var(*x, v) implies v < q || v
                    == usize::MAX by {
                    assert(uses_var(**a, v) || uses_var(**b, v));
                }
            }
            q
        },
        SmtExp::Bvor(a, b) => {
            let q = max_usize(exp_bound(a), exp_bound(b));
            proof {
                assert forall|v: usize| #[trigger] uses_var(*x, v) implies v < q || v
                    == usize::MAX by {
                    assert(uses_var(**a, v) || uses_var(**b, v));
                }
            }
            q
        },
        SmtExp::Bvxor(a, b) => {
            let q = max_usize(exp_bound(a), exp_bound(b));
            proof {
                assert forall|v: usize| #[trigger] uses_var(*x, v) implies v < q || v
                    == usize::MAX by {
                    assert(uses_var(**a, v) || uses_var(**b, v));
                }
            }
            q
        },
        SmtExp::Bvadd(a, b) => {
            let q = max_usize(exp_bound(a), exp_bound(b));
            proof {
                assert forall|v: usize| #[trigger] uses_var(*x, v) implies v < q || v
                    == usize::MAX by {
                    assert(uses_var(**a, v) || uses_var(**b, v));
                }
            }
            q
        },
        SmtExp::Bvsub(a, b) => {
            let q = max_usize(exp_bound(a), exp_bound(b));
            proof {
                assert forall|v: usize| #[trigger] uses_var(*x, v) implies v < q || v
                    == usize::MAX by {
                    assert(uses_var(**a, v) || uses_var(**b, v));
                }
            }
            q
        },
        SmtExp::Ite(c, a, b) => {
            let q = max_usize(exp_bound(c), max_usize(exp_bound(a), exp_bound(b)));
            proof {
                assert forall|v: usize| #[trigger] uses_var(*x, v) implies v < q || v
                    == usize::MAX by {
                    assert(uses_var(**c, v) || uses_var(**a, v) || uses_var(**b, v));
                }
            }
            q
        },
    };
    q
}

/// The larger of two machine integers.
fn max_usize(a: usize, b: usize) -> (r: usize)
    ensures
        r >= a && r >= b && (r == a || r == b),
{
    if a > b {
        a
    } else {
        b
    }
}

/// A bound above every variable a value mentions, except the largest
/// machine integer.
fn val_bound(v: &Val) -> (r: usize)
    ensures
        forall|x: usize| #[trigger] val_uses(*v, x) ==> x < r || x == usize::MAX,
    decreases *v,
{
    match v {
        Val::Symbolic(s) => {
            let q = if *s < usize::MAX {
                *s + 1
            } else {
                0
            };
            proof {
                assert forall|x: usize| #[trigger] val_uses(*v, x) implies x < q || x
                    == usize::MAX by {
                    assert(x == *s);
                }
            }
            q
        },
        Val::MixedBits(segs) => {
            let q = segs_bound(segs);
            proof {
                assert forall|x: usize| #[trigger] val_uses(*v, x) implies x < q || x
                    == usize::MAX by {
                    assert(segs_uses(**segs, x));
                }
            }
            q
        },
        Val::List(l) => {
            let q = list_bound(l);
            proof {
                assert forall|x: usize| #[trigger] val_uses(*v, x) implies x < q || x
                    == usize::MAX by {
                    assert(list_uses(**l, x));
                }
            }
            q
        },
        _ => {
            proof {
                assert forall|x: usize| #[trigger] val_uses(*v, x) implies x < 0 || x
                    == usize::MAX by {
                    assert(!val_uses(*v, x));
                }
            }
            0
        },
    }
}

/// A bound above every variable a segment sequence mentions, except the
/// largest machine integer.
fn segs_bound(s: &Segs) -> (r: usize)
    ensures
        forall|x: usize| #[trigger] segs_uses(*s, x) ==> x < r || x == usize::MAX,
    decreases *s,
{
    match s {
        Segs::One(seg) => {
            let q = match seg {
                crate::value::BitsSegment::Symbolic(v) => if *v < usize::MAX {
                    *v + 1
                } else {
                    0
                },
                _ => 0,
            };
            proof {
                assert forall|x: usize| #[trigger] segs_uses(*s, x) implies x < q || x
                    == usize::MAX by {
                    assert(seg_uses(*seg, x));
                }
            }
            q
        },
        Segs::Cons(seg, rest) => {
            let a = match seg {
                crate::value::BitsSegment::Symbolic(v) => if *v < usize::MAX {
                    *v + 1
                } else {
                    0
                },
                _ => 0,
            };
            let q = max_usize(a, segs_bound(rest));
            proof {
                assert forall|x: usize| #[trigger] segs_uses(*s, x) implies x < q || x
                    == usize::MAX by {
                    assert(seg_uses(*seg, x) || segs_uses(**rest, x));
                }
            }
            q
        },
    }
}

/// A bound above every variable a value list mentions, except the largest
/// machine integer.
fn list_bound(l: &ValList) -> (r: usize)
    ensures
        forall|x: usize| #[trigger] list_uses(*l, x) ==> x < r || x == usize::MAX,
    decreases *l,
{
    match l {
        ValList::Nil => {
            proof {
                assert forall|x: usize| #[trigger] list_uses(*l, x) implies x < 0 || x
                    == usize::MAX by {
                    assert(!list_uses(*l, x));
                }
            }
            0
        },
        ValList::Cons(v, rest) => {
            let q = max_usize(val_bound(v), list_bound(rest));
            proof {
                assert forall|x: usize| #[trigger] list_uses(*l, x) implies x < q || x
                    == usize::MAX by {
                    assert(val_uses(**v, x) || list_uses(**rest, x));
                }
            }
            q
        },
    }
}

/// A bound above every variable an event mentions, except the largest
/// machine integer.
fn use_bound(e: &Event) -> (r: usize)
    ensures
        forall|x: usize| #[trigger] ev_uses(*e, x) ==> x < r || x == usize::MAX,
{
    match e {
        Event::Smt(EvDef::DeclareConst(_, _)) => 0,
        Event::Smt(EvDef::DefineConst(_, ex)) => exp_bound(ex),
        Event::Smt(EvDef::Assert(ex)) => exp_bound(ex),
        Event::ReadReg(_, v) => val_bound(v),
        Event::WriteReg(_, v) => val_bound(v),
        Event::ReadMem { value, address, .. } => max_usize(val_bound(value), val_bound(address)),
        Event::WriteMem { address, data, .. } => max_usize(val_bound(address), val_bound(data)),
        Event::Branch { address } => val_bound(address),
        Event::Instr(v) => val_bound(v),
        Event::Cycle => 0,
    }
}

/// The remove-unused pass, executably: computes the reference closure of
/// the events of interest via one backward sweep over the path.
#[verifier::rlimit(60)]
pub fn remove_unused(events: &Vec<Event>) -> (r: Vec<Event>)
    ensures
        r@ == ru(events@).0,
{
    // a bound above every variable in the path, except the largest
    // machine integer, which gets its own flag below
    let mut bound: usize = 0;
    let mut i: usize = 0;
    while i < events.len()
        invariant
            i <= events@.len(),
            forall|j: int, x: usize|
                0 <= j < i && #[trigger] ev_uses(events@[j], x) ==> x < bound || x
                    == usize::MAX,
            forall|j: int|
                0 <= j < i ==> (ev_def(#[trigger] events@[j]) matches Some(v) ==> v < bound || v
                    == usize::MAX),
        decreases events@.len() - i,
    {
        bound = max_usize(bound, ev_bound(&events[i]));
        i += 1;
    }
    // backward sweep: kept events (newest first) and the needed set
    let mut kept_rev: Vec<Event> = Vec::new();
    let mut bm: Vec<bool> = Vec::new();
    let mut x: usize = 0;
    while x < bound
        invariant
            x <= bound,
            bm@.len() == x,
            forall|y: int| 0 <= y < x ==> bm@[y] == false,
        decreases bound - x,
    {
        bm.push(false);
        x += 1;
    }
    let mut nm: bool = false;
    let mut i: usize = events.len();
    proof {
        assert(events@.skip(events@.len() as int) =~= Seq::<Event>::empty());
    }
    while i > 0
        invariant
            i <= events@.len(),
            bm@.len() == bound,
            kept_rev@ == ru(events@.skip(i as int)).0.reverse(),
            forall|y: usize| y < bound ==> bm@[y as int] == ru(events@.skip(i as int)).1.contains(y),
            nm == ru(events@.skip(i as int)).1.contains(usize::MAX),
            forall|y: usize|
                y >= bound && y != usize::MAX ==> !ru(events@.skip(i as int)).1.contains(y),
            forall|j: int, y: usize|
                0 <= j < events@.len() && #[trigger] ev_uses(events@[j], y) ==> y < bound || y
                    == usize::MAX,
            forall|j: int|
                0 <= j < events@.len() ==> (ev_def(#[trigger] events@[j]) matches Some(v) ==> v
                    < bound || v == usize::MAX),
        decreases i,
    {
        i -= 1;
        let ghost pre = events@.skip(i as int);
        let ghost rrest = ru(events@.skip(i + 1));
        proof {
            assert(pre.drop_first() =~= events@.skip(i + 1));
            assert(pre[0] == events@[i as int]);
        }
        let e = &events[i];
        let keep = match e {
            Event::Smt(EvDef::DeclareConst(v, _)) => (*v < bound && bm[*v]) || (*v == usize::MAX
                && nm),
            Event::Smt(EvDef::DefineConst(v, _)) => (*v < bound && bm[*v]) || (*v == usize::MAX
                && nm),
            _ => true,
        };
        if keep {
            kept_rev.push(clone_event(e));
            if ev_uses_exec(&events[i], usize::MAX) {
                nm = true;
            }
            let mut y: usize = 0;
            while y < bound
                invariant
                    y <= bound,
                    bm@.len() == bound,
                    i < events@.len(),
                    forall|z: usize|
                        z < y ==> bm@[z as int] == (rrest.1.contains(z) || ev_uses(
                            events@[i as int],
                            z,
                        )),
                    forall|z: usize|
                        y <= z < bound ==> bm@[z as int] == rrest.1.contains(z),
                    rrest == ru(events@.skip(i + 1)),
                decreases bound - y,
            {
                if ev_uses_exec(&events[i], y) {
                    bm.set(y, true);
                }
                y += 1;
            }
            proof {
                assert(ru(pre).0 =~= seq![events@[i as int]] + rrest.0);
                assert(kept_rev@ =~= ru(pre).0.reverse());
            }
        } else {
            proof {
                assert(ru(pre).0 == rrest.0);
            }
        }
        proof {
            assert forall|y: usize| y < bound implies bm@[y as int] == ru(pre).1.contains(y) by {
                if keep {
                    assert(ru(pre).1 == rrest.1.union(
                        Set::new(|x: usize| ev_uses(events@[i as int], x)),
                    ));
                } else {
                    assert(ru(pre).1 == rrest.1);
                }
            }
            assert(nm == ru(pre).1.contains(usize::MAX));
            assert forall|y: usize| y >= bound && y != usize::MAX implies !ru(pre).1.contains(
                y,
            ) by {
                if keep {
                    assert(!ev_uses(events@[i as int], y));
                }
            }
        }
    }
    // reverse the kept events back into chronological order
    let mut out: Vec<Event> = Vec::new();
    let mut k: usize = kept_rev.len();
    while k > 0
        invariant
            k <= kept_rev@.len(),
            out@ =~= kept_rev@.skip(k as int).reverse(),
        decreases k,
    {
        k -= 1;
        out.push(clone_event(&kept_rev[k]));
        proof {
            assert(out@ =~= kept_rev@.skip(k as int).reverse());
        }
    }
    proof {
        assert(kept_rev@.skip(0) =~= kept_rev@);
        assert(events@.skip(0) =~= events@);
        assert(out@ =~= ru(events@).0.reverse().reverse());
        assert(ru(events@).0.reverse().reverse() =~= ru(events@).0);
    }
    out
}


/// How often an expression mentions the variable `v`.
pub open spec fn occ_exp(x: SmtExp, v: usize) -> nat
    decreases x,
{
    match x {
        SmtExp::Var(w) => if w == v {
            1
        } else {
            0
        },
        SmtExp::Bool(_) => 0,
        SmtExp::Bits(_) => 0,
        SmtExp::Not(a) => occ_exp(*a, v),
        SmtExp::And(a, b) => occ_exp(*a, v) + occ_exp(*b, v),
        SmtExp::Or(a, b) => occ_exp(*a, v) + occ_exp(*b, v),
        SmtExp::Eq(a, b) => occ_exp(*a, v) + occ_exp(*b, v),
        SmtExp::Ite(c, a, b) => occ_exp(*c, v) + occ_exp(*a, v) + occ_exp(*b, v),
        SmtExp::Extract(_, _, a) => occ_exp(*a, v),
        SmtExp::Concat(a, b) => occ_exp(*a, v) + occ_exp(*b, v),
        SmtExp::Bvnot(a) => occ_exp(*a, v),
        SmtExp::Bvand(a, b) => occ_exp(*a, v) + occ_exp(*b, v),
        SmtExp::Bvor(a, b) => occ_exp(*a, v) + occ_exp(*b, v),
        SmtExp::Bvxor(a, b) => occ_exp(*a, v) + occ_exp(*b, v),
        SmtExp::Bvadd(a, b) => occ_exp(*a, v) + occ_exp(*b, v),
        SmtExp::Bvsub(a, b) => occ_exp(*a, v) + occ_exp(*b, v),
    }
}

/// How often an event's solver expression mentions the variable `v`.
pub open spec fn ev_occ(e: Event, v: usize) -> nat {
    match e {
        Event::Smt(EvDef::DefineConst(_, ex)) => occ_exp(ex, v),
        Event::Smt(EvDef::Assert(ex)) => occ_exp(ex, v),
        _ => 0,
    }
}

/// How often a path's solver expressions mention the variable `v`.
pub open spec fn seq_occ(es: Seq<Event>, v: usize) -> nat
    decreases es.len(),
{
    if es.len() == 0 {
        0
    } else {
        ev_occ(es[0], v) + seq_occ(es.drop_first(), v)
    }
}

/// Counting distributes over appending one event.
proof fn lemma_seq_occ_push(es: Seq<Event>, e: Event, v: usize)
    ensures
        seq_occ(es.push(e), v) == seq_occ(es, v) + ev_occ(e, v),
    decreases es.len(),
{
    reveal_with_fuel(seq_occ, 2);
    if es.len() == 0 {
        assert(es.push(e)[0] == e);
        assert(es.push(e).drop_first() =~= Seq::<Event>::empty());
    } else {
        lemma_seq_occ_push(es.drop_first(), e, v);
        assert(es.push(e)[0] == es[0]);
        assert(es.push(e).drop_first() =~= es.drop_first().push(e));
    }
}

/// Whether an event mentions `v` inside one of its values (rather than in
/// a solver expression); such a mention blocks inlining.
pub open spec fn ev_val_uses(e: Event, v: usize) -> bool {
    match e {
        Event::Smt(_) => false,
        _ => ev_uses(e, v),
    }
}

/// Whether the definition at index `i` can be inlined: it defines a
/// variable whose only later mention is a single solver-expression
/// occurrence.
pub open spec fn can_inline(es: Seq<Event>, i: int) -> bool {
    &&& 0 <= i < es.len()
    &&& es[i] matches Event::Smt(EvDef::DefineConst(vd, ex)) && {
        &&& seq_occ(es.skip(i + 1), vd) == 1
        &&& !(exists|j: int| i < j < es.len() && ev_val_uses(#[trigger] es[j], vd))
        &&& !uses_var(ex, vd)
    }
}

/// The first inlinable definition at or after `i`, or -1.
pub open spec fn find_inline(es: Seq<Event>, i: int) -> int
    decreases es.len() - i,
        when i >= 0
{
    if i >= es.len() {
        -1
    } else if can_inline(es, i) {
        i
    } else {
        find_inline(es, i + 1)
    }
}

/// `e` substituted for the variable `v` in an expression.
pub open spec fn subst(x: SmtExp, v: usize, e: SmtExp) -> SmtExp
    decreases x,
{
    match x {
        SmtExp::Var(w) => if w == v {
            e
        } else {
            SmtExp::Var(w)
        },
        SmtExp::Bool(b) => SmtExp::Bool(b),
        SmtExp::Bits(bv) => SmtExp::Bits(bv),
        SmtExp::Not(a) => SmtExp::Not(Box::new(subst(*a, v, e))),
        SmtExp::And(a, b) => SmtExp::And(Box::new(subst(*a, v, e)), Box::new(subst(*b, v, e))),
        SmtExp::Or(a, b) => SmtExp::Or(Box::new(subst(*a, v, e)), Box::new(subst(*b, v, e))),
        SmtExp::Eq(a, b) => SmtExp::Eq(Box::new(subst(*a, v, e)), Box::new(subst(*b, v, e))),
        SmtExp::Ite(c, a, b) => SmtExp::Ite(
            Box::new(subst(*c, v, e)),
            Box::new(subst(*a, v, e)),
            Box::new(subst(*b, v, e)),
        ),
        SmtExp::Extract(h, l, a) => SmtExp::Extract(h, l, Box::new(subst(*a, v, e))),
        SmtExp::Concat(a, b) => SmtExp::Concat(
            Box::new(subst(*a, v, e)),
            Box::new(subst(*b, v, e)),
        ),
        SmtExp::Bvnot(a) => SmtExp::Bvnot(Box::new(subst(*a, v, e))),
        SmtExp::Bvand(a, b) => SmtExp::Bvand(Box::new(subst(*a, v, e)), Box::new(subst(*b, v, e))),
        SmtExp::Bvor(a, b) => SmtExp::Bvor(Box::new(subst(*a, v, e)), Box::new(subst(*b, v, e))),
        SmtExp::Bvxor(a, b) => SmtExp::Bvxor(Box::new(subst(*a, v, e)), Box::new(subst(*b, v, e))),
        SmtExp::Bvadd(a, b) => SmtExp::Bvadd(Box::new(subst(*a, v, e)), Box::new(subst(*b, v, e))),
        SmtExp::Bvsub(a, b) => SmtExp::Bvsub(Box::new(subst(*a, v, e)), Box::new(subst(*b, v, e))),
    }
}

/// `e` substituted for `v` in an event's solver expression.
pub open spec fn subst_ev(ev: Event, v: usize, e: SmtExp) -> Event {
    match ev {
        Event::Smt(EvDef::DefineConst(w, ex)) => Event::Smt(EvDef::DefineConst(w, subst(ex, v, e))),
        Event::Smt(EvDef::Assert(ex)) => Event::Smt(EvDef::Assert(subst(ex, v, e))),
        _ => ev,
    }
}

/// The propagate-forwards-used-once pass: the first definition whose
/// variable has exactly one later mention is removed and its expression
/// inlined at that single use site.
pub open spec fn prop_spec(es: Seq<Event>) -> Seq<Event> {
    let i = find_inline(es, 0);
    if i < 0 {
        es
    } else {
        let vd = es[i]->Smt_0->DefineConst_0;
        let ex = es[i]->Smt_0->DefineConst_1;
        Seq::new(
            (es.len() - 1) as nat,
            |k: int|
                if k < i {
                    es[k]
                } else {
                    subst_ev(es[k + 1], vd, ex)
                },
        )
    }
}

/// The pass leaves the path alone or shortens it by exactly one event.
pub proof fn lemma_prop_len(es: Seq<Event>)
    ensures
        prop_spec(es) == es || prop_spec(es).len() == es.len() - 1,
{
    lemma_find_inline_in_range(es, 0);
}

/// A found index lies in the path.
proof fn lemma_find_inline_in_range(es: Seq<Event>, i: int)
    requires
        0 <= i,
    ensures
        find_inline(es, i) == -1 || i <= find_inline(es, i) < es.len(),
    decreases es.len() - i,
{
    if i < es.len() && !can_inline(es, i) {
        lemma_find_inline_in_range(es, i + 1);
    }
}

/// The size of an expression.
pub open spec fn xsz(x: SmtExp) -> nat
    decreases x,
{
    match x {
        SmtExp::Var(_) => 1,
        SmtExp::Bool(_) => 1,
        SmtExp::Bits(_) => 1,
        SmtExp::Not(a) => 1 + xsz(*a),
        SmtExp::And(a, b) => 1 + xsz(*a) + xsz(*b),
        SmtExp::Or(a, b) => 1 + xsz(*a) + xsz(*b),
        SmtExp::Eq(a, b) => 1 + xsz(*a) + xsz(*b),
        SmtExp::Ite(c, a, b) => 1 + xsz(*c) + xsz(*a) + xsz(*b),
        SmtExp::Extract(_, _, a) => 1 + xsz(*a),
        SmtExp::Concat(a, b) => 1 + xsz(*a) + xsz(*b),
        SmtExp::Bvnot(a) => 1 + xsz(*a),
        SmtExp::Bvand(a, b) => 1 + xsz(*a) + xsz(*b),
        SmtExp::Bvor(a, b) => 1 + xsz(*a) + xsz(*b),
        SmtExp::Bvxor(a, b) => 1 + xsz(*a) + xsz(*b),
        SmtExp::Bvadd(a, b) => 1 + xsz(*a) + xsz(*b),
        SmtExp::Bvsub(a, b) => 1 + xsz(*a) + xsz(*b),
    }
}

/// The size of an event: one, plus its solver expression's size.
pub open spec fn esz(e: Event) -> nat {
    match e {
        Event::Smt(EvDef::DefineConst(_, ex)) => 1 + xsz(ex),
        Event::Smt(EvDef::Assert(ex)) => 1 + xsz(ex),
        _ => 1,
    }
}

/// The size of a path.
pub open spec fn seq_sz(es: Seq<Event>) -> nat
    decreases es.len(),
{
    if es.len() == 0 {
        0
    } else {
        esz(es[0]) + seq_sz(es.drop_first())
    }
}

/// The commute-extract pass on one expression: a bit extraction applied to
/// another extraction is normalized into a single extraction of the inner
/// operand.
pub open spec fn cx(x: SmtExp) -> SmtExp
    decreases x,
{
    match x {
        SmtExp::Var(w) => SmtExp::Var(w),
        SmtExp::Bool(b) => SmtExp::Bool(b),
        SmtExp::Bits(bv) => SmtExp::Bits(bv),
        SmtExp::Not(a) => SmtExp::Not(Box::new(cx(*a))),
        SmtExp::And(a, b) => SmtExp::And(Box::new(cx(*a)), Box::new(cx(*b))),
        SmtExp::Or(a, b) => SmtExp::Or(Box::new(cx(*a)), Box::new(cx(*b))),
        SmtExp::Eq(a, b) => SmtExp::Eq(Box::new(cx(*a)), Box::new(cx(*b))),
        SmtExp::Ite(c, a, b) => SmtExp::Ite(
            Box::new(cx(*c)),
            Box::new(cx(*a)),
            Box::new(cx(*b)),
        ),
        SmtExp::Extract(h, l, a) => {
            let a2 = cx(*a);
            match a2 {
                SmtExp::Extract(h2, l2, y) => if l <= h && h + l2 <= h2 {
                    SmtExp::Extract((h + l2) as u32, (l + l2) as u32, y)
                } else {
                    SmtExp::Extract(h, l, Box::new(a2))
                },
                _ => SmtExp::Extract(h, l, Box::new(a2)),
            }
        },
        SmtExp::Concat(a, b) => SmtExp::Concat(Box::new(cx(*a)), Box::new(cx(*b))),
        SmtExp::Bvnot(a) => SmtExp::Bvnot(Box::new(cx(*a))),
        SmtExp::Bvand(a, b) => SmtExp::Bvand(Box::new(cx(*a)), Box::new(cx(*b))),
        SmtExp::Bvor(a, b) => SmtExp::Bvor(Box::new(cx(*a)), Box::new(cx(*b))),
        SmtExp::Bvxor(a, b) => SmtExp::Bvxor(Box::new(cx(*a)), Box::new(cx(*b))),
        SmtExp::Bvadd(a, b) => SmtExp::Bvadd(Box::new(cx(*a)), Box::new(cx(*b))),
        SmtExp::Bvsub(a, b) => SmtExp::Bvsub(Box::new(cx(*a)), Box::new(cx(*b))),
    }
}

/// Normalizing extractions never grows an expression, and an expression of
/// unchanged size came through unchanged.
pub proof fn lemma_cx_size(x: SmtExp)
    ensures
        xsz(cx(x)) <= xsz(x),
        xsz(cx(x)) == xsz(x) ==> cx(x) == x,
    decreases x,
{
    match x {
        SmtExp::Not(a) => lemma_cx_size(*a),
        SmtExp::And(a, b) => {
            lemma_cx_size(*a);
            lemma_cx_size(*b);
        },
        SmtExp::Or(a, b) => {
            lemma_cx_size(*a);
            lemma_cx_size(*b);
        },
        SmtExp::Eq(a, b) => {
            lemma_cx_size(*a);
            lemma_cx_size(*b);
        },
        SmtExp::Ite(c, a, b) => {
            lemma_cx_size(*c);
            lemma_cx_size(*a);
            lemma_cx_size(*b);
        },
        SmtExp::Extract(h, l, a) => {
            lemma_cx_size(*a);
        },
        SmtExp::Concat(a, b) => {
            lemma_cx_size(*a);
            lemma_cx_size(*b);
        },
        SmtExp::Bvnot(a) => lemma_cx_size(*a),
        SmtExp::Bvand(a, b) => {
            lemma_cx_size(*a);
            lemma_cx_size(*b);
        },
        SmtExp::Bvor(a, b) => {
            lemma_cx_size(*a);
            lemma_cx_size(*b);
        },
        SmtExp::Bvxor(a, b) => {
            lemma_cx_size(*a);
            lemma_cx_size(*b);
        },
        SmtExp::Bvadd(a, b) => {
            lemma_cx_size(*a);
            lemma_cx_size(*b);
        },
        SmtExp::Bvsub(a, b) => {
            lemma_cx_size(*a);
            lemma_cx_size(*b);
        },
        _ => (),
    }
}

/// A literal expression.
pub open spec fn lit(e: SmtExp) -> bool {
    e matches SmtExp::Bool(_) || e matches SmtExp::Bits(_)
}

/// The literal expression for a value.
pub open spec fn lit_of(v: SmtVal) -> SmtExp {
    match v {
        SmtVal::Bool(b) => SmtExp::Bool(b),
        SmtVal::Bits(bv) => SmtExp::Bits(bv),
    }
}

/// The eval pass on one expression: after folding the children, an
/// application whose children are all literal is replaced by the literal
/// it evaluates to (under the solver's total semantics).
pub open spec fn fe(x: SmtExp) -> SmtExp
    decreases x,
{
    match x {
        SmtExp::Var(w) => SmtExp::Var(w),
        SmtExp::Bool(b) => SmtExp::Bool(b),
        SmtExp::Bits(bv) => SmtExp::Bits(bv),
        SmtExp::Not(a) => fe1(SmtExp::Not(Box::new(fe(*a)))),
        SmtExp::And(a, b) => fe1(SmtExp::And(Box::new(fe(*a)), Box::new(fe(*b)))),
        SmtExp::Or(a, b) => fe1(SmtExp::Or(Box::new(fe(*a)), Box::new(fe(*b)))),
        SmtExp::Eq(a, b) => fe1(SmtExp::Eq(Box::new(fe(*a)), Box::new(fe(*b)))),
        SmtExp::Ite(c, a, b) => fe1(
            SmtExp::Ite(Box::new(fe(*c)), Box::new(fe(*a)), Box::new(fe(*b))),
        ),
        SmtExp::Extract(h, l, a) => fe1(SmtExp::Extract(h, l, Box::new(fe(*a)))),
        SmtExp::Concat(a, b) => fe1(SmtExp::Concat(Box::new(fe(*a)), Box::new(fe(*b)))),
        SmtExp::Bvnot(a) => fe1(SmtExp::Bvnot(Box::new(fe(*a)))),
        SmtExp::Bvand(a, b) => fe1(SmtExp::Bvand(Box::new(fe(*a)), Box::new(fe(*b)))),
        SmtExp::Bvor(a, b) => fe1(SmtExp::Bvor(Box::new(fe(*a)), Box::new(fe(*b)))),
        SmtExp::Bvxor(a, b) => fe1(SmtExp::Bvxor(Box::new(fe(*a)), Box::new(fe(*b)))),
        SmtExp::Bvadd(a, b) => fe1(SmtExp::Bvadd(Box::new(fe(*a)), Box::new(fe(*b)))),
        SmtExp::Bvsub(a, b) => fe1(SmtExp::Bvsub(Box::new(fe(*a)), Box::new(fe(*b)))),
    }
}

/// Fold the top application when its children are all literal.
pub open spec fn fe1(x: SmtExp) -> SmtExp {
    let foldable = match x {
        SmtExp::Not(a) => lit(*a),
        SmtExp::And(a, b) => lit(*a) && lit(*b),
        SmtExp::Or(a, b) => lit(*a) && lit(*b),
        SmtExp::Eq(a, b) => lit(*a) && lit(*b),
        SmtExp::Ite(c, a, b) => lit(*c) && lit(*a) && lit(*b),
        SmtExp::Extract(_, _, a) => lit(*a),
        SmtExp::Concat(a, b) => lit(*a) && lit(*b),
        SmtExp::Bvnot(a) => lit(*a),
        SmtExp::Bvand(a, b) => lit(*a) && lit(*b),
        SmtExp::Bvor(a, b) => lit(*a) && lit(*b),
        SmtExp::Bvxor(a, b) => lit(*a) && lit(*b),
        SmtExp::Bvadd(a, b) => lit(*a) && lit(*b),
        SmtExp::Bvsub(a, b) => lit(*a) && lit(*b),
        _ => false,
    };
    if foldable {
        lit_of(eval_exp(Seq::empty(), x))
    } else {
        x
    }
}

/// Constant folding never grows an expression, and an expression of
/// unchanged size came through unchanged.
pub proof fn lemma_fe_size(x: SmtExp)
    ensures
        xsz(fe(x)) <= xsz(x),
        xsz(fe(x)) == xsz(x) ==> fe(x) == x,
    decreases x,
{
    match x {
        SmtExp::Not(a) => lemma_fe_size(*a),
        SmtExp::And(a, b) => {
            lemma_fe_size(*a);
            lemma_fe_size(*b);
        },
        SmtExp::Or(a, b) => {
            lemma_fe_size(*a);
            lemma_fe_size(*b);
        },
        SmtExp::Eq(a, b) => {
            lemma_fe_size(*a);
            lemma_fe_size(*b);
        },
        SmtExp::Ite(c, a, b) => {
            lemma_fe_size(*c);
            lemma_fe_size(*a);
            lemma_fe_size(*b);
        },
        SmtExp::Extract(h, l, a) => lemma_fe_size(*a),
        SmtExp::Concat(a, b) => {
            lemma_fe_size(*a);
            lemma_fe_size(*b);
        },
        SmtExp::Bvnot(a) => lemma_fe_size(*a),
        SmtExp::Bvand(a, b) => {
            lemma_fe_size(*a);
            lemma_fe_size(*b);
        },
        SmtExp::Bvor(a, b) => {
            lemma_fe_size(*a);
            lemma_fe_size(*b);
        },
        SmtExp::Bvxor(a, b) => {
            lemma_fe_size(*a);
            lemma_fe_size(*b);
        },
        SmtExp::Bvadd(a, b) => {
            lemma_fe_size(*a);
            lemma_fe_size(*b);
        },
        SmtExp::Bvsub(a, b) => {
            lemma_fe_size(*a);
            lemma_fe_size(*b);
        },
        _ => (),
    }
}

/// One expression rewrite applied to an event's solver expression.
pub open spec fn map_ev(e: Event, which: bool) -> Event {
    match e {
        Event::Smt(EvDef::DefineConst(w, ex)) => Event::Smt(
            EvDef::DefineConst(
                w,
                if which {
                    cx(ex)
                } else {
                    fe(ex)
                },
            ),
        ),
        Event::Smt(EvDef::Assert(ex)) => Event::Smt(
            EvDef::Assert(
                if which {
                    cx(ex)
                } else {
                    fe(ex)
                },
            ),
        ),
        _ => e,
    }
}

/// An expression rewrite applied across a path.
pub open spec fn map_seq(es: Seq<Event>, which: bool) -> Seq<Event>
    decreases es.len(),
{
    if es.len() == 0 {
        Seq::empty()
    } else {
        seq![map_ev(es[0], which)] + map_seq(es.drop_first(), which)
    }
}

/// One rewritten event never grows, and an event of unchanged size came
/// through unchanged.
proof fn lemma_map_ev_size(e: Event, which: bool)
    ensures
        esz(map_ev(e, which)) <= esz(e),
        esz(map_ev(e, which)) == esz(e) ==> map_ev(e, which) == e,
{
    match e {
        Event::Smt(EvDef::DefineConst(w, ex)) => {
            if which {
                lemma_cx_size(ex);
            } else {
                lemma_fe_size(ex);
            }
        },
        Event::Smt(EvDef::Assert(ex)) => {
            if which {
                lemma_cx_size(ex);
            } else {
                lemma_fe_size(ex);
            }
        },
        _ => (),
    }
}

/// An expression rewrite never grows a path, and a path of unchanged size
/// came through unchanged.
pub proof fn lemma_map_seq_size(es: Seq<Event>, which: bool)
    ensures
        map_seq(es, which).len() == es.len(),
        seq_sz(map_seq(es, which)) <= seq_sz(es),
        seq_sz(map_seq(es, which)) == seq_sz(es) ==> map_seq(es, which) == es,
    decreases es.len(),
{
    if es.len() > 0 {
        let tail = es.drop_first();
        lemma_map_seq_size(tail, which);
        lemma_map_ev_size(es[0], which);
        assert(map_seq(es, which)[0] == map_ev(es[0], which));
        assert(map_seq(es, which).drop_first() =~= map_seq(tail, which));
        assert(seq_sz(map_seq(es, which)) == esz(map_ev(es[0], which)) + seq_sz(
            map_seq(tail, which),
        ));
        if seq_sz(map_seq(es, which)) == seq_sz(es) {
            assert(map_ev(es[0], which) == es[0]);
            assert(map_seq(tail, which) == tail);
            assert(map_seq(es, which) =~= es);
        }
    } else {
        assert(map_seq(es, which) =~= es);
    }
}

/// One round of the pass sequence: hide-initialization, remove-unused,
/// propagate-forwards-used-once, commute-extract, eval.
pub open spec fn round_spec(es: Seq<Event>) -> Seq<Event> {
    map_seq(map_seq(prop_spec(ru(hide_init(es, false)).0), true), false)
}

/// A round that changes its path strictly shrinks it: first in event
/// count, else in total expression size.
pub proof fn lemma_round_decreases(es: Seq<Event>)
    ensures
        round_spec(es) == es || round_spec(es).len() < es.len() || (round_spec(es).len()
            == es.len() && seq_sz(round_spec(es)) < seq_sz(es)),
{
    let a = hide_init(es, false);
    let b = ru(a).0;
    let c = prop_spec(b);
    let d = map_seq(c, true);
    let e = map_seq(d, false);
    lemma_hide_init_len(es, false);
    lemma_ru_len(a);
    lemma_prop_len(b);
    lemma_map_seq_size(c, true);
    lemma_map_seq_size(d, false);
    if e != es && e.len() == es.len() {
        assert(a == es);
        assert(b == a);
        assert(c == b);
        if seq_sz(e) == seq_sz(es) {
            assert(seq_sz(d) == seq_sz(c));
            assert(d == c);
            assert(e == d);
            assert(false);
        }
    }
}

/// The Event Simplifier pipeline: the pass sequence applied until it
/// changes nothing more.
pub open spec fn pipeline_spec(es: Seq<Event>) -> Seq<Event>
    decreases es.len(), seq_sz(es),
        via pipeline_dec
{
    if round_spec(es) == es {
        es
    } else {
        pipeline_spec(round_spec(es))
    }
}

#[via_fn]
proof fn pipeline_dec(es: Seq<Event>) {
    lemma_round_decreases(es);
}

/// The pipeline's output is a fixed point of the pass sequence.
pub proof fn lemma_pipeline_fixpoint(es: Seq<Event>)
    ensures
        round_spec(pipeline_spec(es)) == pipeline_spec(es),
    decreases es.len(), seq_sz(es),
{
    lemma_round_decreases(es);
    if round_spec(es) != es {
        lemma_pipeline_fixpoint(round_spec(es));
    }
}

/// Simplifier idempotence: applying the pipeline to an already-simplified
/// path yields an identical path.
pub proof fn lemma_pipeline_idempotent(es: Seq<Event>)
    ensures
        pipeline_spec(pipeline_spec(es)) == pipeline_spec(es),
{
    lemma_pipeline_fixpoint(es);
}

} // verus!
