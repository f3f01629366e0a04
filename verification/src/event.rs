//! The trace unit: one immutable record of an observable effect during
//! execution.
//!
//! Events are appended in chronological order while a task runs; a
//! completed trace is handed to consumers most-recent-first, and every
//! consumer states the ordering it expects.

use vstd::prelude::*;

use crate::smt::SmtExp;
use crate::smt::Ty;
use crate::smt::clone_exp;
use crate::smt::exp_eq;
use crate::value::Val;
use crate::value::clone_val;
use crate::value::val_eq;

verus! {

/// A raw solver definition or assertion recorded in the trace.
#[derive(Debug)]
pub enum EvDef {
    DeclareConst(usize, Ty),
    DefineConst(usize, SmtExp),
    Assert(SmtExp),
}

/// One observable effect of execution.
#[derive(Debug)]
pub enum Event {
    /// A raw solver definition or assertion.
    Smt(EvDef),
    /// A register read: register identifier and the value read.
    ReadReg(u32, Val),
    /// A register write: register identifier and the value written.
    WriteReg(u32, Val),
    /// A memory read: value read, address expression, access width in
    /// bytes, and the read-kind tag.
    ReadMem { value: Val, address: Val, bytes: u32, kind: u32 },
    /// A memory write: address expression, data written, access width.
    WriteMem { address: Val, data: Val, bytes: u32 },
    /// A branch to a computed address.
    Branch { address: Val },
    /// The instruction-fetch marker carrying the decoded opcode value.
    Instr(Val),
    /// A cycle boundary marker.
    Cycle,
}

/// Whether the event is a memory access.
pub open spec fn is_memory(e: Event) -> bool {
    match e {
        Event::ReadMem { .. } => true,
        Event::WriteMem { .. } => true,
        _ => false,
    }
}

/// Whether the event is a memory read with the given read-kind tag.
pub open spec fn has_read_kind(e: Event, k: u32) -> bool {
    match e {
        Event::ReadMem { kind, .. } => kind == k,
        _ => false,
    }
}

/// Whether the event is a raw solver definition or assertion.
pub open spec fn is_smt(e: Event) -> bool {
    match e {
        Event::Smt(_) => true,
        _ => false,
    }
}

/// Whether the event is the instruction-fetch marker.
pub open spec fn is_instr(e: Event) -> bool {
    match e {
        Event::Instr(_) => true,
        _ => false,
    }
}

/// Whether the event is a cycle boundary.
pub open spec fn is_cycle(e: Event) -> bool {
    match e {
        Event::Cycle => true,
        _ => false,
    }
}

/// Whether the event is a register write.
pub open spec fn is_write_reg(e: Event) -> bool {
    match e {
        Event::WriteReg(..) => true,
        _ => false,
    }
}

/// Whether the event is a register read.
pub open spec fn is_read_reg(e: Event) -> bool {
    match e {
        Event::ReadReg(..) => true,
        _ => false,
    }
}

impl Event {
    /// Whether this event is a memory access.
    pub fn memory(&self) -> (r: bool)
        ensures
            r == is_memory(*self),
    {
        match self {
            Event::ReadMem { .. } => true,
            Event::WriteMem { .. } => true,
            _ => false,
        }
    }

    /// Whether this event is a memory read with read-kind `k`.
    pub fn read_kind_is(&self, k: u32) -> (r: bool)
        ensures
            r == has_read_kind(*self, k),
    {
        match self {
            Event::ReadMem { kind, .. } => *kind == k,
            _ => false,
        }
    }

    /// Whether this event is a raw solver definition or assertion.
    pub fn smt(&self) -> (r: bool)
        ensures
            r == is_smt(*self),
    {
        match self {
            Event::Smt(_) => true,
            _ => false,
        }
    }

    /// Whether this event is the instruction-fetch marker.
    pub fn instr(&self) -> (r: bool)
        ensures
            r == is_instr(*self),
    {
        match self {
            Event::Instr(_) => true,
            _ => false,
        }
    }

    /// Whether this event is a cycle boundary.
    pub fn cycle(&self) -> (r: bool)
        ensures
            r == is_cycle(*self),
    {
        match self {
            Event::Cycle => true,
            _ => false,
        }
    }

    /// Whether this event is a register write.
    pub fn write_reg(&self) -> (r: bool)
        ensures
            r == is_write_reg(*self),
    {
        match self {
            Event::WriteReg(..) => true,
            _ => false,
        }
    }

    /// Whether this event is a register read.
    pub fn read_reg(&self) -> (r: bool)
        ensures
            r == is_read_reg(*self),
    {
        match self {
            Event::ReadReg(..) => true,
            _ => false,
        }
    }
}

/// A deep copy of an event.
pub fn clone_event(e: &Event) -> (r: Event)
    ensures
        r == *e,
{
    match e {
        Event::Smt(d) => Event::Smt(
            match d {
                EvDef::DeclareConst(v, t) => EvDef::DeclareConst(*v, *t),
                EvDef::DefineConst(v, x) => EvDef::DefineConst(*v, clone_exp(x)),
                EvDef::Assert(x) => EvDef::Assert(clone_exp(x)),
            },
        ),
        Event::ReadReg(r, v) => Event::ReadReg(*r, clone_val(v)),
        Event::WriteReg(r, v) => Event::WriteReg(*r, clone_val(v)),
        Event::ReadMem { value, address, bytes, kind } => Event::ReadMem {
            value: clone_val(value),
            address: clone_val(address),
            bytes: *bytes,
            kind: *kind,
        },
        Event::WriteMem { address, data, bytes } => Event::WriteMem {
            address: clone_val(address),
            data: clone_val(data),
            bytes: *bytes,
        },
        Event::Branch { address } => Event::Branch { address: clone_val(address) },
        Event::Instr(v) => Event::Instr(clone_val(v)),
        Event::Cycle => Event::Cycle,
    }
}

/// Structural equality of events.
pub fn event_eq(a: &Event, b: &Event) -> (r: bool)
    ensures
        r <==> *a == *b,
{
    match (a, b) {
        (Event::Smt(d1), Event::Smt(d2)) => match (d1, d2) {
            (EvDef::DeclareConst(v1, t1), EvDef::DeclareConst(v2, t2)) => v1 == v2 && t1 == t2,
            (EvDef::DefineConst(v1, x1), EvDef::DefineConst(v2, x2)) => v1 == v2 && exp_eq(x1, x2),
            (EvDef::Assert(x1), EvDef::Assert(x2)) => exp_eq(x1, x2),
            _ => false,
        },
        (Event::ReadReg(r1, v1), Event::ReadReg(r2, v2)) => r1 == r2 && val_eq(v1, v2),
        (Event::WriteReg(r1, v1), Event::WriteReg(r2, v2)) => r1 == r2 && val_eq(v1, v2),
        (
            Event::ReadMem { value: value1, address: address1, bytes: bytes1, kind: kind1 },
            Event::ReadMem { value: value2, address: address2, bytes: bytes2, kind: kind2 },
        ) => bytes1 == bytes2 && kind1 == kind2 && val_eq(value1, value2) && val_eq(
            address1,
            address2,
        ),
        (
            Event::WriteMem { address: address1, data: data1, bytes: bytes1 },
            Event::WriteMem { address: address2, data: data2, bytes: bytes2 },
        ) => bytes1 == bytes2 && val_eq(address1, address2) && val_eq(data1, data2),
        (Event::Branch { address: address1 }, Event::Branch { address: address2 }) => val_eq(
            address1,
            address2,
        ),
        (Event::Instr(v1), Event::Instr(v2)) => val_eq(v1, v2),
        (Event::Cycle, Event::Cycle) => true,
        _ => false,
    }
}

/// A deep copy of an event list.
pub fn clone_events(es: &Vec<Event>) -> (r: Vec<Event>)
    ensures
        r@ == es@,
{
    let mut r: Vec<Event> = Vec::new();
    let mut i: usize = 0;
    while i < es.len()
        invariant
            i <= es@.len(),
            r@ == es@.subrange(0, i as int),
        decreases es@.len() - i,
    {
        r.push(clone_event(&es[i]));
        i += 1;
        proof {
            assert(r@ =~= es@.subrange(0, i as int));
        }
    }
    proof {
        assert(r@ =~= es@);
    }
    r
}

/// Structural equality of event lists.
pub fn events_eq(a: &Vec<Event>, b: &Vec<Event>) -> (r: bool)
    ensures
        r <==> a@ == b@,
{
    if a.len() != b.len() {
        proof {
            assert(a@ != b@);
        }
        return false;
    }
    let mut i: usize = 0;
    while i < a.len()
        invariant
            i <= a@.len(),
            a@.len() == b@.len(),
            forall|j: int| 0 <= j < i ==> a@[j] == b@[j],
        decreases a@.len() - i,
    {
        if !event_eq(&a[i], &b[i]) {
            proof {
                assert(a@ != b@);
            }
            return false;
        }
        i += 1;
    }
    proof {
        assert(a@ =~= b@);
    }
    true
}

} // verus!
