//! Symbolic footprint analysis for machine instructions.
//!
//! Given an instruction encoding (concrete, hex, or partially symbolic with
//! named bitfields), the library symbolically executes the instruction's
//! semantics, explores every feasible control path under the guidance of a
//! checkpointed solver session, and records each path as an event trace;
//! trace-simplification passes can then reduce a path to its
//! instruction-caused effects. The exploration requires semantics whose
//! jumps only move forward (`Program::check_wf` decides this), so every
//! exploration is a finite tree.

use vstd::prelude::*;

mod bitvec;
mod collector;
mod event;
mod exec;
mod lexer;
mod opcode;
mod simplify;
mod smt;
mod value;

pub use bitvec::Bv;
pub use opcode::EncodingError;
pub use opcode::InstructionSegment;
pub use opcode::CExp;
pub use opcode::hex_bytes;
pub use opcode::instruction_to_val;
pub use opcode::instruction_to_string;
pub use opcode::opcode_bytes;
pub use event::EvDef;
pub use event::Event;
pub use exec::Atom;
pub use exec::BinOp;
pub use exec::ExecError;
pub use exec::Frame;
pub use exec::Instr;
pub use exec::Program;
pub use exec::Task;
pub use exec::TracePath;
pub use exec::TraceResult;
pub use exec::UnOp;
pub use smt::Checkpoint;
pub use smt::SatResult;
pub use smt::SmtExp;
pub use smt::SmtVal;
pub use smt::Solver;
pub use smt::Ty;
pub use collector::TraceQueue;
pub use collector::run_collector;
pub use exec::explore;
pub use exec::task_with_checkpoint;
pub use lexer::Keyword;
pub use lexer::LexError;
pub use lexer::Lexer;
pub use lexer::Tok;
pub use lexer::keywords;
pub use simplify::hide_initialization;
pub use simplify::lemma_pipeline_idempotent;
pub use simplify::remove_unused;
pub use value::BitsSegment;
pub use value::Segs;
pub use value::Val;
pub use value::ValList;

verus! {

} // verus!
