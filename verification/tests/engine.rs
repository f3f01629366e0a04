use isla_footprint::{
    explore, hex_bytes, instruction_to_string, instruction_to_val, opcode_bytes,
    task_with_checkpoint, Atom, BinOp, Bv, CExp, EncodingError, Event, Instr, InstructionSegment,
    Program, SatResult, SmtExp, Solver, TraceQueue, TraceResult, Ty, Val,
};

#[test]
fn hex_bytes_decodes_pairs() {
    let bytes = hex_bytes("1e030100").unwrap();
    assert_eq!(bytes, vec![0x1e, 0x03, 0x01, 0x00]);
}

#[test]
fn hex_bytes_rejects_odd_length() {
    assert_eq!(hex_bytes("1e0").unwrap_err(), EncodingError::OddHexLength);
}

#[test]
fn hex_bytes_rejects_bad_digit() {
    assert_eq!(hex_bytes("1g").unwrap_err(), EncodingError::BadHexDigit);
}

#[test]
fn opcode_bytes_honours_endianness() {
    let le = opcode_bytes(vec![0x1e, 0x03, 0x01, 0x00], true).unwrap();
    assert_eq!(le.len, 32);
    assert_eq!(le.bits, 0x0001031e);
    let be = opcode_bytes(vec![0x1e, 0x03, 0x01, 0x00], false).unwrap();
    assert_eq!(be.bits, 0x1e030100);
}

#[test]
fn opcode_bytes_rejects_long_opcodes() {
    assert_eq!(
        opcode_bytes(vec![0; 9], true).unwrap_err(),
        EncodingError::UnsupportedLength
    );
}

#[test]
fn checkpoint_restore_reproduces_session() {
    let mut solver = Solver::new();
    let v = solver.declare_const(Ty::Bool);
    solver.add_assert(SmtExp::Var(v));
    let ck = solver.checkpoint();
    let restored = Solver::restore(&ck);
    assert_eq!(restored.decls.len(), 1);
    assert_eq!(restored.asserts.len(), 1);
}

#[test]
fn check_sat_finds_model_for_free_bool() {
    let mut solver = Solver::new();
    let v = solver.declare_const(Ty::Bool);
    solver.add_assert(SmtExp::Var(v));
    assert_eq!(solver.check_sat(), SatResult::Sat);
}

#[test]
fn check_sat_refutes_closed_false() {
    let mut solver = Solver::new();
    solver.add_assert(SmtExp::Bool(false));
    assert_eq!(solver.check_sat(), SatResult::Unsat);
}

fn concrete_add_program() -> Program {
    // read r0, add the opcode's low bits, write r1, end
    Program {
        instrs: vec![
            Instr::Cycle,
            Instr::ReadReg(1, 0),
            Instr::Binary(2, BinOp::Bvadd, Atom::Local(1), Atom::Bits(Bv { len: 32, bits: 1 })),
            Instr::WriteReg(1, Atom::Local(2)),
            Instr::End,
        ],
        n_locals: 3,
    }
}

#[test]
fn concrete_instruction_has_one_path_with_register_write() {
    let prog = concrete_add_program();
    assert!(prog.check_wf());
    let solver = Solver::new();
    let ck = solver.checkpoint();
    let regs = vec![Some(Val::Concrete(Bv { len: 32, bits: 7 })), Some(Val::Unit)];
    let task = task_with_checkpoint(0, &prog, Val::Concrete(Bv { len: 32, bits: 0x0001031e }), regs, ck);
    let results = explore(&prog, task, &vec![]);
    assert_eq!(results.len(), 1);
    match &results[0] {
        TraceResult::Path(p) => {
            let mut writes = 0;
            let mut mems = 0;
            for e in &p.events {
                if let Event::WriteReg(r, Val::Concrete(bv)) = e {
                    writes += 1;
                    assert_eq!(*r, 1);
                    assert_eq!(bv.bits, 8);
                }
                if let Event::ReadMem { .. } | Event::WriteMem { .. } = e {
                    mems += 1;
                }
            }
            assert_eq!(writes, 1);
            assert_eq!(mems, 0);
        }
        TraceResult::Abort(_, e) => panic!("unexpected abort: {:?}", e),
    }
}

fn branching_program() -> Program {
    // branch on the symbolic boolean guard handed in as the argument
    Program {
        instrs: vec![
            Instr::Jump(Atom::Local(0), 3),
            Instr::WriteReg(0, Atom::Bits(Bv { len: 8, bits: 1 })),
            Instr::End,
            Instr::WriteReg(0, Atom::Bits(Bv { len: 8, bits: 2 })),
            Instr::End,
        ],
        n_locals: 1,
    }
}

#[test]
fn symbolic_branch_yields_two_paths_with_conjugate_conditions() {
    let prog = branching_program();
    assert!(prog.check_wf());
    let mut solver = Solver::new();
    let op = solver.declare_const(Ty::Bool);
    let ck = solver.checkpoint();
    let regs = vec![Some(Val::Unit)];
    let task = task_with_checkpoint(0, &prog, Val::Symbolic(op), regs, ck);
    let results = explore(&prog, task, &vec![]);
    assert_eq!(results.len(), 2);
    let mut pos = 0;
    let mut neg = 0;
    for r in &results {
        match r {
            TraceResult::Path(p) => {
                assert_eq!(p.cond.len(), 1);
                match &p.cond[0] {
                    SmtExp::Var(_) => pos += 1,
                    SmtExp::Not(_) => neg += 1,
                    other => panic!("unexpected condition: {:?}", other),
                }
            }
            TraceResult::Abort(_, e) => panic!("unexpected abort: {:?}", e),
        }
    }
    assert_eq!(pos, 1);
    assert_eq!(neg, 1);
}

#[test]
fn worker_schedule_does_not_change_the_result_set() {
    let prog = branching_program();
    let mut s1 = Solver::new();
    let op = s1.declare_const(Ty::Bool);
    let ck1 = s1.checkpoint();
    let t1 = task_with_checkpoint(0, &prog, Val::Symbolic(op), vec![Some(Val::Unit)], ck1);
    let a = explore(&prog, t1, &vec![]);
    let mut s2 = Solver::new();
    let op2 = s2.declare_const(Ty::Bool);
    let ck2 = s2.checkpoint();
    let t2 = task_with_checkpoint(0, &prog, Val::Symbolic(op2), vec![Some(Val::Unit)], ck2);
    let b = explore(&prog, t2, &vec![0, 0, 1, 3, 2]);
    assert_eq!(a.len(), b.len());
    let count = |rs: &Vec<TraceResult>, positive: bool| {
        rs.iter()
            .filter(|r| match r {
                TraceResult::Path(p) => matches!(p.cond[0], SmtExp::Var(_)) == positive,
                _ => false,
            })
            .count()
    };
    assert_eq!(count(&a, true), count(&b, true));
    assert_eq!(count(&a, false), count(&b, false));
}

#[test]
fn collector_receives_every_result() {
    let prog = branching_program();
    let mut s = Solver::new();
    let op = s.declare_const(Ty::Bool);
    let ck = s.checkpoint();
    let t = task_with_checkpoint(0, &prog, Val::Symbolic(op), vec![Some(Val::Unit)], ck);
    let mut q = TraceQueue::new();
    isla_footprint::run_collector(&prog, t, &vec![], &mut q);
    let mut n = 0;
    while let Some(_) = q.pop() {
        n += 1;
    }
    assert_eq!(n, 2);
}

#[test]
fn partial_instruction_constraint_is_asserted() {
    let opcode = vec![
        InstructionSegment::Concrete(Bv { len: 3, bits: 0 }),
        InstructionSegment::Symbolic("rd".to_string(), 3),
        InstructionSegment::Concrete(Bv { len: 3, bits: 1 }),
    ];
    let constraints = vec![CExp::Eq(
        Box::new(CExp::Field("rd".to_string())),
        Box::new(CExp::Bits(Bv { len: 3, bits: 2 })),
    )];
    let mut solver = Solver::new();
    let v = instruction_to_val(&opcode, &constraints, &mut solver).unwrap();
    assert!(matches!(v, Val::MixedBits(_)));
    assert_eq!(solver.decls.len(), 1);
    assert_eq!(solver.asserts.len(), 1);
    match &solver.asserts[0] {
        SmtExp::Eq(a, b) => {
            assert!(matches!(**a, SmtExp::Var(0)));
            assert!(matches!(**b, SmtExp::Bits(Bv { len: 3, bits: 2 })));
        }
        other => panic!("unexpected assert: {:?}", other),
    }
    assert_eq!(solver.check_sat(), SatResult::Sat);
}

#[test]
fn duplicate_field_width_mismatch_is_rejected() {
    let opcode = vec![
        InstructionSegment::Symbolic("rd".to_string(), 3),
        InstructionSegment::Symbolic("rd".to_string(), 4),
    ];
    let mut solver = Solver::new();
    assert_eq!(
        instruction_to_val(&opcode, &vec![], &mut solver).unwrap_err(),
        EncodingError::MixedFieldWidths
    );
}

#[test]
fn unknown_constraint_field_is_rejected() {
    let opcode = vec![
        InstructionSegment::Symbolic("rd".to_string(), 3),
        InstructionSegment::Concrete(Bv { len: 3, bits: 1 }),
    ];
    let constraints = vec![CExp::Field("rn".to_string())];
    let mut solver = Solver::new();
    assert_eq!(
        instruction_to_val(&opcode, &constraints, &mut solver).unwrap_err(),
        EncodingError::UnknownConstraintField
    );
}

#[test]
fn instruction_to_string_renders_segments() {
    let opcode = vec![
        InstructionSegment::Concrete(Bv { len: 3, bits: 2 }),
        InstructionSegment::Symbolic("rd".to_string(), 3),
    ];
    assert_eq!(instruction_to_string(&opcode), "0b010 rd ");
}
