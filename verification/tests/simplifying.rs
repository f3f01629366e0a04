use isla_footprint::{hide_initialization, remove_unused, Bv, EvDef, Event, SmtExp, Val};

#[test]
fn hide_initialization_drops_setup_register_events() {
    let events = vec![
        Event::WriteReg(0, Val::Concrete(Bv { len: 8, bits: 1 })),
        Event::ReadReg(1, Val::Unit),
        Event::Cycle,
        Event::WriteReg(2, Val::Concrete(Bv { len: 8, bits: 3 })),
    ];
    let out = hide_initialization(&events);
    assert_eq!(out.len(), 2);
    assert!(matches!(out[0], Event::Cycle));
    assert!(matches!(out[1], Event::WriteReg(2, _)));
}

#[test]
fn remove_unused_keeps_the_reference_closure() {
    // variable 0 feeds the register write through variable 1; variable 2
    // feeds nothing
    let events = vec![
        Event::Smt(EvDef::DeclareConst(0, isla_footprint::Ty::BitVec(8))),
        Event::Smt(EvDef::DefineConst(1, SmtExp::Bvnot(Box::new(SmtExp::Var(0))))),
        Event::Smt(EvDef::DeclareConst(2, isla_footprint::Ty::BitVec(8))),
        Event::WriteReg(0, Val::Symbolic(1)),
    ];
    let out = remove_unused(&events);
    assert_eq!(out.len(), 3);
    assert!(matches!(out[0], Event::Smt(EvDef::DeclareConst(0, _))));
    assert!(matches!(out[1], Event::Smt(EvDef::DefineConst(1, _))));
    assert!(matches!(out[2], Event::WriteReg(0, Val::Symbolic(1))));
}

#[test]
fn remove_unused_is_idempotent_on_its_output() {
    let events = vec![
        Event::Smt(EvDef::DeclareConst(0, isla_footprint::Ty::BitVec(8))),
        Event::Smt(EvDef::DeclareConst(1, isla_footprint::Ty::BitVec(8))),
        Event::ReadMem {
            value: Val::Symbolic(0),
            address: Val::Concrete(Bv { len: 32, bits: 16 }),
            bytes: 1,
            kind: 0,
        },
    ];
    let once = remove_unused(&events);
    let twice = remove_unused(&once);
    assert_eq!(once.len(), twice.len());
}
