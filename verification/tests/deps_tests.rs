use rvord::insn::Insn;
use rvord::deps::SynDep;
use rvord::deps::SynDepKind;
use rvord::deps::SyntacticDeps;

fn calc(rd: u32, rs1: u32, rs2: u32, val: u32) -> Insn {
    Insn::Calc { rd, rs1, rs2, val }
}

fn store(rs: u32, rx: u32) -> Insn {
    Insn::Store { rs, rx }
}

#[test]
fn calc_chain_example_direct_and_indirect() {
    // A store whose address register is written by a calc chain and whose
    // data register is written directly.
    let prog = vec![
        calc(1, 0, 0, 0x200),
        calc(2, 0, 0, 0x41),
        calc(3, 0, 0, 0),
        calc(3, 2, 0, 0x42),
        store(1, 3),
    ];
    let deps = SyntacticDeps::from_program(&prog);
    assert_eq!(
        deps.direct,
        vec![
            SynDep { at: 4, on: 3, reg: 3, kind: SynDepKind::Addr },
            SynDep { at: 4, on: 0, reg: 1, kind: SynDepKind::Data },
            SynDep { at: 3, on: 1, reg: 2, kind: SynDepKind::Data },
        ],
    );
    assert_eq!(
        deps.indirect,
        vec![SynDep { at: 4, on: 1, reg: 3, kind: SynDepKind::Addr }],
    );
}

#[test]
fn analysis_is_deterministic() {
    let prog = vec![
        calc(1, 0, 0, 0x200),
        calc(2, 1, 0, 0x41),
        store(2, 1),
        Insn::Load { rd: 3, rx: 1, val: 0x41 },
    ];
    let a = SyntacticDeps::from_program(&prog);
    let b = SyntacticDeps::from_program(&prog);
    assert_eq!(a.direct, b.direct);
    assert_eq!(a.indirect, b.indirect);
}

#[test]
fn direct_edges_are_a_function_of_position_and_register() {
    // Two writers of register 1; only the nearest is recorded for each
    // reader.
    let prog = vec![
        calc(1, 0, 0, 0x10),
        calc(1, 0, 0, 0x20),
        store(1, 1),
    ];
    let deps = SyntacticDeps::from_program(&prog);
    for e1 in &deps.direct {
        for e2 in &deps.direct {
            if e1.at == e2.at && e1.reg == e2.reg {
                assert_eq!(e1.on, e2.on);
            }
        }
    }
    // Both the address and the data edge of the store point at the
    // nearest writer, position 1.
    assert_eq!(
        deps.direct,
        vec![
            SynDep { at: 2, on: 1, reg: 1, kind: SynDepKind::Addr },
            SynDep { at: 2, on: 1, reg: 1, kind: SynDepKind::Data },
        ],
    );
}

#[test]
fn register_zero_never_appears_in_edges() {
    // Register 0 is wired to zero: a "writer" of x0 and readers naming
    // x0 produce no edges at all.
    let prog = vec![
        calc(0, 0, 0, 0x99),
        store(0, 0),
        Insn::Load { rd: 0, rx: 0, val: 0 },
    ];
    let deps = SyntacticDeps::from_program(&prog);
    assert!(deps.direct.is_empty());
    assert!(deps.indirect.is_empty());
    for e in deps.direct.iter().chain(deps.indirect.iter()) {
        assert_ne!(e.reg, 0);
    }
}

#[test]
fn indirect_chain_breaks_at_non_calc() {
    // The chain store <- calc <- load must stop at the load: the load is
    // not a dependency-carrying operation.
    let prog = vec![
        calc(1, 0, 0, 0xA),
        Insn::Load { rd: 2, rx: 1, val: 0x5 },
        calc(3, 2, 0, 1),
        store(1, 3),
    ];
    let deps = SyntacticDeps::from_program(&prog);
    assert_eq!(
        deps.indirect,
        vec![SynDep { at: 3, on: 1, reg: 3, kind: SynDepKind::Addr }],
    );
}

#[test]
fn register_value_resolves_nearest_writer() {
    let prog = vec![
        calc(1, 0, 0, 0x10),
        calc(1, 0, 0, 0x20),
        store(1, 1),
    ];
    let deps = SyntacticDeps::from_program(&prog);
    // The store at 2 reads register 1; the nearest writer is position 1.
    assert_eq!(deps.register_value(&prog, 1, 2), Some(0x20));
    // Register 2 is not read at position 2.
    assert_eq!(deps.register_value(&prog, 2, 2), None);
    // Register 1 read at position 1 resolves to the writer at 0.
    // (Position 1 is a calc that does not read register 1, so nothing is
    // recorded for it.)
    assert_eq!(deps.register_value(&prog, 1, 1), None);
}

#[test]
fn unwritten_register_is_program_input() {
    // Reading a register nobody wrote is not an error: there is simply
    // no dependency and no resolved value.
    let prog = vec![store(1, 2)];
    let deps = SyntacticDeps::from_program(&prog);
    assert!(deps.direct.is_empty());
    assert_eq!(deps.register_value(&prog, 2, 0), None);
}
