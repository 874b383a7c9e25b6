use rvord::insn::Ann;
use rvord::insn::Insn;
use rvord::deps::SyntacticDeps;
use rvord::gmo::check_gmo_wf;
use rvord::gmo::gmo_index_of;
use rvord::gmo::sequential_gmo;
use rvord::observe::LoadObservation;
use rvord::observe::load_value_rule;
use rvord::pairing::check_sc_pairings;
use rvord::ppo::PpoEdge;
use rvord::ppo::compute_ppo;
use rvord::validate::Violation;
use rvord::validate::check_load_value_assertions;
use rvord::validate::validate_global_order;

fn calc(rd: u32, rs1: u32, rs2: u32, val: u32) -> Insn {
    Insn::Calc { rd, rs1, rs2, val }
}

fn store(rs: u32, rx: u32) -> Insn {
    Insn::Store { rs, rx }
}

fn load(rd: u32, rx: u32, val: u32) -> Insn {
    Insn::Load { rd, rx, val }
}

const Z: Ann = Ann { aq: false, rl: false };

#[test]
fn single_hart_sequential_order_accepted() {
    // One hart, the trivial order, and a load asserting exactly what the
    // nearest preceding same-address store wrote.
    let progs = vec![vec![
        calc(1, 0, 0, 0x10),
        calc(2, 0, 0, 7),
        store(2, 1),
        load(3, 1, 7),
    ]];
    let gmo = sequential_gmo(&progs);
    assert_eq!(gmo, vec![(0, 2), (0, 3)]);
    assert!(check_gmo_wf(&progs, &gmo));
    assert_eq!(validate_global_order(&progs, &gmo), Ok(()));
}

#[test]
fn load_value_mismatch_cites_the_store() {
    // The load asserts 0x42 but the nearest preceding store to the same
    // address writes 0x41: rejected, citing that store's order position.
    let progs = vec![vec![
        calc(1, 0, 0, 0x10),
        calc(2, 0, 0, 0x41),
        store(2, 1),
        load(3, 1, 0x42),
    ]];
    let gmo = sequential_gmo(&progs);
    assert_eq!(
        validate_global_order(&progs, &gmo),
        Err(Violation::LoadValueMismatch {
            hart: 0,
            prog_idx: 3,
            store_gmo: 0,
            asserted: 0x42,
            observed: 0x41,
        }),
    );
}

#[test]
fn broken_reservation_cites_atomic_pairing() {
    // Another hart's store to the reservation's address lands between
    // the paired load-reserved and store-conditional; the trace asserts
    // the store-conditional succeeds, so the order is rejected.
    let progs = vec![
        vec![
            calc(1, 0, 0, 0x10),
            Insn::Lr { rd: 2, rx: 1, ann: Z, val: 7 },
            Insn::Sc { rs: 2, rx: 1, ann: Z },
        ],
        vec![
            calc(1, 0, 0, 0x10),
            calc(2, 0, 0, 7),
            store(2, 1),
        ],
    ];
    // The other hart's store lands between the reservation pair.
    let gmo = vec![(0usize, 1usize), (1, 2), (0, 2)];
    assert!(check_gmo_wf(&progs, &gmo));
    assert_eq!(
        validate_global_order(&progs, &gmo),
        Err(Violation::AtomicPairing { hart: 0, lr: 1, sc: 2 }),
    );
    // The pairing checker itself reports the failure.
    let pairings = check_sc_pairings(&progs, &gmo, 0).unwrap();
    assert_eq!(pairings.len(), 1);
    assert_eq!((pairings[0].lr, pairings[0].sc, pairings[0].success), (1, 2, false));
}

#[test]
fn intact_reservation_accepts_and_orders_the_pair() {
    // With the conflicting store ordered after the store-conditional the
    // reservation holds; rule 8 orders the pair.
    let progs = vec![
        vec![
            calc(1, 0, 0, 0x10),
            Insn::Lr { rd: 2, rx: 1, ann: Z, val: 7 },
            Insn::Sc { rs: 2, rx: 1, ann: Z },
        ],
        vec![
            calc(1, 0, 0, 0x10),
            calc(2, 0, 0, 9),
            store(2, 1),
        ],
    ];
    let gmo = vec![(0usize, 1usize), (0, 2), (1, 2)];
    let pairings = check_sc_pairings(&progs, &gmo, 0).unwrap();
    assert_eq!((pairings[0].lr, pairings[0].sc, pairings[0].success), (1, 2, true));
    let deps = SyntacticDeps::from_program(&progs[0]);
    let ppo = compute_ppo(0, &progs, &deps, &gmo).unwrap();
    assert!(ppo.contains(&PpoEdge { before: 1, after: 2, rule: 8 }));
}

#[test]
fn inverted_same_hart_loads_are_a_malformed_order() {
    // Two same-address loads with no store between them; an order that
    // lists the second before the first breaks the per-hart program
    // order invariant and is rejected as malformed, before any rule is
    // cited. Rule 2 still derives the edge between the loads.
    let progs = vec![vec![
        calc(1, 0, 0, 0x10),
        calc(2, 0, 0, 5),
        store(2, 1),
        load(3, 1, 5),
        load(4, 1, 5),
    ]];
    let inverted = vec![(0usize, 2usize), (0, 4), (0, 3)];
    assert!(!check_gmo_wf(&progs, &inverted));
    assert_eq!(
        validate_global_order(&progs, &inverted),
        Err(Violation::MalformedOrder),
    );

    let gmo = sequential_gmo(&progs);
    let deps = SyntacticDeps::from_program(&progs[0]);
    let ppo = compute_ppo(0, &progs, &deps, &gmo).unwrap();
    assert!(ppo.contains(&PpoEdge { before: 3, after: 4, rule: 2 }));
}

#[test]
fn rules_eleven_and_twelve_never_fire() {
    let progs = vec![vec![
        calc(1, 0, 0, 0x10),
        calc(2, 0, 0, 5),
        store(2, 1),
        Insn::Fence {
            pred: rvord::insn::OrdSet { r: true, w: true },
            succ: rvord::insn::OrdSet { r: true, w: true },
        },
        Insn::Amo { rd: 3, rx: 1, rs: 2, ann: Ann { aq: true, rl: true }, load_val: 5, store_val: 5 },
        load(4, 1, 5),
    ]];
    let gmo = sequential_gmo(&progs);
    let deps = SyntacticDeps::from_program(&progs[0]);
    let ppo = compute_ppo(0, &progs, &deps, &gmo).unwrap();
    assert!(!ppo.is_empty());
    for e in &ppo {
        assert_ne!(e.rule, 11);
        assert_ne!(e.rule, 12);
    }
}

#[test]
fn validator_verdict_is_reproducible() {
    let progs = vec![vec![
        calc(1, 0, 0, 0x10),
        calc(2, 0, 0, 7),
        store(2, 1),
        load(3, 1, 8),
    ]];
    let gmo = sequential_gmo(&progs);
    let first = validate_global_order(&progs, &gmo);
    let second = validate_global_order(&progs, &gmo);
    assert_eq!(first, second);
}

#[test]
fn uninitialized_load_is_distinguished() {
    // A load with no prior store anywhere in the order.
    let progs = vec![vec![calc(1, 0, 0, 0x10), load(2, 1, 0)]];
    let gmo = sequential_gmo(&progs);
    assert_eq!(
        validate_global_order(&progs, &gmo),
        Err(Violation::UninitializedLoad { hart: 0, prog_idx: 1 }),
    );
}

#[test]
fn unresolvable_address_is_rejected() {
    // The load's address register is never written and is not x0.
    let progs = vec![vec![load(2, 1, 0)]];
    let gmo = sequential_gmo(&progs);
    assert_eq!(
        validate_global_order(&progs, &gmo),
        Err(Violation::UnresolvableValue { hart: 0, prog_idx: 0 }),
    );
}

#[test]
fn dangling_store_conditional_is_malformed() {
    let progs = vec![vec![
        calc(1, 0, 0, 0x10),
        Insn::Sc { rs: 0, rx: 1, ann: Z },
    ]];
    let gmo = sequential_gmo(&progs);
    assert_eq!(
        validate_global_order(&progs, &gmo),
        Err(Violation::DanglingSc { hart: 0, sc: 1 }),
    );
}

#[test]
fn order_well_formedness_catches_bad_entries() {
    let progs = vec![vec![calc(1, 0, 0, 0x10), store(0, 1)]];
    // A calc never appears in a global memory order.
    assert!(!check_gmo_wf(&progs, &vec![(0, 0), (0, 1)]));
    // A duplicate entry.
    assert!(!check_gmo_wf(&progs, &vec![(0, 1), (0, 1)]));
    // A missing entry.
    assert!(!check_gmo_wf(&progs, &vec![]));
    // Out of range.
    assert!(!check_gmo_wf(&progs, &vec![(1, 0)]));
    assert!(check_gmo_wf(&progs, &vec![(0, 1)]));
}

#[test]
fn load_value_rule_names_the_nearest_store() {
    // Two harts store to the same address; the load observes the nearest
    // earlier one in the order.
    let progs = vec![
        vec![
            calc(1, 0, 0, 0x10),
            calc(2, 0, 0, 0xAA),
            store(2, 1),
            load(3, 1, 0xBB),
        ],
        vec![
            calc(1, 0, 0, 0x10),
            calc(2, 0, 0, 0xBB),
            store(2, 1),
        ],
    ];
    let gmo = vec![(0usize, 2usize), (1, 2), (0, 3)];
    assert!(check_gmo_wf(&progs, &gmo));
    let g = gmo_index_of(&gmo, 0, 3).unwrap();
    assert_eq!(
        load_value_rule(&progs, &gmo, g),
        LoadObservation::Written { store_gmo: 1, value: 0xBB },
    );
    assert_eq!(check_load_value_assertions(&progs, &gmo), Ok(()));
    assert_eq!(validate_global_order(&progs, &gmo), Ok(()));
}

#[test]
fn fence_orders_across_it() {
    let progs = vec![vec![
        calc(1, 0, 0, 0x10),
        calc(2, 0, 0, 5),
        store(2, 1),
        Insn::Fence {
            pred: rvord::insn::OrdSet { r: false, w: true },
            succ: rvord::insn::OrdSet { r: true, w: false },
        },
        load(3, 1, 5),
    ]];
    let gmo = sequential_gmo(&progs);
    let deps = SyntacticDeps::from_program(&progs[0]);
    let ppo = compute_ppo(0, &progs, &deps, &gmo).unwrap();
    assert!(ppo.contains(&PpoEdge { before: 2, after: 4, rule: 4 }));
    // The fence itself is never an endpoint.
    for e in &ppo {
        assert_ne!(e.before, 3);
        assert_ne!(e.after, 3);
    }
}

#[test]
fn acquire_and_release_annotations_order() {
    let progs = vec![vec![
        calc(1, 0, 0, 0x10),
        Insn::Lr { rd: 2, rx: 1, ann: Ann { aq: true, rl: false }, val: 0 },
        Insn::Amo {
            rd: 3,
            rx: 1,
            rs: 2,
            ann: Ann { aq: false, rl: true },
            load_val: 0,
            store_val: 0,
        },
    ]];
    let gmo = sequential_gmo(&progs);
    let deps = SyntacticDeps::from_program(&progs[0]);
    let ppo = compute_ppo(0, &progs, &deps, &gmo).unwrap();
    assert!(ppo.contains(&PpoEdge { before: 1, after: 2, rule: 5 }));
    assert!(ppo.contains(&PpoEdge { before: 1, after: 2, rule: 6 }));
    assert!(ppo.contains(&PpoEdge { before: 1, after: 2, rule: 7 }));
}

#[test]
fn dependency_rules_follow_the_syntactic_edges() {
    // The store's address depends on a calc fed by the load: rule 9 for
    // the address dependency (direct and through the chain), rule 13 for
    // an address dependency of an intermediate on the load.
    let progs = vec![vec![
        calc(1, 0, 0, 0x10),
        load(2, 1, 0x20),
        calc(3, 2, 0, 0x20),
        store(1, 3),
    ]];
    let gmo = sequential_gmo(&progs);
    let deps = SyntacticDeps::from_program(&progs[0]);
    let ppo = compute_ppo(0, &progs, &deps, &gmo).unwrap();
    // load (1) -> store (3): the store's address chains through the calc
    // at 2 onto the load.
    assert!(ppo.contains(&PpoEdge { before: 1, after: 3, rule: 9 }));
}

#[test]
fn same_address_store_and_amo_observation_order() {
    // Rule 1: an earlier access to the address of a later store; rule 3:
    // a load observing exactly what an atomic wrote.
    let progs = vec![vec![
        calc(1, 0, 0, 0x10),
        Insn::Amo { rd: 2, rx: 1, rs: 0, ann: Z, load_val: 0, store_val: 5 },
        load(3, 1, 5),
        store(3, 1),
    ]];
    let gmo = sequential_gmo(&progs);
    let deps = SyntacticDeps::from_program(&progs[0]);
    let ppo = compute_ppo(0, &progs, &deps, &gmo).unwrap();
    // The atomic and the load both touch the later store's address.
    assert!(ppo.contains(&PpoEdge { before: 1, after: 3, rule: 1 }));
    assert!(ppo.contains(&PpoEdge { before: 2, after: 3, rule: 1 }));
    // The load observes the atomic's written value.
    assert!(ppo.contains(&PpoEdge { before: 1, after: 2, rule: 3 }));
}
