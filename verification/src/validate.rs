//! The global order validator.
//!
//! Given all harts' programs and a candidate global memory order it
//! checks, in this sequence: that the order is well-formed; that every
//! `Sc` has a paired `Lr` whose reservation held; that every derived
//! preserved-program-order edge is respected by the order; and that
//! every load observes exactly the value it asserts. The first violated
//! constraint is reported, with its rule number, positions and values;
//! consistency violations are the validator's ordinary, first-class
//! output, not errors, and a caller may try the next candidate order.
//!
//! The preserved-program-order relation is checked as derived, without
//! taking its transitive closure: the order assigns every memory
//! operation a position in a single total order, so once every base edge
//! is respected, any edge obtained by composing base edges is respected
//! too (`lemma_closure_respected`); closing the relation first could not
//! change the verdict.

use vstd::prelude::*;
use crate::insn::Insn;
use crate::deps::SyntacticDeps;
use crate::gmo::gmo_wf;
use crate::gmo::gmo_covers;
use crate::gmo::gmo_entry_valid;
use crate::gmo::gmo_position;
use crate::gmo::gmo_index_of;
use crate::gmo::lemma_gmo_position;
use crate::gmo::check_gmo_wf;
use crate::gmo::progs_view;
use crate::observe::LoadObservation;
use crate::observe::spec_load_value_rule;
use crate::observe::load_value_rule;
use crate::pairing::ScPairing;
use crate::pairing::spec_check_sc_pairings;
use crate::pairing::check_sc_pairings;
use crate::ppo::PpoEdge;
use crate::ppo::spec_ppo_edges;
use crate::ppo::spec_compute_ppo;
use crate::ppo::compute_ppo;
use crate::ppo::lemma_ppo_edges_shape;
use crate::resolve::spec_asserted_value;
use crate::resolve::asserted_value;

verus! {

/// The first constraint a rejected order violates, with enough context
/// to drive diagnostics.
#[derive(Clone, Copy, Debug, PartialEq, Eq, Structural)]
pub enum Violation {
    /// The order is not well-formed: an entry names a missing or
    /// non-memory operation, an operation is missing or duplicated, or
    /// one hart's entries break program order.
    MalformedOrder,
    /// The `Sc` at `sc` of hart `hart` has no preceding `Lr`: a
    /// malformed trace.
    DanglingSc { hart: usize, sc: usize },
    /// The pairing of the `Sc` at `sc` with the `Lr` at `lr` fails under
    /// this order, while the trace asserts every `Sc` succeeds.
    AtomicPairing { hart: usize, lr: usize, sc: usize },
    /// The order places `after` before `before`, violating the edge rule
    /// `rule` derived for hart `hart`.
    PpoViolated { hart: usize, before: usize, after: usize, rule: u32 },
    /// The load at `prog_idx` of hart `hart` asserts `asserted` but the
    /// nearest conflicting store (at order position `store_gmo`) writes
    /// `observed`.
    LoadValueMismatch { hart: usize, prog_idx: usize, store_gmo: usize, asserted: u32, observed: u32 },
    /// The load at `prog_idx` of hart `hart` has no conflicting store
    /// anywhere before it in the order: a distinguished uninitialized
    /// read, whose expected value is a policy matter.
    UninitializedLoad { hart: usize, prog_idx: usize },
    /// An address or store value needed by the load at `prog_idx` of
    /// hart `hart` has no preceding writer: a malformed trace.
    UnresolvableValue { hart: usize, prog_idx: usize },
}

/// The first load-value violation at order position `g` or later.
pub open spec fn spec_load_viol_from(
    progs: Seq<Seq<Insn>>,
    gmo: Seq<(usize, usize)>,
    g: int,
) -> Option<Violation>
    decreases gmo.len() - g,
{
    if g < 0 || g >= gmo.len() {
        None
    } else {
        let h = gmo[g].0;
        let p = gmo[g].1;
        if progs[h as int][p as int].spec_is_load() {
            match spec_load_value_rule(progs, gmo, g) {
                LoadObservation::Unresolvable => Some(
                    Violation::UnresolvableValue { hart: h, prog_idx: p },
                ),
                LoadObservation::Uninitialized => Some(
                    Violation::UninitializedLoad { hart: h, prog_idx: p },
                ),
                LoadObservation::Written { store_gmo, value } => {
                    if spec_asserted_value(progs[h as int][p as int]) == Some(value) {
                        spec_load_viol_from(progs, gmo, g + 1)
                    } else {
                        Some(Violation::LoadValueMismatch {
                            hart: h,
                            prog_idx: p,
                            store_gmo,
                            asserted: spec_asserted_value(progs[h as int][p as int])->Some_0,
                            observed: value,
                        })
                    }
                },
            }
        } else {
            spec_load_viol_from(progs, gmo, g + 1)
        }
    }
}

/// The first failed pairing in one hart's pairing report, from index `k`.
pub open spec fn spec_first_failed_pairing(
    prs: Seq<ScPairing>,
    h: int,
    k: int,
) -> Option<Violation>
    decreases prs.len() - k,
{
    if k < 0 || k >= prs.len() {
        None
    } else if !prs[k].success {
        Some(Violation::AtomicPairing { hart: h as usize, lr: prs[k].lr, sc: prs[k].sc })
    } else {
        spec_first_failed_pairing(prs, h, k + 1)
    }
}

/// The pairing violation of one hart, if any: a dangling `Sc`, or the
/// first failed pairing.
pub open spec fn spec_pairing_viol_hart(
    progs: Seq<Seq<Insn>>,
    gmo: Seq<(usize, usize)>,
    h: int,
) -> Option<Violation> {
    match spec_check_sc_pairings(progs, gmo, h) {
        Err(p) => Some(Violation::DanglingSc { hart: h as usize, sc: p }),
        Ok(prs) => spec_first_failed_pairing(prs, h, 0),
    }
}

/// The first pairing violation over harts `h` and later.
pub open spec fn spec_pairing_viol_from(
    progs: Seq<Seq<Insn>>,
    gmo: Seq<(usize, usize)>,
    h: int,
) -> Option<Violation>
    decreases progs.len() - h,
{
    if h < 0 || h >= progs.len() {
        None
    } else {
        match spec_pairing_viol_hart(progs, gmo, h) {
            Some(v) => Some(v),
            None => spec_pairing_viol_from(progs, gmo, h + 1),
        }
    }
}

/// The first edge of one hart's relation, from index `k`, that the
/// order does not respect.
pub open spec fn spec_ppo_viol_in(
    gmo: Seq<(usize, usize)>,
    h: int,
    edges: Seq<PpoEdge>,
    k: int,
) -> Option<Violation>
    decreases edges.len() - k,
{
    if k < 0 || k >= edges.len() {
        None
    } else {
        let e = edges[k];
        if gmo_position(gmo, h, e.before as int) < gmo_position(gmo, h, e.after as int) {
            spec_ppo_viol_in(gmo, h, edges, k + 1)
        } else {
            Some(Violation::PpoViolated {
                hart: h as usize,
                before: e.before,
                after: e.after,
                rule: e.rule,
            })
        }
    }
}

/// The first violated preserved-program-order edge over harts `h` and
/// later.
pub open spec fn spec_ppo_viol_from(
    progs: Seq<Seq<Insn>>,
    gmo: Seq<(usize, usize)>,
    h: int,
) -> Option<Violation>
    decreases progs.len() - h,
{
    if h < 0 || h >= progs.len() {
        None
    } else {
        match spec_ppo_viol_in(gmo, h, spec_ppo_edges(progs, gmo, h), 0) {
            Some(v) => Some(v),
            None => spec_ppo_viol_from(progs, gmo, h + 1),
        }
    }
}

/// What the validator answers. `Ok` accepts the order as a legal
/// execution; `Err` rejects it with the first violated constraint.
pub open spec fn spec_validate(
    progs: Seq<Seq<Insn>>,
    gmo: Seq<(usize, usize)>,
) -> Result<(), Violation> {
    if !gmo_wf(progs, gmo) {
        Err(Violation::MalformedOrder)
    } else {
        match spec_pairing_viol_from(progs, gmo, 0) {
            Some(v) => Err(v),
            None => match spec_ppo_viol_from(progs, gmo, 0) {
                Some(v) => Err(v),
                None => match spec_load_viol_from(progs, gmo, 0) {
                    Some(v) => Err(v),
                    None => Ok(()),
                },
            },
        }
    }
}

/// Checks the literal value asserted by every load-like operation, in
/// ascending order position, against the value the load value rule
/// computes for it; the first mismatch, uninitialized read or
/// unresolvable value rejects the order.
pub fn check_load_value_assertions(
    progs: &Vec<Vec<Insn>>,
    gmo: &Vec<(usize, usize)>,
) -> (r: Result<(), Violation>)
    requires
        gmo_wf(progs_view(progs), gmo@),
    ensures
        match r {
            Ok(_) => spec_load_viol_from(progs_view(progs), gmo@, 0) is None,
            Err(v) => spec_load_viol_from(progs_view(progs), gmo@, 0) == Some(v),
        },
{
    let ghost pv = progs_view(progs);
    let mut g: usize = 0;
    while g < gmo.len()
        invariant
            g <= gmo@.len(),
            pv == progs_view(progs),
            gmo_wf(pv, gmo@),
            spec_load_viol_from(pv, gmo@, 0) == spec_load_viol_from(pv, gmo@, g as int),
        decreases gmo@.len() - g,
    {
        let (h, p) = gmo[g];
        proof {
            assert(gmo_entry_valid(pv, gmo@[g as int]));
            assert(pv[h as int] == progs@[h as int]@);
        }
        if progs[h][p].is_load() {
            let obs = load_value_rule(progs, gmo, g);
            match obs {
                LoadObservation::Unresolvable => {
                    return Err(Violation::UnresolvableValue { hart: h, prog_idx: p });
                },
                LoadObservation::Uninitialized => {
                    return Err(Violation::UninitializedLoad { hart: h, prog_idx: p });
                },
                LoadObservation::Written { store_gmo, value } => {
                    let asserted = match asserted_value(&progs[h][p]) {
                        Some(x) => x,
                        None => {
                            proof {
                                assert(false);
                            }
                            0
                        },
                    };
                    if asserted != value {
                        return Err(Violation::LoadValueMismatch {
                            hart: h,
                            prog_idx: p,
                            store_gmo,
                            asserted,
                            observed: value,
                        });
                    }
                },
            }
        }
        proof {
            assert(spec_load_viol_from(pv, gmo@, g as int)
                == spec_load_viol_from(pv, gmo@, g + 1));
        }
        g = g + 1;
    }
    Ok(())
}

/// Validates a candidate global memory order against all harts'
/// programs: well-formedness, atomic pairing, the preserved program
/// order of every hart, and every load value assertion, in that
/// sequence. `Ok` accepts; `Err` rejects with the first violated
/// constraint, deterministically.
pub fn validate_global_order(
    progs: &Vec<Vec<Insn>>,
    gmo: &Vec<(usize, usize)>,
) -> (r: Result<(), Violation>)
    ensures
        r == spec_validate(progs_view(progs), gmo@),
{
    let ghost pv = progs_view(progs);
    if !check_gmo_wf(progs, gmo) {
        return Err(Violation::MalformedOrder);
    }

    let mut h: usize = 0;
    while h < progs.len()
        invariant
            h <= progs@.len(),
            pv == progs_view(progs),
            gmo_wf(pv, gmo@),
            spec_pairing_viol_from(pv, gmo@, 0) == spec_pairing_viol_from(pv, gmo@, h as int),
        decreases progs@.len() - h,
    {
        match check_sc_pairings(progs, gmo, h) {
            Err(p) => {
                return Err(Violation::DanglingSc { hart: h, sc: p });
            },
            Ok(prs) => {
                let mut k: usize = 0;
                while k < prs.len()
                    invariant
                        k <= prs@.len(),
                        (h as int) < pv.len(),
                        pv == progs_view(progs),
                        gmo_wf(pv, gmo@),
                        spec_check_sc_pairings(pv, gmo@, h as int)
                            == Ok::<Seq<ScPairing>, usize>(prs@),
                        spec_pairing_viol_from(pv, gmo@, 0)
                            == spec_pairing_viol_from(pv, gmo@, h as int),
                        spec_first_failed_pairing(prs@, h as int, 0)
                            == spec_first_failed_pairing(prs@, h as int, k as int),
                    decreases prs@.len() - k,
                {
                    if !prs[k].success {
                        let v = Violation::AtomicPairing {
                            hart: h,
                            lr: prs[k].lr,
                            sc: prs[k].sc,
                        };
                        proof {
                            assert(spec_first_failed_pairing(prs@, h as int, k as int)
                                == Some(v));
                            assert(spec_pairing_viol_hart(pv, gmo@, h as int) == Some(v));
                            assert(spec_pairing_viol_from(pv, gmo@, h as int) == Some(v));
                        }
                        return Err(v);
                    }
                    proof {
                        assert(spec_first_failed_pairing(prs@, h as int, k as int)
                            == spec_first_failed_pairing(prs@, h as int, k + 1));
                    }
                    k = k + 1;
                }
                proof {
                    assert(spec_pairing_viol_hart(pv, gmo@, h as int) is None);
                    assert(spec_pairing_viol_from(pv, gmo@, h as int)
                        == spec_pairing_viol_from(pv, gmo@, h + 1));
                }
            },
        }
        h = h + 1;
    }
    proof {
        assert(spec_pairing_viol_from(pv, gmo@, 0) is None);
    }

    let mut h2: usize = 0;
    while h2 < progs.len()
        invariant
            h2 <= progs@.len(),
            pv == progs_view(progs),
            gmo_wf(pv, gmo@),
            spec_pairing_viol_from(pv, gmo@, 0) is None,
            spec_ppo_viol_from(pv, gmo@, 0) == spec_ppo_viol_from(pv, gmo@, h2 as int),
        decreases progs@.len() - h2,
    {
        let deps = SyntacticDeps::from_program(&progs[h2]);
        let plen = progs[h2].len();
        proof {
            assert(pv[h2 as int] == progs@[h2 as int]@);
            assert(pv[h2 as int].len() <= usize::MAX);
        }
        let edges = match compute_ppo(h2, progs, &deps, gmo) {
            Some(v) => v,
            None => {
                proof {
                    lemma_pairing_ok_gives_ppo(pv, gmo@, h2 as int);
                    assert(false);
                }
                Vec::new()
            },
        };
        proof {
            assert(edges@ == spec_ppo_edges(pv, gmo@, h2 as int));
        }
        let mut k: usize = 0;
        while k < edges.len()
            invariant
                k <= edges@.len(),
                pv == progs_view(progs),
                gmo_wf(pv, gmo@),
                (h2 as int) < pv.len(),
                pv[h2 as int].len() <= usize::MAX,
                edges@ == spec_ppo_edges(pv, gmo@, h2 as int),
                spec_ppo_viol_in(gmo@, h2 as int, edges@, 0)
                    == spec_ppo_viol_in(gmo@, h2 as int, edges@, k as int),
            decreases edges@.len() - k,
        {
            let e = edges[k];
            proof {
                assert(edges@.contains(e));
                lemma_ppo_edges_shape(pv, gmo@, h2 as int, e);
                assert(gmo_covers(gmo@, h2 as int, e.before as int));
                assert(gmo_covers(gmo@, h2 as int, e.after as int));
                lemma_gmo_position(pv, gmo@, h2 as int, e.before as int);
                lemma_gmo_position(pv, gmo@, h2 as int, e.after as int);
            }
            let ga = match gmo_index_of(gmo, h2, e.before) {
                Some(g) => g,
                None => {
                    proof {
                        assert(false);
                    }
                    0
                },
            };
            let gb = match gmo_index_of(gmo, h2, e.after) {
                Some(g) => g,
                None => {
                    proof {
                        assert(false);
                    }
                    0
                },
            };
            proof {
                assert(ga as int == gmo_position(gmo@, h2 as int, e.before as int));
                assert(gb as int == gmo_position(gmo@, h2 as int, e.after as int));
            }
            if ga >= gb {
                return Err(Violation::PpoViolated {
                    hart: h2,
                    before: e.before,
                    after: e.after,
                    rule: e.rule,
                });
            }
            proof {
                assert(spec_ppo_viol_in(gmo@, h2 as int, edges@, k as int)
                    == spec_ppo_viol_in(gmo@, h2 as int, edges@, k + 1));
            }
            k = k + 1;
        }
        proof {
            assert(spec_ppo_viol_in(gmo@, h2 as int, edges@, edges@.len() as int) is None);
            assert(spec_ppo_viol_from(pv, gmo@, h2 as int)
                == spec_ppo_viol_from(pv, gmo@, h2 + 1));
        }
        h2 = h2 + 1;
    }
    proof {
        assert(spec_ppo_viol_from(pv, gmo@, 0) is None);
    }

    match check_load_value_assertions(progs, gmo) {
        Err(v) => Err(v),
        Ok(_) => Ok(()),
    }
}

/// A hart whose pairing step raises no violation has a derived relation:
/// the engine cannot answer `None` for it.
proof fn lemma_pairing_ok_gives_ppo(
    progs: Seq<Seq<Insn>>,
    gmo: Seq<(usize, usize)>,
    h: int,
)
    requires
        0 <= h < progs.len(),
        spec_pairing_viol_from(progs, gmo, 0) is None,
    ensures
        spec_compute_ppo(progs, gmo, h) is Some,
{
    lemma_pairing_viol_skips(progs, gmo, 0, h);
    match spec_check_sc_pairings(progs, gmo, h) {
        Err(_) => {
            assert(spec_pairing_viol_hart(progs, gmo, h) is Some);
        },
        Ok(prs) => {
            lemma_first_failed_none(prs, h, 0);
        },
    }
}

/// When no pairing violation exists from hart `h0` on, hart `h` in that
/// range has none either.
proof fn lemma_pairing_viol_skips(
    progs: Seq<Seq<Insn>>,
    gmo: Seq<(usize, usize)>,
    h0: int,
    h: int,
)
    requires
        0 <= h0 <= h < progs.len(),
        spec_pairing_viol_from(progs, gmo, h0) is None,
    ensures
        spec_pairing_viol_hart(progs, gmo, h) is None,
    decreases h - h0,
{
    if h0 < h {
        lemma_pairing_viol_skips(progs, gmo, h0 + 1, h);
    }
}

/// A pairing report without a reported failure has every pairing
/// succeed.
proof fn lemma_first_failed_none(prs: Seq<ScPairing>, h: int, k: int)
    requires
        0 <= k,
        spec_first_failed_pairing(prs, h, k) is None,
    ensures
        forall|k2: int| k <= k2 < prs.len() ==> (#[trigger] prs[k2]).success,
    decreases prs.len() - k,
{
    if k < prs.len() {
        lemma_first_failed_none(prs, h, k + 1);
    }
}

/// Under a well-formed order, the scan of one hart's edges from index
/// `k` finds no violation.
proof fn lemma_ppo_viol_in_none(
    progs: Seq<Seq<Insn>>,
    gmo: Seq<(usize, usize)>,
    h: int,
    edges: Seq<PpoEdge>,
    k: int,
)
    requires
        gmo_wf(progs, gmo),
        0 <= h < progs.len(),
        progs[h].len() <= usize::MAX,
        edges == spec_ppo_edges(progs, gmo, h),
        0 <= k,
    ensures
        spec_ppo_viol_in(gmo, h, edges, k) is None,
    decreases edges.len() - k,
{
    if k < edges.len() {
        let e = edges[k];
        assert(edges.contains(e));
        lemma_ppo_edges_shape(progs, gmo, h, e);
        assert(gmo_covers(gmo, h, e.before as int));
        assert(gmo_covers(gmo, h, e.after as int));
        crate::gmo::lemma_gmo_position_monotone(progs, gmo, h, e.before as int, e.after as int);
        lemma_ppo_viol_in_none(progs, gmo, h, edges, k + 1);
    }
}

/// As `lemma_wf_order_respects_ppo`, from hart `h0` on.
proof fn lemma_ppo_viol_from_none(progs: Seq<Seq<Insn>>, gmo: Seq<(usize, usize)>, h0: int)
    requires
        gmo_wf(progs, gmo),
        0 <= h0,
        forall|h: int| 0 <= h < progs.len() ==> (#[trigger] progs[h]).len() <= usize::MAX,
    ensures
        spec_ppo_viol_from(progs, gmo, h0) is None,
    decreases progs.len() - h0,
{
    if h0 < progs.len() {
        lemma_ppo_viol_in_none(progs, gmo, h0, spec_ppo_edges(progs, gmo, h0), 0);
        lemma_ppo_viol_from_none(progs, gmo, h0 + 1);
    }
}

/// A well-formed order respects every derived preserved-program-order
/// edge: edges run forward within one hart, and well-formedness already
/// demands that each hart's entries keep program order. An order that
/// inverts two same-hart operations is thus rejected as malformed
/// before any rule is cited.
pub proof fn lemma_wf_order_respects_ppo(progs: Seq<Seq<Insn>>, gmo: Seq<(usize, usize)>)
    requires
        gmo_wf(progs, gmo),
        forall|h: int| 0 <= h < progs.len() ==> (#[trigger] progs[h]).len() <= usize::MAX,
    ensures
        spec_ppo_viol_from(progs, gmo, 0) is None,
{
    lemma_ppo_viol_from_none(progs, gmo, 0);
}

/// The validator accepts the order equal to sequential program order
/// whenever the trace is a single hart, its atomic pairings raise no
/// violation, and every load assertion matches the value the load value
/// rule computes from that order.
pub proof fn lemma_single_hart_sequential_accepted(
    progs: Seq<Seq<Insn>>,
    gmo: Seq<(usize, usize)>,
)
    requires
        progs.len() == 1,
        progs[0].len() <= usize::MAX,
        gmo == crate::gmo::spec_sequential_gmo(progs),
        spec_pairing_viol_from(progs, gmo, 0) is None,
        spec_load_viol_from(progs, gmo, 0) is None,
    ensures
        spec_validate(progs, gmo) == Ok::<(), Violation>(()),
{
    crate::gmo::lemma_sequential_gmo_wf(progs);
    lemma_wf_order_respects_ppo(progs, gmo);
}

/// Composed preserved-program-order edges need no separate check: if
/// the order respects `(a, b)` and `(b, c)` it respects `(a, c)`, since
/// order positions form one total order. Checking the derived base
/// edges therefore decides the same verdict as checking the transitive
/// closure.
pub proof fn lemma_closure_respected(
    gmo: Seq<(usize, usize)>,
    h: int,
    a: int,
    b: int,
    c: int,
)
    requires
        gmo_position(gmo, h, a) < gmo_position(gmo, h, b),
        gmo_position(gmo, h, b) < gmo_position(gmo, h, c),
    ensures
        gmo_position(gmo, h, a) < gmo_position(gmo, h, c),
{
}

/// Re-running the validator on the same programs and the same order
/// answers identically, a pure function of the inputs with no hidden
/// state.
pub proof fn lemma_validator_deterministic(
    progs: Seq<Seq<Insn>>,
    gmo: Seq<(usize, usize)>,
    r1: Result<(), Violation>,
    r2: Result<(), Violation>,
)
    requires
        r1 == spec_validate(progs, gmo),
        r2 == spec_validate(progs, gmo),
    ensures
        r1 == r2,
{
}

} // verus!
