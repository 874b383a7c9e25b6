//! The preserved-program-order rule engine.
//!
//! For one hart it derives, from the thirteen ordering rules, the set of
//! operation pairs whose program order every legal global memory order
//! must preserve. Only memory operations are endpoints: `Calc` and
//! `Fence` are never ordered themselves (a fence participates only
//! through rule 4). The rules are independent contributions; any number
//! may fire for one pair. Rule 11 (control dependency) never applies, as
//! no branch operations are modeled, and rule 12 is reserved and
//! contributes nothing; both keep their stable rule numbers.

use vstd::prelude::*;
use crate::insn::Insn;
use crate::deps::SynDep;
use crate::deps::SynDepKind;
use crate::deps::SyntacticDeps;
use crate::deps::spec_direct_list;
use crate::deps::spec_indirect_list;
use crate::gmo::gmo_wf;
use crate::gmo::gmo_covers;
use crate::gmo::gmo_position;
use crate::gmo::gmo_index_of;
use crate::gmo::lemma_gmo_position;
use crate::gmo::progs_view;
use crate::observe::LoadObservation;
use crate::observe::spec_load_value_rule;
use crate::observe::load_value_rule;
use crate::pairing::ScPairing;
use crate::pairing::spec_lr_for_sc;
use crate::pairing::spec_pairing_success;
use crate::pairing::spec_check_sc_pairings;
use crate::pairing::check_sc_pairings;
use crate::pairing::lr_before;
use crate::pairing::pairing_success;
use crate::resolve::spec_resolved_addr;
use crate::resolve::resolved_addr;

verus! {

/// One preserved-program-order constraint: `before` must precede `after`
/// in every legal global memory order; `rule` names the rule that
/// derived it.
#[derive(Clone, Copy, Debug, PartialEq, Eq, Structural)]
pub struct PpoEdge {
    pub before: usize,
    pub after: usize,
    pub rule: u32,
}

/// Rule 1: `b` is a store, `a` has a resolvable address, and the two
/// resolved addresses are equal.
pub open spec fn rule1_holds(prog: Seq<Insn>, a: int, b: int) -> bool {
    &&& prog[b].spec_is_store()
    &&& spec_resolved_addr(prog, a) is Some
    &&& spec_resolved_addr(prog, a) == spec_resolved_addr(prog, b)
}

/// Rule 2: `a` and `b` are loads of one resolved address with no store to
/// that address strictly between them in program order.
pub open spec fn rule2_holds(prog: Seq<Insn>, a: int, b: int) -> bool {
    &&& prog[a].spec_is_load()
    &&& prog[b].spec_is_load()
    &&& spec_resolved_addr(prog, a) is Some
    &&& spec_resolved_addr(prog, a) == spec_resolved_addr(prog, b)
    &&& forall|m: int| a < m < b ==> !((#[trigger] prog[m]).spec_is_store()
        && spec_resolved_addr(prog, m) == spec_resolved_addr(prog, a))
}

/// Rule 3: `a` is an `Amo` or `Sc` (a successful store), `b` is a load,
/// and the load value rule determines `b` observes exactly the value `a`
/// writes — the nearest conflicting store before `b` in the order is `a`
/// itself.
pub open spec fn rule3_holds(
    progs: Seq<Seq<Insn>>,
    gmo: Seq<(usize, usize)>,
    h: int,
    a: int,
    b: int,
) -> bool {
    let prog = progs[h];
    &&& (prog[a] is Amo || prog[a] is Sc)
    &&& prog[b].spec_is_load()
    &&& match spec_load_value_rule(progs, gmo, gmo_position(gmo, h, b)) {
        LoadObservation::Written { store_gmo, .. } =>
            store_gmo as int == gmo_position(gmo, h, a),
        _ => false,
    }
}

/// Whether a fence orders an earlier access of kind (`a_load`,
/// `a_store`) before a later access of kind (`b_load`, `b_store`).
pub open spec fn fence_orders(
    op: Insn,
    a_load: bool,
    a_store: bool,
    b_load: bool,
    b_store: bool,
) -> bool {
    match op {
        Insn::Fence { pred, succ } => ((pred.r && a_load) || (pred.w && a_store))
            && ((succ.r && b_load) || (succ.w && b_store)),
        _ => false,
    }
}

/// Rule 4: some fence between `a` and `b` has `a`'s access kind in its
/// predecessor set and `b`'s in its successor set.
pub open spec fn rule4_holds(prog: Seq<Insn>, a: int, b: int) -> bool {
    exists|m: int| a < m < b && fence_orders(
        #[trigger] prog[m],
        prog[a].spec_is_load(),
        prog[a].spec_is_store(),
        prog[b].spec_is_load(),
        prog[b].spec_is_store(),
    )
}

/// Rule 5: `a` carries an acquire annotation.
pub open spec fn rule5_holds(prog: Seq<Insn>, a: int) -> bool {
    match prog[a].spec_annotation() {
        Some(ann) => ann.aq,
        None => false,
    }
}

/// Rule 6: `b` carries a release annotation.
pub open spec fn rule6_holds(prog: Seq<Insn>, b: int) -> bool {
    match prog[b].spec_annotation() {
        Some(ann) => ann.rl,
        None => false,
    }
}

/// Rule 7: `a` and `b` each carry an acquire-or-release annotation.
pub open spec fn rule7_holds(prog: Seq<Insn>, a: int, b: int) -> bool {
    &&& match prog[a].spec_annotation() {
        Some(ann) => ann.aq || ann.rl,
        None => false,
    }
    &&& match prog[b].spec_annotation() {
        Some(ann) => ann.aq || ann.rl,
        None => false,
    }
}

/// Rule 8: `a` is the `Lr` paired with the `Sc` at `b`, and the pairing
/// succeeded.
pub open spec fn rule8_holds(
    progs: Seq<Seq<Insn>>,
    gmo: Seq<(usize, usize)>,
    h: int,
    a: int,
    b: int,
) -> bool {
    let prog = progs[h];
    &&& prog[a] is Lr
    &&& prog[b] is Sc
    &&& spec_lr_for_sc(prog, b) == Some(a)
    &&& spec_pairing_success(progs, gmo, h, a, b)
}

/// The contributions of rules 1 through 8 for the pair `(a, b)`, in rule
/// order.
pub open spec fn single_edges(
    progs: Seq<Seq<Insn>>,
    gmo: Seq<(usize, usize)>,
    h: int,
    a: int,
    b: int,
) -> Seq<PpoEdge> {
    let prog = progs[h];
    let au = a as usize;
    let bu = b as usize;
    let s1: Seq<PpoEdge> = if rule1_holds(prog, a, b) {
        seq![PpoEdge { before: au, after: bu, rule: 1 }]
    } else {
        Seq::empty()
    };
    let s2: Seq<PpoEdge> = if rule2_holds(prog, a, b) {
        seq![PpoEdge { before: au, after: bu, rule: 2 }]
    } else {
        Seq::empty()
    };
    let s3: Seq<PpoEdge> = if rule3_holds(progs, gmo, h, a, b) {
        seq![PpoEdge { before: au, after: bu, rule: 3 }]
    } else {
        Seq::empty()
    };
    let s4: Seq<PpoEdge> = if rule4_holds(prog, a, b) {
        seq![PpoEdge { before: au, after: bu, rule: 4 }]
    } else {
        Seq::empty()
    };
    let s5: Seq<PpoEdge> = if rule5_holds(prog, a) {
        seq![PpoEdge { before: au, after: bu, rule: 5 }]
    } else {
        Seq::empty()
    };
    let s6: Seq<PpoEdge> = if rule6_holds(prog, b) {
        seq![PpoEdge { before: au, after: bu, rule: 6 }]
    } else {
        Seq::empty()
    };
    let s7: Seq<PpoEdge> = if rule7_holds(prog, a, b) {
        seq![PpoEdge { before: au, after: bu, rule: 7 }]
    } else {
        Seq::empty()
    };
    let s8: Seq<PpoEdge> = if rule8_holds(progs, gmo, h, a, b) {
        seq![PpoEdge { before: au, after: bu, rule: 8 }]
    } else {
        Seq::empty()
    };
    s1 + s2 + s3 + s4 + s5 + s6 + s7 + s8
}

/// Rules 9 and 10: one edge per syntactic dependency (direct or
/// indirect) of `b` on `a`, rule 9 for an address dependency and rule 10
/// for a data dependency, in the dependency list's order.
pub open spec fn dep_edges_from(deps: Seq<SynDep>, k: int, a: int, b: int) -> Seq<PpoEdge>
    decreases deps.len() - k,
{
    if k < 0 || k >= deps.len() {
        Seq::empty()
    } else {
        let head: Seq<PpoEdge> = if deps[k].on == a && deps[k].at == b {
            match deps[k].kind {
                SynDepKind::Addr => seq![PpoEdge { before: a as usize, after: b as usize, rule: 9 }],
                SynDepKind::Data => seq![PpoEdge { before: a as usize, after: b as usize, rule: 10 }],
            }
        } else {
            Seq::empty()
        };
        head + dep_edges_from(deps, k + 1, a, b)
    }
}

/// Rule 13's inner scan: one edge per address dependency (direct or
/// indirect) of the intermediate `m` on `a`.
pub open spec fn rule13_deps_from(deps: Seq<SynDep>, k: int, a: int, m: int, b: int) -> Seq<PpoEdge>
    decreases deps.len() - k,
{
    if k < 0 || k >= deps.len() {
        Seq::empty()
    } else {
        let head: Seq<PpoEdge> = if deps[k].on == a && deps[k].at == m
            && deps[k].kind == SynDepKind::Addr {
            seq![PpoEdge { before: a as usize, after: b as usize, rule: 13 }]
        } else {
            Seq::empty()
        };
        head + rule13_deps_from(deps, k + 1, a, m, b)
    }
}

/// Rule 13: `b` is a store and some `m` strictly between `a` and `b` has
/// an address dependency on `a`; one edge per such dependency, scanning
/// the intermediates in program order.
pub open spec fn rule13_mids(deps: Seq<SynDep>, a: int, m: int, b: int) -> Seq<PpoEdge>
    decreases b - m,
{
    if m >= b {
        Seq::empty()
    } else {
        rule13_deps_from(deps, 0, a, m, b) + rule13_mids(deps, a, m + 1, b)
    }
}

/// Every rule's contributions for the ordered pair `(a, b)`; empty
/// unless both endpoints are memory operations.
pub open spec fn pair_edges(
    progs: Seq<Seq<Insn>>,
    h: int,
    deps: Seq<SynDep>,
    gmo: Seq<(usize, usize)>,
    a: int,
    b: int,
) -> Seq<PpoEdge> {
    let prog = progs[h];
    if prog[a].spec_is_mem() && prog[b].spec_is_mem() {
        let r13: Seq<PpoEdge> = if prog[b].spec_is_store() {
            rule13_mids(deps, a, a + 1, b)
        } else {
            Seq::empty()
        };
        single_edges(progs, gmo, h, a, b) + dep_edges_from(deps, 0, a, b) + r13
    } else {
        Seq::empty()
    }
}

/// The pair contributions for one `a` and every later `b`, in order.
pub open spec fn pairs_from_b(
    progs: Seq<Seq<Insn>>,
    h: int,
    deps: Seq<SynDep>,
    gmo: Seq<(usize, usize)>,
    a: int,
    b: int,
) -> Seq<PpoEdge>
    decreases progs[h].len() - b,
{
    if b >= progs[h].len() {
        Seq::empty()
    } else {
        pair_edges(progs, h, deps, gmo, a, b) + pairs_from_b(progs, h, deps, gmo, a, b + 1)
    }
}

/// The pair contributions for every `a` from position `a` upward.
pub open spec fn pairs_from_a(
    progs: Seq<Seq<Insn>>,
    h: int,
    deps: Seq<SynDep>,
    gmo: Seq<(usize, usize)>,
    a: int,
) -> Seq<PpoEdge>
    decreases progs[h].len() - a,
{
    if a >= progs[h].len() {
        Seq::empty()
    } else {
        pairs_from_b(progs, h, deps, gmo, a, a + 1) + pairs_from_a(progs, h, deps, gmo, a + 1)
    }
}

/// The full preserved-program-order edge list of hart `h`, over its
/// direct and indirect dependencies taken together.
pub open spec fn spec_ppo_edges(
    progs: Seq<Seq<Insn>>,
    gmo: Seq<(usize, usize)>,
    h: int,
) -> Seq<PpoEdge> {
    pairs_from_a(progs, h, spec_direct_list(progs[h]) + spec_indirect_list(progs[h]), gmo, 0)
}

/// The engine's outcome for hart `h`: `None` when the order violates the
/// store-conditional success constraint (a dangling or failed pairing),
/// otherwise the edge list.
pub open spec fn spec_compute_ppo(
    progs: Seq<Seq<Insn>>,
    gmo: Seq<(usize, usize)>,
    h: int,
) -> Option<Seq<PpoEdge>> {
    match spec_check_sc_pairings(progs, gmo, h) {
        Err(_) => None,
        Ok(prs) => if exists|k: int| 0 <= k < prs.len() && !(#[trigger] prs[k]).success {
            None
        } else {
            Some(spec_ppo_edges(progs, gmo, h))
        },
    }
}

/// Every edge of rules 9/10 for a pair keeps the pair's endpoints and
/// one of the two rule numbers.
proof fn lemma_dep_edges_shape(deps: Seq<SynDep>, k: int, a: int, b: int, e: PpoEdge)
    requires
        dep_edges_from(deps, k, a, b).contains(e),
        0 <= a <= usize::MAX,
        0 <= b <= usize::MAX,
    ensures
        e.before as int == a,
        e.after as int == b,
        e.rule == 9 || e.rule == 10,
    decreases deps.len() - k,
{
    if k < 0 || k >= deps.len() {
        assert(false);
    } else {
        let head: Seq<PpoEdge> = if deps[k].on == a && deps[k].at == b {
            match deps[k].kind {
                SynDepKind::Addr => seq![PpoEdge { before: a as usize, after: b as usize, rule: 9 }],
                SynDepKind::Data => seq![PpoEdge { before: a as usize, after: b as usize, rule: 10 }],
            }
        } else {
            Seq::empty()
        };
        crate::deps::lemma_concat_contains(head, dep_edges_from(deps, k + 1, a, b), e);
        if head.contains(e) {
            assert(e == head[0]);
        } else {
            lemma_dep_edges_shape(deps, k + 1, a, b, e);
        }
    }
}

/// Every rule 13 edge for a pair keeps the pair's endpoints.
proof fn lemma_rule13_deps_shape(deps: Seq<SynDep>, k: int, a: int, m: int, b: int, e: PpoEdge)
    requires
        rule13_deps_from(deps, k, a, m, b).contains(e),
        0 <= a <= usize::MAX,
        0 <= b <= usize::MAX,
    ensures
        e.before as int == a,
        e.after as int == b,
        e.rule == 13,
    decreases deps.len() - k,
{
    if k < 0 || k >= deps.len() {
        assert(false);
    } else {
        let head: Seq<PpoEdge> = if deps[k].on == a && deps[k].at == m
            && deps[k].kind == SynDepKind::Addr {
            seq![PpoEdge { before: a as usize, after: b as usize, rule: 13 }]
        } else {
            Seq::empty()
        };
        crate::deps::lemma_concat_contains(head, rule13_deps_from(deps, k + 1, a, m, b), e);
        if head.contains(e) {
            assert(e == head[0]);
        } else {
            lemma_rule13_deps_shape(deps, k + 1, a, m, b, e);
        }
    }
}

/// As `lemma_rule13_deps_shape`, over every intermediate position.
proof fn lemma_rule13_mids_shape(deps: Seq<SynDep>, a: int, m: int, b: int, e: PpoEdge)
    requires
        rule13_mids(deps, a, m, b).contains(e),
        0 <= a <= usize::MAX,
        0 <= b <= usize::MAX,
    ensures
        e.before as int == a,
        e.after as int == b,
        e.rule == 13,
    decreases b - m,
{
    if m >= b {
        assert(false);
    } else {
        crate::deps::lemma_concat_contains(
            rule13_deps_from(deps, 0, a, m, b),
            rule13_mids(deps, a, m + 1, b),
            e,
        );
        if rule13_deps_from(deps, 0, a, m, b).contains(e) {
            lemma_rule13_deps_shape(deps, 0, a, m, b, e);
        } else {
            lemma_rule13_mids_shape(deps, a, m + 1, b, e);
        }
    }
}

/// Every contribution of rules 1 through 8 runs from `a` to `b` under
/// its own rule number.
proof fn lemma_single_edges_shape(
    progs: Seq<Seq<Insn>>,
    gmo: Seq<(usize, usize)>,
    h: int,
    a: int,
    b: int,
    e: PpoEdge,
)
    requires
        single_edges(progs, gmo, h, a, b).contains(e),
        0 <= a <= usize::MAX,
        0 <= b <= usize::MAX,
    ensures
        e.before as int == a,
        e.after as int == b,
        1 <= e.rule <= 8,
{
    let prog = progs[h];
    let au = a as usize;
    let bu = b as usize;
    let s1: Seq<PpoEdge> = if rule1_holds(prog, a, b) {
        seq![PpoEdge { before: au, after: bu, rule: 1 }]
    } else {
        Seq::empty()
    };
    let s2: Seq<PpoEdge> = if rule2_holds(prog, a, b) {
        seq![PpoEdge { before: au, after: bu, rule: 2 }]
    } else {
        Seq::empty()
    };
    let s3: Seq<PpoEdge> = if rule3_holds(progs, gmo, h, a, b) {
        seq![PpoEdge { before: au, after: bu, rule: 3 }]
    } else {
        Seq::empty()
    };
    let s4: Seq<PpoEdge> = if rule4_holds(prog, a, b) {
        seq![PpoEdge { before: au, after: bu, rule: 4 }]
    } else {
        Seq::empty()
    };
    let s5: Seq<PpoEdge> = if rule5_holds(prog, a) {
        seq![PpoEdge { before: au, after: bu, rule: 5 }]
    } else {
        Seq::empty()
    };
    let s6: Seq<PpoEdge> = if rule6_holds(prog, b) {
        seq![PpoEdge { before: au, after: bu, rule: 6 }]
    } else {
        Seq::empty()
    };
    let s7: Seq<PpoEdge> = if rule7_holds(prog, a, b) {
        seq![PpoEdge { before: au, after: bu, rule: 7 }]
    } else {
        Seq::empty()
    };
    let s8: Seq<PpoEdge> = if rule8_holds(progs, gmo, h, a, b) {
        seq![PpoEdge { before: au, after: bu, rule: 8 }]
    } else {
        Seq::empty()
    };
    assert(single_edges(progs, gmo, h, a, b) == s1 + s2 + s3 + s4 + s5 + s6 + s7 + s8);
    crate::deps::lemma_concat_contains(s1 + s2 + s3 + s4 + s5 + s6 + s7, s8, e);
    crate::deps::lemma_concat_contains(s1 + s2 + s3 + s4 + s5 + s6, s7, e);
    crate::deps::lemma_concat_contains(s1 + s2 + s3 + s4 + s5, s6, e);
    crate::deps::lemma_concat_contains(s1 + s2 + s3 + s4, s5, e);
    crate::deps::lemma_concat_contains(s1 + s2 + s3, s4, e);
    crate::deps::lemma_concat_contains(s1 + s2, s3, e);
    crate::deps::lemma_concat_contains(s1, s2, e);
    if s1.contains(e) {
        assert(e == s1[0]);
    } else if s2.contains(e) {
        assert(e == s2[0]);
    } else if s3.contains(e) {
        assert(e == s3[0]);
    } else if s4.contains(e) {
        assert(e == s4[0]);
    } else if s5.contains(e) {
        assert(e == s5[0]);
    } else if s6.contains(e) {
        assert(e == s6[0]);
    } else if s7.contains(e) {
        assert(e == s7[0]);
    } else {
        assert(e == s8[0]);
    }
}

/// Every edge derived for the pair `(a, b)` runs from `a` to `b`, both
/// endpoints are memory operations, and its rule is one of 1-10 or 13;
/// rules 11 (no branches are modeled) and 12 (reserved) never occur.
pub proof fn lemma_pair_edges_shape(
    progs: Seq<Seq<Insn>>,
    h: int,
    deps: Seq<SynDep>,
    gmo: Seq<(usize, usize)>,
    a: int,
    b: int,
    e: PpoEdge,
)
    requires
        pair_edges(progs, h, deps, gmo, a, b).contains(e),
        0 <= a <= usize::MAX,
        0 <= b <= usize::MAX,
    ensures
        e.before as int == a,
        e.after as int == b,
        progs[h][a].spec_is_mem(),
        progs[h][b].spec_is_mem(),
        1 <= e.rule <= 10 || e.rule == 13,
{
    let prog = progs[h];
    if !(prog[a].spec_is_mem() && prog[b].spec_is_mem()) {
        assert(false);
    } else {
        let singles = single_edges(progs, gmo, h, a, b);
        let dep_part = dep_edges_from(deps, 0, a, b);
        let r13: Seq<PpoEdge> = if prog[b].spec_is_store() {
            rule13_mids(deps, a, a + 1, b)
        } else {
            Seq::empty()
        };
        crate::deps::lemma_concat_contains(singles + dep_part, r13, e);
        if (singles + dep_part).contains(e) {
            crate::deps::lemma_concat_contains(singles, dep_part, e);
            if singles.contains(e) {
                lemma_single_edges_shape(progs, gmo, h, a, b, e);
            } else {
                lemma_dep_edges_shape(deps, 0, a, b, e);
            }
        } else {
            lemma_rule13_mids_shape(deps, a, a + 1, b, e);
        }
    }
}

/// As `lemma_pair_edges_shape`, over every pair with `a` at `a0` or
/// later.
proof fn lemma_pairs_from_b_shape(
    progs: Seq<Seq<Insn>>,
    h: int,
    deps: Seq<SynDep>,
    gmo: Seq<(usize, usize)>,
    a: int,
    b: int,
    e: PpoEdge,
)
    requires
        pairs_from_b(progs, h, deps, gmo, a, b).contains(e),
        0 <= a < b,
        progs[h].len() <= usize::MAX,
    ensures
        e.before as int == a,
        a < (e.after as int) < progs[h].len(),
        progs[h][e.before as int].spec_is_mem(),
        progs[h][e.after as int].spec_is_mem(),
        1 <= e.rule <= 10 || e.rule == 13,
    decreases progs[h].len() - b,
{
    if b >= progs[h].len() {
        assert(false);
    } else {
        crate::deps::lemma_concat_contains(
            pair_edges(progs, h, deps, gmo, a, b),
            pairs_from_b(progs, h, deps, gmo, a, b + 1),
            e,
        );
        if pair_edges(progs, h, deps, gmo, a, b).contains(e) {
            lemma_pair_edges_shape(progs, h, deps, gmo, a, b, e);
        } else {
            lemma_pairs_from_b_shape(progs, h, deps, gmo, a, b + 1, e);
        }
    }
}

/// Every edge of the full relation runs forward in program order between
/// two memory operations, under a rule other than 11 and 12.
pub proof fn lemma_ppo_edges_shape(
    progs: Seq<Seq<Insn>>,
    gmo: Seq<(usize, usize)>,
    h: int,
    e: PpoEdge,
)
    requires
        spec_ppo_edges(progs, gmo, h).contains(e),
        progs[h].len() <= usize::MAX,
    ensures
        (e.before as int) < (e.after as int) < progs[h].len(),
        progs[h][e.before as int].spec_is_mem(),
        progs[h][e.after as int].spec_is_mem(),
        1 <= e.rule <= 10 || e.rule == 13,
{
    let deps = spec_direct_list(progs[h]) + spec_indirect_list(progs[h]);
    lemma_pairs_from_a_shape(progs, h, deps, gmo, 0, e);
}

/// As `lemma_ppo_edges_shape`, for the scan from position `a0`.
proof fn lemma_pairs_from_a_shape(
    progs: Seq<Seq<Insn>>,
    h: int,
    deps: Seq<SynDep>,
    gmo: Seq<(usize, usize)>,
    a0: int,
    e: PpoEdge,
)
    requires
        pairs_from_a(progs, h, deps, gmo, a0).contains(e),
        0 <= a0,
        progs[h].len() <= usize::MAX,
    ensures
        a0 <= e.before as int,
        (e.before as int) < (e.after as int) < progs[h].len(),
        progs[h][e.before as int].spec_is_mem(),
        progs[h][e.after as int].spec_is_mem(),
        1 <= e.rule <= 10 || e.rule == 13,
    decreases progs[h].len() - a0,
{
    if a0 >= progs[h].len() {
        assert(false);
    } else {
        crate::deps::lemma_concat_contains(
            pairs_from_b(progs, h, deps, gmo, a0, a0 + 1),
            pairs_from_a(progs, h, deps, gmo, a0 + 1),
            e,
        );
        if pairs_from_b(progs, h, deps, gmo, a0, a0 + 1).contains(e) {
            lemma_pairs_from_b_shape(progs, h, deps, gmo, a0, a0 + 1, e);
        } else {
            lemma_pairs_from_a_shape(progs, h, deps, gmo, a0 + 1, e);
        }
    }
}

/// Rule 11 never contributes an edge (no branch operations are modeled)
/// and rule 12 never contributes an edge (it is reserved and undefined):
/// neither rule number ever appears in the derived relation.
pub proof fn lemma_rules_11_12_never(
    progs: Seq<Seq<Insn>>,
    gmo: Seq<(usize, usize)>,
    h: int,
    e: PpoEdge,
)
    requires
        spec_ppo_edges(progs, gmo, h).contains(e),
        progs[h].len() <= usize::MAX,
    ensures
        e.rule != 11,
        e.rule != 12,
{
    lemma_ppo_edges_shape(progs, gmo, h, e);
}

/// Decides rule 2's side condition: no store to address `x` strictly
/// between `a` and `b` in program order.
fn no_store_to_addr_between(prog: &Vec<Insn>, a: usize, b: usize, x: u32) -> (r: bool)
    requires
        a < b,
        (b as int) <= prog@.len(),
    ensures
        r == (forall|m: int| a < m < b ==> !((#[trigger] prog@[m]).spec_is_store()
            && spec_resolved_addr(prog@, m) == Some(x))),
{
    let mut ok = true;
    let mut m = a + 1;
    while m < b
        invariant
            a < m <= b,
            (b as int) <= prog@.len(),
            ok == (forall|m2: int| a < m2 < m ==> !((#[trigger] prog@[m2]).spec_is_store()
                && spec_resolved_addr(prog@, m2) == Some(x))),
        decreases b - m,
    {
        if prog[m].is_store() {
            if let Some(y) = resolved_addr(prog, m) {
                if y == x {
                    ok = false;
                }
            }
        }
        m = m + 1;
    }
    ok
}

/// Decides rule 4's condition: some fence between `a` and `b` orders
/// `a`'s access kind before `b`'s.
fn fence_between(prog: &Vec<Insn>, a: usize, b: usize) -> (r: bool)
    requires
        a < b,
        (b as int) < prog@.len(),
    ensures
        r == rule4_holds(prog@, a as int, b as int),
{
    let a_load = prog[a].is_load();
    let a_store = prog[a].is_store();
    let b_load = prog[b].is_load();
    let b_store = prog[b].is_store();
    let mut found = false;
    let mut m = a + 1;
    while m < b
        invariant
            a < m <= b,
            (b as int) < prog@.len(),
            a_load == prog@[a as int].spec_is_load(),
            a_store == prog@[a as int].spec_is_store(),
            b_load == prog@[b as int].spec_is_load(),
            b_store == prog@[b as int].spec_is_store(),
            found == (exists|m2: int| a < m2 < m && fence_orders(
                #[trigger] prog@[m2], a_load, a_store, b_load, b_store)),
        decreases b - m,
    {
        if let Insn::Fence { pred, succ } = prog[m] {
            let fires = ((pred.r && a_load) || (pred.w && a_store))
                && ((succ.r && b_load) || (succ.w && b_store));
            if fires {
                proof {
                    assert(fence_orders(prog@[m as int], a_load, a_store, b_load, b_store));
                }
                found = true;
            }
        }
        m = m + 1;
    }
    found
}

/// Derives every rule's contributions for the ordered pair `(a, b)` of
/// hart `hart`, in rule order.
#[verifier::rlimit(100)]
fn edges_for_pair(
    progs: &Vec<Vec<Insn>>,
    hart: usize,
    all_deps: &Vec<SynDep>,
    gmo: &Vec<(usize, usize)>,
    a: usize,
    b: usize,
) -> (out: Vec<PpoEdge>)
    requires
        gmo_wf(progs_view(progs), gmo@),
        (hart as int) < progs@.len(),
        a < b,
        (b as int) < progs@[hart as int]@.len(),
    ensures
        out@ == pair_edges(progs_view(progs), hart as int, all_deps@, gmo@, a as int, b as int),
{
    let ghost pv = progs_view(progs);
    let ghost ai = a as int;
    let ghost bi = b as int;
    proof {
        assert(pv[hart as int] == progs@[hart as int]@);
    }
    let mut out: Vec<PpoEdge> = Vec::new();
    if !(progs[hart][a].is_mem() && progs[hart][b].is_mem()) {
        proof {
            assert(out@ =~= pair_edges(pv, hart as int, all_deps@, gmo@, ai, bi));
        }
        return out;
    }

    // Rule 1.
    let addr_a = resolved_addr(&progs[hart], a);
    let addr_b = resolved_addr(&progs[hart], b);
    let mut b1 = false;
    if progs[hart][b].is_store() {
        if let Some(x) = addr_a {
            if let Some(y) = addr_b {
                if x == y {
                    b1 = true;
                }
            }
        }
    }
    proof {
        assert(b1 == rule1_holds(pv[hart as int], ai, bi));
    }
    if b1 {
        out.push(PpoEdge { before: a, after: b, rule: 1 });
    }
    let ghost s1 = if rule1_holds(pv[hart as int], ai, bi) {
        seq![PpoEdge { before: a, after: b, rule: 1u32 }]
    } else {
        Seq::<PpoEdge>::empty()
    };
    proof {
        assert(out@ =~= s1);
    }

    // Rule 2.
    let mut b2 = false;
    if progs[hart][a].is_load() && progs[hart][b].is_load() {
        if let Some(x) = addr_a {
            if let Some(y) = addr_b {
                if x == y {
                    b2 = no_store_to_addr_between(&progs[hart], a, b, x);
                }
            }
        }
    }
    proof {
        assert(b2 == rule2_holds(pv[hart as int], ai, bi));
    }
    if b2 {
        out.push(PpoEdge { before: a, after: b, rule: 2 });
    }
    let ghost s2 = if rule2_holds(pv[hart as int], ai, bi) {
        seq![PpoEdge { before: a, after: b, rule: 2u32 }]
    } else {
        Seq::<PpoEdge>::empty()
    };
    proof {
        assert(out@ =~= s1 + s2);
    }

    // Rule 3.
    let mut b3 = false;
    let a_is_amo_or_sc = matches!(progs[hart][a], Insn::Amo { .. })
        || matches!(progs[hart][a], Insn::Sc { .. });
    if a_is_amo_or_sc && progs[hart][b].is_load() {
        proof {
            assert(gmo_covers(gmo@, hart as int, ai));
            assert(gmo_covers(gmo@, hart as int, bi));
            lemma_gmo_position(pv, gmo@, hart as int, ai);
            lemma_gmo_position(pv, gmo@, hart as int, bi);
        }
        let ga = match gmo_index_of(gmo, hart, a) {
            Some(g) => g,
            None => {
                proof {
                    assert(false);
                }
                0
            },
        };
        let gb = match gmo_index_of(gmo, hart, b) {
            Some(g) => g,
            None => {
                proof {
                    assert(false);
                }
                0
            },
        };
        proof {
            assert(ga as int == gmo_position(gmo@, hart as int, ai));
            assert(gb as int == gmo_position(gmo@, hart as int, bi));
        }
        let obs = load_value_rule(progs, gmo, gb);
        if let LoadObservation::Written { store_gmo, .. } = obs {
            if store_gmo == ga {
                b3 = true;
            }
        }
    }
    proof {
        assert(b3 == rule3_holds(pv, gmo@, hart as int, ai, bi));
    }
    if b3 {
        out.push(PpoEdge { before: a, after: b, rule: 3 });
    }
    let ghost s3 = if rule3_holds(pv, gmo@, hart as int, ai, bi) {
        seq![PpoEdge { before: a, after: b, rule: 3u32 }]
    } else {
        Seq::<PpoEdge>::empty()
    };
    proof {
        assert(out@ =~= s1 + s2 + s3);
    }

    // Rule 4.
    let b4 = fence_between(&progs[hart], a, b);
    if b4 {
        out.push(PpoEdge { before: a, after: b, rule: 4 });
    }
    let ghost s4 = if rule4_holds(pv[hart as int], ai, bi) {
        seq![PpoEdge { before: a, after: b, rule: 4u32 }]
    } else {
        Seq::<PpoEdge>::empty()
    };
    proof {
        assert(out@ =~= s1 + s2 + s3 + s4);
    }

    // Rule 5.
    let mut b5 = false;
    if let Some(ann) = progs[hart][a].annotation() {
        if ann.aq {
            b5 = true;
        }
    }
    if b5 {
        out.push(PpoEdge { before: a, after: b, rule: 5 });
    }
    let ghost s5 = if rule5_holds(pv[hart as int], ai) {
        seq![PpoEdge { before: a, after: b, rule: 5u32 }]
    } else {
        Seq::<PpoEdge>::empty()
    };
    proof {
        assert(out@ =~= s1 + s2 + s3 + s4 + s5);
    }

    // Rule 6.
    let mut b6 = false;
    if let Some(ann) = progs[hart][b].annotation() {
        if ann.rl {
            b6 = true;
        }
    }
    if b6 {
        out.push(PpoEdge { before: a, after: b, rule: 6 });
    }
    let ghost s6 = if rule6_holds(pv[hart as int], bi) {
        seq![PpoEdge { before: a, after: b, rule: 6u32 }]
    } else {
        Seq::<PpoEdge>::empty()
    };
    proof {
        assert(out@ =~= s1 + s2 + s3 + s4 + s5 + s6);
    }

    // Rule 7.
    let mut b7 = false;
    if let Some(a_ann) = progs[hart][a].annotation() {
        if let Some(b_ann) = progs[hart][b].annotation() {
            if (a_ann.aq || a_ann.rl) && (b_ann.aq || b_ann.rl) {
                b7 = true;
            }
        }
    }
    if b7 {
        out.push(PpoEdge { before: a, after: b, rule: 7 });
    }
    let ghost s7 = if rule7_holds(pv[hart as int], ai, bi) {
        seq![PpoEdge { before: a, after: b, rule: 7u32 }]
    } else {
        Seq::<PpoEdge>::empty()
    };
    proof {
        assert(out@ =~= s1 + s2 + s3 + s4 + s5 + s6 + s7);
    }

    // Rule 8.
    let mut b8 = false;
    if matches!(progs[hart][a], Insn::Lr { .. }) && matches!(progs[hart][b], Insn::Sc { .. }) {
        match lr_before(&progs[hart], b) {
            Some(l) => {
                if l == a {
                    b8 = pairing_success(progs, gmo, hart, a, b);
                }
            },
            None => {},
        }
    }
    proof {
        assert(b8 == rule8_holds(pv, gmo@, hart as int, ai, bi));
    }
    if b8 {
        out.push(PpoEdge { before: a, after: b, rule: 8 });
    }
    let ghost s8 = if rule8_holds(pv, gmo@, hart as int, ai, bi) {
        seq![PpoEdge { before: a, after: b, rule: 8u32 }]
    } else {
        Seq::<PpoEdge>::empty()
    };
    proof {
        assert(out@ =~= s1 + s2 + s3 + s4 + s5 + s6 + s7 + s8);
        assert(out@ =~= single_edges(pv, gmo@, hart as int, ai, bi));
    }

    // Rules 9 and 10.
    let ghost pre9 = out@;
    let mut k: usize = 0;
    while k < all_deps.len()
        invariant
            k <= all_deps@.len(),
            out@ + dep_edges_from(all_deps@, k as int, ai, bi)
                == pre9 + dep_edges_from(all_deps@, 0, ai, bi),
            ai == a as int,
            bi == b as int,
        decreases all_deps@.len() - k,
    {
        let ghost old_out = out@;
        let d = all_deps[k];
        if d.on == a && d.at == b {
            if matches!(d.kind, SynDepKind::Addr) {
                out.push(PpoEdge { before: a, after: b, rule: 9 });
            } else {
                out.push(PpoEdge { before: a, after: b, rule: 10 });
            }
        }
        proof {
            assert(dep_edges_from(all_deps@, k as int, ai, bi)
                == (if all_deps@[k as int].on == ai && all_deps@[k as int].at == bi {
                    match all_deps@[k as int].kind {
                        SynDepKind::Addr => seq![PpoEdge { before: a, after: b, rule: 9u32 }],
                        SynDepKind::Data => seq![PpoEdge { before: a, after: b, rule: 10u32 }],
                    }
                } else {
                    Seq::<PpoEdge>::empty()
                }) + dep_edges_from(all_deps@, k + 1, ai, bi));
            assert(out@ + dep_edges_from(all_deps@, k + 1, ai, bi)
                =~= old_out + dep_edges_from(all_deps@, k as int, ai, bi));
        }
        k = k + 1;
    }
    proof {
        assert(out@ =~= pre9 + dep_edges_from(all_deps@, 0, ai, bi));
    }

    // Rule 13.
    let ghost pre13 = out@;
    if progs[hart][b].is_store() {
        let mut m = a + 1;
        while m < b
            invariant
                a < m <= b,
                ai == a as int,
                bi == b as int,
                out@ + rule13_mids(all_deps@, ai, m as int, bi)
                    == pre13 + rule13_mids(all_deps@, ai, ai + 1, bi),
            decreases b - m,
        {
            let ghost prem = out@;
            let mut k2: usize = 0;
            while k2 < all_deps.len()
                invariant
                    k2 <= all_deps@.len(),
                    ai == a as int,
                    bi == b as int,
                    out@ + rule13_deps_from(all_deps@, k2 as int, ai, m as int, bi)
                        == prem + rule13_deps_from(all_deps@, 0, ai, m as int, bi),
                decreases all_deps@.len() - k2,
            {
                let ghost old_out = out@;
                let d = all_deps[k2];
                if d.on == a && d.at == m && matches!(d.kind, SynDepKind::Addr) {
                    out.push(PpoEdge { before: a, after: b, rule: 13 });
                }
                proof {
                    assert(rule13_deps_from(all_deps@, k2 as int, ai, m as int, bi)
                        == (if all_deps@[k2 as int].on == ai && all_deps@[k2 as int].at == m as int
                            && all_deps@[k2 as int].kind == SynDepKind::Addr {
                            seq![PpoEdge { before: a, after: b, rule: 13u32 }]
                        } else {
                            Seq::<PpoEdge>::empty()
                        }) + rule13_deps_from(all_deps@, k2 + 1, ai, m as int, bi));
                    assert(out@ + rule13_deps_from(all_deps@, k2 + 1, ai, m as int, bi)
                        =~= old_out + rule13_deps_from(all_deps@, k2 as int, ai, m as int, bi));
                }
                k2 = k2 + 1;
            }
            proof {
                assert(out@ =~= prem + rule13_deps_from(all_deps@, 0, ai, m as int, bi));
                assert(rule13_mids(all_deps@, ai, m as int, bi)
                    == rule13_deps_from(all_deps@, 0, ai, m as int, bi)
                        + rule13_mids(all_deps@, ai, m + 1, bi));
                assert(out@ + rule13_mids(all_deps@, ai, m + 1, bi)
                    =~= prem + rule13_mids(all_deps@, ai, m as int, bi));
            }
            m = m + 1;
        }
        proof {
            assert(out@ =~= pre13 + rule13_mids(all_deps@, ai, ai + 1, bi));
        }
    }
    proof {
        assert(out@ =~= pair_edges(pv, hart as int, all_deps@, gmo@, ai, bi));
    }
    out
}

/// Derives the preserved-program-order relation of hart `hart_id` under
/// the given order. `None` means the order violates the
/// store-conditional success constraint: some `Sc` of the hart has no
/// preceding `Lr`, or its pairing fails while the trace asserts success.
#[verifier::rlimit(100)]
pub fn compute_ppo(
    hart_id: usize,
    progs: &Vec<Vec<Insn>>,
    syn_deps: &SyntacticDeps,
    gmo: &Vec<(usize, usize)>,
) -> (r: Option<Vec<PpoEdge>>)
    requires
        gmo_wf(progs_view(progs), gmo@),
        (hart_id as int) < progs@.len(),
        syn_deps.wf(progs_view(progs)[hart_id as int]),
    ensures
        match r {
            Some(v) => spec_compute_ppo(progs_view(progs), gmo@, hart_id as int) == Some(v@),
            None => spec_compute_ppo(progs_view(progs), gmo@, hart_id as int) is None,
        },
{
    let ghost pv = progs_view(progs);
    proof {
        assert(pv[hart_id as int] == progs@[hart_id as int]@);
    }
    let pairings = match check_sc_pairings(progs, gmo, hart_id) {
        Err(_) => {
            return None;
        },
        Ok(v) => v,
    };
    let mut pi: usize = 0;
    while pi < pairings.len()
        invariant
            pi <= pairings@.len(),
            pv == progs_view(progs),
            spec_check_sc_pairings(pv, gmo@, hart_id as int)
                == Ok::<Seq<ScPairing>, usize>(pairings@),
            forall|k: int| 0 <= k < pi ==> (#[trigger] pairings@[k]).success,
        decreases pairings@.len() - pi,
    {
        if !pairings[pi].success {
            proof {
                assert(!pairings@[pi as int].success);
                let prs = spec_check_sc_pairings(pv, gmo@, hart_id as int)->Ok_0;
                assert(prs == pairings@);
                assert(!prs[pi as int].success);
                assert(exists|k: int| 0 <= k < prs.len() && !(#[trigger] prs[k]).success);
                assert(spec_compute_ppo(pv, gmo@, hart_id as int) is None);
            }
            return None;
        }
        pi = pi + 1;
    }

    let mut all_deps: Vec<SynDep> = Vec::new();
    let mut di: usize = 0;
    while di < syn_deps.direct.len()
        invariant
            di <= syn_deps.direct@.len(),
            all_deps@ == syn_deps.direct@.take(di as int),
        decreases syn_deps.direct@.len() - di,
    {
        all_deps.push(syn_deps.direct[di]);
        proof {
            assert(all_deps@ =~= syn_deps.direct@.take(di + 1));
        }
        di = di + 1;
    }
    proof {
        assert(syn_deps.direct@.take(syn_deps.direct@.len() as int) =~= syn_deps.direct@);
    }
    let mut ii: usize = 0;
    while ii < syn_deps.indirect.len()
        invariant
            ii <= syn_deps.indirect@.len(),
            all_deps@ == syn_deps.direct@ + syn_deps.indirect@.take(ii as int),
        decreases syn_deps.indirect@.len() - ii,
    {
        all_deps.push(syn_deps.indirect[ii]);
        proof {
            assert(all_deps@ =~= syn_deps.direct@ + syn_deps.indirect@.take(ii + 1));
        }
        ii = ii + 1;
    }
    proof {
        assert(syn_deps.indirect@.take(syn_deps.indirect@.len() as int) =~= syn_deps.indirect@);
        assert(all_deps@ == spec_direct_list(pv[hart_id as int])
            + spec_indirect_list(pv[hart_id as int]));
    }
    let ghost deps_seq = all_deps@;

    let n = progs[hart_id].len();
    let mut out: Vec<PpoEdge> = Vec::new();
    let mut a: usize = 0;
    while a < n
        invariant
            a <= n,
            n == pv[hart_id as int].len(),
            pv == progs_view(progs),
            gmo_wf(pv, gmo@),
            (hart_id as int) < pv.len(),
            deps_seq == all_deps@,
            out@ + pairs_from_a(pv, hart_id as int, deps_seq, gmo@, a as int)
                == pairs_from_a(pv, hart_id as int, deps_seq, gmo@, 0),
        decreases n - a,
    {
        let ghost base = out@;
        let mut b: usize = a + 1;
        while b < n
            invariant
                a < b <= n,
                n == pv[hart_id as int].len(),
                pv == progs_view(progs),
                gmo_wf(pv, gmo@),
                (hart_id as int) < pv.len(),
                deps_seq == all_deps@,
                out@ + pairs_from_b(pv, hart_id as int, deps_seq, gmo@, a as int, b as int)
                    == base + pairs_from_b(pv, hart_id as int, deps_seq, gmo@, a as int, a + 1),
            decreases n - b,
        {
            let ghost old_out = out@;
            let mut chunk = edges_for_pair(progs, hart_id, &all_deps, gmo, a, b);
            out.append(&mut chunk);
            proof {
                assert(pairs_from_b(pv, hart_id as int, deps_seq, gmo@, a as int, b as int)
                    == pair_edges(pv, hart_id as int, deps_seq, gmo@, a as int, b as int)
                        + pairs_from_b(pv, hart_id as int, deps_seq, gmo@, a as int, b + 1));
                assert(out@ + pairs_from_b(pv, hart_id as int, deps_seq, gmo@, a as int, b + 1)
                    =~= old_out
                        + pairs_from_b(pv, hart_id as int, deps_seq, gmo@, a as int, b as int));
            }
            b = b + 1;
        }
        proof {
            assert(pairs_from_b(pv, hart_id as int, deps_seq, gmo@, a as int, n as int)
                =~= Seq::<PpoEdge>::empty());
            assert(out@ =~= base + pairs_from_b(pv, hart_id as int, deps_seq, gmo@, a as int, a + 1));
            assert(pairs_from_a(pv, hart_id as int, deps_seq, gmo@, a as int)
                == pairs_from_b(pv, hart_id as int, deps_seq, gmo@, a as int, a + 1)
                    + pairs_from_a(pv, hart_id as int, deps_seq, gmo@, a + 1));
            assert(out@ + pairs_from_a(pv, hart_id as int, deps_seq, gmo@, a + 1)
                =~= base + pairs_from_a(pv, hart_id as int, deps_seq, gmo@, a as int));
        }
        a = a + 1;
    }
    proof {
        assert(pairs_from_a(pv, hart_id as int, deps_seq, gmo@, n as int)
            =~= Seq::<PpoEdge>::empty());
        assert(out@ =~= pairs_from_a(pv, hart_id as int, deps_seq, gmo@, 0));
        assert(spec_compute_ppo(pv, gmo@, hart_id as int) == Some(out@));
    }
    Some(out)
}

} // verus!
