//! The syntactic dependency analyzer.
//!
//! Within one hart's program it extracts, for every operation, the nearest
//! preceding writer of each register the operation reads (direct
//! dependencies), and chases chains of `Calc` operations to the chain's
//! ultimate source (indirect dependencies). The analysis is purely
//! syntactic: it never consults a global memory order and it never fails;
//! a register with no preceding writer is simply program input.

use vstd::prelude::*;
use crate::insn::Insn;

verus! {

/// Whether a dependency feeds an address-computing or a value-computing
/// field of the dependent operation.
#[derive(Clone, Copy, Debug, PartialEq, Eq, Structural)]
pub enum SynDepKind {
    Addr,
    Data,
}

/// One dependency edge: the operation at `at` reads `reg`, whose nearest
/// preceding writer in program order is the operation at `on`.
#[derive(Clone, Copy, Debug, PartialEq, Eq, Structural)]
pub struct SynDep {
    pub at: usize,
    pub on: usize,
    pub reg: u32,
    pub kind: SynDepKind,
}

/// The position of the nearest writer of `reg` strictly before position
/// `at`, scanning backward.
pub open spec fn nearest_writer(prog: Seq<Insn>, at: int, reg: u32) -> Option<int>
    decreases at,
{
    if at <= 0 {
        None
    } else if prog[at - 1].spec_dest() == Some(reg) {
        Some(at - 1)
    } else {
        nearest_writer(prog, at - 1, reg)
    }
}

/// Whether the operation at `at` reads `reg`, through its address field or
/// one of its data fields.
pub open spec fn spec_reads_reg(op: Insn, reg: u32) -> bool {
    op.spec_src_addr() == Some(reg) || op.spec_src_data().contains(reg)
}

/// What it means for an edge to be a direct syntactic dependency of the
/// program: the edge's target reads the register through the field its kind
/// names, and the edge's source is the nearest preceding writer.
pub open spec fn is_direct_dep(prog: Seq<Insn>, e: SynDep) -> bool {
    &&& 0 <= e.on < e.at < prog.len()
    &&& nearest_writer(prog, e.at as int, e.reg) == Some(e.on as int)
    &&& match e.kind {
        SynDepKind::Addr => prog[e.at as int].spec_src_addr() == Some(e.reg),
        SynDepKind::Data => prog[e.at as int].spec_src_data().contains(e.reg),
    }
}

/// The direct edges the backward scan for target `j` emits when it reaches
/// position `i`: at most one address edge followed by one data edge, and
/// only when `i` is the nearest writer of the register concerned.
pub open spec fn edges_at(prog: Seq<Insn>, j: int, i: int) -> Seq<SynDep> {
    match prog[i].spec_dest() {
        None => Seq::empty(),
        Some(s) => {
            let addr: Seq<SynDep> = if prog[j].spec_src_addr() == Some(s)
                && nearest_writer(prog, j, s) == Some(i) {
                seq![SynDep { at: j as usize, on: i as usize, reg: s, kind: SynDepKind::Addr }]
            } else {
                Seq::empty()
            };
            let data: Seq<SynDep> = if prog[j].spec_src_data().contains(s)
                && nearest_writer(prog, j, s) == Some(i) {
                seq![SynDep { at: j as usize, on: i as usize, reg: s, kind: SynDepKind::Data }]
            } else {
                Seq::empty()
            };
            addr + data
        },
    }
}

/// The direct edges for target `j` from scan positions `i - 1` down to `0`,
/// in the order the backward scan emits them.
pub open spec fn target_steps(prog: Seq<Insn>, j: int, i: int) -> Seq<SynDep>
    decreases i,
{
    if i <= 0 {
        Seq::empty()
    } else {
        edges_at(prog, j, i - 1) + target_steps(prog, j, i - 1)
    }
}

/// The direct edges for targets `n - 1` down to `0`, in the order the
/// analyzer emits them (highest target first).
pub open spec fn direct_list_down(prog: Seq<Insn>, n: int) -> Seq<SynDep>
    decreases n,
{
    if n <= 0 {
        Seq::empty()
    } else {
        target_steps(prog, n - 1, n - 1) + direct_list_down(prog, n - 1)
    }
}

/// The full direct dependency list of a program.
pub open spec fn spec_direct_list(prog: Seq<Insn>) -> Seq<SynDep> {
    direct_list_down(prog, prog.len() as int)
}

/// One chase along `Calc` links, scanning the direct list from position `y`
/// with `m` the position the chain currently ends at: every time the scan
/// meets a direct edge whose target is `m` and `m` is a `Calc`, the chain
/// extends and an indirect edge to the new source is emitted.
pub open spec fn chase(
    prog: Seq<Insn>,
    direct: Seq<SynDep>,
    y: int,
    j: usize,
    m: usize,
    reg: u32,
    kind: SynDepKind,
) -> Seq<SynDep>
    decreases direct.len() - y,
{
    if y < 0 || y >= direct.len() {
        Seq::empty()
    } else if direct[y].at == m && prog[m as int].spec_carries_dep() {
        seq![SynDep { at: j, on: direct[y].on, reg, kind }]
            + chase(prog, direct, y + 1, j, direct[y].on, reg, kind)
    } else {
        chase(prog, direct, y + 1, j, m, reg, kind)
    }
}

/// The indirect edges produced by chasing from every direct edge at
/// position `x` onward, in emission order.
pub open spec fn indirect_from(prog: Seq<Insn>, direct: Seq<SynDep>, x: int) -> Seq<SynDep>
    decreases direct.len() - x,
{
    if x < 0 || x >= direct.len() {
        Seq::empty()
    } else {
        chase(prog, direct, x + 1, direct[x].at, direct[x].on, direct[x].reg, direct[x].kind)
            + indirect_from(prog, direct, x + 1)
    }
}

/// The full indirect dependency list of a program.
pub open spec fn spec_indirect_list(prog: Seq<Insn>) -> Seq<SynDep> {
    indirect_from(prog, spec_direct_list(prog), 0)
}

/// The direct and indirect syntactic dependencies of one hart's program.
pub struct SyntacticDeps {
    pub direct: Vec<SynDep>,
    pub indirect: Vec<SynDep>,
}

impl SyntacticDeps {
    /// The analysis result for `prog`: both lists are exactly what the
    /// specification-level analysis yields.
    pub open spec fn wf(&self, prog: Seq<Insn>) -> bool {
        &&& self.direct@ == spec_direct_list(prog)
        &&& self.indirect@ == spec_indirect_list(prog)
    }
}

/// Membership in a concatenation is membership in either part.
pub proof fn lemma_concat_contains<A>(a: Seq<A>, b: Seq<A>, x: A)
    ensures
        (a + b).contains(x) <==> a.contains(x) || b.contains(x),
{
    if a.contains(x) {
        let i = choose|i: int| 0 <= i < a.len() && a[i] == x;
        assert((a + b)[i] == x);
    }
    if b.contains(x) {
        let i = choose|i: int| 0 <= i < b.len() && b[i] == x;
        assert((a + b)[a.len() + i] == x);
    }
    if (a + b).contains(x) {
        let i = choose|i: int| 0 <= i < (a + b).len() && (a + b)[i] == x;
        if i < a.len() {
            assert(a[i] == x);
        } else {
            assert(b[i - a.len()] == x);
        }
    }
}

/// `nearest_writer` returns exactly the greatest position before `at`
/// whose operation writes `reg`, or `None` when there is none.
pub proof fn lemma_nearest_writer(prog: Seq<Insn>, at: int, reg: u32)
    ensures
        match nearest_writer(prog, at, reg) {
            Some(i) => 0 <= i < at && prog[i].spec_dest() == Some(reg)
                && forall|m: int| i < m < at ==> prog[m].spec_dest() != Some(reg),
            None => forall|m: int| 0 <= m < at ==> prog[m].spec_dest() != Some(reg),
        },
    decreases at,
{
    if at > 0 {
        lemma_nearest_writer(prog, at - 1, reg);
    }
}

/// An edge is among the steps for target `j` up to `i` exactly when some
/// step below `i` emits it.
proof fn lemma_target_steps_contains(prog: Seq<Insn>, j: int, i: int, e: SynDep)
    ensures
        target_steps(prog, j, i).contains(e)
            <==> exists|i2: int| 0 <= i2 < i && #[trigger] edges_at(prog, j, i2).contains(e),
    decreases i,
{
    if i > 0 {
        lemma_target_steps_contains(prog, j, i - 1, e);
        lemma_concat_contains(edges_at(prog, j, i - 1), target_steps(prog, j, i - 1), e);
        if edges_at(prog, j, i - 1).contains(e) {
            assert(0 <= i - 1 < i && edges_at(prog, j, i - 1).contains(e));
        }
    }
}

/// An edge is in the direct list up to target bound `n` exactly when some
/// target's scan emits it.
proof fn lemma_direct_down_contains(prog: Seq<Insn>, n: int, e: SynDep)
    ensures
        direct_list_down(prog, n).contains(e)
            <==> exists|j: int| 0 <= j < n && #[trigger] target_steps(prog, j, j).contains(e),
    decreases n,
{
    if n > 0 {
        lemma_direct_down_contains(prog, n - 1, e);
        lemma_concat_contains(target_steps(prog, n - 1, n - 1), direct_list_down(prog, n - 1), e);
        if target_steps(prog, n - 1, n - 1).contains(e) {
            assert(0 <= n - 1 < n && target_steps(prog, n - 1, n - 1).contains(e));
        }
    }
}

/// The direct list holds exactly the direct syntactic dependencies of the
/// program. With `lemma_direct_functional` this pins the analysis down:
/// an edge is reported precisely when its source is the nearest preceding
/// writer of a register its target reads.
pub proof fn lemma_direct_list_iff(prog: Seq<Insn>, e: SynDep)
    requires
        prog.len() <= usize::MAX,
    ensures
        spec_direct_list(prog).contains(e) <==> is_direct_dep(prog, e),
{
    lemma_direct_down_contains(prog, prog.len() as int, e);
    if is_direct_dep(prog, e) {
        let j = e.at as int;
        let i = e.on as int;
        lemma_nearest_writer(prog, j, e.reg);
        assert(edges_at(prog, j, i).contains(e)) by {
            let s = prog[i].spec_dest()->Some_0;
            let addr: Seq<SynDep> = if prog[j].spec_src_addr() == Some(s)
                && nearest_writer(prog, j, s) == Some(i) {
                seq![SynDep { at: e.at, on: e.on, reg: s, kind: SynDepKind::Addr }]
            } else {
                Seq::empty()
            };
            let data: Seq<SynDep> = if prog[j].spec_src_data().contains(s)
                && nearest_writer(prog, j, s) == Some(i) {
                seq![SynDep { at: e.at, on: e.on, reg: s, kind: SynDepKind::Data }]
            } else {
                Seq::empty()
            };
            lemma_concat_contains(addr, data, e);
            match e.kind {
                SynDepKind::Addr => {
                    assert(addr[0] == e);
                },
                SynDepKind::Data => {
                    assert(data[0] == e);
                },
            }
        }
        assert(target_steps(prog, j, j).contains(e)) by {
            lemma_target_steps_contains(prog, j, j, e);
        }
    }
    if spec_direct_list(prog).contains(e) {
        let j = choose|j: int| 0 <= j < prog.len()
            && #[trigger] target_steps(prog, j, j).contains(e);
        lemma_target_steps_contains(prog, j, j, e);
        let i = choose|i2: int| 0 <= i2 < j && #[trigger] edges_at(prog, j, i2).contains(e);
        assert(prog[i].spec_dest() is Some);
        let s = prog[i].spec_dest()->Some_0;
        let addr: Seq<SynDep> = if prog[j].spec_src_addr() == Some(s)
            && nearest_writer(prog, j, s) == Some(i) {
            seq![SynDep { at: j as usize, on: i as usize, reg: s, kind: SynDepKind::Addr }]
        } else {
            Seq::empty()
        };
        let data: Seq<SynDep> = if prog[j].spec_src_data().contains(s)
            && nearest_writer(prog, j, s) == Some(i) {
            seq![SynDep { at: j as usize, on: i as usize, reg: s, kind: SynDepKind::Data }]
        } else {
            Seq::empty()
        };
        assert(edges_at(prog, j, i) == addr + data);
        lemma_concat_contains(addr, data, e);
        assert(j as usize as int == j && i as usize as int == i);
        if addr.contains(e) {
            assert(e == addr[0]);
        } else {
            assert(e == data[0]);
        }
    }
}

/// A target with no address source and no data sources gets no direct
/// edges.
proof fn lemma_target_steps_no_sources(prog: Seq<Insn>, j: int, i: int)
    requires
        prog[j].spec_src_addr() is None,
        prog[j].spec_src_data().len() == 0,
    ensures
        target_steps(prog, j, i) == Seq::<SynDep>::empty(),
    decreases i,
{
    if i > 0 {
        lemma_target_steps_no_sources(prog, j, i - 1);
        assert(edges_at(prog, j, i - 1) =~= Seq::<SynDep>::empty());
        assert(target_steps(prog, j, i) =~= Seq::<SynDep>::empty());
    }
}

/// Scans a vector of registers for one register.
fn contains_u32(v: &Vec<u32>, x: u32) -> (r: bool)
    ensures
        r == v@.contains(x),
{
    let mut k: usize = 0;
    while k < v.len()
        invariant
            k <= v.len(),
            forall|k2: int| 0 <= k2 < k ==> v@[k2] != x,
        decreases v.len() - k,
    {
        if v[k] == x {
            assert(v@[k as int] == x);
            return true;
        }
        k = k + 1;
    }
    assert(!v@.contains(x));
    false
}

impl SyntacticDeps {
    /// Extracts the direct and indirect syntactic dependencies of one
    /// hart's program.
    ///
    /// Positions are scanned from last to first; for each position the
    /// backward scan records, per register it reads, the nearest preceding
    /// writer, stopping at the first writer found for that register.
    /// Direct edges are then chased backward through `Calc` links: a `Calc`
    /// both consumes and re-emits a dependency of the same kind, so each
    /// link of such a chain yields an indirect edge to the chain's deeper
    /// source; a chain breaks at the first non-`Calc` link.
    pub fn from_program(prog: &Vec<Insn>) -> (deps: SyntacticDeps)
        ensures
            deps.wf(prog@),
    {
        let n = prog.len();
        let mut direct: Vec<SynDep> = Vec::new();
        let mut j = n;
        while j > 0
            invariant
                j <= n,
                n == prog.len(),
                direct@ + direct_list_down(prog@, j as int) == spec_direct_list(prog@),
            decreases j,
        {
            j = j - 1;
            let ghost pre = direct@;
            let j_src_addr = prog[j].src_addr();
            let j_src_data = prog[j].src_data();
            if j_src_addr.is_some() || j_src_data.len() > 0 {
                let mut dests_found: Vec<u32> = Vec::new();
                let mut ii = j;
                while ii > 0
                    invariant
                        ii <= j,
                        j < n,
                        n == prog.len(),
                        j_src_addr == prog@[j as int].spec_src_addr(),
                        j_src_data@ == prog@[j as int].spec_src_data(),
                        direct@ + target_steps(prog@, j as int, ii as int)
                            == pre + target_steps(prog@, j as int, j as int),
                        forall|r: u32| dests_found@.contains(r)
                            <==> exists|m: int| ii <= m < j && prog@[m].spec_dest() == Some(r),
                    decreases ii,
                {
                    ii = ii - 1;
                    let ghost old_direct = direct@;
                    let ghost old_found = dests_found@;
                    if let Some(s) = prog[ii].dest() {
                        let in_found = contains_u32(&dests_found, s);
                        proof {
                            lemma_nearest_writer(prog@, j as int, s);
                            if !in_found {
                                assert(forall|m: int| ii < m < j
                                    ==> prog@[m].spec_dest() != Some(s)) by {
                                    assert(forall|m: int| ii + 1 <= m < j
                                        ==> prog@[m].spec_dest() != Some(s));
                                }
                                assert(nearest_writer(prog@, j as int, s) == Some(ii as int));
                            } else {
                                let m = choose|m: int| ii + 1 <= m < j
                                    && prog@[m].spec_dest() == Some(s);
                                assert(nearest_writer(prog@, j as int, s) != Some(ii as int));
                            }
                        }
                        if let Some(r) = j_src_addr {
                            if r == s && !in_found {
                                direct.push(SynDep { at: j, on: ii, reg: s, kind: SynDepKind::Addr });
                            }
                        }
                        if contains_u32(&j_src_data, s) && !in_found {
                            direct.push(SynDep { at: j, on: ii, reg: s, kind: SynDepKind::Data });
                        }
                        dests_found.push(s);
                        proof {
                            assert(direct@ =~= old_direct + edges_at(prog@, j as int, ii as int));
                            assert(forall|r: u32| dests_found@.contains(r)
                                <==> old_found.contains(r) || r == s) by {
                                assert(forall|r: u32| old_found.contains(r)
                                    ==> dests_found@.contains(r)) by {
                                    assert(forall|k2: int| 0 <= k2 < old_found.len()
                                        ==> dests_found@[k2] == old_found[k2]);
                                }
                                assert(dests_found@[old_found.len() as int] == s);
                            }
                        }
                    } else {
                        proof {
                            assert(edges_at(prog@, j as int, ii as int)
                                =~= Seq::<SynDep>::empty());
                            assert(direct@ =~= old_direct + edges_at(prog@, j as int, ii as int));
                        }
                    }
                    proof {
                        assert(target_steps(prog@, j as int, ii + 1)
                            == edges_at(prog@, j as int, ii as int)
                                + target_steps(prog@, j as int, ii as int));
                        assert(direct@ + target_steps(prog@, j as int, ii as int)
                            =~= old_direct + target_steps(prog@, j as int, ii + 1));
                        assert forall|r: u32| dests_found@.contains(r)
                            implies exists|m: int| ii <= m < j
                                && prog@[m].spec_dest() == Some(r) by {
                            if old_found.contains(r) {
                                let m0 = choose|m: int| ii + 1 <= m < j
                                    && prog@[m].spec_dest() == Some(r);
                                assert(ii <= m0 < j && prog@[m0].spec_dest() == Some(r));
                            } else {
                                assert(prog@[ii as int].spec_dest() == Some(r));
                                assert(ii <= ii < j);
                            }
                        }
                        assert forall|r: u32| (exists|m: int| ii <= m < j
                            && prog@[m].spec_dest() == Some(r))
                            implies dests_found@.contains(r) by {
                            let m0 = choose|m: int| ii <= m < j
                                && prog@[m].spec_dest() == Some(r);
                            if m0 == ii {
                                assert(dests_found@.contains(r));
                            } else {
                                assert(ii + 1 <= m0 < j && prog@[m0].spec_dest() == Some(r));
                                assert(old_found.contains(r));
                            }
                        }
                    }
                }
                proof {
                    assert(direct@ =~= pre + target_steps(prog@, j as int, j as int));
                }
            } else {
                proof {
                    lemma_target_steps_no_sources(prog@, j as int, j as int);
                    assert(direct@ =~= pre + target_steps(prog@, j as int, j as int));
                }
            }
            proof {
                assert(direct_list_down(prog@, j + 1)
                    == target_steps(prog@, j as int, j as int) + direct_list_down(prog@, j as int));
                assert(direct@ + direct_list_down(prog@, j as int)
                    =~= pre + direct_list_down(prog@, j + 1));
            }
        }
        proof {
            assert(direct@ =~= direct@ + direct_list_down(prog@, 0));
        }

        let ghost dl = direct@;
        let mut indirect: Vec<SynDep> = Vec::new();
        let mut x: usize = 0;
        while x < direct.len()
            invariant
                x <= direct.len(),
                n == prog.len(),
                direct@ == dl,
                dl == spec_direct_list(prog@),
                indirect@ + indirect_from(prog@, dl, x as int) == spec_indirect_list(prog@),
            decreases direct.len() - x,
        {
            let e = direct[x];
            let ghost base = indirect@;
            proof {
                assert(dl.contains(e));
                lemma_direct_list_iff(prog@, e);
                assert(indirect_from(prog@, dl, x as int)
                    == chase(prog@, dl, x + 1, e.at, e.on, e.reg, e.kind)
                        + indirect_from(prog@, dl, x + 1));
            }
            let mut m = e.on;
            let mut y = x + 1;
            while y < direct.len()
                invariant
                    x < direct.len(),
                    x + 1 <= y <= direct.len(),
                    n == prog.len(),
                    direct@ == dl,
                    dl == spec_direct_list(prog@),
                    e == dl[x as int],
                    m < n,
                    indirect@ + chase(prog@, dl, y as int, e.at, m, e.reg, e.kind)
                        == base + chase(prog@, dl, x + 1, e.at, e.on, e.reg, e.kind),
                decreases direct.len() - y,
            {
                let e2 = direct[y];
                let ghost old_ind = indirect@;
                let ghost old_m = m;
                if e2.at == m && prog[m].carries_dep() {
                    proof {
                        assert(dl.contains(e2));
                        lemma_direct_list_iff(prog@, e2);
                    }
                    indirect.push(SynDep { at: e.at, on: e2.on, reg: e.reg, kind: e.kind });
                    m = e2.on;
                }
                proof {
                    assert(chase(prog@, dl, y as int, e.at, old_m, e.reg, e.kind)
                        == if dl[y as int].at == old_m && prog@[old_m as int].spec_carries_dep() {
                            seq![SynDep { at: e.at, on: dl[y as int].on, reg: e.reg, kind: e.kind }]
                                + chase(prog@, dl, y + 1, e.at, dl[y as int].on, e.reg, e.kind)
                        } else {
                            chase(prog@, dl, y + 1, e.at, old_m, e.reg, e.kind)
                        });
                    assert(indirect@ + chase(prog@, dl, y + 1, e.at, m, e.reg, e.kind)
                        =~= old_ind + chase(prog@, dl, y as int, e.at, old_m, e.reg, e.kind));
                }
                y = y + 1;
            }
            proof {
                assert(indirect@ =~= base + chase(prog@, dl, x + 1, e.at, e.on, e.reg, e.kind));
                assert(indirect@ + indirect_from(prog@, dl, x + 1)
                    =~= base + indirect_from(prog@, dl, x as int));
            }
            x = x + 1;
        }
        proof {
            assert(indirect@ =~= indirect@ + indirect_from(prog@, dl, dl.len() as int));
        }

        SyntacticDeps { direct, indirect }
    }
}

/// The statically resolved value of `reg` as read at position `at`: the
/// literal value carried by the nearest preceding writer, or `None` when
/// the position does not read the register or no writer precedes it. This
/// lookup is purely syntactic and never consults a global memory order.
pub open spec fn spec_register_value(prog: Seq<Insn>, reg: u32, at: int) -> Option<u32> {
    if 0 <= at < prog.len() && spec_reads_reg(prog[at], reg) {
        match nearest_writer(prog, at, reg) {
            Some(i) => Some(prog[i].spec_dest_val()),
            None => None,
        }
    } else {
        None
    }
}

impl SyntacticDeps {
    /// Resolves the value register `reg` holds when the operation at
    /// position `at` reads it, by following the recorded direct dependency
    /// to the nearest preceding writer's literal value. `None` means the
    /// register is program input (externally initialized) or not read at
    /// `at` at all.
    pub fn register_value(&self, prog: &Vec<Insn>, reg: u32, at: usize) -> (r: Option<u32>)
        requires
            self.wf(prog@),
        ensures
            r == spec_register_value(prog@, reg, at as int),
    {
        let n = prog.len();
        assert(prog@.len() <= usize::MAX);
        let mut k: usize = 0;
        while k < self.direct.len()
            invariant
                k <= self.direct.len(),
                self.wf(prog@),
                prog@.len() <= usize::MAX,
                forall|k2: int| 0 <= k2 < k
                    ==> !(self.direct@[k2].at == at && self.direct@[k2].reg == reg),
            decreases self.direct.len() - k,
        {
            let e = self.direct[k];
            if e.at == at && e.reg == reg {
                proof {
                    assert(self.direct@.contains(e));
                    lemma_direct_list_iff(prog@, e);
                    lemma_nearest_writer(prog@, at as int, reg);
                }
                let v = match prog[e.on] {
                    Insn::Load { rd, val, .. } if rd == reg => val,
                    Insn::Amo { rd, load_val, .. } if rd == reg => load_val,
                    Insn::Lr { rd, val, .. } if rd == reg => val,
                    Insn::Calc { rd, val, .. } if rd == reg => val,
                    _ => 0,
                };
                return Some(v);
            }
            k = k + 1;
        }
        proof {
            if spec_register_value(prog@, reg, at as int) is Some {
                lemma_nearest_writer(prog@, at as int, reg);
                let i = nearest_writer(prog@, at as int, reg)->Some_0;
                let kind = if prog@[at as int].spec_src_addr() == Some(reg) {
                    SynDepKind::Addr
                } else {
                    SynDepKind::Data
                };
                let e = SynDep { at, on: i as usize, reg, kind };
                assert(is_direct_dep(prog@, e));
                lemma_direct_list_iff(prog@, e);
                let k2 = choose|k2: int| 0 <= k2 < self.direct@.len()
                    && self.direct@[k2] == e;
                assert(false);
            }
        }
        None
    }
}

/// Every edge a chase emits keeps the chased register and kind, and its
/// source is reached through a `Calc` link: some `Calc` position has a
/// direct edge onto the emitted source, and is itself the chain's current
/// end or the target of an earlier emitted link.
proof fn lemma_chase_links(
    prog: Seq<Insn>,
    d: Seq<SynDep>,
    y: int,
    j: usize,
    m: usize,
    reg: u32,
    kind: SynDepKind,
    e: SynDep,
)
    requires
        chase(prog, d, y, j, m, reg, kind).contains(e),
    ensures
        e.at == j && e.reg == reg && e.kind == kind,
        exists|m2: usize| {
            &&& #[trigger] prog[m2 as int].spec_carries_dep()
            &&& exists|e2: SynDep| #[trigger] d.contains(e2) && e2.at == m2 && e2.on == e.on
            &&& (m2 == m
                || chase(prog, d, y, j, m, reg, kind).contains(
                    SynDep { at: j, on: m2, reg, kind }))
        },
    decreases d.len() - y,
{
    let out = chase(prog, d, y, j, m, reg, kind);
    if y < 0 || y >= d.len() {
        assert(false);
    } else if d[y].at == m && prog[m as int].spec_carries_dep() {
        let e0 = SynDep { at: j, on: d[y].on, reg, kind };
        let rest = chase(prog, d, y + 1, j, d[y].on, reg, kind);
        lemma_concat_contains(seq![e0], rest, e);
        if e == e0 {
            assert(d.contains(d[y]));
            assert({
                &&& prog[m as int].spec_carries_dep()
                &&& exists|e2: SynDep| #[trigger] d.contains(e2) && e2.at == m && e2.on == e.on
                &&& (m == m || out.contains(SynDep { at: j, on: m, reg, kind }))
            });
        } else {
            assert(seq![e0][0] != e);
            assert(rest.contains(e));
            lemma_chase_links(prog, d, y + 1, j, d[y].on, reg, kind, e);
            let m2 = choose|m2: usize| {
                &&& #[trigger] prog[m2 as int].spec_carries_dep()
                &&& exists|e2: SynDep| #[trigger] d.contains(e2) && e2.at == m2 && e2.on == e.on
                &&& (m2 == d[y].on
                    || chase(prog, d, y + 1, j, d[y].on, reg, kind).contains(
                        SynDep { at: j, on: m2, reg, kind }))
            };
            if m2 == d[y].on {
                assert(out[0] == e0);
                assert(out.contains(SynDep { at: j, on: m2, reg, kind }));
            } else {
                lemma_concat_contains(seq![e0], rest, SynDep { at: j, on: m2, reg, kind });
                assert(out.contains(SynDep { at: j, on: m2, reg, kind }));
            }
            assert({
                &&& prog[m2 as int].spec_carries_dep()
                &&& exists|e2: SynDep| #[trigger] d.contains(e2) && e2.at == m2 && e2.on == e.on
                &&& (m2 == m || out.contains(SynDep { at: j, on: m2, reg, kind }))
            });
        }
    } else {
        lemma_chase_links(prog, d, y + 1, j, m, reg, kind, e);
    }
}

/// As `lemma_chase_links`, lifted to the whole indirect pass: each
/// indirect edge's source is reached from a direct or earlier indirect
/// edge of the same target, register and kind, through a `Calc` link.
proof fn lemma_indirect_from_links(prog: Seq<Insn>, d: Seq<SynDep>, x: int, e: SynDep)
    requires
        indirect_from(prog, d, x).contains(e),
    ensures
        exists|m2: usize| {
            &&& #[trigger] prog[m2 as int].spec_carries_dep()
            &&& exists|e2: SynDep| #[trigger] d.contains(e2) && e2.at == m2 && e2.on == e.on
            &&& (d.contains(SynDep { at: e.at, on: m2, reg: e.reg, kind: e.kind })
                || indirect_from(prog, d, x).contains(
                    SynDep { at: e.at, on: m2, reg: e.reg, kind: e.kind }))
        },
    decreases d.len() - x,
{
    let out = indirect_from(prog, d, x);
    if x < 0 || x >= d.len() {
        assert(false);
    } else {
        let part1 = chase(prog, d, x + 1, d[x].at, d[x].on, d[x].reg, d[x].kind);
        let part2 = indirect_from(prog, d, x + 1);
        lemma_concat_contains(part1, part2, e);
        if part1.contains(e) {
            lemma_chase_links(prog, d, x + 1, d[x].at, d[x].on, d[x].reg, d[x].kind, e);
            let m2 = choose|m2: usize| {
                &&& #[trigger] prog[m2 as int].spec_carries_dep()
                &&& exists|e2: SynDep| #[trigger] d.contains(e2) && e2.at == m2 && e2.on == e.on
                &&& (m2 == d[x].on
                    || part1.contains(SynDep { at: d[x].at, on: m2, reg: d[x].reg, kind: d[x].kind }))
            };
            if m2 == d[x].on {
                assert(d.contains(d[x]));
                assert(d[x] == SynDep { at: e.at, on: m2, reg: e.reg, kind: e.kind });
            } else {
                lemma_concat_contains(part1, part2,
                    SynDep { at: e.at, on: m2, reg: e.reg, kind: e.kind });
            }
            assert({
                &&& prog[m2 as int].spec_carries_dep()
                &&& exists|e2: SynDep| #[trigger] d.contains(e2) && e2.at == m2 && e2.on == e.on
                &&& (d.contains(SynDep { at: e.at, on: m2, reg: e.reg, kind: e.kind })
                    || out.contains(SynDep { at: e.at, on: m2, reg: e.reg, kind: e.kind }))
            });
        } else {
            lemma_indirect_from_links(prog, d, x + 1, e);
            let m2 = choose|m2: usize| {
                &&& #[trigger] prog[m2 as int].spec_carries_dep()
                &&& exists|e2: SynDep| #[trigger] d.contains(e2) && e2.at == m2 && e2.on == e.on
                &&& (d.contains(SynDep { at: e.at, on: m2, reg: e.reg, kind: e.kind })
                    || part2.contains(SynDep { at: e.at, on: m2, reg: e.reg, kind: e.kind }))
            };
            if part2.contains(SynDep { at: e.at, on: m2, reg: e.reg, kind: e.kind }) {
                lemma_concat_contains(part1, part2,
                    SynDep { at: e.at, on: m2, reg: e.reg, kind: e.kind });
            }
            assert({
                &&& prog[m2 as int].spec_carries_dep()
                &&& exists|e2: SynDep| #[trigger] d.contains(e2) && e2.at == m2 && e2.on == e.on
                &&& (d.contains(SynDep { at: e.at, on: m2, reg: e.reg, kind: e.kind })
                    || out.contains(SynDep { at: e.at, on: m2, reg: e.reg, kind: e.kind }))
            });
        }
    }
}

/// Indirect dependencies only ever traverse `Calc` links: every reported
/// indirect edge reaches its source through a `Calc` operation that has a
/// direct edge onto that source and is itself the target of a direct or
/// indirect edge of the same dependent position, register and kind. A
/// chain through any non-`Calc` intermediate is never reported.
pub proof fn lemma_indirect_traverses_calc(prog: Seq<Insn>, e: SynDep)
    requires
        spec_indirect_list(prog).contains(e),
    ensures
        exists|m2: usize| {
            &&& #[trigger] prog[m2 as int].spec_carries_dep()
            &&& exists|e2: SynDep| #[trigger] spec_direct_list(prog).contains(e2)
                && e2.at == m2 && e2.on == e.on
            &&& (spec_direct_list(prog).contains(
                    SynDep { at: e.at, on: m2, reg: e.reg, kind: e.kind })
                || spec_indirect_list(prog).contains(
                    SynDep { at: e.at, on: m2, reg: e.reg, kind: e.kind }))
        },
{
    lemma_indirect_from_links(prog, spec_direct_list(prog), 0, e);
}

/// Register 0 never appears as the register of any reported edge, direct
/// or indirect.
pub proof fn lemma_no_register_zero(prog: Seq<Insn>, e: SynDep)
    requires
        prog.len() <= usize::MAX,
        spec_direct_list(prog).contains(e) || spec_indirect_list(prog).contains(e),
    ensures
        e.reg != 0,
{
    if spec_direct_list(prog).contains(e) {
        lemma_direct_list_iff(prog, e);
        lemma_nearest_writer(prog, e.at as int, e.reg);
        assert(prog[e.on as int].spec_dest() != Some(0u32));
    } else {
        lemma_indirect_reg_nonzero(prog, spec_direct_list(prog), 0, e);
    }
}

/// Chased edges inherit the register of the direct edge the chase started
/// from, so no indirect edge names register 0 either.
proof fn lemma_indirect_reg_nonzero(prog: Seq<Insn>, d: Seq<SynDep>, x: int, e: SynDep)
    requires
        prog.len() <= usize::MAX,
        d == spec_direct_list(prog),
        indirect_from(prog, d, x).contains(e),
    ensures
        e.reg != 0,
    decreases d.len() - x,
{
    if x < 0 || x >= d.len() {
        assert(false);
    } else {
        let part1 = chase(prog, d, x + 1, d[x].at, d[x].on, d[x].reg, d[x].kind);
        let part2 = indirect_from(prog, d, x + 1);
        lemma_concat_contains(part1, part2, e);
        if part1.contains(e) {
            lemma_chase_links(prog, d, x + 1, d[x].at, d[x].on, d[x].reg, d[x].kind, e);
            assert(d.contains(d[x]));
            lemma_direct_list_iff(prog, d[x]);
            lemma_nearest_writer(prog, d[x].at as int, d[x].reg);
            assert(prog[d[x].on as int].spec_dest() != Some(0u32));
        } else {
            lemma_indirect_reg_nonzero(prog, d, x + 1, e);
        }
    }
}

/// Direct dependencies form a function: for one target position and one
/// register there is at most one source position.
pub proof fn lemma_direct_functional(prog: Seq<Insn>, e1: SynDep, e2: SynDep)
    requires
        prog.len() <= usize::MAX,
        spec_direct_list(prog).contains(e1),
        spec_direct_list(prog).contains(e2),
        e1.at == e2.at,
        e1.reg == e2.reg,
    ensures
        e1.on == e2.on,
{
    lemma_direct_list_iff(prog, e1);
    lemma_direct_list_iff(prog, e2);
}

} // verus!
