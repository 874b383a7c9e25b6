//! The global memory order: a single interleaving of all harts' memory
//! operations, each entry a `(hart, program index)` pair.
//!
//! A well-formed order holds exactly one entry per memory-affecting
//! operation of every hart (`Fence` and `Calc` never appear), and within
//! one hart the entries respect program order. Violating this is a
//! well-formedness error of the input, not a consistency failure.

use vstd::prelude::*;
use crate::insn::Insn;

verus! {

/// The mathematical view of a set of hart programs.
pub open spec fn progs_view(progs: &Vec<Vec<Insn>>) -> Seq<Seq<Insn>> {
    Seq::new(progs@.len(), |h: int| progs@[h]@)
}

/// Whether one order entry names a memory operation that exists.
pub open spec fn gmo_entry_valid(progs: Seq<Seq<Insn>>, entry: (usize, usize)) -> bool {
    &&& (entry.0 as int) < progs.len()
    &&& (entry.1 as int) < progs[entry.0 as int].len()
    &&& progs[entry.0 as int][entry.1 as int].spec_is_mem()
}

/// Whether the order has an entry for hart `h`, program position `p`.
pub open spec fn gmo_covers(gmo: Seq<(usize, usize)>, h: int, p: int) -> bool {
    exists|g: int| 0 <= g < gmo.len() && (#[trigger] gmo[g]).0 == h && gmo[g].1 == p
}

/// The order's position of the entry for hart `h`, program position `p`
/// (meaningful under `gmo_covers`; unique under `gmo_wf`).
pub open spec fn gmo_position(gmo: Seq<(usize, usize)>, h: int, p: int) -> int {
    choose|g: int| 0 <= g < gmo.len() && (#[trigger] gmo[g]).0 == h && gmo[g].1 == p
}

/// Well-formedness of a candidate global memory order: every entry names
/// an existing memory operation, entries of one hart appear in program
/// order (which also rules out duplicates), and every memory operation of
/// every hart appears.
pub open spec fn gmo_wf(progs: Seq<Seq<Insn>>, gmo: Seq<(usize, usize)>) -> bool {
    &&& forall|g: int| 0 <= g < gmo.len() ==> gmo_entry_valid(progs, #[trigger] gmo[g])
    &&& forall|g1: int, g2: int|
        0 <= g1 < g2 < gmo.len() && (#[trigger] gmo[g1]).0 == (#[trigger] gmo[g2]).0
            ==> gmo[g1].1 < gmo[g2].1
    &&& forall|h: int, p: int|
        0 <= h < progs.len() && 0 <= p < progs[h].len()
            && (#[trigger] progs[h][p]).spec_is_mem() ==> gmo_covers(gmo, h, p)
}

/// Under a well-formed order, `gmo_position` is the one position holding
/// the entry for `(h, p)`.
pub proof fn lemma_gmo_position(progs: Seq<Seq<Insn>>, gmo: Seq<(usize, usize)>, h: int, p: int)
    requires
        gmo_wf(progs, gmo),
        gmo_covers(gmo, h, p),
    ensures
        0 <= gmo_position(gmo, h, p) < gmo.len(),
        (gmo[gmo_position(gmo, h, p)].0 as int) == h,
        (gmo[gmo_position(gmo, h, p)].1 as int) == p,
        forall|g: int| 0 <= g < gmo.len() && (#[trigger] gmo[g]).0 == h && gmo[g].1 == p
            ==> g == gmo_position(gmo, h, p),
{
    let g0 = gmo_position(gmo, h, p);
    assert forall|g: int| 0 <= g < gmo.len() && (#[trigger] gmo[g]).0 == h && gmo[g].1 == p
        implies g == g0 by {
        if g < g0 {
            assert(gmo[g].1 < gmo[g0].1);
        } else if g0 < g {
            assert(gmo[g0].1 < gmo[g].1);
        }
    }
}

/// Under a well-formed order, positions within one hart are ordered as
/// program order.
pub proof fn lemma_gmo_position_monotone(
    progs: Seq<Seq<Insn>>,
    gmo: Seq<(usize, usize)>,
    h: int,
    p1: int,
    p2: int,
)
    requires
        gmo_wf(progs, gmo),
        gmo_covers(gmo, h, p1),
        gmo_covers(gmo, h, p2),
        p1 < p2,
    ensures
        gmo_position(gmo, h, p1) < gmo_position(gmo, h, p2),
{
    lemma_gmo_position(progs, gmo, h, p1);
    lemma_gmo_position(progs, gmo, h, p2);
    let g1 = gmo_position(gmo, h, p1);
    let g2 = gmo_position(gmo, h, p2);
    if g2 < g1 {
        assert(gmo[g2].1 < gmo[g1].1);
    }
    assert(g1 != g2);
}

/// The entries of hart `h`'s memory operations from position `p` on, in
/// program order.
pub open spec fn seq_gmo_hart(prog: Seq<Insn>, h: int, p: int) -> Seq<(usize, usize)>
    decreases prog.len() - p,
{
    if p < 0 || p >= prog.len() {
        Seq::empty()
    } else {
        let head: Seq<(usize, usize)> = if prog[p].spec_is_mem() {
            seq![(h as usize, p as usize)]
        } else {
            Seq::empty()
        };
        head + seq_gmo_hart(prog, h, p + 1)
    }
}

/// The trivial order from hart `h` on: one hart after another, each in
/// program order.
pub open spec fn spec_sequential_gmo_from(progs: Seq<Seq<Insn>>, h: int) -> Seq<(usize, usize)>
    decreases progs.len() - h,
{
    if h < 0 || h >= progs.len() {
        Seq::empty()
    } else {
        seq_gmo_hart(progs[h], h, 0) + spec_sequential_gmo_from(progs, h + 1)
    }
}

/// The trivial order: all harts' memory operations, one hart after
/// another, each hart in program order.
pub open spec fn spec_sequential_gmo(progs: Seq<Seq<Insn>>) -> Seq<(usize, usize)> {
    spec_sequential_gmo_from(progs, 0)
}

/// Every entry of one hart's block names hart `h`, entries ascend in
/// program order, and every memory operation from `p0` on is present.
proof fn lemma_seq_gmo_hart_props(prog: Seq<Insn>, h: int, p0: int)
    requires
        0 <= h <= usize::MAX,
        0 <= p0,
        prog.len() <= usize::MAX,
    ensures
        forall|i: int| 0 <= i < seq_gmo_hart(prog, h, p0).len()
            ==> ((#[trigger] seq_gmo_hart(prog, h, p0)[i]).0 as int == h
                && p0 <= (seq_gmo_hart(prog, h, p0)[i].1 as int) < prog.len()
                && prog[seq_gmo_hart(prog, h, p0)[i].1 as int].spec_is_mem()),
        forall|i: int, j: int| 0 <= i < j < seq_gmo_hart(prog, h, p0).len()
            ==> (#[trigger] seq_gmo_hart(prog, h, p0)[i]).1
                < (#[trigger] seq_gmo_hart(prog, h, p0)[j]).1,
        forall|p: int| p0 <= p < prog.len() && (#[trigger] prog[p]).spec_is_mem()
            ==> gmo_covers(seq_gmo_hart(prog, h, p0), h, p),
    decreases prog.len() - p0,
{
    let out = seq_gmo_hart(prog, h, p0);
    if p0 < prog.len() {
        lemma_seq_gmo_hart_props(prog, h, p0 + 1);
        let head: Seq<(usize, usize)> = if prog[p0].spec_is_mem() {
            seq![(h as usize, p0 as usize)]
        } else {
            Seq::empty()
        };
        let tail = seq_gmo_hart(prog, h, p0 + 1);
        assert(out == head + tail);
        assert forall|p: int| p0 <= p < prog.len() && (#[trigger] prog[p]).spec_is_mem()
            implies gmo_covers(out, h, p) by {
            if p == p0 {
                assert(out[0] == (h as usize, p0 as usize));
            } else {
                assert(gmo_covers(tail, h, p));
                let g = choose|g: int| 0 <= g < tail.len()
                    && (#[trigger] tail[g]).0 == h && tail[g].1 == p;
                assert(out[head.len() + g] == tail[g]);
            }
        }
    }
}

/// The trivial sequential order is well-formed.
pub proof fn lemma_sequential_gmo_wf(progs: Seq<Seq<Insn>>)
    requires
        progs.len() <= usize::MAX,
        forall|h: int| 0 <= h < progs.len() ==> (#[trigger] progs[h]).len() <= usize::MAX,
    ensures
        gmo_wf(progs, spec_sequential_gmo(progs)),
{
    lemma_sequential_gmo_from_wf(progs, 0);
}

/// As `lemma_sequential_gmo_wf`, for the order built from hart `h0` on.
proof fn lemma_sequential_gmo_from_wf(progs: Seq<Seq<Insn>>, h0: int)
    requires
        0 <= h0,
        progs.len() <= usize::MAX,
        forall|h: int| 0 <= h < progs.len() ==> (#[trigger] progs[h]).len() <= usize::MAX,
    ensures
        forall|g: int| 0 <= g < spec_sequential_gmo_from(progs, h0).len()
            ==> gmo_entry_valid(progs, #[trigger] spec_sequential_gmo_from(progs, h0)[g])
                && h0 <= (spec_sequential_gmo_from(progs, h0)[g].0 as int),
        forall|g1: int, g2: int| 0 <= g1 < g2 < spec_sequential_gmo_from(progs, h0).len()
            && (#[trigger] spec_sequential_gmo_from(progs, h0)[g1]).0
                == (#[trigger] spec_sequential_gmo_from(progs, h0)[g2]).0
            ==> spec_sequential_gmo_from(progs, h0)[g1].1
                < spec_sequential_gmo_from(progs, h0)[g2].1,
        forall|h: int, p: int| h0 <= h < progs.len() && 0 <= p < progs[h].len()
            && (#[trigger] progs[h][p]).spec_is_mem()
            ==> gmo_covers(spec_sequential_gmo_from(progs, h0), h, p),
    decreases progs.len() - h0,
{
    let out = spec_sequential_gmo_from(progs, h0);
    if h0 < progs.len() {
        lemma_sequential_gmo_from_wf(progs, h0 + 1);
        lemma_seq_gmo_hart_props(progs[h0], h0, 0);
        let head = seq_gmo_hart(progs[h0], h0, 0);
        let tail = spec_sequential_gmo_from(progs, h0 + 1);
        assert(out == head + tail);
        assert forall|g: int| 0 <= g < out.len()
            implies gmo_entry_valid(progs, #[trigger] out[g]) && h0 <= (out[g].0 as int) by {
            if g < head.len() {
                assert(out[g] == head[g]);
            } else {
                assert(out[g] == tail[g - head.len()]);
            }
        }
        assert forall|g1: int, g2: int| 0 <= g1 < g2 < out.len()
            && (#[trigger] out[g1]).0 == (#[trigger] out[g2]).0
            implies out[g1].1 < out[g2].1 by {
            if g2 < head.len() {
                assert(out[g1] == head[g1] && out[g2] == head[g2]);
            } else if g1 >= head.len() {
                assert(out[g1] == tail[g1 - head.len()] && out[g2] == tail[g2 - head.len()]);
            } else {
                assert(out[g1] == head[g1] && out[g2] == tail[g2 - head.len()]);
                assert((out[g1].0 as int) == h0 && h0 + 1 <= (out[g2].0 as int));
            }
        }
        assert forall|h: int, p: int| h0 <= h < progs.len() && 0 <= p < progs[h].len()
            && (#[trigger] progs[h][p]).spec_is_mem()
            implies gmo_covers(out, h, p) by {
            if h == h0 {
                assert(gmo_covers(head, h, p));
                let g = choose|g: int| 0 <= g < head.len()
                    && (#[trigger] head[g]).0 == h && head[g].1 == p;
                assert(out[g] == head[g]);
            } else {
                assert(gmo_covers(tail, h, p));
                let g = choose|g: int| 0 <= g < tail.len()
                    && (#[trigger] tail[g]).0 == h && tail[g].1 == p;
                assert(out[head.len() + g] == tail[g]);
            }
        }
    }
}

/// Builds the trivial order: one hart after another, each hart's memory
/// operations in program order. This is the order the reference command
/// line builds; arbitrary permutations come from the caller.
pub fn sequential_gmo(progs: &Vec<Vec<Insn>>) -> (r: Vec<(usize, usize)>)
    ensures
        r@ == spec_sequential_gmo(progs_view(progs)),
{
    let ghost pv = progs_view(progs);
    let mut out: Vec<(usize, usize)> = Vec::new();
    let mut h: usize = 0;
    while h < progs.len()
        invariant
            h <= progs@.len(),
            pv == progs_view(progs),
            out@ + spec_sequential_gmo_from(pv, h as int) == spec_sequential_gmo(pv),
        decreases progs@.len() - h,
    {
        let ghost base = out@;
        let n = progs[h].len();
        proof {
            assert(pv[h as int] == progs@[h as int]@);
        }
        let mut p: usize = 0;
        while p < n
            invariant
                p <= n,
                h < progs@.len(),
                n == pv[h as int].len(),
                pv == progs_view(progs),
                out@ + seq_gmo_hart(pv[h as int], h as int, p as int)
                    == base + seq_gmo_hart(pv[h as int], h as int, 0),
            decreases n - p,
        {
            let ghost old_out = out@;
            if progs[h][p].is_mem() {
                out.push((h, p));
            }
            proof {
                assert(seq_gmo_hart(pv[h as int], h as int, p as int)
                    == (if pv[h as int][p as int].spec_is_mem() {
                        seq![(h, p)]
                    } else {
                        Seq::<(usize, usize)>::empty()
                    }) + seq_gmo_hart(pv[h as int], h as int, p + 1));
                assert(out@ + seq_gmo_hart(pv[h as int], h as int, p + 1)
                    =~= old_out + seq_gmo_hart(pv[h as int], h as int, p as int));
            }
            p = p + 1;
        }
        proof {
            assert(seq_gmo_hart(pv[h as int], h as int, n as int)
                =~= Seq::<(usize, usize)>::empty());
            assert(out@ =~= base + seq_gmo_hart(pv[h as int], h as int, 0));
            assert(spec_sequential_gmo_from(pv, h as int)
                == seq_gmo_hart(pv[h as int], h as int, 0)
                    + spec_sequential_gmo_from(pv, h + 1));
            assert(out@ + spec_sequential_gmo_from(pv, h + 1)
                =~= base + spec_sequential_gmo_from(pv, h as int));
        }
        h = h + 1;
    }
    proof {
        assert(spec_sequential_gmo_from(pv, progs@.len() as int)
            =~= Seq::<(usize, usize)>::empty());
        assert(out@ =~= spec_sequential_gmo(pv));
    }
    out
}

/// Scans the order for the entry of hart `h`, program position `p`.
pub fn gmo_index_of(gmo: &Vec<(usize, usize)>, h: usize, p: usize) -> (r: Option<usize>)
    ensures
        match r {
            Some(g) => (g as int) < gmo@.len() && gmo@[g as int].0 == h && gmo@[g as int].1 == p,
            None => !gmo_covers(gmo@, h as int, p as int),
        },
{
    let mut g: usize = 0;
    while g < gmo.len()
        invariant
            g <= gmo@.len(),
            forall|g2: int| 0 <= g2 < g
                ==> !((#[trigger] gmo@[g2]).0 == h && gmo@[g2].1 == p),
        decreases gmo@.len() - g,
    {
        let (eh, ep) = gmo[g];
        if eh == h && ep == p {
            return Some(g);
        }
        g = g + 1;
    }
    None
}

/// Decides well-formedness of a candidate global memory order.
pub fn check_gmo_wf(progs: &Vec<Vec<Insn>>, gmo: &Vec<(usize, usize)>) -> (r: bool)
    ensures
        r == gmo_wf(progs_view(progs), gmo@),
{
    let ghost pv = progs_view(progs);
    let mut g: usize = 0;
    while g < gmo.len()
        invariant
            g <= gmo@.len(),
            pv == progs_view(progs),
            forall|g2: int| 0 <= g2 < g ==> gmo_entry_valid(pv, #[trigger] gmo@[g2]),
        decreases gmo@.len() - g,
    {
        let (eh, ep) = gmo[g];
        if eh >= progs.len() {
            return false;
        }
        if ep >= progs[eh].len() {
            return false;
        }
        if !progs[eh][ep].is_mem() {
            return false;
        }
        g = g + 1;
    }

    let mut g2: usize = 0;
    while g2 < gmo.len()
        invariant
            g2 <= gmo@.len(),
            forall|a: int, b: int| 0 <= a < b < g2 && (#[trigger] gmo@[a]).0 == (#[trigger] gmo@[b]).0
                ==> gmo@[a].1 < gmo@[b].1,
        decreases gmo@.len() - g2,
    {
        let (bh, bp) = gmo[g2];
        let mut g1: usize = 0;
        while g1 < g2
            invariant
                g1 <= g2 < gmo@.len(),
                (bh, bp) == gmo@[g2 as int],
                forall|a: int| 0 <= a < g1 && (#[trigger] gmo@[a]).0 == bh
                    ==> gmo@[a].1 < bp,
            decreases g2 - g1,
        {
            let (ah, ap) = gmo[g1];
            if ah == bh && ap >= bp {
                return false;
            }
            g1 = g1 + 1;
        }
        proof {
            assert(forall|a: int, b: int|
                0 <= a < b < g2 + 1 && (#[trigger] gmo@[a]).0 == (#[trigger] gmo@[b]).0
                    ==> gmo@[a].1 < gmo@[b].1);
        }
        g2 = g2 + 1;
    }

    let mut h: usize = 0;
    while h < progs.len()
        invariant
            h <= progs@.len(),
            pv == progs_view(progs),
            forall|h2: int, p: int|
                0 <= h2 < h && 0 <= p < pv[h2].len() && (#[trigger] pv[h2][p]).spec_is_mem()
                    ==> gmo_covers(gmo@, h2, p),
        decreases progs@.len() - h,
    {
        let mut p: usize = 0;
        while p < progs[h].len()
            invariant
                h < progs@.len(),
                p <= pv[h as int].len(),
                pv == progs_view(progs),
                forall|p2: int| 0 <= p2 < p && (#[trigger] pv[h as int][p2]).spec_is_mem()
                    ==> gmo_covers(gmo@, h as int, p2),
            decreases pv[h as int].len() - p,
        {
            if progs[h][p].is_mem() {
                match gmo_index_of(gmo, h, p) {
                    Some(g3) => {
                        proof {
                            assert((gmo@[g3 as int]).0 == h && gmo@[g3 as int].1 == p);
                        }
                    },
                    None => {
                        return false;
                    },
                }
            }
            p = p + 1;
        }
        h = h + 1;
    }
    true
}

} // verus!
