//! The atomic pairing checker.
//!
//! Every `Sc` pairs with the nearest preceding `Lr` of the same hart; an
//! `Sc` without one is a malformed trace. The pairing succeeds exactly
//! when no store from any hart to the same location is ordered between
//! the `Lr` and the `Sc` in the global memory order. A dangling `Lr`
//! (one no `Sc` pairs with) is not an error: an `Lr` alone is a valid
//! load.

use vstd::prelude::*;
use crate::insn::Insn;
use crate::gmo::gmo_wf;
use crate::gmo::gmo_covers;
use crate::gmo::gmo_entry_valid;
use crate::gmo::gmo_position;
use crate::gmo::gmo_index_of;
use crate::gmo::lemma_gmo_position;
use crate::gmo::lemma_gmo_position_monotone;
use crate::gmo::progs_view;
use crate::resolve::spec_resolved_addr;
use crate::resolve::resolved_addr;

verus! {

/// One load-reserved/store-conditional pair of a hart, with whether the
/// reservation held.
#[derive(Clone, Copy, Debug, PartialEq, Eq, Structural)]
pub struct ScPairing {
    pub lr: usize,
    pub sc: usize,
    pub success: bool,
}

/// The nearest `Lr` strictly before position `s` in one hart's program.
pub open spec fn spec_lr_for_sc(prog: Seq<Insn>, s: int) -> Option<int>
    decreases s,
{
    if s <= 0 {
        None
    } else if prog[s - 1] is Lr {
        Some(s - 1)
    } else {
        spec_lr_for_sc(prog, s - 1)
    }
}

/// A found `Lr` lies before the `Sc` and is indeed an `Lr`.
pub proof fn lemma_lr_for_sc(prog: Seq<Insn>, s: int)
    ensures
        match spec_lr_for_sc(prog, s) {
            Some(l) => 0 <= l < s && prog[l] is Lr,
            None => true,
        },
    decreases s,
{
    if s > 0 {
        lemma_lr_for_sc(prog, s - 1);
    }
}

/// Whether the order entry at `g` is a store whose resolved address is
/// `addr`.
pub open spec fn spec_conflicting_store(
    progs: Seq<Seq<Insn>>,
    gmo: Seq<(usize, usize)>,
    g: int,
    addr: u32,
) -> bool {
    let h = gmo[g].0 as int;
    let p = gmo[g].1 as int;
    progs[h][p].spec_is_store() && spec_resolved_addr(progs[h], p) == Some(addr)
}

/// Whether the pairing of the `Lr` at `l` with the `Sc` at `s` (both of
/// hart `h`) succeeds under the order: no store to the reservation's
/// resolved address lies between them. A reservation whose address does
/// not resolve has no identifiable conflicts.
pub open spec fn spec_pairing_success(
    progs: Seq<Seq<Insn>>,
    gmo: Seq<(usize, usize)>,
    h: int,
    l: int,
    s: int,
) -> bool {
    let g_l = gmo_position(gmo, h, l);
    let g_s = gmo_position(gmo, h, s);
    match spec_resolved_addr(progs[h], l) {
        None => true,
        Some(addr) => forall|g: int| g_l < g < g_s
            ==> !spec_conflicting_store(progs, gmo, g, addr),
    }
}

/// The pairing results of hart `h` for `Sc` positions from `p` upward, or
/// the position of the first `Sc` with no preceding `Lr`.
pub open spec fn spec_pairings_from(
    progs: Seq<Seq<Insn>>,
    gmo: Seq<(usize, usize)>,
    h: int,
    p: int,
) -> Result<Seq<ScPairing>, usize>
    decreases progs[h].len() - p,
{
    if p < 0 || p >= progs[h].len() {
        Ok(Seq::empty())
    } else if progs[h][p] is Sc {
        match spec_lr_for_sc(progs[h], p) {
            None => Err(p as usize),
            Some(l) => match spec_pairings_from(progs, gmo, h, p + 1) {
                Err(e) => Err(e),
                Ok(tail) => Ok(
                    seq![
                        ScPairing {
                            lr: l as usize,
                            sc: p as usize,
                            success: spec_pairing_success(progs, gmo, h, l, p),
                        },
                    ] + tail,
                ),
            },
        }
    } else {
        spec_pairings_from(progs, gmo, h, p + 1)
    }
}

/// The full pairing outcome for one hart.
pub open spec fn spec_check_sc_pairings(
    progs: Seq<Seq<Insn>>,
    gmo: Seq<(usize, usize)>,
    h: int,
) -> Result<Seq<ScPairing>, usize> {
    spec_pairings_from(progs, gmo, h, 0)
}

/// Scans backward for the nearest `Lr` strictly before `s`.
pub fn lr_before(prog: &Vec<Insn>, s: usize) -> (r: Option<usize>)
    requires
        s <= prog@.len(),
    ensures
        match r {
            Some(l) => spec_lr_for_sc(prog@, s as int) == Some(l as int),
            None => spec_lr_for_sc(prog@, s as int) is None,
        },
{
    let mut i = s;
    while i > 0
        invariant
            i <= s <= prog@.len(),
            spec_lr_for_sc(prog@, s as int) == spec_lr_for_sc(prog@, i as int),
        decreases i,
    {
        i = i - 1;
        if let Insn::Lr { .. } = prog[i] {
            return Some(i);
        }
    }
    None
}

/// Validates load-reserved/store-conditional pairing for every `Sc` of
/// hart `hart` under the given order: `Err(p)` names the first `Sc`
/// (program position `p`) with no preceding `Lr` — a malformed trace;
/// otherwise the result reports, per `Sc` in program order, the paired
/// `Lr` and whether the reservation held. A failed pairing means the
/// `Sc` writes nothing, so downstream rules can condition on it.
pub fn check_sc_pairings(
    progs: &Vec<Vec<Insn>>,
    gmo: &Vec<(usize, usize)>,
    hart: usize,
) -> (r: Result<Vec<ScPairing>, usize>)
    requires
        gmo_wf(progs_view(progs), gmo@),
        (hart as int) < progs@.len(),
    ensures
        match r {
            Ok(v) => spec_check_sc_pairings(progs_view(progs), gmo@, hart as int)
                == Ok::<Seq<ScPairing>, usize>(v@),
            Err(p) => spec_check_sc_pairings(progs_view(progs), gmo@, hart as int)
                == Err::<Seq<ScPairing>, usize>(p),
        },
{
    let ghost pv = progs_view(progs);
    let mut out: Vec<ScPairing> = Vec::new();
    let n = progs[hart].len();
    proof {
        assert(pv[hart as int] == progs@[hart as int]@);
    }
    let mut p: usize = 0;
    while p < n
        invariant
            p <= n,
            n == pv[hart as int].len(),
            pv == progs_view(progs),
            pv[hart as int] == progs@[hart as int]@,
            gmo_wf(pv, gmo@),
            (hart as int) < pv.len(),
            match spec_pairings_from(pv, gmo@, hart as int, p as int) {
                Err(e) => spec_check_sc_pairings(pv, gmo@, hart as int)
                    == Err::<Seq<ScPairing>, usize>(e),
                Ok(tail) => spec_check_sc_pairings(pv, gmo@, hart as int)
                    == Ok::<Seq<ScPairing>, usize>(out@ + tail),
            },
        decreases n - p,
    {
        if let Insn::Sc { .. } = progs[hart][p] {
            let l = match lr_before(&progs[hart], p) {
                None => {
                    return Err(p);
                },
                Some(l) => l,
            };
            proof {
                lemma_lr_for_sc(pv[hart as int], p as int);
            }
            let success = pairing_success(progs, gmo, hart, l, p);
            let pr = ScPairing { lr: l, sc: p, success };
            proof {
                assert(spec_pairings_from(pv, gmo@, hart as int, p as int)
                    == (match spec_pairings_from(pv, gmo@, hart as int, p + 1) {
                        Err(e) => Err::<Seq<ScPairing>, usize>(e),
                        Ok(tail) => Ok::<Seq<ScPairing>, usize>(seq![pr] + tail),
                    }));
                if let Ok(tail) = spec_pairings_from(pv, gmo@, hart as int, p + 1) {
                    assert(out@ + (seq![pr] + tail) =~= (out@ + seq![pr]) + tail);
                }
            }
            let ghost old_out = out@;
            out.push(pr);
            proof {
                assert(out@ =~= old_out + seq![pr]);
            }
        } else {
            proof {
                assert(spec_pairings_from(pv, gmo@, hart as int, p as int)
                    == spec_pairings_from(pv, gmo@, hart as int, p + 1));
            }
        }
        p = p + 1;
    }
    proof {
        assert(spec_pairings_from(pv, gmo@, hart as int, n as int)
            == Ok::<Seq<ScPairing>, usize>(Seq::empty()));
        assert(out@ + Seq::<ScPairing>::empty() =~= out@);
    }
    Ok(out)
}

/// Decides whether the pairing of the `Lr` at `l` with the `Sc` at `s`
/// succeeds, as `spec_pairing_success` describes.
pub fn pairing_success(
    progs: &Vec<Vec<Insn>>,
    gmo: &Vec<(usize, usize)>,
    hart: usize,
    l: usize,
    s: usize,
) -> (r: bool)
    requires
        gmo_wf(progs_view(progs), gmo@),
        (hart as int) < progs@.len(),
        (l as int) < progs@[hart as int]@.len(),
        (s as int) < progs@[hart as int]@.len(),
        l < s,
        progs_view(progs)[hart as int][l as int] is Lr,
        progs_view(progs)[hart as int][s as int] is Sc,
    ensures
        r == spec_pairing_success(progs_view(progs), gmo@, hart as int, l as int, s as int),
{
    let ghost pv = progs_view(progs);
    proof {
        assert(pv[hart as int] == progs@[hart as int]@);
        assert(gmo_covers(gmo@, hart as int, l as int));
        assert(gmo_covers(gmo@, hart as int, s as int));
        lemma_gmo_position(pv, gmo@, hart as int, l as int);
        lemma_gmo_position(pv, gmo@, hart as int, s as int);
        lemma_gmo_position_monotone(pv, gmo@, hart as int, l as int, s as int);
    }
    let gl = match gmo_index_of(gmo, hart, l) {
        Some(g) => g,
        None => {
            proof {
                assert(false);
            }
            0
        },
    };
    let gs = match gmo_index_of(gmo, hart, s) {
        Some(g) => g,
        None => {
            proof {
                assert(false);
            }
            0
        },
    };
    proof {
        assert(gl as int == gmo_position(gmo@, hart as int, l as int));
        assert(gs as int == gmo_position(gmo@, hart as int, s as int));
        assert(gl < gs);
    }
    let addr = match resolved_addr(&progs[hart], l) {
        None => {
            return true;
        },
        Some(a) => a,
    };
    let mut success = true;
    let mut g = gl + 1;
    while g < gs
        invariant
            gl < g <= gs,
            (gs as int) < gmo@.len(),
            pv == progs_view(progs),
            gmo_wf(pv, gmo@),
            success == (forall|g2: int| gl < g2 < g
                ==> !spec_conflicting_store(pv, gmo@, g2, addr)),
        decreases gs - g,
    {
        let (ch, cp) = gmo[g];
        proof {
            assert(gmo_entry_valid(pv, gmo@[g as int]));
            assert(pv[ch as int] == progs@[ch as int]@);
        }
        if progs[ch][cp].is_store() {
            if let Some(a2) = resolved_addr(&progs[ch], cp) {
                if a2 == addr {
                    proof {
                        assert(spec_conflicting_store(pv, gmo@, g as int, addr));
                    }
                    success = false;
                }
            }
        }
        g = g + 1;
    }
    success
}

} // verus!
