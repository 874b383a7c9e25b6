//! The load value rule evaluator.
//!
//! Given all harts' programs and a global memory order, it determines the
//! value a load-like operation must observe: the value written by the
//! nearest conflicting store ordered before it. Addresses and store
//! values are the concrete literals resolved through each hart's own
//! nearest-preceding-writer chain, never through the order itself.

use vstd::prelude::*;
use crate::insn::Insn;
use crate::gmo::gmo_wf;
use crate::gmo::gmo_entry_valid;
use crate::gmo::progs_view;
use crate::resolve::spec_resolved_addr;
use crate::resolve::spec_store_value;
use crate::resolve::resolved_addr;
use crate::resolve::store_value;

verus! {

/// What the load value rule determines a load observes.
#[derive(Clone, Copy, Debug, PartialEq, Eq, Structural)]
pub enum LoadObservation {
    /// The nearest conflicting store ordered before the load: its position
    /// in the global memory order, and the value it writes.
    Written { store_gmo: usize, value: u32 },
    /// No conflicting store is ordered anywhere before the load: a
    /// distinguished uninitialized-memory read, never a silent default.
    Uninitialized,
    /// The load's address, or the conflicting store's written value,
    /// cannot be statically resolved; a malformed trace.
    Unresolvable,
}

/// The backward scan of the order from position `g` (exclusive): the
/// nearest earlier entry that is a store to `addr` decides the
/// observation.
pub open spec fn spec_observation_scan(
    progs: Seq<Seq<Insn>>,
    gmo: Seq<(usize, usize)>,
    g: int,
    addr: u32,
) -> LoadObservation
    decreases g,
{
    if g <= 0 {
        LoadObservation::Uninitialized
    } else {
        let h = gmo[g - 1].0 as int;
        let p = gmo[g - 1].1 as int;
        if progs[h][p].spec_is_store() && spec_resolved_addr(progs[h], p) == Some(addr) {
            match spec_store_value(progs[h], p) {
                Some(v) => LoadObservation::Written { store_gmo: (g - 1) as usize, value: v },
                None => LoadObservation::Unresolvable,
            }
        } else {
            spec_observation_scan(progs, gmo, g - 1, addr)
        }
    }
}

/// The observation of the load-like operation at order position `g`.
pub open spec fn spec_load_value_rule(
    progs: Seq<Seq<Insn>>,
    gmo: Seq<(usize, usize)>,
    g: int,
) -> LoadObservation {
    let h = gmo[g].0 as int;
    let p = gmo[g].1 as int;
    match spec_resolved_addr(progs[h], p) {
        None => LoadObservation::Unresolvable,
        Some(addr) => spec_observation_scan(progs, gmo, g, addr),
    }
}

/// Determines the value the load-like operation at order position
/// `gmo_idx` must observe: scanning the order backward from (but not
/// including) that position, the nearest entry that is a store to the
/// same resolved address supplies the value; with no such store the load
/// reads uninitialized memory.
pub fn load_value_rule(
    progs: &Vec<Vec<Insn>>,
    gmo: &Vec<(usize, usize)>,
    gmo_idx: usize,
) -> (r: LoadObservation)
    requires
        gmo_wf(progs_view(progs), gmo@),
        (gmo_idx as int) < gmo@.len(),
        progs_view(progs)[gmo@[gmo_idx as int].0 as int][gmo@[gmo_idx as int].1 as int]
            .spec_is_load(),
    ensures
        r == spec_load_value_rule(progs_view(progs), gmo@, gmo_idx as int),
{
    let ghost pv = progs_view(progs);
    let (hart_id, prog_idx) = gmo[gmo_idx];
    proof {
        assert(gmo_entry_valid(pv, gmo@[gmo_idx as int]));
        assert(progs@[hart_id as int]@ == pv[hart_id as int]);
    }
    let target_addr = match resolved_addr(&progs[hart_id], prog_idx) {
        None => {
            return LoadObservation::Unresolvable;
        },
        Some(a) => a,
    };
    let mut g = gmo_idx;
    while g > 0
        invariant
            g <= gmo_idx,
            (gmo_idx as int) < gmo@.len(),
            gmo_wf(pv, gmo@),
            pv == progs_view(progs),
            gmo@[gmo_idx as int].0 == hart_id && gmo@[gmo_idx as int].1 == prog_idx,
            spec_resolved_addr(pv[hart_id as int], prog_idx as int) == Some(target_addr),
            spec_observation_scan(pv, gmo@, gmo_idx as int, target_addr)
                == spec_observation_scan(pv, gmo@, g as int, target_addr),
        decreases g,
    {
        g = g - 1;
        let (h, p) = gmo[g];
        proof {
            assert(gmo_entry_valid(pv, gmo@[g as int]));
            assert(progs@[h as int]@ == pv[h as int]);
        }
        let mut matched = false;
        if progs[h][p].is_store() {
            if let Some(a) = resolved_addr(&progs[h], p) {
                if a == target_addr {
                    matched = true;
                }
            }
        }
        if matched {
            let sv = store_value(&progs[h], p);
            proof {
                assert(spec_observation_scan(pv, gmo@, g + 1, target_addr)
                    == (match spec_store_value(pv[h as int], p as int) {
                        Some(v) => LoadObservation::Written { store_gmo: g, value: v },
                        None => LoadObservation::Unresolvable,
                    }));
                assert(spec_observation_scan(pv, gmo@, gmo_idx as int, target_addr)
                    == spec_observation_scan(pv, gmo@, g + 1, target_addr));
                assert(spec_load_value_rule(pv, gmo@, gmo_idx as int)
                    == spec_observation_scan(pv, gmo@, gmo_idx as int, target_addr));
            }
            return match sv {
                Some(v) => LoadObservation::Written { store_gmo: g, value: v },
                None => LoadObservation::Unresolvable,
            };
        }
        proof {
            assert(spec_observation_scan(pv, gmo@, g + 1, target_addr)
                == spec_observation_scan(pv, gmo@, g as int, target_addr));
        }
    }
    LoadObservation::Uninitialized
}

} // verus!
