//! Static value resolution.
//!
//! Every register-producing operation carries its value as a literal the
//! trace supplies, so resolving the value a register holds at some program
//! position is a pure, order-independent lookup of the nearest preceding
//! writer within the same hart. This "statically resolved value" (used for
//! address-equality comparisons) is deliberately distinct from the
//! order-checked value a load must observe under a global memory order.

use vstd::prelude::*;
use crate::insn::Insn;
use crate::deps::nearest_writer;

verus! {

/// The literal value of the nearest writer of `reg` before position `at`,
/// or `None` when no operation before `at` writes `reg`.
pub open spec fn spec_writer_value(prog: Seq<Insn>, reg: u32, at: int) -> Option<u32> {
    match nearest_writer(prog, at, reg) {
        Some(i) => Some(prog[i].spec_dest_val()),
        None => None,
    }
}

/// The resolved memory address of the operation at `p`: the statically
/// resolved value of its address register. `None` when the operation has
/// no address register (including an address register of 0, which the
/// accessors exclude) or that register has no preceding writer.
pub open spec fn spec_resolved_addr(prog: Seq<Insn>, p: int) -> Option<u32> {
    match prog[p].spec_src_addr() {
        None => None,
        Some(r) => spec_writer_value(prog, r, p),
    }
}

/// The value the store at `p` writes: the literal store side of an `Amo`,
/// or the resolved value of the data register of a `Store`/`Sc` (register
/// 0 holds the constant zero). `None` for non-stores and for a data
/// register with no preceding writer.
pub open spec fn spec_store_value(prog: Seq<Insn>, p: int) -> Option<u32> {
    match prog[p] {
        Insn::Amo { store_val, .. } => Some(store_val),
        Insn::Store { rs, .. } => if rs == 0 {
            Some(0)
        } else {
            spec_writer_value(prog, rs, p)
        },
        Insn::Sc { rs, .. } => if rs == 0 {
            Some(0)
        } else {
            spec_writer_value(prog, rs, p)
        },
        _ => None,
    }
}

/// The literal value a load-like operation asserts it observes: the value
/// of a `Load`/`Lr`, or the loaded side of an `Amo`.
pub open spec fn spec_asserted_value(op: Insn) -> Option<u32> {
    match op {
        Insn::Load { val, .. } => Some(val),
        Insn::Amo { load_val, .. } => Some(load_val),
        Insn::Lr { val, .. } => Some(val),
        _ => None,
    }
}

/// Scans backward from `at` for the nearest writer of `reg` and returns
/// its literal value.
pub fn writer_value(prog: &Vec<Insn>, reg: u32, at: usize) -> (r: Option<u32>)
    requires
        at <= prog@.len(),
    ensures
        r == spec_writer_value(prog@, reg, at as int),
{
    let mut i = at;
    while i > 0
        invariant
            i <= at <= prog@.len(),
            nearest_writer(prog@, at as int, reg) == nearest_writer(prog@, i as int, reg),
        decreases i,
    {
        i = i - 1;
        if let Some(d) = prog[i].dest() {
            if d == reg {
                return Some(prog[i].dest_val());
            }
        }
    }
    None
}

/// Resolves the memory address of the operation at `p`, as
/// `spec_resolved_addr` describes.
pub fn resolved_addr(prog: &Vec<Insn>, p: usize) -> (r: Option<u32>)
    requires
        p < prog@.len(),
    ensures
        r == spec_resolved_addr(prog@, p as int),
{
    match prog[p].src_addr() {
        None => None,
        Some(r) => writer_value(prog, r, p),
    }
}

/// Resolves the value the store at `p` writes, as `spec_store_value`
/// describes.
pub fn store_value(prog: &Vec<Insn>, p: usize) -> (r: Option<u32>)
    requires
        p < prog@.len(),
    ensures
        r == spec_store_value(prog@, p as int),
{
    match prog[p] {
        Insn::Amo { store_val, .. } => Some(store_val),
        Insn::Store { rs, .. } => if rs == 0 {
            Some(0)
        } else {
            writer_value(prog, rs, p)
        },
        Insn::Sc { rs, .. } => if rs == 0 {
            Some(0)
        } else {
            writer_value(prog, rs, p)
        },
        _ => None,
    }
}

/// The asserted observation of a load-like operation, as
/// `spec_asserted_value` describes.
pub fn asserted_value(op: &Insn) -> (r: Option<u32>)
    ensures
        r == spec_asserted_value(*op),
{
    match *op {
        Insn::Load { val, .. } => Some(val),
        Insn::Amo { load_val, .. } => Some(load_val),
        Insn::Lr { val, .. } => Some(val),
        _ => None,
    }
}

} // verus!
