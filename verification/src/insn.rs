//! The operation model: the instruction variants of a hart's program and
//! their register accessors.
//!
//! Register 0 is wired to the constant zero: every accessor treats a
//! reference to register 0 as "no register", so register 0 never takes part
//! in dependency, address or ordering computations.

use vstd::prelude::*;

verus! {

/// Acquire/release ordering annotation carried by `Amo`, `Lr` and `Sc`.
#[derive(Clone, Copy, Debug, PartialEq, Eq, Structural)]
pub struct Ann {
    pub aq: bool,
    pub rl: bool,
}

/// One side of a fence: which access kinds (reads, writes) it orders.
#[derive(Clone, Copy, Debug, PartialEq, Eq, Structural)]
pub struct OrdSet {
    pub r: bool,
    pub w: bool,
}

/// One operation of a hart's program.
///
/// Load values are assertions of what the operation must observe; store and
/// calc values are literals the trace supplies and are taken as true.
#[derive(Clone, Copy, Debug, PartialEq, Eq, Structural)]
pub enum Insn {
    Load { rd: u32, rx: u32, val: u32 },
    Store { rs: u32, rx: u32 },
    Amo { rd: u32, rx: u32, rs: u32, ann: Ann, load_val: u32, store_val: u32 },
    Lr { rd: u32, rx: u32, ann: Ann, val: u32 },
    /// With the success constraint: the trace asserts every `Sc` succeeds.
    Sc { rs: u32, rx: u32, ann: Ann },
    Calc { rd: u32, rs1: u32, rs2: u32, val: u32 },
    Fence { pred: OrdSet, succ: OrdSet },
}

impl Insn {
    /// Whether the operation reads memory (`Load`, `Amo`, `Lr`).
    pub open spec fn spec_is_load(&self) -> bool {
        match *self {
            Insn::Load { .. } => true,
            Insn::Amo { .. } => true,
            Insn::Lr { .. } => true,
            _ => false,
        }
    }

    /// Whether the operation writes memory (`Store`, `Amo`, `Sc`).
    pub open spec fn spec_is_store(&self) -> bool {
        match *self {
            Insn::Store { .. } => true,
            Insn::Amo { .. } => true,
            Insn::Sc { .. } => true,
            _ => false,
        }
    }

    /// Whether the operation is a memory operation at all; only these appear
    /// in a global memory order.
    pub open spec fn spec_is_mem(&self) -> bool {
        self.spec_is_load() || self.spec_is_store()
    }

    /// The ordering annotation, for the variants that carry one.
    pub open spec fn spec_annotation(&self) -> Option<Ann> {
        match *self {
            Insn::Amo { ann, .. } => Some(ann),
            Insn::Lr { ann, .. } => Some(ann),
            Insn::Sc { ann, .. } => Some(ann),
            _ => None,
        }
    }

    /// The register whose value forms the memory address, or `None` when the
    /// variant has none or that register is register 0.
    pub open spec fn spec_src_addr(&self) -> Option<u32> {
        match *self {
            Insn::Load { rx, .. } => if rx != 0 { Some(rx) } else { None },
            Insn::Store { rx, .. } => if rx != 0 { Some(rx) } else { None },
            Insn::Amo { rx, .. } => if rx != 0 { Some(rx) } else { None },
            Insn::Lr { rx, .. } => if rx != 0 { Some(rx) } else { None },
            Insn::Sc { rx, .. } => if rx != 0 { Some(rx) } else { None },
            _ => None,
        }
    }

    /// The registers feeding a value this operation computes or writes,
    /// register 0 excluded.
    pub open spec fn spec_src_data(&self) -> Seq<u32> {
        match *self {
            Insn::Store { rs, .. } => if rs != 0 { seq![rs] } else { Seq::empty() },
            Insn::Amo { rs, .. } => if rs != 0 { seq![rs] } else { Seq::empty() },
            Insn::Sc { rs, .. } => if rs != 0 { seq![rs] } else { Seq::empty() },
            Insn::Calc { rs1, rs2, .. } => {
                let first: Seq<u32> = if rs1 != 0 { seq![rs1] } else { Seq::empty() };
                let second: Seq<u32> = if rs2 != 0 { seq![rs2] } else { Seq::empty() };
                first + second
            },
            _ => Seq::empty(),
        }
    }

    /// The register the operation writes, or `None` when there is none or it
    /// is register 0.
    pub open spec fn spec_dest(&self) -> Option<u32> {
        match *self {
            Insn::Load { rd, .. } => if rd != 0 { Some(rd) } else { None },
            Insn::Amo { rd, .. } => if rd != 0 { Some(rd) } else { None },
            Insn::Lr { rd, .. } => if rd != 0 { Some(rd) } else { None },
            Insn::Calc { rd, .. } => if rd != 0 { Some(rd) } else { None },
            _ => None,
        }
    }

    /// The literal value the operation's destination register takes: the
    /// asserted value of a `Load`/`Lr`, the asserted loaded value of an
    /// `Amo`, or the computed value of a `Calc`.
    pub open spec fn spec_dest_val(&self) -> u32 {
        match *self {
            Insn::Load { val, .. } => val,
            Insn::Amo { load_val, .. } => load_val,
            Insn::Lr { val, .. } => val,
            Insn::Calc { val, .. } => val,
            _ => 0,
        }
    }

    /// Whether the operation carries a dependency through to its destination:
    /// only `Calc` both consumes and re-emits one.
    pub open spec fn spec_carries_dep(&self) -> bool {
        match *self {
            Insn::Calc { .. } => true,
            _ => false,
        }
    }

    #[verifier::when_used_as_spec(spec_is_load)]
    pub fn is_load(&self) -> (r: bool)
        ensures
            r == self.spec_is_load(),
    {
        match *self {
            Insn::Load { .. } => true,
            Insn::Amo { .. } => true,
            Insn::Lr { .. } => true,
            _ => false,
        }
    }

    #[verifier::when_used_as_spec(spec_is_store)]
    pub fn is_store(&self) -> (r: bool)
        ensures
            r == self.spec_is_store(),
    {
        match *self {
            Insn::Store { .. } => true,
            Insn::Amo { .. } => true,
            Insn::Sc { .. } => true,
            _ => false,
        }
    }

    #[verifier::when_used_as_spec(spec_is_mem)]
    pub fn is_mem(&self) -> (r: bool)
        ensures
            r == self.spec_is_mem(),
    {
        self.is_load() || self.is_store()
    }

    #[verifier::when_used_as_spec(spec_annotation)]
    pub fn annotation(&self) -> (r: Option<Ann>)
        ensures
            r == self.spec_annotation(),
    {
        match *self {
            Insn::Amo { ann, .. } => Some(ann),
            Insn::Lr { ann, .. } => Some(ann),
            Insn::Sc { ann, .. } => Some(ann),
            _ => None,
        }
    }

    #[verifier::when_used_as_spec(spec_src_addr)]
    pub fn src_addr(&self) -> (r: Option<u32>)
        ensures
            r == self.spec_src_addr(),
    {
        match *self {
            Insn::Load { rx, .. } if rx != 0 => Some(rx),
            Insn::Store { rx, .. } if rx != 0 => Some(rx),
            Insn::Amo { rx, .. } if rx != 0 => Some(rx),
            Insn::Lr { rx, .. } if rx != 0 => Some(rx),
            Insn::Sc { rx, .. } if rx != 0 => Some(rx),
            _ => None,
        }
    }

    pub fn src_data(&self) -> (r: Vec<u32>)
        ensures
            r@ == self.spec_src_data(),
    {
        match *self {
            Insn::Store { rs, .. } if rs != 0 => vec![rs],
            Insn::Amo { rs, .. } if rs != 0 => vec![rs],
            Insn::Sc { rs, .. } if rs != 0 => vec![rs],
            Insn::Calc { rs1, rs2, .. } => {
                let mut v: Vec<u32> = Vec::new();
                if rs1 != 0 {
                    v.push(rs1);
                }
                if rs2 != 0 {
                    v.push(rs2);
                }
                assert(v@ =~= self.spec_src_data());
                v
            },
            _ => Vec::new(),
        }
    }

    #[verifier::when_used_as_spec(spec_dest)]
    pub fn dest(&self) -> (r: Option<u32>)
        ensures
            r == self.spec_dest(),
    {
        match *self {
            Insn::Load { rd, .. } if rd != 0 => Some(rd),
            Insn::Amo { rd, .. } if rd != 0 => Some(rd),
            Insn::Lr { rd, .. } if rd != 0 => Some(rd),
            Insn::Calc { rd, .. } if rd != 0 => Some(rd),
            _ => None,
        }
    }

    #[verifier::when_used_as_spec(spec_dest_val)]
    pub fn dest_val(&self) -> (r: u32)
        ensures
            r == self.spec_dest_val(),
    {
        match *self {
            Insn::Load { val, .. } => val,
            Insn::Amo { load_val, .. } => load_val,
            Insn::Lr { val, .. } => val,
            Insn::Calc { val, .. } => val,
            _ => 0,
        }
    }

    #[verifier::when_used_as_spec(spec_carries_dep)]
    pub fn carries_dep(&self) -> (r: bool)
        ensures
            r == self.spec_carries_dep(),
    {
        match *self {
            Insn::Calc { .. } => true,
            _ => false,
        }
    }
}

} // verus!
