//! Checker for short multi-hart memory-access traces against a weak memory
//! consistency model in the style of RVWMO.
//!
//! Each hart supplies a program of memory and register operations; a candidate
//! global memory order (one interleaving of all harts' memory operations) is
//! validated against per-hart program order, a preserved-program-order relation
//! derived from thirteen ordering rules, and the load value rule.
//!
//! The crate also carries the byte-level codec for the relocatable-object
//! container (string, symbol and relocation tables) that the companion
//! assembler tools emit and inspect.

pub mod insn;
pub mod deps;
pub mod resolve;
pub mod gmo;
pub mod observe;
pub mod pairing;
pub mod ppo;
pub mod validate;
pub mod hex;
pub mod bytes;
pub mod object;
