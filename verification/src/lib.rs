//! An arena-backed doubly linked list and its iteration protocol.
//!
//! Elements live in a contiguous arena and are linked by lightweight index
//! handles rather than pointers. The heart of the crate is the double-ended,
//! fused, exact-size traversal over those links: a generic read-only form
//! written once against a small capability trait, and a specialized form
//! that hands out exclusive views into the arena, one slot at a time, with
//! a proof that no two produced views ever overlap.

pub mod indexlist;
pub mod listindex;
pub mod listiter;
pub mod listitermut;
pub mod traversal;
