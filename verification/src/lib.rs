//! Verified core of the Lucent compiler: type representations and their
//! compatibility rules, resolution of written types, type inference,
//! memory layout of types, the loop placement check, lowering, x86
//! register tables, allocation and code generation, binary image grouping
//! and relocation, and the Mach-O executable writer.

pub mod node;
pub mod types;
pub mod hir;
pub mod layout;
pub mod binary;
pub mod mach;
pub mod x86;
pub mod lower;
pub mod lowering;
pub mod inference;
pub mod generate;
pub mod arena;
pub mod analysis;
