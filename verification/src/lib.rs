//! Identifies which embedded-console toolchain produced a compiled
//! binary, by scanning its raw bytes for a toolchain-specific marker, and
//! prepares the exact invocation of that toolchain's address-to-line
//! utility.  Around that core sit the tool's connection table, its bundle
//! configuration, and the rules of the project archiver.
//!
//! Everything here carries a contract checked by Verus.  File reading,
//! process spawning and the rest of the I/O live in the surrounding
//! binary, which hands this library plain values and gets plain values
//! back.

pub mod addr2line;
pub mod bundle;
pub mod commands;
pub mod config;
pub mod errors;
pub mod scan;
