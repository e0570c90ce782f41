//! A compiler-invocation shim core: resolves a toolchain binary whose
//! reported version has an accepted major number, and rewrites a small set
//! of command-line flags to the spelling the local toolchain expects.
//!
//! This library holds the decision logic only: which candidate binaries to
//! probe and in what order, how to read a version out of a probe's output,
//! whether a version matches an accepted major number, and how each
//! argument token is dropped, split or passed through.  Running the probes
//! and executing the resolved binary is process I/O and lives with the
//! caller.

pub mod resolver;
pub mod rewrite;
pub mod strings;
