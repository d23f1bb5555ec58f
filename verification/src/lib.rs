//! Host-side logic of the Gemma 4 decoder-kernel fixture: the deterministic input
//! generator, the per-tensor checksums, the fixture's naming scheme and contents, and the
//! bookkeeping of the cycle-count report.

use vstd::prelude::*;

pub mod checksum;
pub mod fixture;
pub mod header;
pub mod keys;
pub mod prng;
pub mod profile;
pub mod report;
pub mod runs;
pub mod suite;
pub mod tables;
pub mod text;

verus! {

} // verus!
