//! A concurrent TCP port scanner's core: how the port space is split among
//! workers, what each worker does after a probe, how the reported ports are
//! gathered into the final listing, and how the command line is read.
use vstd::prelude::*;

pub mod partition;
pub mod worker;
pub mod collect;
pub mod report;
pub mod args;

verus! {

} // verus!
