//! Primitive identifiers shared by the kernel and the runtime layer.

use vstd::prelude::*;

verus! {

/// Identifies one durable run (a "thread" of work); stable for the run's lifetime.
pub type RunId = String;

/// Identifies a unit of work within a run, such as a graph node.
pub type StepId = String;

/// Position of an event in its run's log. The first event has position 1;
/// 0 stands for "before the first event".
pub type SeqNo = u64;

} // verus!
