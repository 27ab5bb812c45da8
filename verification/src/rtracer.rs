//! The replay-only tracer: it maintains the per-frame hint accumulators but
//! no event log, which is cheaper when only the final error's hints matter.
//! It is the full-tracking tracer with the log switched off at compile time,
//! so the two stay interchangeable behind the shared tracer interface.

use vstd::prelude::*;

verus! {

/// A tracer that keeps the frame stacks but writes no event log.
pub type RTracer = crate::tracer::CTracer<false>;

} // verus!
