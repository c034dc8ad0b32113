//! The staleness oracle: decides whether a document's derived artifact
//! must be regenerated, from the two modification timestamps alone.
//!
//! Timestamps are opaque, totally ordered instants, carried here as
//! integers; `None` stands for a timestamp that could not be read (or an
//! artifact that does not exist). The oracle fails open: whenever it
//! cannot prove the artifact current, it asks for regeneration.

use vstd::prelude::*;

verus! {

/// Regeneration is needed unless both timestamps are known and the
/// source is strictly older than the artifact. Ties count as stale:
/// coarse filesystem clocks can hide a real edit behind an equal stamp.
pub open spec fn regeneration_needed(source_time: Option<u64>, artifact_time: Option<u64>) -> bool {
    match (source_time, artifact_time) {
        (Some(s), Some(a)) => s >= a,
        _ => true,
    }
}

/// Decide whether a document must be re-rendered.
///
/// Pure decision: depends on the two timestamps alone, with no side
/// effects. A missing or unreadable timestamp on either side forces
/// regeneration; a source at least as new as its artifact forces
/// regeneration; only a strictly newer artifact is skipped.
pub fn needs_regeneration(source_time: Option<u64>, artifact_time: Option<u64>) -> (r: bool)
    ensures
        r == regeneration_needed(source_time, artifact_time),
{
    match (source_time, artifact_time) {
        (Some(s), Some(a)) => s >= a,
        _ => true,
    }
}

} // verus!
