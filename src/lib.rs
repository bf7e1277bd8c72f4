//! Transcription job pipeline: job scheduling between interactive and
//! background work, orchestration decisions, audio conditioning and the
//! accelerated/CPU inference fallback policy.
use vstd::prelude::*;

pub mod conditioning;
pub mod icons;
pub mod inference;
pub mod logfilter;
pub mod ingest;
pub mod model;
pub mod orchestrator;
pub mod paths;
pub mod prefilter;
pub mod queue;
pub mod settings;
pub mod silence;
pub mod storage;
pub mod text;
pub mod trim;

verus! {

} // verus!
