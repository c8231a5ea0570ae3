//! Opt-in analytics switches and event names. The decisions are pure; the
//! surrounding process inspection (environment variables, build flavor) is
//! supplied by the caller.

use vstd::prelude::*;

verus! {

/// An analytics event; only its name and payload are modeled here.
#[derive(Debug, Clone, PartialEq)]
pub enum TrackEvent {
    SubcommandExecuted { subcommand_name: String },
    PipelineExecuted { pipeline_name: String, pipeline_length: Option<usize> },
}

impl TrackEvent {
    /// The human-readable event name reported for this event.
    pub fn name(&self) -> (r: &'static str)
        ensures
            (self is SubcommandExecuted ==> r@ == "Subcommand Executed"@),
            (self is PipelineExecuted ==> r@ == "Pipeline Executed"@),
    {
        match self {
            TrackEvent::SubcommandExecuted { .. } => "Subcommand Executed",
            TrackEvent::PipelineExecuted { .. } => "Pipeline Executed",
        }
    }
}

/// Event-based analytics are on only for release, non-musl builds that hold a
/// write key and were not opted out of.
pub fn segment_enabled(musl: bool, debug: bool, disabled: bool, has_write_key: bool) -> (r: bool)
    ensures
        r == (!musl && !debug && !disabled && has_write_key),
{
    !musl && !debug && !disabled && has_write_key
}

/// Error-based analytics are on only for release builds that hold an auth
/// token and were not opted out of.
pub fn sentry_enabled(debug: bool, disabled: bool, has_auth_token: bool) -> (r: bool)
    ensures
        r == (!debug && !disabled && has_auth_token),
{
    !debug && !disabled && has_auth_token
}

} // verus!
