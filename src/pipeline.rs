//! The order of the packaging stages, and what follows the outcome of each.
use vstd::prelude::*;

verus! {

/// A stage of the packaging pipeline.
#[derive(Debug, PartialEq, Eq, Clone, Copy)]
pub enum Stage {
    ReadManifest,
    BuildLib,
    BuildNuspec,
    BuildNupkg,
    SaveNupkg,
}

/// What the driver does next.
#[derive(Debug, PartialEq, Eq, Clone, Copy)]
pub enum Step {
    /// Run this stage.
    Run(Stage),
    /// Every stage succeeded.
    Done,
    /// This stage failed; nothing more runs.
    Failed(Stage),
}

/// The stage that follows `s` when it succeeds, if any.
pub open spec fn stage_after(s: Stage) -> Option<Stage> {
    match s {
        Stage::ReadManifest => Some(Stage::BuildLib),
        Stage::BuildLib => Some(Stage::BuildNuspec),
        Stage::BuildNuspec => Some(Stage::BuildNupkg),
        Stage::BuildNupkg => Some(Stage::SaveNupkg),
        Stage::SaveNupkg => None,
    }
}

/// The stage the pipeline starts with.
pub fn first_stage() -> (r: Stage)
    ensures
        r == Stage::ReadManifest,
{
    Stage::ReadManifest
}

/// What follows the outcome of stage `s`: on failure the run ends at `s`; on
/// success the next stage runs, or the run is done after the last one.
pub fn next_step(s: Stage, succeeded: bool) -> (r: Step)
    ensures
        !succeeded ==> r == Step::Failed(s),
        succeeded && stage_after(s) is Some ==> r == Step::Run(stage_after(s).unwrap()),
        succeeded && stage_after(s) is None ==> r == Step::Done,
{
    if !succeeded {
        return Step::Failed(s);
    }
    match s {
        Stage::ReadManifest => Step::Run(Stage::BuildLib),
        Stage::BuildLib => Step::Run(Stage::BuildNuspec),
        Stage::BuildNuspec => Step::Run(Stage::BuildNupkg),
        Stage::BuildNupkg => Step::Run(Stage::SaveNupkg),
        Stage::SaveNupkg => Step::Done,
    }
}

/// The label that names a stage in messages.
pub open spec fn stage_label(s: Stage) -> Seq<char> {
    match s {
        Stage::ReadManifest => "reading cargo manifest"@,
        Stage::BuildLib => "building Rust lib"@,
        Stage::BuildNuspec => "building nuspec"@,
        Stage::BuildNupkg => "building nupkg"@,
        Stage::SaveNupkg => "saving nupkg"@,
    }
}

impl Stage {
    /// The label that names the stage in messages.
    pub fn label(&self) -> (r: &'static str)
        ensures
            r@ == stage_label(*self),
    {
        match self {
            Stage::ReadManifest => "reading cargo manifest",
            Stage::BuildLib => "building Rust lib",
            Stage::BuildNuspec => "building nuspec",
            Stage::BuildNupkg => "building nupkg",
            Stage::SaveNupkg => "saving nupkg",
        }
    }
}

/// The message for a run that failed at stage `s` with cause `cause`.
pub open spec fn failure_text(s: Stage, cause: Seq<char>) -> Seq<char> {
    "error "@ + stage_label(s) + ": "@ + cause
}

/// The message for a run that failed at stage `s` with cause `cause`: it names the
/// stage, then the cause.
pub fn failure_message(s: Stage, cause: &str) -> (r: String)
    ensures
        r@ == failure_text(s, cause@),
{
    let mut r = String::from_str("error ");
    r.append(s.label());
    r.append(": ");
    r.append(cause);
    r
}

} // verus!
