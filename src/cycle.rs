use vstd::prelude::*;

use crate::checker::{update_verdict, CheckUpdateResult};
use crate::data::{PackageTag, VersionTag};
use crate::Error;

verus! {

/// Where an update cycle stands.
#[derive(Debug, Clone, Copy, PartialEq, Eq, Structural)]
pub enum Stage {
    /// Not begun.
    Start,
    /// The first promotion pass is running.
    FirstPromotion,
    /// The publisher's manifest is being fetched.
    UpdateCheck,
    /// A newer package is being downloaded and installed.
    Applying,
    /// The promotion pass after the update is running.
    SecondPromotion,
    /// The cycle is over.
    Finished,
}

/// What the host reports back after carrying out an [`Action`].
pub enum Event {
    /// Start the cycle.
    Begin,
    /// A promotion pass ended without handing off.
    Promoted(Result<(), Error>),
    /// The publisher's manifest was fetched and read, or that failed.
    ManifestFetched(Result<PackageTag, Error>),
    /// The package was applied, or that failed.
    Applied(Result<(), Error>),
}

/// What the host must do next.
pub enum Action {
    /// Run a promotion pass.
    Promote,
    /// Fetch and read the publisher's manifest.
    FetchManifest,
    /// Download, extract and install this package.
    Apply(PackageTag),
    /// The cycle is over, with this outcome.
    Finish(Result<(), Error>),
}

/// The event is the one that the stage waits for.
pub open spec fn event_fits(stage: Stage, event: Event) -> bool {
    match stage {
        Stage::Start => event is Begin,
        Stage::FirstPromotion | Stage::SecondPromotion => event is Promoted,
        Stage::UpdateCheck => event is ManifestFetched,
        Stage::Applying => event is Applied,
        Stage::Finished => false,
    }
}

/// One step of the cycle promotion, check and apply, promotion, for a program
/// running version `local`; the first failure ends it with that failure.
pub open spec fn cycle_step(local: VersionTag, stage: Stage, event: Event) -> (Stage, Action) {
    match event {
        Event::Begin => (Stage::FirstPromotion, Action::Promote),
        Event::Promoted(Err(e)) => (Stage::Finished, Action::Finish(Err(e))),
        Event::Promoted(Ok(())) => if stage == Stage::FirstPromotion {
            (Stage::UpdateCheck, Action::FetchManifest)
        } else {
            (Stage::Finished, Action::Finish(Ok(())))
        },
        Event::ManifestFetched(fetched) => match update_verdict(local, fetched) {
            Ok(CheckUpdateResult::UpdateAvailable(tag)) => (Stage::Applying, Action::Apply(tag)),
            Ok(CheckUpdateResult::UpToDate) => (Stage::SecondPromotion, Action::Promote),
            Err(e) => (Stage::Finished, Action::Finish(Err(e))),
        },
        Event::Applied(Err(e)) => (Stage::Finished, Action::Finish(Err(e))),
        Event::Applied(Ok(())) => (Stage::SecondPromotion, Action::Promote),
    }
}

/// The failure that an event reports, if any.
pub open spec fn event_failure(event: Event) -> Option<Error> {
    match event {
        Event::Promoted(Err(e)) => Some(e),
        Event::ManifestFetched(Err(e)) => Some(e),
        Event::Applied(Err(e)) => Some(e),
        _ => None,
    }
}

/// Position of a stage in the cycle.
pub open spec fn stage_rank(stage: Stage) -> int {
    match stage {
        Stage::Start => 0,
        Stage::FirstPromotion => 1,
        Stage::UpdateCheck => 2,
        Stage::Applying => 3,
        Stage::SecondPromotion => 4,
        Stage::Finished => 5,
    }
}

/// A failure reported at any stage ends the cycle with that same failure;
/// nothing after it runs.
pub proof fn lemma_failure_ends_cycle(local: VersionTag, stage: Stage, event: Event)
    requires
        event_fits(stage, event),
        event_failure(event) is Some,
    ensures
        cycle_step(local, stage, event) == (
            Stage::Finished,
            Action::Finish(Err(event_failure(event)->Some_0)),
        ),
{
}

/// Every step moves the cycle forward, and only the last one finishes it, so
/// the cycle ends after at most five steps.
pub proof fn lemma_cycle_progresses(local: VersionTag, stage: Stage, event: Event)
    requires
        event_fits(stage, event),
    ensures
        stage_rank(cycle_step(local, stage, event).0) > stage_rank(stage),
        (cycle_step(local, stage, event).0 == Stage::Finished) <==> (cycle_step(
            local,
            stage,
            event,
        ).1 is Finish),
{
}

} // verus!
