//! The store's scheduling step: one full pipeline cycle at a time.
//!
//! A host drives the store's operations from an event loop; this pure step
//! function decides, from the store's lifecycle state and an event, what the
//! host may do next. A reload requested while a cycle is already running is
//! coalesced: it is satisfied by the running cycle's eventual result, and no
//! second directory walk starts.
use vstd::prelude::*;

verus! {

/// The store's lifecycle state. `pending` records that a reload request was
/// folded into the running cycle.
pub enum StoreState {
    Uninitialized,
    Loading,
    Ready,
    Reloading { pending: bool },
}

/// What the host reports to the step function.
pub enum StoreEvent {
    ReloadRequested,
    CycleCompleted,
}

/// What the host is to do next.
pub enum StoreAction {
    StartCycle,
    Coalesce,
    Idle,
}

/// The transition relation, written out.
pub open spec fn spec_step(s: StoreState, ev: StoreEvent) -> (StoreState, StoreAction) {
    match (s, ev) {
        (StoreState::Uninitialized, StoreEvent::ReloadRequested) => (
            StoreState::Loading,
            StoreAction::StartCycle,
        ),
        (StoreState::Uninitialized, StoreEvent::CycleCompleted) => (
            StoreState::Uninitialized,
            StoreAction::Idle,
        ),
        (StoreState::Loading, StoreEvent::ReloadRequested) => (
            StoreState::Loading,
            StoreAction::Coalesce,
        ),
        (StoreState::Loading, StoreEvent::CycleCompleted) => (StoreState::Ready, StoreAction::Idle),
        (StoreState::Ready, StoreEvent::ReloadRequested) => (
            StoreState::Reloading { pending: false },
            StoreAction::StartCycle,
        ),
        (StoreState::Ready, StoreEvent::CycleCompleted) => (StoreState::Ready, StoreAction::Idle),
        (StoreState::Reloading { pending: _ }, StoreEvent::ReloadRequested) => (
            StoreState::Reloading { pending: true },
            StoreAction::Coalesce,
        ),
        (StoreState::Reloading { pending: _ }, StoreEvent::CycleCompleted) => (
            StoreState::Ready,
            StoreAction::Idle,
        ),
    }
}

/// Steps the lifecycle. While a cycle runs (`Loading` or `Reloading`), no
/// second cycle ever starts: a request folds into the running one.
pub fn step(s: StoreState, ev: StoreEvent) -> (r: (StoreState, StoreAction))
    ensures
        r == spec_step(s, ev),
        (s is Loading || s is Reloading) ==> !(r.1 is StartCycle),
        r.1 is StartCycle ==> (r.0 is Loading || r.0 is Reloading),
{
    match (s, ev) {
        (StoreState::Uninitialized, StoreEvent::ReloadRequested) => (
            StoreState::Loading,
            StoreAction::StartCycle,
        ),
        (StoreState::Uninitialized, StoreEvent::CycleCompleted) => (
            StoreState::Uninitialized,
            StoreAction::Idle,
        ),
        (StoreState::Loading, StoreEvent::ReloadRequested) => (
            StoreState::Loading,
            StoreAction::Coalesce,
        ),
        (StoreState::Loading, StoreEvent::CycleCompleted) => (StoreState::Ready, StoreAction::Idle),
        (StoreState::Ready, StoreEvent::ReloadRequested) => (
            StoreState::Reloading { pending: false },
            StoreAction::StartCycle,
        ),
        (StoreState::Ready, StoreEvent::CycleCompleted) => (StoreState::Ready, StoreAction::Idle),
        (StoreState::Reloading { pending: _ }, StoreEvent::ReloadRequested) => (
            StoreState::Reloading { pending: true },
            StoreAction::Coalesce,
        ),
        (StoreState::Reloading { pending: _ }, StoreEvent::CycleCompleted) => (
            StoreState::Ready,
            StoreAction::Idle,
        ),
    }
}

} // verus!
