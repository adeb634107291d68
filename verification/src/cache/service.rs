//! The decisions of the caching service as a state machine.
//!
//! The service runs the machine: it performs each action (calling the upstream service,
//! looking up or storing in the cache, building a response) and hands back what came of it
//! as the next event.

use vstd::prelude::*;

verus! {

/// Where the handling of a request stands.
#[derive(Clone, Copy, Debug, PartialEq, Eq, Structural)]
pub enum CachingState {
    /// A request has arrived.
    Start,
    /// We are looking the request up in the cache.
    LookingUp,
    /// We are waiting for the upstream response to a cache miss.
    Upstream,
    /// We are storing the upstream response in the cache.
    Storing,
    /// A response has been chosen.
    Done,
}

/// What came of the last action.
#[derive(Clone, Copy, Debug, PartialEq, Eq, Structural)]
pub enum CachingEvent {
    /// The request was checked: whether to skip the cache for it.
    Checked { skip_cache: bool },
    /// The cache was looked up: whether there was an entry, and if so whether it counts as
    /// modified for the request.
    LookedUp { hit: bool, modified: bool },
    /// The upstream response was checked: whether to skip caching it.
    Answered { skip_caching: bool },
    /// Storing ended: stored, or not stored but with the body's pieces, or failed.
    Stored { stored: bool, has_pieces: bool },
}

/// What to do next.
#[derive(Clone, Copy, Debug, PartialEq, Eq, Structural)]
pub enum CachingAction {
    /// Look the request up in the cache.
    LookUp,
    /// Call the upstream service and send its response on, transcoded but not cached.
    PassThrough,
    /// Send the cached response.
    ServeCached,
    /// Send a "not modified" response.
    NotModified,
    /// Call the upstream service for a cache miss.
    CallUpstream,
    /// Send the upstream response on, transcoded but not cached.
    RespondUncached,
    /// Store the upstream response in the cache.
    Store,
    /// Send the response that was just stored.
    ServeStored,
    /// Send the upstream response rebuilt from its pieces, not cached.
    RespondWithPieces,
    /// Send an error response.
    RespondError,
}

/// Whether an event can follow a state.
pub open spec fn is_expected(state: CachingState, event: CachingEvent) -> bool {
    match (state, event) {
        (CachingState::Start, CachingEvent::Checked { .. }) => true,
        (CachingState::LookingUp, CachingEvent::LookedUp { .. }) => true,
        (CachingState::Upstream, CachingEvent::Answered { .. }) => true,
        (CachingState::Storing, CachingEvent::Stored { .. }) => true,
        _ => false,
    }
}

/// The next state and action: skip the cache, or look up; on a hit send the cached response
/// (or "not modified"); on a miss call upstream, then cache its response unless told to skip,
/// and answer with what storing came to.
pub open spec fn spec_caching_step(state: CachingState, event: CachingEvent) -> (
    CachingState,
    CachingAction,
) {
    match event {
        CachingEvent::Checked { skip_cache } => if skip_cache {
            (CachingState::Done, CachingAction::PassThrough)
        } else {
            (CachingState::LookingUp, CachingAction::LookUp)
        },
        CachingEvent::LookedUp { hit, modified } => if !hit {
            (CachingState::Upstream, CachingAction::CallUpstream)
        } else if modified {
            (CachingState::Done, CachingAction::ServeCached)
        } else {
            (CachingState::Done, CachingAction::NotModified)
        },
        CachingEvent::Answered { skip_caching } => if skip_caching {
            (CachingState::Done, CachingAction::RespondUncached)
        } else {
            (CachingState::Storing, CachingAction::Store)
        },
        CachingEvent::Stored { stored, has_pieces } => if stored {
            (CachingState::Done, CachingAction::ServeStored)
        } else if has_pieces {
            (CachingState::Done, CachingAction::RespondWithPieces)
        } else {
            (CachingState::Done, CachingAction::RespondError)
        },
    }
}

/// The next state and action of the caching service (see [spec_caching_step]).
pub fn caching_step(state: CachingState, event: CachingEvent) -> (r: (CachingState, CachingAction))
    requires
        is_expected(state, event),
    ensures
        r == spec_caching_step(state, event),
{
    match event {
        CachingEvent::Checked { skip_cache } => {
            if skip_cache {
                (CachingState::Done, CachingAction::PassThrough)
            } else {
                (CachingState::LookingUp, CachingAction::LookUp)
            }
        },
        CachingEvent::LookedUp { hit, modified } => {
            if !hit {
                (CachingState::Upstream, CachingAction::CallUpstream)
            } else if modified {
                (CachingState::Done, CachingAction::ServeCached)
            } else {
                (CachingState::Done, CachingAction::NotModified)
            }
        },
        CachingEvent::Answered { skip_caching } => {
            if skip_caching {
                (CachingState::Done, CachingAction::RespondUncached)
            } else {
                (CachingState::Storing, CachingAction::Store)
            }
        },
        CachingEvent::Stored { stored, has_pieces } => {
            if stored {
                (CachingState::Done, CachingAction::ServeStored)
            } else if has_pieces {
                (CachingState::Done, CachingAction::RespondWithPieces)
            } else {
                (CachingState::Done, CachingAction::RespondError)
            }
        },
    }
}

/// Whether an action calls the upstream service.
pub open spec fn calls_upstream(action: CachingAction) -> bool {
    action == CachingAction::PassThrough || action == CachingAction::CallUpstream
}

/// A cache hit is answered without calling the upstream service, and the handling of any
/// request ends after at most four steps: each step moves forward or ends.
pub proof fn lemma_caching_steps(state: CachingState, event: CachingEvent)
    requires
        is_expected(state, event),
    ensures
        event matches CachingEvent::LookedUp { hit, .. } && hit ==> !calls_upstream(
            spec_caching_step(state, event).1,
        ) && spec_caching_step(state, event).0 == CachingState::Done,
        stage(spec_caching_step(state, event).0) > stage(state),
{
}

/// How far along a state is.
pub open spec fn stage(state: CachingState) -> int {
    match state {
        CachingState::Start => 0,
        CachingState::LookingUp => 1,
        CachingState::Upstream => 2,
        CachingState::Storing => 3,
        CachingState::Done => 4,
    }
}

} // verus!
