//! The decisions of the ingestion pump of one dataset: from a state and what
//! happened, the next state and what to do next.
use vstd::prelude::*;

verus! {

/// Number of hourly intervals asked of the upstream API per request.
pub const FETCH_PAGE_SIZE: u32 = 400;

/// Where the pump of one dataset stands in one ingestion cycle.
#[derive(Clone, Copy, Debug, PartialEq, Eq, Structural)]
pub enum PumpState {
    /// Not started.
    Idle,
    /// A request for the range starting at `cursor` is out.
    Fetching { cursor: i64 },
    /// The body of the response for `cursor` is being decoded.
    Parsing { cursor: i64 },
    /// The decoded record for `cursor` is being stored; `marker` is the end of
    /// range it declares, if it declares a usable one.
    Storing { cursor: i64, marker: Option<i64> },
    /// The cycle has ended normally.
    Done,
    /// The cycle has ended on an error.
    Failed,
}

/// What happened since the last decision.
#[derive(Clone, Copy, Debug, PartialEq, Eq, Structural)]
pub enum PumpEvent {
    /// The cycle begins at the checkpoint resolved from stored data.
    Start { checkpoint: i64 },
    /// The response arrived.
    Fetched,
    /// The request failed.
    FetchFailed,
    /// The body decoded; `marker` is the end of range it declares, if usable.
    Parsed { marker: Option<i64> },
    /// The body did not decode into a record.
    ParseFailed,
    /// The record was stored.
    Stored,
    /// Storing the record failed.
    StoreFailed,
}

/// What the caller must do next.
#[derive(Clone, Copy, Debug, PartialEq, Eq, Structural)]
pub enum PumpAction {
    /// Request `FETCH_PAGE_SIZE` hourly intervals starting at `from`.
    Fetch { from: i64 },
    /// Decode the body just received.
    Parse,
    /// Store the record just decoded.
    Store,
    /// Nothing more this cycle.
    Stop,
}

/// Whether the cycle has ended.
pub open spec fn is_terminal(s: PumpState) -> bool {
    s is Done || s is Failed
}

/// After a record is stored: move on to the declared end of range when it lies
/// strictly past the cursor and before `until`; otherwise the cycle is done.
pub open spec fn advance_spec(cursor: i64, marker: Option<i64>, until: i64) -> PumpState {
    match marker {
        Some(m) => if m > cursor && m < until {
            PumpState::Fetching { cursor: m }
        } else {
            PumpState::Done
        },
        None => PumpState::Done,
    }
}

/// The action that goes with entering a state.
pub open spec fn action_for(s: PumpState) -> PumpAction {
    match s {
        PumpState::Fetching { cursor } => PumpAction::Fetch { from: cursor },
        PumpState::Parsing { .. } => PumpAction::Parse,
        PumpState::Storing { .. } => PumpAction::Store,
        _ => PumpAction::Stop,
    }
}

/// The next state. A cycle starts fetching at its checkpoint if that lies
/// before `until`; a failed request, an undecodable body or a failed store ends
/// it as failed; an event that does not belong to the state ends it as failed.
pub open spec fn next_state(s: PumpState, e: PumpEvent, until: i64) -> PumpState {
    match (s, e) {
        (PumpState::Idle, PumpEvent::Start { checkpoint }) => if checkpoint < until {
            PumpState::Fetching { cursor: checkpoint }
        } else {
            PumpState::Done
        },
        (PumpState::Fetching { cursor }, PumpEvent::Fetched) => PumpState::Parsing { cursor },
        (PumpState::Fetching { .. }, PumpEvent::FetchFailed) => PumpState::Failed,
        (PumpState::Parsing { cursor }, PumpEvent::Parsed { marker }) => PumpState::Storing {
            cursor,
            marker,
        },
        (PumpState::Parsing { .. }, PumpEvent::ParseFailed) => PumpState::Failed,
        (PumpState::Storing { cursor, marker }, PumpEvent::Stored) => advance_spec(
            cursor,
            marker,
            until,
        ),
        (PumpState::Storing { .. }, PumpEvent::StoreFailed) => PumpState::Failed,
        (PumpState::Done, _) => PumpState::Done,
        (PumpState::Failed, _) => PumpState::Failed,
        _ => PumpState::Failed,
    }
}

/// Decides where the cursor goes once a record is stored.
pub fn advance(cursor: i64, marker: Option<i64>, until: i64) -> (r: PumpState)
    ensures
        r == advance_spec(cursor, marker, until),
{
    match marker {
        Some(m) => if m > cursor && m < until {
            PumpState::Fetching { cursor: m }
        } else {
            PumpState::Done
        },
        None => PumpState::Done,
    }
}

/// One decision of the pump: the next state and the action to perform.
/// `until` is the time at which the cycle began; no range starting at or
/// after it is requested.
pub fn step(s: PumpState, e: PumpEvent, until: i64) -> (r: (PumpState, PumpAction))
    ensures
        r.0 == next_state(s, e, until),
        r.1 == action_for(r.0),
{
    let next = match (s, e) {
        (PumpState::Idle, PumpEvent::Start { checkpoint }) => if checkpoint < until {
            PumpState::Fetching { cursor: checkpoint }
        } else {
            PumpState::Done
        },
        (PumpState::Fetching { cursor }, PumpEvent::Fetched) => PumpState::Parsing { cursor },
        (PumpState::Fetching { .. }, PumpEvent::FetchFailed) => PumpState::Failed,
        (PumpState::Parsing { cursor }, PumpEvent::Parsed { marker }) => PumpState::Storing {
            cursor,
            marker,
        },
        (PumpState::Parsing { .. }, PumpEvent::ParseFailed) => PumpState::Failed,
        (PumpState::Storing { cursor, marker }, PumpEvent::Stored) => advance(
            cursor,
            marker,
            until,
        ),
        (PumpState::Storing { .. }, PumpEvent::StoreFailed) => PumpState::Failed,
        (PumpState::Done, _) => PumpState::Done,
        (PumpState::Failed, _) => PumpState::Failed,
        _ => PumpState::Failed,
    };
    let action = match next {
        PumpState::Fetching { cursor } => PumpAction::Fetch { from: cursor },
        PumpState::Parsing { .. } => PumpAction::Parse,
        PumpState::Storing { .. } => PumpAction::Store,
        _ => PumpAction::Stop,
    };
    (next, action)
}

/// A measure of the work left in a running cycle; it falls with every step.
pub open spec fn rank(s: PumpState, until: i64) -> int {
    match s {
        PumpState::Fetching { cursor } => 3 * (until - cursor) + 2,
        PumpState::Parsing { cursor } => 3 * (until - cursor) + 1,
        PumpState::Storing { cursor, .. } => 3 * (until - cursor),
        _ => 0,
    }
}

/// Whether a running state's cursor lies before `until`.
pub open spec fn in_window(s: PumpState, until: i64) -> bool {
    match s {
        PumpState::Fetching { cursor } => cursor < until,
        PumpState::Parsing { cursor } => cursor < until,
        PumpState::Storing { cursor, .. } => cursor < until,
        _ => true,
    }
}

/// Every step from a running state either ends the cycle or strictly lowers a
/// non-negative rank, so no cycle runs forever.
pub proof fn lemma_step_progress(s: PumpState, e: PumpEvent, until: i64)
    requires
        !(s is Idle),
        !is_terminal(s),
        in_window(s, until),
    ensures
        is_terminal(next_state(s, e, until)) || (in_window(next_state(s, e, until), until)
            && 0 <= rank(next_state(s, e, until), until) < rank(s, until)),
{
}

/// A cycle started at a checkpoint ends, or begins fetching within the window.
pub proof fn lemma_start_in_window(e: PumpEvent, until: i64)
    ensures
        is_terminal(next_state(PumpState::Idle, e, until)) || in_window(
            next_state(PumpState::Idle, e, until),
            until,
        ),
{
}

/// When the declared end of range does not pass the cursor, storing the record
/// ends the cycle instead of fetching the same range again; two such responses
/// in a row are therefore never followed by a third request.
pub proof fn lemma_stale_marker_stops(cursor: i64, marker: Option<i64>, until: i64)
    requires
        match marker {
            Some(m) => m <= cursor,
            None => true,
        },
    ensures
        next_state(PumpState::Storing { cursor, marker }, PumpEvent::Stored, until)
            == PumpState::Done,
{
}

/// The cursor only moves forward: a fetch that follows a store starts strictly
/// after the previous one.
pub proof fn lemma_cursor_increases(cursor: i64, marker: Option<i64>, until: i64)
    ensures
        match next_state(PumpState::Storing { cursor, marker }, PumpEvent::Stored, until) {
            PumpState::Fetching { cursor: next } => next > cursor && next < until,
            other => other == PumpState::Done,
        },
{
}

} // verus!
