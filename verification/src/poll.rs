//! The orchestrator's poll-until-terminal state machine. One status
//! fetch yields a `RunRecord`; the loop sleeps a fixed interval after
//! each `Running`, fetches the error message once more after a `Failed`
//! (the fetch that reported the failure may not carry it yet), and
//! treats every other state — an absent run record included — as
//! terminal success, a deliberate simplification kept from the tool's
//! human-in-the-loop usage.

use vstd::prelude::*;

verus! {

/// Seconds the orchestrator waits between two status polls.
pub const POLL_INTERVAL_SECONDS: u64 = 60;

/// The remote run states the logic distinguishes. `Other` stands for
/// every state that is neither running nor failed, and for an absent run
/// record; all of those end the poll as success.
#[derive(Clone, Copy, PartialEq, Eq, Structural, Debug)]
pub enum RunState {
    Running,
    Failed,
    Other,
}

/// One status fetch as the logic reads it: the observed state, and the
/// error message if the fetch carried one.
#[derive(Clone, Debug)]
pub struct RunRecord {
    pub state: RunState,
    pub error_message: Option<String>,
}

/// What the poll loop does next after one status fetch.
#[derive(Clone, Copy, PartialEq, Eq, Structural, Debug)]
pub enum PollAction {
    Sleep,
    FetchMessage,
    Finish,
}

pub open spec fn spec_poll_decision(state: RunState) -> PollAction {
    match state {
        RunState::Running => PollAction::Sleep,
        RunState::Failed => PollAction::FetchMessage,
        RunState::Other => PollAction::Finish,
    }
}

/// Decides one step of the poll loop: sleep and poll again on `Running`,
/// fetch the error message on `Failed`, finish successfully otherwise.
pub fn poll_decision(state: RunState) -> (a: PollAction)
    ensures
        a == spec_poll_decision(state),
{
    match state {
        RunState::Running => PollAction::Sleep,
        RunState::Failed => PollAction::FetchMessage,
        RunState::Other => PollAction::Finish,
    }
}

/// The message a failed run surfaces: the re-fetched remote message, or
/// a fixed placeholder when none is available.
pub open spec fn spec_failure_message(refetched: Option<String>) -> Seq<char> {
    match refetched {
        Some(m) => m@,
        None => "Unknown error"@,
    }
}

/// Picks the failure message from the follow-up fetch.
pub fn failure_message(refetched: Option<String>) -> (m: String)
    ensures
        m@ == spec_failure_message(refetched),
{
    match refetched {
        Some(m) => m,
        None => String::from_str("Unknown error"),
    }
}

/// Why an orchestration run fails: the start call returned no run
/// identifier, or the run itself ended in the failed state.
#[derive(Clone, Debug)]
pub enum RunError {
    MissingRunId,
    JobFailed { message: String },
}

pub open spec fn spec_error_text(e: RunError) -> Seq<char> {
    match e {
        RunError::MissingRunId => "Job run ID is missing"@,
        RunError::JobFailed { message } => message@,
    }
}

impl RunError {
    /// The error's description, as surfaced at the process boundary.
    pub fn text(&self) -> (t: String)
        ensures
            t@ == spec_error_text(*self),
    {
        match self {
            RunError::MissingRunId => String::from_str("Job run ID is missing"),
            RunError::JobFailed { message } => message.clone(),
        }
    }
}

/// Accepts the run identifier a start call returned, or fails the
/// orchestration when the response carried none.
pub fn require_run_id(run_id: Option<String>) -> (r: Result<String, RunError>)
    ensures
        run_id is Some ==> r is Ok && r->Ok_0 == run_id->0,
        run_id is None ==> r is Err && r->Err_0 is MissingRunId,
{
    match run_id {
        Some(id) => Ok(id),
        None => Err(RunError::MissingRunId),
    }
}

/// How a poll over a scripted sequence of fetches ends.
#[derive(Clone, Debug)]
pub enum PollOutcome {
    Succeeded,
    Failed { message: String },
    /// The script ended while the run still looked live: no verdict.
    Exhausted,
}

/// The report of one full poll: its outcome, how many status fetches it
/// made, and how many times it slept between polls.
#[derive(Clone, Debug)]
pub struct PollReport {
    pub outcome: PollOutcome,
    pub fetches: usize,
    pub sleeps: usize,
}

/// Polls to a terminal verdict over a scripted sequence of status
/// fetches, one record per fetch in order. Each `Running` record costs
/// one sleep of the fixed interval and one further fetch; the first
/// record that is not `Running` ends the poll: `Other` as success with
/// no further fetch, `Failed` with one more fetch whose message — or the
/// placeholder — becomes the failure's. A script that ends before a
/// verdict is reached gives `Exhausted`.
pub fn poll_until_terminal(script: &Vec<RunRecord>) -> (r: PollReport)
    ensures
        r.sleeps <= script@.len(),
        forall|j: int| 0 <= j < r.sleeps ==> (#[trigger] script@[j].state) is Running,
        r.outcome is Succeeded ==> r.sleeps < script@.len() && script@[r.sleeps as int].state
            is Other && r.fetches == r.sleeps + 1,
        r.outcome matches PollOutcome::Failed { message } ==> r.sleeps + 1 < script@.len()
            && script@[r.sleeps as int].state is Failed && message@ == spec_failure_message(
            script@[r.sleeps + 1].error_message,
        ) && r.fetches == r.sleeps + 2,
        r.outcome is Exhausted ==> r.fetches == script@.len() && (r.sleeps == script@.len() || (
        r.sleeps + 1 == script@.len() && script@[r.sleeps as int].state is Failed)),
{
    let n = script.len();
    let mut i: usize = 0;
    while i < n
        invariant
            i <= n,
            n == script@.len(),
            forall|j: int| 0 <= j < i ==> (#[trigger] script@[j].state) is Running,
        decreases n - i,
    {
        match script[i].state {
            RunState::Running => {
                i = i + 1;
            },
            RunState::Failed => {
                if i + 1 < n {
                    let refetched = match &script[i + 1].error_message {
                        Some(m) => Some(m.clone()),
                        None => None,
                    };
                    let message = failure_message(refetched);
                    return PollReport {
                        outcome: PollOutcome::Failed { message },
                        fetches: i + 2,
                        sleeps: i,
                    };
                } else {
                    return PollReport { outcome: PollOutcome::Exhausted, fetches: i + 1, sleeps: i };
                }
            },
            RunState::Other => {
                return PollReport { outcome: PollOutcome::Succeeded, fetches: i + 1, sleeps: i };
            },
        }
    }
    PollReport { outcome: PollOutcome::Exhausted, fetches: n, sleeps: n }
}

} // verus!
