//! Orchestration of remote batch-job runs across a date range.
//!
//! The library models the logic of a job-run tool: expanding a start/end
//! date pair into the run dates, building the start-request for one run,
//! deciding each step of the poll-until-terminal loop, accumulating
//! paginated listings of remote resources, and driving one run per date
//! with a stop on the first failure. The remote calls themselves (job
//! control, identity listing, prompting, terminal output) live outside
//! the library; it exchanges plain values with them.

use vstd::prelude::*;

pub mod config;
pub mod dates;
pub mod driver;
pub mod listing;
pub mod poll;
pub mod text;

verus! {

/// The commands the tool offers: a backfill over a date range, or the
/// creation of a notebook wired to a selected role.
#[derive(Clone, Copy, PartialEq, Eq, Structural, Debug)]
pub enum Commands {
    Backfill,
    Notebook,
}

} // verus!
