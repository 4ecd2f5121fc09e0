//! The driver over a date range: one orchestrated run per date, in
//! order, stopping the whole sequence at the first failure; dates after
//! the failing one are never attempted.

use vstd::prelude::*;

verus! {

/// The result of one orchestrated run, as the driver sees it.
#[derive(Clone, Debug)]
pub enum RunOutcome {
    Success,
    Failure { message: String },
}

/// What a driven sequence did: the dates attempted in order, and the
/// message of the failure that stopped it, if one did.
#[derive(Clone, Debug)]
pub struct DriveReport {
    pub attempted: Vec<String>,
    pub failure: Option<String>,
}

/// Drives one run per date over a scripted sequence of per-run results,
/// in date order. Every date up to and including the first failing one
/// is attempted; the first failure stops the sequence and its message is
/// reported; with no failure every date is attempted.
pub fn drive_dates(dates: &Vec<String>, results: &Vec<RunOutcome>) -> (r: DriveReport)
    requires
        results@.len() == dates@.len(),
    ensures
        r.attempted@.len() <= dates@.len(),
        r.attempted@ == dates@.take(r.attempted@.len() as int),
        forall|j: int| 0 <= j < r.attempted@.len() - 1 ==> (#[trigger] results@[j]) is Success,
        r.failure is None ==> r.attempted@.len() == dates@.len() && forall|j: int|
            0 <= j < results@.len() ==> (#[trigger] results@[j]) is Success,
        r.failure matches Some(m) ==> {
            let k = r.attempted@.len() - 1;
            &&& r.attempted@.len() >= 1
            &&& results@[k] matches RunOutcome::Failure { message } && m == message
        },
{
    let mut attempted: Vec<String> = Vec::new();
    let mut i: usize = 0;
    while i < dates.len()
        invariant
            i <= dates@.len(),
            results@.len() == dates@.len(),
            attempted@ == dates@.take(i as int),
            forall|j: int| 0 <= j < i ==> (#[trigger] results@[j]) is Success,
        decreases dates@.len() - i,
    {
        proof {
            assert(dates@.take(i as int).push(dates@[i as int]) =~= dates@.take(i as int + 1));
        }
        attempted.push(dates[i].clone());
        match &results[i] {
            RunOutcome::Success => {
                i = i + 1;
            },
            RunOutcome::Failure { message } => {
                return DriveReport { attempted, failure: Some(message.clone()) };
            },
        }
    }
    proof {
        assert(dates@.take(dates@.len() as int) =~= dates@);
    }
    DriveReport { attempted, failure: None }
}

} // verus!
