//! The edges of a batch: the check of the path lists before any job is
//! created, and the report once every job has reached a terminal state.

use vstd::prelude::*;
use crate::scheduler::{all_terminal, ConversionJob, JobState, Scheduler};

verus! {

/// Why a batch is refused before any job is created.
#[derive(Debug, Clone, Copy, PartialEq, Eq, Structural)]
pub enum ValidationError {
    /// The list of source paths is empty.
    NoInputs,
    /// The list of destination paths is empty.
    NoOutputs,
    /// The two lists differ in length.
    LengthMismatch,
}

impl ValidationError {
    /// The text that tells the user why the batch was refused.
    pub fn message(&self) -> (text: &'static str)
        ensures
            text@ == match *self {
                ValidationError::NoInputs => "No input paths provided"@,
                ValidationError::NoOutputs => "No output paths provided"@,
                ValidationError::LengthMismatch => "Input and output path lengths don't match"@,
            },
    {
        match self {
            ValidationError::NoInputs => "No input paths provided",
            ValidationError::NoOutputs => "No output paths provided",
            ValidationError::LengthMismatch => "Input and output path lengths don't match",
        }
    }
}

/// The verdict on a batch with this many source and destination paths.
pub open spec fn batch_verdict(sources: nat, destinations: nat) -> Result<(), ValidationError> {
    if sources == 0 {
        Err(ValidationError::NoInputs)
    } else if destinations == 0 {
        Err(ValidationError::NoOutputs)
    } else if sources != destinations {
        Err(ValidationError::LengthMismatch)
    } else {
        Ok(())
    }
}

/// Checks the path lists of a batch: both must be non-empty and of equal
/// length.
pub fn validate_batch(sources: &Vec<String>, destinations: &Vec<String>) -> (verdict: Result<
    (),
    ValidationError,
>)
    ensures
        verdict == batch_verdict(sources@.len(), destinations@.len()),
        verdict is Ok <==> sources@.len() == destinations@.len() && sources@.len() > 0,
{
    if sources.len() == 0 {
        Err(ValidationError::NoInputs)
    } else if destinations.len() == 0 {
        Err(ValidationError::NoOutputs)
    } else if sources.len() != destinations.len() {
        Err(ValidationError::LengthMismatch)
    } else {
        Ok(())
    }
}

/// The process exit status of a batch that was refused.
pub const EXIT_INVALID: u8 = 1;

/// The process exit status of a batch in which a job failed.
pub const EXIT_FAILED: u8 = 1;

/// The process exit status of a batch in which every job was converted.
pub const EXIT_SUCCESS: u8 = 0;

/// The identities of the failed jobs, in the order of submission.
pub open spec fn failed_jobs(jobs: Seq<ConversionJob>) -> Seq<usize>
    decreases jobs.len(),
{
    if jobs.len() == 0 {
        Seq::empty()
    } else if jobs.last().state is Failed {
        failed_jobs(jobs.drop_last()).push((jobs.len() - 1) as usize)
    } else {
        failed_jobs(jobs.drop_last())
    }
}

/// The number of converted jobs.
pub open spec fn converted_count(jobs: Seq<ConversionJob>) -> nat
    decreases jobs.len(),
{
    if jobs.len() == 0 {
        0
    } else {
        converted_count(jobs.drop_last()) + if jobs.last().state is Converted {
            1nat
        } else {
            0nat
        }
    }
}

/// The outcome of a batch.
#[derive(Debug, Clone, PartialEq, Eq)]
pub struct BatchReport {
    /// The number of jobs that were converted.
    pub converted: usize,
    /// The identities of the jobs that failed, in the order of submission.
    pub failed: Vec<usize>,
}

impl BatchReport {
    /// Tests whether no job failed.
    pub fn succeeded(&self) -> (ok: bool)
        ensures
            ok == (self.failed@.len() == 0),
    {
        self.failed.len() == 0
    }

    /// The process exit status: failure if any job failed.
    pub fn exit_code(&self) -> (code: u8)
        ensures
            code == if self.failed@.len() == 0 {
                EXIT_SUCCESS
            } else {
                EXIT_FAILED
            },
    {
        if self.failed.len() == 0 {
            EXIT_SUCCESS
        } else {
            EXIT_FAILED
        }
    }
}

/// A job is listed as failed exactly when its state is `Failed`, and the
/// list is in ascending order.
pub proof fn lemma_failed_jobs(jobs: Seq<ConversionJob>)
    requires
        jobs.len() <= usize::MAX,
    ensures
        failed_jobs(jobs).len() + converted_count(jobs) <= jobs.len(),
        forall|k: int|
            0 <= k < failed_jobs(jobs).len() ==> (#[trigger] failed_jobs(jobs)[k]) < jobs.len()
                && jobs[failed_jobs(jobs)[k] as int].state is Failed,
        forall|k: int, l: int|
            0 <= k < l < failed_jobs(jobs).len() ==> (#[trigger] failed_jobs(jobs)[k]) < (
            #[trigger] failed_jobs(jobs)[l]),
        forall|j: int|
            0 <= j < jobs.len() && (#[trigger] jobs[j]).state is Failed ==> failed_jobs(
                jobs,
            ).contains(j as usize),
    decreases jobs.len(),
{
    if jobs.len() > 0 {
        let front = jobs.drop_last();
        let last = (jobs.len() - 1) as usize;
        lemma_failed_jobs(front);
        let listed = failed_jobs(jobs);
        let before = failed_jobs(front);
        assert forall|j: int| 0 <= j < jobs.len() && (#[trigger] jobs[j]).state
            is Failed implies listed.contains(j as usize) by {
            if j < front.len() {
                assert(front[j] == jobs[j]);
                assert(before.contains(j as usize));
                let k = choose|k: int| 0 <= k < before.len() && before[k] == j as usize;
                assert(listed[k] == j as usize);
            } else {
                assert(listed[listed.len() - 1] == last);
            }
        }
        assert forall|k: int| 0 <= k < listed.len() implies (#[trigger] listed[k]) < jobs.len()
            && jobs[listed[k] as int].state is Failed by {
            if k < before.len() {
                assert(front[before[k] as int] == jobs[before[k] as int]);
            }
        }
    }
}

/// Once every job is terminal the report accounts for all of them: each
/// job is either converted or listed as failed.
pub proof fn lemma_report_is_complete(jobs: Seq<ConversionJob>)
    requires
        all_terminal(jobs),
    ensures
        failed_jobs(jobs).len() + converted_count(jobs) == jobs.len(),
    decreases jobs.len(),
{
    if jobs.len() > 0 {
        let front = jobs.drop_last();
        assert forall|i: int| 0 <= i < front.len() implies !((#[trigger] front[i]).state
            is Pending) by {
            assert(front[i] == jobs[i]);
        }
        lemma_report_is_complete(front);
        assert(!(jobs[jobs.len() - 1].state is Pending));
    }
}

impl Scheduler {
    /// Reports the outcome of the batch as it stands: the number of
    /// converted jobs and the identities of the failed ones.
    pub fn report(&self) -> (report: BatchReport)
        ensures
            report.converted == converted_count(self@.jobs),
            report.failed@ == failed_jobs(self@.jobs),
    {
        let count = self.job_count();
        let mut converted: usize = 0;
        let mut failed: Vec<usize> = Vec::new();
        let mut i: usize = 0;
        while i < count
            invariant
                i <= count,
                count == self@.jobs.len(),
                converted == converted_count(self@.jobs.take(i as int)),
                converted <= i,
                failed@ == failed_jobs(self@.jobs.take(i as int)),
            decreases count - i,
        {
            proof {
                assert(self@.jobs.take(i + 1).drop_last() =~= self@.jobs.take(i as int));
            }
            match self.job(i) {
                Some(record) => {
                    match record.state {
                        JobState::Converted => {
                            converted = converted + 1;
                        },
                        JobState::Failed(_) => {
                            failed.push(i);
                        },
                        JobState::Pending => {},
                    }
                },
                None => {},
            }
            i = i + 1;
        }
        assert(self@.jobs.take(count as int) =~= self@.jobs);
        BatchReport { converted, failed }
    }
}

} // verus!
