//! The job scheduler: one conversion job for every source image, driven to
//! a terminal state by the events that the caller reports.
//!
//! The scheduler decides and the caller acts. Every call of
//! [`Scheduler::step`] takes the outcome of the action that the scheduler
//! asked for last and returns the next action: poll the image source for a
//! job, write a finished container, wait for the next tick, or finish.

use vstd::prelude::*;
use crate::encoder::{encode, packed_levels};
use crate::image::DecodedImage;
use crate::ktx2::{container, lengths, representable, write_container, WriteError};

verus! {

/// Why a job failed.
#[derive(Debug, Clone, PartialEq, Eq)]
pub enum JobError {
    /// The image source could not deliver the image; the text says why.
    Decode(String),
    /// The container could not be written.
    Write(WriteError),
}

/// The state of a job. `Converted` and `Failed` are terminal.
#[derive(Debug, Clone, PartialEq, Eq)]
pub enum JobState {
    Pending,
    Converted,
    Failed(JobError),
}

impl JobState {
    /// Tests whether the job is still waiting for its image.
    pub fn is_pending(&self) -> (b: bool)
        ensures
            b == (*self is Pending),
    {
        match self {
            JobState::Pending => true,
            _ => false,
        }
    }
}

/// One requested conversion. The position of a job in the scheduler, in the
/// order of submission, is its identity.
#[derive(Debug, Clone, PartialEq, Eq)]
pub struct ConversionJob {
    pub source_path: String,
    pub destination_path: String,
    /// The token that the image source returned when the path was submitted.
    pub load_handle: u64,
    pub state: JobState,
}

/// What the image source answers when polled for a job.
#[derive(Debug, Clone, PartialEq, Eq)]
pub enum ImageStatus {
    NotReady,
    Ready(DecodedImage),
    Failed(String),
}

/// What the caller reports to the scheduler.
#[derive(Debug, PartialEq, Eq)]
pub enum Event {
    /// A new tick begins.
    Tick,
    /// The image source was polled as asked and gave this answer.
    Polled(ImageStatus),
    /// The container was written as asked, or could not be.
    Written(Result<(), WriteError>),
}

/// What the scheduler asks the caller to do next.
#[derive(Debug, Clone, PartialEq, Eq)]
pub enum Action {
    /// Poll the image source with the handle of this job and report the
    /// answer.
    Poll { job: usize, handle: u64 },
    /// Write these bytes to the destination of this job and report the
    /// outcome.
    Write { job: usize, bytes: Vec<u8> },
    /// The tick is over and jobs are still pending: report the next tick.
    Wait,
    /// The tick is over and every job is in a terminal state.
    Finish,
}

/// An action with the bytes to write as a sequence.
pub enum ActionModel {
    Poll { job: usize, handle: u64 },
    Write { job: usize, bytes: Seq<u8> },
    Wait,
    Finish,
}

impl View for Action {
    type V = ActionModel;

    open spec fn view(&self) -> ActionModel {
        match *self {
            Action::Poll { job, handle } => ActionModel::Poll { job, handle },
            Action::Write { job, bytes } => ActionModel::Write { job, bytes: bytes@ },
            Action::Wait => ActionModel::Wait,
            Action::Finish => ActionModel::Finish,
        }
    }
}

/// Where the scheduler stands within a tick.
#[derive(Debug, Clone, Copy, PartialEq, Eq, Structural)]
pub enum Phase {
    /// Between ticks: the next event is `Tick`.
    Idle,
    /// The scheduler asked to poll this job: the next event is `Polled`.
    Polling(usize),
    /// The scheduler asked to write the container of this job: the next
    /// event is `Written`.
    Writing(usize),
}

/// The state of a scheduler: its jobs in the order of submission and its
/// phase.
pub struct SchedulerState {
    pub jobs: Seq<ConversionJob>,
    pub phase: Phase,
}

/// No job is pending.
pub open spec fn all_terminal(jobs: Seq<ConversionJob>) -> bool {
    forall|i: int| 0 <= i < jobs.len() ==> !((#[trigger] jobs[i]).state is Pending)
}

/// The number of pending jobs.
pub open spec fn pending_count(jobs: Seq<ConversionJob>) -> nat
    decreases jobs.len(),
{
    if jobs.len() == 0 {
        0
    } else {
        pending_count(jobs.drop_last()) + if jobs.last().state is Pending {
            1nat
        } else {
            0nat
        }
    }
}

/// The first pending job at or after `from`, or the number of jobs if there
/// is none.
pub open spec fn next_pending(jobs: Seq<ConversionJob>, from: int) -> int
    decreases jobs.len() - from,
{
    if from >= jobs.len() {
        jobs.len() as int
    } else if jobs[from].state is Pending {
        from
    } else {
        next_pending(jobs, from + 1)
    }
}

/// The jobs with the state of job `i` replaced.
pub open spec fn with_state(jobs: Seq<ConversionJob>, i: int, state: JobState) -> Seq<
    ConversionJob,
> {
    jobs.update(
        i,
        ConversionJob {
            source_path: jobs[i].source_path,
            destination_path: jobs[i].destination_path,
            load_handle: jobs[i].load_handle,
            state,
        },
    )
}

/// The container file of a decoded image: its levels encoded and laid out.
#[verifier::opaque]
pub open spec fn encoded_container(image: DecodedImage) -> Seq<u8> {
    container(image.width, image.height, packed_levels(image))
}

/// The container file of a decoded image can be written.
#[verifier::opaque]
pub open spec fn encoded_container_fits(image: DecodedImage) -> bool {
    representable(lengths(packed_levels(image)))
}

impl SchedulerState {
    /// The jobs can be counted in `usize`, and the job that the phase names
    /// exists and is pending.
    pub open spec fn valid(self) -> bool {
        &&& self.jobs.len() <= usize::MAX
        &&& match self.phase {
            Phase::Idle => true,
            Phase::Polling(i) => i < self.jobs.len() && self.jobs[i as int].state is Pending,
            Phase::Writing(i) => i < self.jobs.len() && self.jobs[i as int].state is Pending,
        }
    }

    /// The event is the one that the phase waits for.
    pub open spec fn accepts(self, event: Event) -> bool {
        match self.phase {
            Phase::Idle => event is Tick,
            Phase::Polling(_) => event is Polled,
            Phase::Writing(_) => event is Written,
        }
    }

    /// Goes on with the tick at job `from`: the next pending job is polled;
    /// if there is none the tick is over, and the batch with it if no job
    /// is pending at all.
    pub open spec fn proceed(jobs: Seq<ConversionJob>, from: int) -> (SchedulerState, ActionModel) {
        let next = next_pending(jobs, from);
        if next < jobs.len() {
            (
                SchedulerState { jobs, phase: Phase::Polling(next as usize) },
                ActionModel::Poll { job: next as usize, handle: jobs[next].load_handle },
            )
        } else if all_terminal(jobs) {
            (SchedulerState { jobs, phase: Phase::Idle }, ActionModel::Finish)
        } else {
            (SchedulerState { jobs, phase: Phase::Idle }, ActionModel::Wait)
        }
    }

    /// The state after an accepted event, and the action that answers it.
    ///
    /// A tick starts with the first pending job. A job whose image is not
    /// ready stays pending and the tick goes on with the next one. A job
    /// whose image failed to decode fails. A job whose image is ready is
    /// encoded at once and its container handed out for writing, or the
    /// job fails if the container cannot be written; the job stays pending
    /// until the outcome of the write is reported, and then it is converted
    /// or failed.
    pub open spec fn transition(self, event: Event) -> (SchedulerState, ActionModel) {
        match (self.phase, event) {
            (Phase::Idle, Event::Tick) => Self::proceed(self.jobs, 0),
            (Phase::Polling(i), Event::Polled(ImageStatus::NotReady)) => Self::proceed(
                self.jobs,
                i + 1,
            ),
            (Phase::Polling(i), Event::Polled(ImageStatus::Failed(reason))) => Self::proceed(
                with_state(self.jobs, i as int, JobState::Failed(JobError::Decode(reason))),
                i + 1,
            ),
            (Phase::Polling(i), Event::Polled(ImageStatus::Ready(image))) => {
                if encoded_container_fits(image) {
                    (
                        SchedulerState { jobs: self.jobs, phase: Phase::Writing(i) },
                        ActionModel::Write { job: i, bytes: encoded_container(image) },
                    )
                } else {
                    Self::proceed(
                        with_state(
                            self.jobs,
                            i as int,
                            JobState::Failed(JobError::Write(WriteError::TooLarge)),
                        ),
                        i + 1,
                    )
                }
            },
            (Phase::Writing(i), Event::Written(Ok(_))) => Self::proceed(
                with_state(self.jobs, i as int, JobState::Converted),
                i + 1,
            ),
            (Phase::Writing(i), Event::Written(Err(error))) => Self::proceed(
                with_state(self.jobs, i as int, JobState::Failed(JobError::Write(error))),
                i + 1,
            ),
            // an event that the phase does not wait for changes nothing
            _ => (self, ActionModel::Wait),
        }
    }
}

/// Adding a job adds one to the count if the job is pending.
pub proof fn lemma_pending_count_push(jobs: Seq<ConversionJob>, job: ConversionJob)
    ensures
        pending_count(jobs.push(job)) == pending_count(jobs) + if job.state is Pending {
            1nat
        } else {
            0nat
        },
{
    assert(jobs.push(job).drop_last() =~= jobs);
}

/// Replacing a job changes the count by what the old and the new job
/// contribute.
pub proof fn lemma_pending_count_update(jobs: Seq<ConversionJob>, i: int, job: ConversionJob)
    requires
        0 <= i < jobs.len(),
    ensures
        pending_count(jobs.update(i, job)) + (if jobs[i].state is Pending {
            1nat
        } else {
            0nat
        }) == pending_count(jobs) + (if job.state is Pending {
            1nat
        } else {
            0nat
        }),
    decreases jobs.len(),
{
    let updated = jobs.update(i, job);
    if i == jobs.len() - 1 {
        assert(updated.drop_last() =~= jobs.drop_last());
    } else {
        assert(updated.drop_last() =~= jobs.drop_last().update(i, job));
        lemma_pending_count_update(jobs.drop_last(), i, job);
    }
}

/// The count is zero exactly when no job is pending.
pub proof fn lemma_pending_count_zero(jobs: Seq<ConversionJob>)
    ensures
        pending_count(jobs) == 0 <==> all_terminal(jobs),
    decreases jobs.len(),
{
    if jobs.len() > 0 {
        let front = jobs.drop_last();
        lemma_pending_count_zero(front);
        if all_terminal(jobs) {
            assert forall|i: int| 0 <= i < front.len() implies !((#[trigger] front[i]).state
                is Pending) by {
                assert(front[i] == jobs[i]);
            }
            assert(!(jobs[jobs.len() - 1].state is Pending));
        }
        if pending_count(jobs) == 0 {
            assert forall|i: int| 0 <= i < jobs.len() implies !((#[trigger] jobs[i]).state
                is Pending) by {
                if i < front.len() {
                    assert(front[i] == jobs[i]);
                }
            }
        }
    }
}

/// What the search for the next pending job finds.
pub proof fn lemma_next_pending(jobs: Seq<ConversionJob>, from: int)
    requires
        0 <= from <= jobs.len(),
    ensures
        from <= next_pending(jobs, from) <= jobs.len(),
        next_pending(jobs, from) < jobs.len() ==> jobs[next_pending(jobs, from)].state is Pending,
        forall|k: int| from <= k < next_pending(jobs, from) ==> !((#[trigger] jobs[k]).state is Pending),
    decreases jobs.len() - from,
{
    if from < jobs.len() && !(jobs[from].state is Pending) {
        lemma_next_pending(jobs, from + 1);
    }
}

/// The jobs after an accepted event: those before it, with at most the
/// state of the job that the phase names replaced.
pub proof fn lemma_transition_jobs(s: SchedulerState, event: Event)
    requires
        s.valid(),
        s.accepts(event),
    ensures
        ({
            let t = s.transition(event).0;
            match s.phase {
                Phase::Idle => t.jobs == s.jobs,
                Phase::Polling(i) => t.jobs == s.jobs || (!(t.jobs[i as int].state is Pending)
                    && t.jobs == with_state(s.jobs, i as int, t.jobs[i as int].state)),
                Phase::Writing(i) => !(t.jobs[i as int].state is Pending) && t.jobs == with_state(
                    s.jobs,
                    i as int,
                    t.jobs[i as int].state,
                ),
            }
        }),
{
}

/// An accepted event leaves the state valid.
pub proof fn lemma_transition_valid(s: SchedulerState, event: Event)
    requires
        s.valid(),
        s.accepts(event),
    ensures
        s.transition(event).0.valid(),
{
    let t = s.transition(event).0;
    lemma_transition_jobs(s, event);
    match s.phase {
        Phase::Idle => {
            lemma_next_pending(t.jobs, 0);
        },
        Phase::Polling(i) => {
            lemma_next_pending(t.jobs, i + 1);
        },
        Phase::Writing(i) => {
            lemma_next_pending(t.jobs, i + 1);
        },
    }
}

/// Jobs do not disturb one another.
///
/// An accepted event keeps the number of jobs and, of every job, its paths
/// and its handle. It changes the state of no job but the one that the
/// phase names, and of no job that has reached a terminal state.
pub proof fn lemma_jobs_are_isolated(s: SchedulerState, event: Event, j: int)
    requires
        s.valid(),
        s.accepts(event),
        0 <= j < s.jobs.len(),
    ensures
        ({
            let t = s.transition(event).0;
            &&& t.jobs.len() == s.jobs.len()
            &&& t.jobs[j].source_path == s.jobs[j].source_path
            &&& t.jobs[j].destination_path == s.jobs[j].destination_path
            &&& t.jobs[j].load_handle == s.jobs[j].load_handle
            &&& s.phase != Phase::Polling(j as usize) && s.phase != Phase::Writing(j as usize)
                ==> t.jobs[j] == s.jobs[j]
            &&& !(s.jobs[j].state is Pending) ==> t.jobs[j] == s.jobs[j]
        }),
{
    lemma_transition_jobs(s, event);
}

/// Completion is signalled exactly when every job is terminal.
///
/// The action that answers an accepted event is `Finish` if and only if no
/// job is pending afterwards, and then the scheduler stands between ticks.
pub proof fn lemma_finish_iff_all_terminal(s: SchedulerState, event: Event)
    requires
        s.valid(),
        s.accepts(event),
    ensures
        s.transition(event).1 is Finish <==> all_terminal(s.transition(event).0.jobs),
        s.transition(event).1 is Finish ==> s.transition(event).0.phase is Idle,
{
    let t = s.transition(event).0;
    lemma_transition_jobs(s, event);
    match s.phase {
        Phase::Idle => {
            lemma_next_pending(t.jobs, 0);
        },
        Phase::Polling(i) => {
            lemma_next_pending(t.jobs, i + 1);
            assert(t.phase is Writing ==> t.jobs[i as int].state is Pending);
        },
        Phase::Writing(i) => {
            lemma_next_pending(t.jobs, i + 1);
        },
    }
}

/// A scheduler without jobs signals completion on the first tick.
pub proof fn lemma_empty_batch_finishes()
    ensures
        (SchedulerState { jobs: Seq::empty(), phase: Phase::Idle }).transition(Event::Tick).1
            is Finish,
{
}

/// Jobs are polled in the order of submission, and only while pending.
///
/// When the scheduler asks to poll a job, that job is pending and the
/// handle is its own. It lies after the job that the phase named, and no
/// job between the two is pending; at the start of a tick it is the first
/// pending job.
pub proof fn lemma_polls_follow_submission_order(s: SchedulerState, event: Event)
    requires
        s.valid(),
        s.accepts(event),
        s.transition(event).1 is Poll,
    ensures
        ({
            let t = s.transition(event).0;
            let job = s.transition(event).1->Poll_job as int;
            let handle = s.transition(event).1->Poll_handle;
            let from: int = match s.phase {
                Phase::Idle => 0,
                Phase::Polling(i) => i + 1,
                Phase::Writing(i) => i + 1,
            };
            &&& from <= job < t.jobs.len()
            &&& t.phase == Phase::Polling(job as usize)
            &&& t.jobs[job].state is Pending
            &&& handle == t.jobs[job].load_handle
            &&& forall|k: int| from <= k < job ==> !((#[trigger] t.jobs[k]).state is Pending)
        }),
{
    let t = s.transition(event).0;
    lemma_transition_jobs(s, event);
    match s.phase {
        Phase::Idle => {
            lemma_next_pending(t.jobs, 0);
        },
        Phase::Polling(i) => {
            lemma_next_pending(t.jobs, i + 1);
        },
        Phase::Writing(i) => {
            lemma_next_pending(t.jobs, i + 1);
        },
    }
}

/// The state after a sequence of events, each taken as [`Scheduler::step`]
/// takes it: an event that is not accepted changes nothing.
pub open spec fn run(s: SchedulerState, events: Seq<Event>) -> SchedulerState
    decreases events.len(),
{
    if events.len() == 0 {
        s
    } else {
        let before = run(s, events.drop_last());
        if before.accepts(events.last()) {
            before.transition(events.last()).0
        } else {
            before
        }
    }
}

/// Terminal states are final.
///
/// Whatever events follow, the state stays valid, no job is added or lost,
/// every job keeps its paths and its handle, and a job that has reached a
/// terminal state stays exactly as it is.
pub proof fn lemma_terminal_states_are_final(s: SchedulerState, events: Seq<Event>, j: int)
    requires
        s.valid(),
        0 <= j < s.jobs.len(),
    ensures
        run(s, events).valid(),
        run(s, events).jobs.len() == s.jobs.len(),
        run(s, events).jobs[j].source_path == s.jobs[j].source_path,
        run(s, events).jobs[j].destination_path == s.jobs[j].destination_path,
        run(s, events).jobs[j].load_handle == s.jobs[j].load_handle,
        !(s.jobs[j].state is Pending) ==> run(s, events).jobs[j] == s.jobs[j],
    decreases events.len(),
{
    if events.len() > 0 {
        let before = run(s, events.drop_last());
        lemma_terminal_states_are_final(s, events.drop_last(), j);
        if before.accepts(events.last()) {
            lemma_transition_valid(before, events.last());
            lemma_jobs_are_isolated(before, events.last(), j);
        }
    }
}

/// A job whose image arrives and whose container is written is converted,
/// whatever the states of the other jobs: the image is encoded and handed
/// out for writing in answer to the poll, and the job is `Converted` as
/// soon as the write is reported to have succeeded.
pub proof fn lemma_ready_job_is_converted(s: SchedulerState, job: usize, image: DecodedImage)
    requires
        s.valid(),
        s.phase == Phase::Polling(job),
        encoded_container_fits(image),
    ensures
        ({
            let (writing, action) = s.transition(Event::Polled(ImageStatus::Ready(image)));
            let (done, _) = writing.transition(Event::Written(Ok(())));
            &&& action == ActionModel::Write { job, bytes: encoded_container(image) }
            &&& writing.phase == Phase::Writing(job)
            &&& writing.jobs == s.jobs
            &&& done.jobs[job as int].state == JobState::Converted
        }),
{
}

/// A job whose image fails to decode fails with the reason given, and no
/// write is asked for it.
pub proof fn lemma_failed_job_is_failed(s: SchedulerState, job: usize, reason: String)
    requires
        s.valid(),
        s.phase == Phase::Polling(job),
    ensures
        ({
            let (after, action) = s.transition(Event::Polled(ImageStatus::Failed(reason)));
            &&& after.jobs[job as int].state == JobState::Failed(JobError::Decode(reason))
            &&& !(action is Write)
        }),
{
}

/// No more jobs are pending than there are jobs.
pub proof fn lemma_pending_count_bound(jobs: Seq<ConversionJob>)
    ensures
        pending_count(jobs) <= jobs.len(),
    decreases jobs.len(),
{
    if jobs.len() > 0 {
        lemma_pending_count_bound(jobs.drop_last());
    }
}

/// The scheduler: the jobs of a batch and the place within the current
/// tick.
pub struct Scheduler {
    jobs: Vec<ConversionJob>,
    pending: usize,
    phase: Phase,
}

impl View for Scheduler {
    type V = SchedulerState;

    closed spec fn view(&self) -> SchedulerState {
        SchedulerState { jobs: self.jobs@, phase: self.phase }
    }
}

impl Scheduler {
    /// The scheduler is consistent: its state is valid and its count of
    /// pending jobs is right.
    pub closed spec fn wf(&self) -> bool {
        &&& self@.valid()
        &&& self.pending == pending_count(self.jobs@)
    }

    /// A consistent scheduler has a valid state.
    pub proof fn lemma_wf_valid(&self)
        requires
            self.wf(),
        ensures
            self@.valid(),
    {
    }

    /// A scheduler without jobs, between ticks.
    pub fn new() -> (scheduler: Scheduler)
        ensures
            scheduler.wf(),
            scheduler@.jobs == Seq::<ConversionJob>::empty(),
            scheduler@.phase == Phase::Idle,
    {
        Scheduler { jobs: Vec::new(), pending: 0, phase: Phase::Idle }
    }

    /// Adds a pending job for a source that was submitted to the image
    /// source under `load_handle`, and returns its identity.
    pub fn submit(&mut self, source_path: String, destination_path: String, load_handle: u64) -> (job: usize)
        requires
            old(self).wf(),
        ensures
            final(self).wf(),
            job == old(self)@.jobs.len(),
            final(self)@.phase == old(self)@.phase,
            final(self)@.jobs == old(self)@.jobs.push(
                ConversionJob { source_path, destination_path, load_handle, state: JobState::Pending },
            ),
    {
        let job = self.jobs.len();
        let record = ConversionJob {
            source_path,
            destination_path,
            load_handle,
            state: JobState::Pending,
        };
        proof {
            lemma_pending_count_push(self.jobs@, record);
            lemma_pending_count_bound(self.jobs@);
        }
        self.jobs.push(record);
        assert(self.jobs.len() == self.jobs@.len());
        self.pending = self.pending + 1;
        job
    }

    /// The number of jobs.
    pub fn job_count(&self) -> (n: usize)
        ensures
            n == self@.jobs.len(),
    {
        self.jobs.len()
    }

    /// The record of a job, or nothing if there is no such job.
    pub fn job(&self, job: usize) -> (record: Option<&ConversionJob>)
        ensures
            match record {
                Some(record) => job < self@.jobs.len() && *record == self@.jobs[job as int],
                None => job >= self@.jobs.len(),
            },
    {
        if job < self.jobs.len() {
            Some(&self.jobs[job])
        } else {
            None
        }
    }

    /// The phase within the current tick.
    pub fn phase(&self) -> (phase: Phase)
        ensures
            phase == self@.phase,
    {
        self.phase
    }

    /// The number of jobs that are still pending.
    pub fn pending_jobs(&self) -> (n: usize)
        requires
            self.wf(),
        ensures
            n == pending_count(self@.jobs),
    {
        self.pending
    }

    /// Tests whether every job has reached a terminal state.
    pub fn is_complete(&self) -> (done: bool)
        requires
            self.wf(),
        ensures
            done == all_terminal(self@.jobs),
    {
        proof {
            lemma_pending_count_zero(self.jobs@);
        }
        self.pending == 0
    }

    /// Puts a pending job into a terminal state.
    fn settle(&mut self, job: usize, state: JobState)
        requires
            job < old(self).jobs@.len(),
            old(self).jobs@[job as int].state is Pending,
            !(state is Pending),
            old(self).pending == pending_count(old(self).jobs@),
        ensures
            final(self).jobs@ == with_state(old(self).jobs@, job as int, state),
            final(self).pending == pending_count(final(self).jobs@),
            final(self).phase == old(self).phase,
    {
        proof {
            lemma_pending_count_update(
                self.jobs@,
                job as int,
                with_state(self.jobs@, job as int, state)[job as int],
            );
        }
        self.jobs[job].state = state;
        assert(self.jobs@ =~= with_state(old(self).jobs@, job as int, state));
        self.pending = self.pending - 1;
    }

    /// Goes on with the tick at job `from`.
    fn proceed(&mut self, from: usize) -> (action: Action)
        requires
            from <= old(self).jobs@.len(),
            old(self).pending == pending_count(old(self).jobs@),
        ensures
            final(self).wf(),
            (final(self)@, action@) == SchedulerState::proceed(old(self).jobs@, from as int),
    {
        let mut next: usize = from;
        while next < self.jobs.len() && !self.jobs[next].state.is_pending()
            invariant
                from <= next <= self.jobs@.len(),
                self.jobs@ == old(self).jobs@,
                self.pending == old(self).pending,
                next_pending(self.jobs@, from as int) == next_pending(self.jobs@, next as int),
            decreases self.jobs@.len() - next,
        {
            next = next + 1;
        }
        if next < self.jobs.len() {
            self.phase = Phase::Polling(next);
            Action::Poll { job: next, handle: self.jobs[next].load_handle }
        } else {
            proof {
                lemma_pending_count_zero(self.jobs@);
            }
            self.phase = Phase::Idle;
            if self.pending == 0 {
                Action::Finish
            } else {
                Action::Wait
            }
        }
    }

    /// Takes the answer of the image source for the job being polled.
    fn polled(&mut self, job: usize, status: ImageStatus) -> (action: Action)
        requires
            old(self).wf(),
            old(self).phase == Phase::Polling(job),
            status matches ImageStatus::Ready(image) ==> image.well_formed(),
        ensures
            final(self).wf(),
            (final(self)@, action@) == old(self)@.transition(Event::Polled(status)),
    {
        assert(job < self.jobs.len());
        match status {
            ImageStatus::NotReady => self.proceed(job + 1),
            ImageStatus::Failed(reason) => {
                self.settle(job, JobState::Failed(JobError::Decode(reason)));
                self.proceed(job + 1)
            },
            ImageStatus::Ready(image) => {
                let texture = encode(&image);
                proof {
                    reveal(encoded_container);
                    reveal(encoded_container_fits);
                    assert(texture.level_bytes() =~= packed_levels(image));
                }
                match write_container(&texture) {
                    Ok(bytes) => {
                        self.phase = Phase::Writing(job);
                        Action::Write { job, bytes }
                    },
                    Err(error) => {
                        self.settle(job, JobState::Failed(JobError::Write(error)));
                        self.proceed(job + 1)
                    },
                }
            },
        }
    }

    /// Takes the outcome of writing the container of a job.
    fn written(&mut self, job: usize, outcome: Result<(), WriteError>) -> (action: Action)
        requires
            old(self).wf(),
            old(self).phase == Phase::Writing(job),
        ensures
            final(self).wf(),
            (final(self)@, action@) == old(self)@.transition(Event::Written(outcome)),
    {
        assert(job < self.jobs.len());
        match outcome {
            Ok(()) => {
                self.settle(job, JobState::Converted);
                self.proceed(job + 1)
            },
            Err(error) => {
                self.settle(job, JobState::Failed(JobError::Write(error)));
                self.proceed(job + 1)
            },
        }
    }

    /// Takes the outcome of the last action and returns the next one.
    ///
    /// An event that the phase does not wait for is refused: the result is
    /// `None` and nothing changes.
    pub fn step(&mut self, event: Event) -> (action: Option<Action>)
        requires
            old(self).wf(),
            event matches Event::Polled(ImageStatus::Ready(image)) ==> image.well_formed(),
        ensures
            final(self).wf(),
            match action {
                Some(action) => old(self)@.accepts(event) && (final(self)@, action@) == old(
                    self,
                )@.transition(event),
                None => !old(self)@.accepts(event) && final(self)@ == old(self)@,
            },
    {
        match self.phase {
            Phase::Idle => match event {
                Event::Tick => Some(self.proceed(0)),
                _ => None,
            },
            Phase::Polling(job) => match event {
                Event::Polled(status) => Some(self.polled(job, status)),
                _ => None,
            },
            Phase::Writing(job) => match event {
                Event::Written(outcome) => Some(self.written(job, outcome)),
                _ => None,
            },
        }
    }
}

} // verus!
