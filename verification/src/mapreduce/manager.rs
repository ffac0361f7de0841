//! The manager: it gives every job to a worker, to another one where that fails, and
//! reduces the results.

use crate::mapreduce::error::Error;
use crate::mapreduce::exchange::{
    after_reads, law_answer_is_the_message, ActionView, EventView, Stage,
};
use crate::mapreduce::message::{arrived, ends_early, law_no_response_iff_the_stream_ends_early};
use crate::mapreduce::pool::{
    law_done_job_restores_the_pool, law_failed_job_costs_its_worker,
    law_lent_worker_comes_back_or_is_lost, lists, unstopped, workers_at, PoolView, RemoteWorker,
    WorkerGuard, WorkerPool,
};
use crate::mapreduce::reduce::{merge, merged, Reduce};
use vstd::multiset::Multiset;
use vstd::prelude::*;

verus! {

/// How many milliseconds a job waits before it asks again for a worker.
pub const REST_MILLIS: u64 = 1000;

/// What happened to a job.
pub enum JobEvent<A, O> {
    /// It was given to the manager.
    Started,
    /// It has waited.
    Rested,
    /// The worker performed it, and this came of it.
    Performed(WorkerGuard<A>, Result<O, Error>),
}

/// What is to be done about a job.
pub enum JobAction<A, O> {
    /// Have the worker perform it.
    Perform(WorkerGuard<A>),
    /// Wait for so many milliseconds.
    Rest(u64),
    /// This try of the job is over.
    Return(Result<O, Error>),
}

/// What is to be done when a try of a job is over.
#[derive(Debug)]
pub enum MapAction<O> {
    /// The job is done.
    Return(O),
    /// The job can never be done: give up with this error.
    Panic(Error),
    /// Try the job again.
    Reschedule,
}

/// What a [`JobEvent`] means: the job waits for a worker, or has been performed by one.
pub enum JobEventView<A, O> {
    Waiting,
    Performed(RemoteWorker<A>, Result<O, Error>),
}

/// What a [`JobAction`] holds.
pub enum JobActionView<A, O> {
    Perform(RemoteWorker<A>),
    Rest(u64),
    Return(Result<O, Error>),
}

impl<A, O> View for JobEvent<A, O> {
    type V = JobEventView<A, O>;

    open spec fn view(&self) -> JobEventView<A, O> {
        match self {
            JobEvent::Started | JobEvent::Rested => JobEventView::Waiting,
            JobEvent::Performed(guard, outcome) => JobEventView::Performed(guard@, *outcome),
        }
    }
}

impl<A, O> View for JobAction<A, O> {
    type V = JobActionView<A, O>;

    open spec fn view(&self) -> JobActionView<A, O> {
        match self {
            JobAction::Perform(guard) => JobActionView::Perform(guard@),
            JobAction::Rest(millis) => JobActionView::Rest(*millis),
            JobAction::Return(outcome) => JobActionView::Return(*outcome),
        }
    }
}

/// The pool after `event`, and what is to be done about the job.
///
/// A job that waits for a worker gets one, waits on while all are running, or fails where
/// none is left. A worker that has performed the job is free again; one that failed at it
/// is not.
pub open spec fn after_job_event<A, O>(pool: PoolView<A>, event: JobEventView<A, O>) -> (
    PoolView<A>,
    JobActionView<A, O>,
) {
    match event {
        JobEventView::Waiting => if pool.exhausted() {
            (pool, JobActionView::Return(Err(Error::NoAvailableWorker)))
        } else if pool.ready.len() == 0 {
            (pool, JobActionView::Rest(REST_MILLIS))
        } else {
            (pool.lending(), JobActionView::Perform(pool.ready.last()))
        },
        JobEventView::Performed(worker, Ok(result)) => (
            pool.regaining(worker),
            JobActionView::Return(Ok(result)),
        ),
        JobEventView::Performed(worker, Err(error)) => (
            pool.losing(worker),
            JobActionView::Return(Err(error)),
        ),
    }
}

/// What is to be done when a try of a job is over: a job is tried until it is done or no
/// worker is left.
pub open spec fn map_action<O>(outcome: Result<O, Error>) -> MapAction<O> {
    match outcome {
        Ok(result) => MapAction::Return(result),
        Err(Error::NoAvailableWorker) => MapAction::Panic(Error::NoAvailableWorker),
        Err(_) => MapAction::Reschedule,
    }
}

/// A manager of workers.
pub struct Manager<A> {
    pool: WorkerPool<A>,
}

impl<A> View for Manager<A> {
    type V = PoolView<A>;

    closed spec fn view(&self) -> PoolView<A> {
        self.pool@
    }
}

impl<A> Manager<A> {
    /// The pool is well-formed.
    pub closed spec fn wf(self) -> bool {
        self.pool.wf()
    }
}

impl<A: Copy> Manager<A> {
    /// A manager of the workers at all the addresses that were resolved. All are ready.
    pub fn new(resolved: &Vec<Vec<A>>) -> (r: Self)
        requires
            workers_at(lists(resolved@)).len() <= u32::MAX,
        ensures
            r.wf(),
            r@.all == workers_at(lists(resolved@)),
            r@.all.map_values(|worker: RemoteWorker<A>| worker.addr) == resolved@.map_values(
                |addrs: Vec<A>| addrs@,
            ).flatten(),
            r@.ready == r@.all,
            r@.lent == Multiset::<RemoteWorker<A>>::empty(),
    {
        Manager { pool: WorkerPool::new(resolved) }
    }

    /// One step of a try to have a job done.
    pub fn try_map<O>(&mut self, event: JobEvent<A, O>) -> (r: JobAction<A, O>)
        requires
            old(self).wf(),
            event matches JobEvent::Performed(guard, _) ==> old(self)@.lent.contains(guard@),
        ensures
            final(self).wf(),
            (final(self)@, r@) == after_job_event(old(self)@, event@),
    {
        match event {
            JobEvent::Started | JobEvent::Rested => match self.pool.get_worker() {
                Ok(Some(worker)) => JobAction::Perform(worker),
                Ok(None) => JobAction::Rest(REST_MILLIS),
                Err(error) => JobAction::Return(Err(error)),
            },
            JobEvent::Performed(worker, outcome) => {
                if outcome.is_ok() {
                    worker.success(&mut self.pool);
                } else {
                    worker.failure(&mut self.pool);
                }
                JobAction::Return(outcome)
            },
        }
    }

    /// What is to be done when a try of a job is over.
    pub fn map<O>(outcome: Result<O, Error>) -> (r: MapAction<O>)
        ensures
            r == map_action(outcome),
    {
        match outcome {
            Ok(result) => MapAction::Return(result),
            Err(Error::NoAvailableWorker) => MapAction::Panic(Error::NoAvailableWorker),
            Err(_) => MapAction::Reschedule,
        }
    }

    /// Reduces the partial results that the threads came to.
    pub fn get_results<O: Reduce<O>>(partials: Vec<Option<O>>) -> (r: Option<O>)
        ensures
            merged(partials@, r),
    {
        merge(partials)
    }

    /// Ends a run in which the threads came to the partial results: gives the result,
    /// and the workers that are to be stopped, which are all.
    pub fn run<O: Reduce<O>>(&self, partials: Vec<Option<O>>) -> (r: (
        Option<O>,
        Vec<RemoteWorker<A>>,
    ))
        ensures
            merged(partials@, r.0),
            r.1@ == self@.all,
    {
        let result = Self::get_results(partials);
        (result, self.pool.workers())
    }

    /// Given which workers stopped when they were told to, in the manager's order, tells
    /// which did not.
    pub fn stop_workers(&self, stopped: &Vec<bool>) -> (r: Vec<RemoteWorker<A>>)
        requires
            stopped@.len() == self@.all.len(),
        ensures
            r@ == unstopped(self@.all, stopped@),
    {
        self.pool.stop_workers(stopped)
    }
}

/// A job that failed on a worker is tried again, and goes to another worker, unless the
/// pool had that worker more than once. It waits while no other is ready but some are
/// running, and is given up only when no worker is left.
pub proof fn law_failed_job_goes_to_another_worker<A, O>(
    pool: PoolView<A>,
    worker: RemoteWorker<A>,
    error: Error,
)
    requires
        pool.lent.contains(worker),
        pool.holds(worker) == 1,
        error != Error::NoAvailableWorker,
    ensures
        ({
            let failed: JobEventView<A, O> = JobEventView::Performed(worker, Err(error));
            let (after, action) = after_job_event(pool, failed);
            let next = after_job_event(after, JobEventView::<A, O>::Waiting).1;
            &&& action matches JobActionView::Return(outcome)
            &&& map_action(outcome) is Reschedule
            &&& next matches JobActionView::Perform(other) ==> other != worker
            &&& next is Perform <==> after.ready.len() > 0
            &&& next is Rest <==> after.ready.len() == 0 && after.lent.len() > 0
            &&& next matches JobActionView::Return(outcome) ==> {
                &&& after.exhausted()
                &&& map_action(outcome) == MapAction::<O>::Panic(Error::NoAvailableWorker)
            }
        }),
{
    pool.ready.to_multiset_ensures();
    if pool.ready.len() > 0 {
        assert(pool.ready.contains(pool.ready.last()));
    }
}

/// Whatever goes wrong in the exchange with a worker, at whatever stage, the job is tried
/// again.
pub proof fn law_failed_exchange_reschedules_the_job<O>(
    stage: Stage,
    event: EventView,
    answered: bool,
)
    requires
        stage.admits(event),
    ensures
        stage.after(event, answered).1 matches ActionView::Fail(error) ==> {
            &&& stage.after(event, answered).0 is Over
            &&& error != Error::NoAvailableWorker
            &&& map_action::<O>(Err(error)) is Reschedule
        },
{
}

/// A worker that fails in the middle of its answer loses the job: where the stream ends
/// before the end mark, the exchange is over, and the job is tried again.
pub proof fn law_interrupted_answer_reschedules_the_job<O>(reads: Seq<Option<Seq<u8>>>)
    requires
        ends_early(arrived(reads)),
    ensures
        after_reads(reads) == (Stage::Over, ActionView::Fail(Error::NoResponse)),
        map_action::<O>(Err(Error::NoResponse)) is Reschedule,
{
    law_no_response_iff_the_stream_ends_early(reads);
    law_answer_is_the_message(reads);
}

/// Where a job ends up when nobody else uses the pool and `answers` says what each worker
/// makes of the job: the pool, and what is to be done at last, or nothing where the job
/// waits for a worker that is lent.
pub open spec fn job_outcome<A, O>(
    pool: PoolView<A>,
    answers: spec_fn(RemoteWorker<A>) -> Result<O, Error>,
) -> (PoolView<A>, Option<MapAction<O>>)
    decreases pool.ready.len(),
{
    match after_job_event(pool, JobEventView::<A, O>::Waiting) {
        (lending, JobActionView::Perform(worker)) => {
            let performed = JobEventView::Performed(worker, answers(worker));
            match after_job_event(lending, performed) {
                (after, JobActionView::Return(outcome)) => match map_action(outcome) {
                    MapAction::Reschedule => if after.ready.len() < pool.ready.len() {
                        job_outcome(after, answers)
                    } else {
                        (after, None)
                    },
                    last => (after, Some(last)),
                },
                (after, _) => (after, None),
            }
        },
        (after, JobActionView::Rest(_)) => (after, None),
        (after, JobActionView::Return(outcome)) => (after, Some(map_action(outcome))),
    }
}

/// A job is done if any of the ready workers can do it. The worker that is asked last,
/// and does it, is ready again, and so are those that were not asked; those that were
/// asked before it are gone.
pub proof fn law_job_is_done_if_a_worker_can<A, O>(
    pool: PoolView<A>,
    answers: spec_fn(RemoteWorker<A>) -> Result<O, Error>,
    able: int,
)
    requires
        0 <= able < pool.ready.len(),
        answers(pool.ready[able]) is Ok,
        forall|i: int|
            able < i < pool.ready.len() ==> {
                let answer = answers(#[trigger] pool.ready[i]);
                answer is Err && answer != Err::<O, Error>(Error::NoAvailableWorker)
            },
    ensures
        job_outcome(pool, answers) == (
            PoolView { ready: pool.ready.take(able + 1), ..pool },
            Some(MapAction::Return(answers(pool.ready[able])->Ok_0)),
        ),
    decreases pool.ready.len(),
{
    let worker = pool.ready.last();
    if able == pool.ready.len() - 1 {
        law_done_job_restores_the_pool(pool);
        assert(pool.ready.take(able + 1) =~= pool.ready);
    } else {
        assert(worker == pool.ready[pool.ready.len() - 1]);
        law_failed_job_costs_its_worker(pool);
        let after = PoolView { ready: pool.ready.drop_last(), ..pool };
        assert forall|i: int| able < i < after.ready.len() implies {
            let answer = answers(#[trigger] after.ready[i]);
            answer is Err && answer != Err::<O, Error>(Error::NoAvailableWorker)
        } by {
            assert(after.ready[i] == pool.ready[i]);
        }
        law_job_is_done_if_a_worker_can(after, answers, able);
        assert(after.ready.take(able + 1) =~= pool.ready.take(able + 1));
    }
}

/// What comes of an exchange whose answer is read like this, where `decode` says what
/// decoding makes of an answer; nothing while the answer is still being read.
pub open spec fn answer_of<O>(
    reads: Seq<Option<Seq<u8>>>,
    decode: spec_fn(Seq<u8>) -> Result<O, Error>,
) -> Option<Result<O, Error>> {
    match after_reads(reads).1 {
        ActionView::Decode(payload) => Some(decode(payload)),
        ActionView::Fail(error) => Some(Err(error)),
        _ => None,
    }
}

/// A job outlives the workers that fail in the middle of their answers: if all workers
/// that are asked before an able one end their streams early, the job ends with what the
/// able one answers.
pub proof fn law_job_outlives_interrupted_answers<A, O>(
    pool: PoolView<A>,
    streams: spec_fn(RemoteWorker<A>) -> Seq<Option<Seq<u8>>>,
    decode: spec_fn(Seq<u8>) -> Result<O, Error>,
    able: int,
    result: O,
)
    requires
        0 <= able < pool.ready.len(),
        answer_of(streams(pool.ready[able]), decode) == Some(Ok::<O, Error>(result)),
        forall|i: int|
            able < i < pool.ready.len() ==> ends_early(
                arrived(streams(#[trigger] pool.ready[i])),
            ),
    ensures
        job_outcome(pool, |worker: RemoteWorker<A>| answer_of(streams(worker), decode).unwrap())
            == (
            PoolView { ready: pool.ready.take(able + 1), ..pool },
            Some(MapAction::Return(result)),
        ),
{
    let answers = |worker: RemoteWorker<A>| answer_of(streams(worker), decode).unwrap();
    assert forall|i: int| able < i < pool.ready.len() implies {
        let answer = answers(#[trigger] pool.ready[i]);
        answer is Err && answer != Err::<O, Error>(Error::NoAvailableWorker)
    } by {
        law_interrupted_answer_reschedules_the_job::<O>(streams(pool.ready[i]));
    }
    law_job_is_done_if_a_worker_can(pool, answers, able);
}

/// A job that no ready worker can do uses them all up. It is given up if no other worker
/// is running, and else waits for one.
pub proof fn law_job_that_nobody_can_do<A, O>(
    pool: PoolView<A>,
    answers: spec_fn(RemoteWorker<A>) -> Result<O, Error>,
)
    requires
        forall|i: int|
            0 <= i < pool.ready.len() ==> {
                let answer = answers(#[trigger] pool.ready[i]);
                answer is Err && answer != Err::<O, Error>(Error::NoAvailableWorker)
            },
    ensures
        job_outcome(pool, answers).0 == (PoolView { ready: seq![], ..pool }),
        job_outcome(pool, answers).1 == if pool.lent.len() == 0 {
            Some(MapAction::<O>::Panic(Error::NoAvailableWorker))
        } else {
            None
        },
    decreases pool.ready.len(),
{
    if pool.ready.len() == 0 {
        assert(pool.ready =~= seq![]);
    } else {
        assert(pool.ready.last() == pool.ready[pool.ready.len() - 1]);
        law_failed_job_costs_its_worker(pool);
        let after = PoolView { ready: pool.ready.drop_last(), ..pool };
        assert forall|i: int| 0 <= i < after.ready.len() implies {
            let answer = answers(#[trigger] after.ready[i]);
            answer is Err && answer != Err::<O, Error>(Error::NoAvailableWorker)
        } by {
            assert(after.ready[i] == pool.ready[i]);
        }
        law_job_that_nobody_can_do(after, answers);
    }
}

/// A job that waits for a worker gets the one that became ready last, as long as any is
/// ready; it waits on while others are lent, and is told that no worker is left when none
/// is ready or lent. Only a worker that is lent changes the pool.
pub proof fn law_waiting_job_gets_a_worker<A, O>(pool: PoolView<A>)
    ensures
        ({
            let (after, action) = after_job_event(pool, JobEventView::<A, O>::Waiting);
            &&& pool.ready.len() > 0 ==> {
                &&& action == JobActionView::<A, O>::Perform(pool.ready[pool.ready.len() - 1])
                &&& after.all == pool.all
                &&& after.ready == pool.ready.take(pool.ready.len() - 1)
                &&& after.lent == pool.lent.insert(pool.ready[pool.ready.len() - 1])
            }
            &&& pool.ready.len() == 0 && pool.lent.len() > 0 ==> {
                &&& action == JobActionView::<A, O>::Rest(REST_MILLIS)
                &&& after == pool
            }
            &&& pool.ready.len() == 0 && pool.lent.len() == 0 ==> {
                &&& action == JobActionView::<A, O>::Return(Err(Error::NoAvailableWorker))
                &&& after == pool
            }
        }),
{
    if pool.ready.len() > 0 {
        assert(pool.ready.drop_last() =~= pool.ready.take(pool.ready.len() - 1));
    }
}

/// What a worker made of a job is what the try of the job ends with, result or error. A
/// worker that did the job is ready again, as the last; one that failed is not.
pub proof fn law_try_ends_with_what_the_worker_made_of_it<A, O>(
    pool: PoolView<A>,
    worker: RemoteWorker<A>,
    outcome: Result<O, Error>,
)
    requires
        pool.lent.contains(worker),
    ensures
        ({
            let (after, action) = after_job_event(pool, JobEventView::Performed(worker, outcome));
            &&& action == JobActionView::<A, O>::Return(outcome)
            &&& after.all == pool.all
            &&& after.ready == if outcome is Ok { pool.ready.push(worker) } else { pool.ready }
            &&& after.lent.insert(worker) == pool.lent
        }),
{
    law_lent_worker_comes_back_or_is_lost(pool, worker);
}

/// A job ends with the result of the try that succeeded, is given up only where no worker
/// is left, and is tried again after every other error.
pub proof fn law_job_is_tried_until_it_is_done<O>(result: O, error: Error)
    ensures
        map_action(Ok::<O, Error>(result)) == MapAction::Return(result),
        error == Error::NoAvailableWorker ==> map_action(Err::<O, Error>(error))
            == MapAction::<O>::Panic(Error::NoAvailableWorker),
        error != Error::NoAvailableWorker ==> map_action(Err::<O, Error>(error))
            == MapAction::<O>::Reschedule,
{
}

/// Events and actions of a job are seen whole.
pub proof fn law_job_events_and_actions_are_seen_whole<A, O>(
    guard: WorkerGuard<A>,
    outcome: Result<O, Error>,
    millis: u64,
)
    ensures
        JobEvent::<A, O>::Started@ == JobEventView::<A, O>::Waiting,
        JobEvent::<A, O>::Rested@ == JobEventView::<A, O>::Waiting,
        JobEvent::Performed(guard, outcome)@ == JobEventView::Performed(guard@, outcome),
        JobAction::<A, O>::Perform(guard)@ == JobActionView::<A, O>::Perform(guard@),
        JobAction::<A, O>::Rest(millis)@ == JobActionView::<A, O>::Rest(millis),
        JobAction::<A, O>::Return(outcome)@ == JobActionView::<A, O>::Return(outcome),
{
}

} // verus!
