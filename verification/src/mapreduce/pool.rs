//! The workers, and which of them are free.

use crate::mapreduce::error::Error;
use vstd::multiset::Multiset;
use vstd::prelude::*;

verus! {

/// A worker on another machine, reached at an address.
#[derive(Debug)]
pub struct RemoteWorker<A> {
    pub addr: A,
}

impl<A: Copy> Copy for RemoteWorker<A> {

}

impl<A: Copy> Clone for RemoteWorker<A> {
    fn clone(&self) -> (r: Self)
        ensures
            r == *self,
    {
        *self
    }
}

/// The state of a pool: all its workers, those that are ready, the one to be lent next
/// at the end, and those that are lent.
pub struct PoolView<A> {
    pub all: Seq<RemoteWorker<A>>,
    pub ready: Seq<RemoteWorker<A>>,
    pub lent: Multiset<RemoteWorker<A>>,
}

impl<A> PoolView<A> {
    /// No worker is ready or lent more often than the pool has it.
    pub open spec fn valid(self) -> bool {
        &&& self.ready.to_multiset().add(self.lent).subset_of(self.all.to_multiset())
        &&& self.all.len() <= u32::MAX
    }

    /// Whether there is no worker left, neither ready nor lent.
    pub open spec fn exhausted(self) -> bool {
        self.ready.len() + self.lent.len() == 0
    }

    /// The pool when it has lent its next worker.
    pub open spec fn lending(self) -> PoolView<A> {
        PoolView {
            ready: self.ready.drop_last(),
            lent: self.lent.insert(self.ready.last()),
            ..self
        }
    }

    /// The pool when `worker` has come back from a job that it did.
    pub open spec fn regaining(self, worker: RemoteWorker<A>) -> PoolView<A> {
        PoolView { ready: self.ready.push(worker), lent: self.lent.remove(worker), ..self }
    }

    /// The pool when `worker` has failed: it does not come back.
    pub open spec fn losing(self, worker: RemoteWorker<A>) -> PoolView<A> {
        PoolView { lent: self.lent.remove(worker), ..self }
    }
}

/// The addresses of all lists, one list after the other, as workers.
pub open spec fn workers_at<A>(resolved: Seq<Seq<A>>) -> Seq<RemoteWorker<A>>
    decreases resolved.len(),
{
    if resolved.len() == 0 {
        seq![]
    } else {
        workers_at(resolved.drop_last()) + resolved.last().map_values(
            |addr: A| RemoteWorker { addr },
        )
    }
}

/// The contents of a list of lists.
pub open spec fn lists<A>(v: Seq<Vec<A>>) -> Seq<Seq<A>> {
    v.map_values(|l: Vec<A>| l@)
}

/// Those workers, in order, that did not stop.
pub open spec fn unstopped<A>(workers: Seq<RemoteWorker<A>>, stopped: Seq<bool>) -> Seq<
    RemoteWorker<A>,
>
    decreases workers.len(),
{
    if workers.len() == 0 {
        seq![]
    } else if stopped[workers.len() - 1] {
        unstopped(workers.drop_last(), stopped)
    } else {
        unstopped(workers.drop_last(), stopped).push(workers.last())
    }
}

/// A worker that is lent, until it comes back or fails.
#[derive(Debug)]
pub struct WorkerGuard<A> {
    worker: RemoteWorker<A>,
}

impl<A> View for WorkerGuard<A> {
    type V = RemoteWorker<A>;

    closed spec fn view(&self) -> RemoteWorker<A> {
        self.worker
    }
}

/// The workers of a manager.
pub struct WorkerPool<A> {
    all_workers: Vec<RemoteWorker<A>>,
    ready_workers: Vec<RemoteWorker<A>>,
    running_workers: u32,
    lent: Ghost<Multiset<RemoteWorker<A>>>,
}

impl<A> View for WorkerPool<A> {
    type V = PoolView<A>;

    closed spec fn view(&self) -> PoolView<A> {
        PoolView { all: self.all_workers@, ready: self.ready_workers@, lent: self.lent@ }
    }
}

impl<A> WorkerPool<A> {
    /// The pool's state is valid, and the counter counts the workers that are lent.
    pub closed spec fn wf(self) -> bool {
        &&& self@.valid()
        &&& self.running_workers == self.lent@.len()
    }
}

impl<A: Copy> WorkerGuard<A> {
    /// The worker that is lent.
    pub fn worker(&self) -> (r: RemoteWorker<A>)
        ensures
            r == self@,
    {
        self.worker
    }

    /// The worker has done its job and is ready for another.
    pub fn success(self, pool: &mut WorkerPool<A>)
        requires
            old(pool).wf(),
            old(pool)@.lent.contains(self@),
        ensures
            final(pool).wf(),
            final(pool)@ == old(pool)@.regaining(self@),
    {
        proof {
            lemma_regaining_is_valid(pool@, self@);
        }
        pool.insert(self.worker);
        pool.put_back();
        pool.lent = Ghost(pool.lent@.remove(self@));
    }

    /// The worker has failed: it is no longer running, and it is not ready either.
    pub fn failure(self, pool: &mut WorkerPool<A>)
        requires
            old(pool).wf(),
            old(pool)@.lent.contains(self@),
        ensures
            final(pool).wf(),
            final(pool)@ == old(pool)@.losing(self@),
    {
        proof {
            lemma_losing_is_valid(pool@, self@);
        }
        pool.put_back();
        pool.lent = Ghost(pool.lent@.remove(self@));
    }
}

impl<A: Copy> WorkerPool<A> {
    /// A pool of the workers at all the addresses that were resolved. All are ready.
    pub fn new(resolved: &Vec<Vec<A>>) -> (r: Self)
        requires
            workers_at(lists(resolved@)).len() <= u32::MAX,
        ensures
            r.wf(),
            r@.all == workers_at(lists(resolved@)),
            r@.all.map_values(|worker: RemoteWorker<A>| worker.addr) == resolved@.map_values(
                |addrs: Vec<A>| addrs@,
            ).flatten(),
            r@.ready == r@.all,
            r@.lent == Multiset::<RemoteWorker<A>>::empty(),
    {
        let mut all_workers: Vec<RemoteWorker<A>> = Vec::new();
        let mut ready_workers: Vec<RemoteWorker<A>> = Vec::new();
        for i in 0..resolved.len()
            invariant
                all_workers@ == workers_at(lists(resolved@).take(i as int)),
                ready_workers@ == all_workers@,
        {
            let ghost before = all_workers@;
            let ghost part = lists(resolved@).take(i + 1);
            let addrs = &resolved[i];
            for j in 0..addrs.len()
                invariant
                    all_workers@ == before + addrs@.take(j as int).map_values(
                        |addr: A| RemoteWorker { addr },
                    ),
                    ready_workers@ == all_workers@,
            {
                let worker = RemoteWorker { addr: addrs[j] };
                all_workers.push(worker);
                ready_workers.push(worker);
                assert(all_workers@ =~= before + addrs@.take(j + 1).map_values(
                    |addr: A| RemoteWorker { addr },
                ));
            }
            assert(part.drop_last() =~= lists(resolved@).take(i as int));
            assert(part.last() == addrs@);
            assert(addrs@.take(addrs@.len() as int) =~= addrs@);
        }
        assert(lists(resolved@).take(resolved@.len() as int) =~= lists(resolved@));
        proof {
            let all = all_workers@.to_multiset();
            assert(all.add(Multiset::<RemoteWorker<A>>::empty()) =~= all);
            law_every_address_is_a_worker(lists(resolved@));
            assert(lists(resolved@) =~= resolved@.map_values(|addrs: Vec<A>| addrs@));
            assert(all_workers@.map_values(|worker: RemoteWorker<A>| worker.addr) =~= lists(
                resolved@,
            ).flatten());
        }
        WorkerPool {
            all_workers,
            ready_workers,
            running_workers: 0,
            lent: Ghost(Multiset::empty()),
        }
    }

    /// One worker fewer is running.
    fn put_back(&mut self)
        requires
            old(self).running_workers > 0,
        ensures
            final(self)@ == old(self)@,
            final(self).running_workers == old(self).running_workers - 1,
    {
        self.running_workers = self.running_workers - 1;
    }

    /// A worker is ready.
    fn insert(&mut self, worker: RemoteWorker<A>)
        ensures
            final(self)@ == (PoolView { ready: old(self)@.ready.push(worker), ..old(self)@ }),
            final(self).running_workers == old(self).running_workers,
    {
        self.ready_workers.push(worker);
    }

    /// Lends a worker, if one is ready; if none is, but one may come back, lends none.
    pub fn get_worker(&mut self) -> (r: Result<Option<WorkerGuard<A>>, Error>)
        requires
            old(self).wf(),
        ensures
            final(self).wf(),
            match r {
                Err(e) => {
                    &&& e == Error::NoAvailableWorker
                    &&& old(self)@.exhausted()
                    &&& final(self)@ == old(self)@
                },
                Ok(None) => {
                    &&& !old(self)@.exhausted()
                    &&& old(self)@.ready.len() == 0
                    &&& final(self)@ == old(self)@
                },
                Ok(Some(guard)) => {
                    &&& old(self)@.ready.len() > 0
                    &&& guard@ == old(self)@.ready.last()
                    &&& final(self)@ == old(self)@.lending()
                },
            },
    {
        proof {
            lemma_valid_counts(self@);
        }
        if self.ready_workers.len() as u32 + self.running_workers == 0 {
            return Err(Error::NoAvailableWorker);
        }
        if self.ready_workers.len() > 0 {
            proof {
                lemma_lending_is_valid(self@);
            }
        }
        match self.ready_workers.pop() {
            Some(worker) => {
                self.running_workers = self.running_workers + 1;
                self.lent = Ghost(self.lent@.insert(worker));
                Ok(Some(WorkerGuard { worker }))
            },
            None => Ok(None),
        }
    }

    /// All workers of the pool.
    pub fn workers(&self) -> (r: Vec<RemoteWorker<A>>)
        ensures
            r@ == self@.all,
    {
        let mut workers: Vec<RemoteWorker<A>> = Vec::new();
        for i in 0..self.all_workers.len()
            invariant
                workers@ == self.all_workers@.take(i as int),
        {
            workers.push(self.all_workers[i]);
        }
        workers
    }

    /// Given which workers of the pool stopped when they were told to, in the pool's
    /// order, tells which did not.
    pub fn stop_workers(&self, stopped: &Vec<bool>) -> (r: Vec<RemoteWorker<A>>)
        requires
            stopped@.len() == self@.all.len(),
        ensures
            r@ == unstopped(self@.all, stopped@),
    {
        let mut failing_workers: Vec<RemoteWorker<A>> = Vec::new();
        for i in 0..self.all_workers.len()
            invariant
                stopped@.len() == self.all_workers@.len(),
                failing_workers@ == unstopped(self.all_workers@.take(i as int), stopped@),
        {
            assert(self.all_workers@.take(i + 1).drop_last() =~= self.all_workers@.take(i as int));
            if !stopped[i] {
                failing_workers.push(self.all_workers[i]);
            }
        }
        assert(self.all_workers@.take(self.all_workers@.len() as int) =~= self.all_workers@);
        failing_workers
    }
}

/// What can happen to a pool.
pub enum PoolEvent<A> {
    /// A worker is asked for.
    Lend,
    /// A worker that is lent has done its job.
    Regain(RemoteWorker<A>),
    /// A worker that is lent has failed.
    Lose(RemoteWorker<A>),
}

impl<A> PoolView<A> {
    /// Whether `event` can happen: only a worker that is lent comes back or fails.
    pub open spec fn admits(self, event: PoolEvent<A>) -> bool {
        match event {
            PoolEvent::Lend => true,
            PoolEvent::Regain(worker) => self.lent.contains(worker),
            PoolEvent::Lose(worker) => self.lent.contains(worker),
        }
    }

    /// The pool after `event`.
    pub open spec fn after(self, event: PoolEvent<A>) -> PoolView<A> {
        match event {
            PoolEvent::Lend => if self.ready.len() > 0 { self.lending() } else { self },
            PoolEvent::Regain(worker) => self.regaining(worker),
            PoolEvent::Lose(worker) => self.losing(worker),
        }
    }

    /// The pool after all the events, one after the other.
    pub open spec fn after_all(self, events: Seq<PoolEvent<A>>) -> PoolView<A>
        decreases events.len(),
    {
        if events.len() == 0 {
            self
        } else {
            self.after_all(events.drop_last()).after(events.last())
        }
    }

    /// Whether the events can happen one after the other.
    pub open spec fn admits_all(self, events: Seq<PoolEvent<A>>) -> bool
        decreases events.len(),
    {
        events.len() > 0 ==> {
            &&& self.admits_all(events.drop_last())
            &&& self.after_all(events.drop_last()).admits(events.last())
        }
    }

    /// How often the pool has `worker`, ready or lent.
    pub open spec fn holds(self, worker: RemoteWorker<A>) -> nat {
        self.ready.to_multiset().count(worker) + self.lent.count(worker)
    }
}

/// Whatever happens to a pool, no worker is ever ready or lent more often than the pool
/// has it.
pub proof fn law_pool_stays_valid<A>(pool: PoolView<A>, events: Seq<PoolEvent<A>>)
    requires
        pool.valid(),
        pool.admits_all(events),
    ensures
        pool.after_all(events).valid(),
        pool.after_all(events).all == pool.all,
    decreases events.len(),
{
    if events.len() > 0 {
        law_pool_stays_valid(pool, events.drop_last());
        let before = pool.after_all(events.drop_last());
        match events.last() {
            PoolEvent::Lend => {
                if before.ready.len() > 0 {
                    lemma_lending_is_valid(before);
                }
            },
            PoolEvent::Regain(worker) => lemma_regaining_is_valid(before, worker),
            PoolEvent::Lose(worker) => lemma_losing_is_valid(before, worker),
        }
    }
}

/// A worker that does its job leaves the pool as it found it.
pub proof fn law_done_job_restores_the_pool<A>(pool: PoolView<A>)
    requires
        pool.ready.len() > 0,
    ensures
        pool.lending().regaining(pool.ready.last()) == pool,
{
    let w = pool.ready.last();
    assert(pool.ready.drop_last().push(w) =~= pool.ready);
    assert(pool.lent.insert(w).remove(w) =~= pool.lent);
}

/// A worker that fails at its job costs the pool that worker and nothing else.
pub proof fn law_failed_job_costs_its_worker<A>(pool: PoolView<A>)
    requires
        pool.ready.len() > 0,
    ensures
        pool.lending().losing(pool.ready.last()) == (PoolView {
            ready: pool.ready.drop_last(),
            ..pool
        }),
{
    let w = pool.ready.last();
    assert(pool.lent.insert(w).remove(w) =~= pool.lent);
}

/// A worker that has failed is neither ready nor lent ever again, unless the pool had it
/// more than once.
pub proof fn law_failed_worker_is_gone<A>(
    pool: PoolView<A>,
    worker: RemoteWorker<A>,
    events: Seq<PoolEvent<A>>,
)
    requires
        pool.lent.contains(worker),
        pool.holds(worker) == 1,
        pool.losing(worker).admits_all(events),
    ensures
        !pool.losing(worker).after_all(events).ready.contains(worker),
        !pool.losing(worker).after_all(events).lent.contains(worker),
{
    lemma_absent_worker_stays_absent(pool.losing(worker), worker, events);
    pool.losing(worker).after_all(events).ready.to_multiset_ensures();
}

proof fn lemma_absent_worker_stays_absent<A>(
    pool: PoolView<A>,
    worker: RemoteWorker<A>,
    events: Seq<PoolEvent<A>>,
)
    requires
        pool.holds(worker) == 0,
        pool.admits_all(events),
    ensures
        pool.after_all(events).holds(worker) == 0,
    decreases events.len(),
{
    if events.len() > 0 {
        lemma_absent_worker_stays_absent(pool, worker, events.drop_last());
        let before = pool.after_all(events.drop_last());
        before.ready.to_multiset_ensures();
        match events.last() {
            PoolEvent::Lend => {
                if before.ready.len() > 0 {
                    let init = before.ready.drop_last();
                    init.to_multiset_ensures();
                    assert(before.ready =~= init.push(before.ready.last()));
                }
            },
            PoolEvent::Regain(other) => {},
            PoolEvent::Lose(other) => {},
        }
    }
}

/// A pool without a worker left, ready or lent, never has one again.
pub proof fn law_exhausted_pool_stays_exhausted<A>(pool: PoolView<A>, events: Seq<PoolEvent<A>>)
    requires
        pool.exhausted(),
        pool.admits_all(events),
    ensures
        pool.after_all(events).exhausted(),
    decreases events.len(),
{
    if events.len() > 0 {
        law_exhausted_pool_stays_exhausted(pool, events.drop_last());
    }
}

/// The pool when it has lent a worker `n` times, and each has failed.
pub open spec fn after_failures<A>(pool: PoolView<A>, n: nat) -> PoolView<A>
    decreases n,
{
    if n == 0 {
        pool
    } else {
        let before = after_failures(pool, (n - 1) as nat);
        before.lending().losing(before.ready.last())
    }
}

/// While workers fail, each of those that were ready is lent once, from the last to the
/// first; a pool whose ready workers have all failed, and that has lent no other, is
/// exhausted, and not before.
pub proof fn law_failures_use_up_the_pool<A>(pool: PoolView<A>, n: nat)
    requires
        n <= pool.ready.len(),
    ensures
        after_failures(pool, n) == (PoolView {
            ready: pool.ready.take(pool.ready.len() - n),
            ..pool
        }),
        n < pool.ready.len() ==> after_failures(pool, n).ready.last() == pool.ready[pool.ready.len()
            - 1 - n],
        after_failures(pool, n).exhausted() <==> n == pool.ready.len() && pool.lent.len() == 0,
    decreases n,
{
    if n == 0 {
        assert(pool.ready.take(pool.ready.len() as int) =~= pool.ready);
    } else {
        law_failures_use_up_the_pool(pool, (n - 1) as nat);
        let before = after_failures(pool, (n - 1) as nat);
        law_failed_job_costs_its_worker(before);
        assert(before.ready.drop_last() =~= pool.ready.take(pool.ready.len() - n));
    }
}

/// In a valid state no more workers are ready or lent than there are.
pub proof fn lemma_valid_counts<A>(pool: PoolView<A>)
    requires
        pool.valid(),
    ensures
        pool.ready.len() + pool.lent.len() <= pool.all.len(),
{
    pool.ready.to_multiset_ensures();
    pool.all.to_multiset_ensures();
    let some = pool.ready.to_multiset().add(pool.lent);
    let others = pool.all.to_multiset().sub(some);
    assert(some.add(others) =~= pool.all.to_multiset());
}

/// Lending a worker keeps the state valid.
pub proof fn lemma_lending_is_valid<A>(pool: PoolView<A>)
    requires
        pool.valid(),
        pool.ready.len() > 0,
    ensures
        pool.lending().valid(),
{
    let next = pool.lending();
    let w = pool.ready.last();
    pool.ready.drop_last().to_multiset_ensures();
    assert(pool.ready =~= pool.ready.drop_last().push(w));
    assert(next.ready.to_multiset().add(next.lent) =~= pool.ready.to_multiset().add(pool.lent));
}

/// Taking a worker back keeps the state valid.
pub proof fn lemma_regaining_is_valid<A>(pool: PoolView<A>, worker: RemoteWorker<A>)
    requires
        pool.valid(),
        pool.lent.contains(worker),
    ensures
        pool.regaining(worker).valid(),
{
    let next = pool.regaining(worker);
    pool.ready.to_multiset_ensures();
    assert(next.ready.to_multiset().add(next.lent) =~= pool.ready.to_multiset().add(pool.lent));
}

/// Losing a worker keeps the state valid.
pub proof fn lemma_losing_is_valid<A>(pool: PoolView<A>, worker: RemoteWorker<A>)
    requires
        pool.valid(),
        pool.lent.contains(worker),
    ensures
        pool.losing(worker).valid(),
{
}

/// Every address of every list is that of a worker, in the order of the lists, and there
/// is no other worker.
pub proof fn law_every_address_is_a_worker<A>(resolved: Seq<Seq<A>>)
    ensures
        workers_at(resolved).len() == resolved.flatten().len(),
        forall|k: int|
            0 <= k < workers_at(resolved).len() ==> (#[trigger] workers_at(resolved)[k]).addr
                == resolved.flatten()[k],
    decreases resolved.len(),
{
    if resolved.len() > 0 {
        law_every_address_is_a_worker(resolved.drop_last());
        resolved.drop_last().lemma_flatten_push(resolved.last());
        assert(resolved.drop_last().push(resolved.last()) =~= resolved);
    }
}

/// The worker for an address stands behind those for all addresses of the lists before, at
/// the place that the address has in its own list.
pub proof fn law_each_address_has_its_worker<A>(resolved: Seq<Seq<A>>, i: int, j: int)
    requires
        0 <= i < resolved.len(),
        0 <= j < resolved[i].len(),
    ensures
        resolved.take(i).flatten().len() + j < workers_at(resolved).len(),
        workers_at(resolved)[resolved.take(i).flatten().len() + j].addr == resolved[i][j],
    decreases resolved.len(),
{
    let init = resolved.drop_last();
    law_every_address_is_a_worker(init);
    if i < init.len() {
        law_each_address_has_its_worker(init, i, j);
        assert(init.take(i) =~= resolved.take(i));
    } else {
        assert(resolved.take(i) =~= init);
    }
}

/// The workers of two lists of lists are those of the one and then those of the other, and
/// a single list has one worker for each of its addresses, in order.
pub proof fn law_workers_are_listed_list_by_list<A>(
    a: Seq<Seq<A>>,
    b: Seq<Seq<A>>,
    addrs: Seq<A>,
)
    ensures
        workers_at(a + b) == workers_at(a) + workers_at(b),
        workers_at(seq![addrs]).len() == addrs.len(),
        forall|j: int|
            0 <= j < addrs.len() ==> (#[trigger] workers_at(seq![addrs])[j]).addr == addrs[j],
        workers_at(Seq::<Seq<A>>::empty()).len() == 0,
    decreases b.len(),
{
    if b.len() == 0 {
        assert(a + b =~= a);
        assert(workers_at(a) + workers_at(b) =~= workers_at(a));
    } else {
        law_workers_are_listed_list_by_list(a, b.drop_last(), addrs);
        assert((a + b).drop_last() =~= a + b.drop_last());
        assert(workers_at(a + b) =~= workers_at(a) + workers_at(b));
    }
    reveal_with_fuel(workers_at, 2);
    assert(seq![addrs].drop_last() =~= seq![]);
    assert(workers_at(seq![addrs]) =~= addrs.map_values(|addr: A| RemoteWorker { addr }));
}

/// A list of lists is seen whole.
pub proof fn law_lists_are_seen_whole<A>(v: Seq<Vec<A>>)
    ensures
        lists(v).len() == v.len(),
        forall|i: int| 0 <= i < v.len() ==> #[trigger] lists(v)[i] == v[i]@,
{
}

/// The worker that became ready last is lent first: it is no longer ready but lent, and
/// nothing else changes.
pub proof fn law_lending_moves_the_last_ready_worker<A>(pool: PoolView<A>)
    requires
        pool.ready.len() > 0,
    ensures
        pool.lending().all == pool.all,
        pool.lending().ready.push(pool.ready[pool.ready.len() - 1]) == pool.ready,
        pool.lending().lent == pool.lent.insert(pool.ready[pool.ready.len() - 1]),
{
    assert(pool.ready.drop_last().push(pool.ready.last()) =~= pool.ready);
}

/// A lent worker that has done its job is the last of the ready ones and no longer lent; one
/// that has failed is only no longer lent. Nothing else changes either way.
pub proof fn law_lent_worker_comes_back_or_is_lost<A>(pool: PoolView<A>, worker: RemoteWorker<A>)
    requires
        pool.lent.contains(worker),
    ensures
        pool.regaining(worker).all == pool.all,
        pool.regaining(worker).ready == pool.ready.push(worker),
        pool.regaining(worker).lent.insert(worker) == pool.lent,
        pool.losing(worker).all == pool.all,
        pool.losing(worker).ready == pool.ready,
        pool.losing(worker).lent.insert(worker) == pool.lent,
{
    assert(pool.lent.remove(worker).insert(worker) =~= pool.lent);
}

/// A pool is exhausted if and only if it has no worker that is ready and none that is lent.
pub proof fn law_exhausted_iff_nobody_is_left<A>(pool: PoolView<A>)
    ensures
        pool.exhausted() <==> pool.ready.len() == 0 && pool.lent.len() == 0,
{
}

/// The workers that did not stop are told list by list, in order; one that stopped is
/// not told, and one that did not is.
pub proof fn law_workers_that_did_not_stop_are_told<A>(
    a: Seq<RemoteWorker<A>>,
    stopped_a: Seq<bool>,
    b: Seq<RemoteWorker<A>>,
    stopped_b: Seq<bool>,
    worker: RemoteWorker<A>,
)
    requires
        a.len() == stopped_a.len(),
        b.len() == stopped_b.len(),
    ensures
        unstopped(a + b, stopped_a + stopped_b) == unstopped(a, stopped_a) + unstopped(
            b,
            stopped_b,
        ),
        unstopped(seq![worker], seq![false]) == seq![worker],
        unstopped(seq![worker], seq![true]).len() == 0,
        unstopped(Seq::<RemoteWorker<A>>::empty(), Seq::<bool>::empty()).len() == 0,
    decreases b.len(),
{
    let whole = stopped_a + stopped_b;
    if b.len() == 0 {
        assert(a + b =~= a);
        assert(whole =~= stopped_a);
        assert(unstopped(a, stopped_a) + unstopped(b, stopped_b) =~= unstopped(a, stopped_a));
    } else {
        let init = b.drop_last();
        let stopped_init = stopped_b.drop_last();
        law_workers_that_did_not_stop_are_told(a, stopped_a, init, stopped_init, worker);
        assert((a + b).drop_last() =~= a + init);
        lemma_unstopped_prefix(a + init, stopped_a + stopped_init, whole);
        lemma_unstopped_prefix(init, stopped_init, stopped_b);
        assert(whole[(a + b).len() - 1] == stopped_b[b.len() - 1]);
        assert(unstopped(a + b, whole) =~= unstopped(a, stopped_a) + unstopped(b, stopped_b));
    }
    let nobody = Seq::<RemoteWorker<A>>::empty();
    assert(seq![worker].drop_last() =~= nobody);
    assert(unstopped(nobody, seq![false]) =~= nobody);
    assert(unstopped(nobody, seq![true]) =~= nobody);
    assert(unstopped(seq![worker], seq![false]) =~= seq![worker]);
}

/// Only whether the workers themselves stopped matters.
proof fn lemma_unstopped_prefix<A>(
    workers: Seq<RemoteWorker<A>>,
    stopped1: Seq<bool>,
    stopped2: Seq<bool>,
)
    requires
        forall|i: int| 0 <= i < workers.len() ==> stopped1[i] == #[trigger] stopped2[i],
    ensures
        unstopped(workers, stopped1) == unstopped(workers, stopped2),
    decreases workers.len(),
{
    if workers.len() > 0 {
        lemma_unstopped_prefix(workers.drop_last(), stopped1, stopped2);
        assert(stopped1[workers.len() - 1] == stopped2[workers.len() - 1]);
    }
}

/// All workers are told if none stopped, and none if all did; no more are told than there
/// are, and each that is told is a worker that did not stop.
pub proof fn law_only_workers_that_did_not_stop_are_told<A>(
    workers: Seq<RemoteWorker<A>>,
    stopped: Seq<bool>,
)
    requires
        workers.len() == stopped.len(),
    ensures
        unstopped(workers, stopped).len() == stopped.filter(|s: bool| !s).len(),
        forall|k: int|
            0 <= k < unstopped(workers, stopped).len() ==> exists|i: int|
                0 <= i < workers.len() && !stopped[i] && #[trigger] workers[i]
                    == #[trigger] unstopped(workers, stopped)[k],
        forall|i: int|
            0 <= i < workers.len() && !stopped[i] ==> unstopped(workers, stopped).contains(
                #[trigger] workers[i],
            ),
    decreases workers.len(),
{
    reveal(Seq::filter);
    if workers.len() > 0 {
        let init = workers.drop_last();
        let stopped_init = stopped.drop_last();
        let told = unstopped(workers, stopped);
        let before = unstopped(init, stopped_init);
        law_only_workers_that_did_not_stop_are_told(init, stopped_init);
        lemma_unstopped_prefix(init, stopped_init, stopped);
        assert forall|k: int| 0 <= k < told.len() implies exists|i: int|
            0 <= i < workers.len() && !stopped[i] && #[trigger] workers[i] == #[trigger] told[k] by {
            if k < before.len() {
                assert(told[k] == before[k]);
                let i = choose|i: int|
                    0 <= i < init.len() && !stopped_init[i] && #[trigger] init[i] == before[k];
                assert(workers[i] == init[i]);
                assert(stopped[i] == stopped_init[i]);
            } else {
                assert(workers[workers.len() - 1] == told[k]);
            }
        }
        assert forall|i: int| 0 <= i < workers.len() && !stopped[i] implies told.contains(
            #[trigger] workers[i],
        ) by {
            if i < init.len() {
                assert(init[i] == workers[i] && stopped_init[i] == stopped[i]);
                let k = choose|k: int| 0 <= k < before.len() && before[k] == init[i];
                assert(told[k] == workers[i]);
            } else {
                assert(told[before.len() as int] == workers[i]);
            }
        }
    }
}

} // verus!
