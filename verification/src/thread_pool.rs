//! The worker pool as its owner and its workers see it: one queue of
//! messages, served first in first out, and the roster of workers. The
//! caller owns the threads; this module owns the queue and decides who
//! runs, who waits and who leaves.
//!
//! Two signals stop a worker. A shrink marks the most recently added
//! workers, and a marked worker leaves at its next poll without touching
//! the queue. A shutdown puts one sentinel per worker behind all jobs, and
//! a worker that takes a sentinel leaves.

use std::collections::VecDeque;
use vstd::prelude::*;

verus! {

/// An entry of the queue.
#[derive(Debug)]
pub enum Message<J> {
    /// A job to run.
    Run(J),
    /// The sentinel: the worker that takes it leaves.
    Shutdown,
}

/// Where a worker stands.
#[derive(Debug, Clone, Copy, PartialEq, Eq, Structural)]
pub enum WorkerState {
    /// On the roster and serving the queue.
    Active,
    /// Marked by a shrink: leaves at its next poll.
    Retiring,
    /// Has left.
    Exited,
}

/// What a worker does after a poll.
#[derive(Debug)]
pub enum WorkerAction<J> {
    /// Run this job, then poll again.
    Run(J),
    /// Nothing to do: wait for the poll interval, then poll again.
    Wait,
    /// Leave.
    Exit,
}

/// What the owner does after a resize. Workers are named by their number.
#[derive(Debug)]
pub enum ResizePlan {
    /// Nothing.
    Unchanged,
    /// Start a worker for each of these numbers.
    Spawn(Vec<usize>),
    /// Wait for each of these workers to leave, in this order.
    Retire(Vec<usize>),
}

/// Number of active workers among `workers`.
pub open spec fn count_active(workers: Seq<WorkerState>) -> nat
    decreases workers.len(),
{
    if workers.len() == 0 {
        0
    } else {
        count_active(workers.drop_last()) + if workers.last() == WorkerState::Active {
            1nat
        } else {
            0nat
        }
    }
}

/// Number of sentinels in `queue`.
pub open spec fn count_sentinels<J>(queue: Seq<Message<J>>) -> nat
    decreases queue.len(),
{
    if queue.len() == 0 {
        0
    } else {
        count_sentinels(queue.drop_last()) + if queue.last() is Shutdown {
            1nat
        } else {
            0nat
        }
    }
}

/// The jobs waiting in `queue`, from its head.
pub open spec fn jobs_in<J>(queue: Seq<Message<J>>) -> Seq<J>
    decreases queue.len(),
{
    if queue.len() == 0 {
        Seq::empty()
    } else {
        jobs_in(queue.drop_last()) + match queue.last() {
            Message::Run(job) => seq![job],
            Message::Shutdown => Seq::empty(),
        }
    }
}

/// Every job stands before every sentinel.
pub open spec fn jobs_first<J>(queue: Seq<Message<J>>) -> bool {
    forall|i: int, j: int|
        0 <= i < j < queue.len() && (#[trigger] queue[i]) is Shutdown ==> (
        #[trigger] queue[j]) is Shutdown
}

/// `n` sentinels.
pub open spec fn sentinels<J>(n: nat) -> Seq<Message<J>> {
    Seq::new(n, |i: int| Message::Shutdown)
}

/// `n` active workers.
pub open spec fn fresh_workers(n: nat) -> Seq<WorkerState> {
    Seq::new(n, |i: int| WorkerState::Active)
}

/// The roster after its `k` most recently added active workers were
/// marked: an active worker is marked when fewer than `k` active workers
/// were added after it.
pub open spec fn retire_newest(workers: Seq<WorkerState>, k: nat) -> Seq<WorkerState> {
    Seq::new(
        workers.len(),
        |i: int|
            if workers[i] == WorkerState::Active && count_active(workers.skip(i + 1)) < k {
                WorkerState::Retiring
            } else {
                workers[i]
            },
    )
}

/// The numbers of the `k` most recently added active workers, newest
/// first: `marked` lists, in falling order, exactly the workers that
/// [`retire_newest`] marks.
pub open spec fn lists_newest(workers: Seq<WorkerState>, k: nat, marked: Seq<usize>) -> bool {
    &&& forall|a: int, b: int| 0 <= a < b < marked.len() ==> marked[a] > marked[b]
    &&& forall|i: int|
        0 <= i < workers.len() ==> (marked.contains(i as usize) <==> workers[i]
            == WorkerState::Active && count_active(workers.skip(i + 1)) < k)
    &&& forall|a: int| 0 <= a < marked.len() ==> (#[trigger] marked[a]) < workers.len()
}

/// The numbers of the active workers, oldest first.
pub open spec fn lists_active(workers: Seq<WorkerState>, listed: Seq<usize>) -> bool {
    &&& forall|a: int, b: int| 0 <= a < b < listed.len() ==> listed[a] < listed[b]
    &&& forall|i: int|
        0 <= i < workers.len() ==> (listed.contains(i as usize) <==> workers[i]
            == WorkerState::Active)
    &&& forall|a: int| 0 <= a < listed.len() ==> (#[trigger] listed[a]) < workers.len()
}

/// The mathematical content of a [`ThreadPool`]: the state of every worker
/// ever added, by number, the queue from its head, whether jobs are still
/// taken, and the history of the jobs: all that were ever accepted, in the
/// order of submission, and all that were ever handed to a worker, in the
/// order in which they were handed out.
pub struct PoolView<J> {
    pub workers: Seq<WorkerState>,
    pub queue: Seq<Message<J>>,
    pub accepting: bool,
    pub submitted: Seq<J>,
    pub handed: Seq<J>,
}

impl<J> PoolView<J> {
    /// A pool of `size` workers with an empty queue.
    pub open spec fn fresh(size: nat) -> PoolView<J> {
        PoolView {
            workers: fresh_workers(size),
            queue: Seq::empty(),
            accepting: true,
            submitted: Seq::empty(),
            handed: Seq::empty(),
        }
    }

    /// Number of workers on the roster.
    pub open spec fn size(self) -> nat {
        count_active(self.workers)
    }

    /// While jobs are taken the queue holds no sentinel; after the
    /// shutdown it holds one sentinel for each worker still on the
    /// roster, behind all jobs. The jobs handed out so far, followed by
    /// the jobs that wait, are the jobs that were accepted: none is lost,
    /// none is handed out twice, none overtakes another.
    pub open spec fn wf(self) -> bool {
        &&& self.submitted == self.handed + jobs_in(self.queue)
        &&& jobs_first(self.queue)
        &&& self.accepting ==> count_sentinels(self.queue) == 0
        &&& !self.accepting ==> count_sentinels(self.queue) == self.size()
    }

    /// The pool after a resize to `new_size`. Growing adds active workers
    /// with the next free numbers; shrinking marks the most recently added
    /// ones; the queue is not touched. After the shutdown a resize changes
    /// nothing.
    pub open spec fn resized(self, new_size: nat) -> PoolView<J> {
        if !self.accepting {
            self
        } else if new_size >= self.size() {
            PoolView {
                workers: self.workers + fresh_workers((new_size - self.size()) as nat),
                ..self
            }
        } else {
            PoolView {
                workers: retire_newest(self.workers, (self.size() - new_size) as nat),
                ..self
            }
        }
    }

    /// The pool after `job` was submitted: at the tail of the queue, or
    /// nowhere after the shutdown.
    pub open spec fn submitted(self, job: J) -> PoolView<J> {
        if self.accepting {
            PoolView {
                queue: self.queue.push(Message::Run(job)),
                submitted: self.submitted.push(job),
                ..self
            }
        } else {
            self
        }
    }

    /// The pool after the shutdown began: no more jobs are taken, and one
    /// sentinel per worker on the roster stands behind all jobs.
    pub open spec fn shut_down(self) -> PoolView<J> {
        if self.accepting {
            PoolView {
                queue: self.queue + sentinels(self.size()),
                accepting: false,
                ..self
            }
        } else {
            self
        }
    }

    /// Whether `worker` is told to leave by its own state alone.
    pub open spec fn leaves_unasked(self, worker: nat) -> bool {
        worker >= self.workers.len() || self.workers[worker as int] != WorkerState::Active
    }

    /// The pool with `worker` gone.
    pub open spec fn without(self, worker: nat) -> PoolView<J> {
        PoolView { workers: self.workers.update(worker as int, WorkerState::Exited), ..self }
    }

    /// The pool with the head of its queue taken.
    pub open spec fn head_taken(self) -> PoolView<J> {
        PoolView { queue: self.queue.drop_first(), ..self }
    }

    /// What `worker` is told at a poll. A worker that is marked, or not on
    /// the roster, leaves without looking at the queue. An active worker
    /// takes the head of the queue: a job is run, a sentinel makes it
    /// leave. With nothing queued it waits, or leaves after the shutdown.
    pub open spec fn poll_action(self, worker: nat) -> WorkerAction<J> {
        if self.leaves_unasked(worker) {
            WorkerAction::Exit
        } else if self.queue.len() == 0 {
            if self.accepting {
                WorkerAction::Wait
            } else {
                WorkerAction::Exit
            }
        } else {
            match self.queue[0] {
                Message::Run(job) => WorkerAction::Run(job),
                Message::Shutdown => WorkerAction::Exit,
            }
        }
    }

    /// The pool after `worker` polled.
    pub open spec fn polled(self, worker: nat) -> PoolView<J> {
        if worker >= self.workers.len() {
            self
        } else if self.workers[worker as int] != WorkerState::Active {
            self.without(worker)
        } else if self.queue.len() == 0 {
            if self.accepting {
                self
            } else {
                self.without(worker)
            }
        } else {
            match self.queue[0] {
                Message::Run(job) => PoolView {
                    handed: self.handed.push(job),
                    ..self.head_taken()
                },
                Message::Shutdown => self.head_taken().without(worker),
            }
        }
    }
}

impl ResizePlan {
    /// Whether this plan is what a resize of `before` to `new_size` asks
    /// of the owner: to start the workers that were added, by number, or
    /// to wait for the ones that were marked, newest first.
    pub open spec fn carries_out<J>(self, before: PoolView<J>, new_size: nat) -> bool {
        if !before.accepting || new_size == before.size() {
            self is Unchanged
        } else if new_size > before.size() {
            &&& self matches ResizePlan::Spawn(ids)
            &&& ids@ == Seq::new(
                (new_size - before.size()) as nat,
                |i: int| (before.workers.len() + i) as usize,
            )
        } else {
            &&& self matches ResizePlan::Retire(ids)
            &&& ids@.len() == before.size() - new_size
            &&& lists_newest(before.workers, (before.size() - new_size) as nat, ids@)
        }
    }
}

/// The active workers of a roster are those of its front and those of
/// its back.
pub proof fn lemma_count_active_split(workers: Seq<WorkerState>, at: int)
    requires
        0 <= at <= workers.len(),
    ensures
        count_active(workers) == count_active(workers.take(at)) + count_active(workers.skip(at)),
    decreases workers.len(),
{
    if at == workers.len() {
        assert(workers.take(at) =~= workers);
        assert(workers.skip(at) =~= Seq::<WorkerState>::empty());
    } else {
        let front = workers.drop_last();
        lemma_count_active_split(front, at);
        assert(front.take(at) =~= workers.take(at));
        assert(front.skip(at) =~= workers.skip(at).drop_last());
    }
}

/// Adding workers adds their active ones.
pub proof fn lemma_count_active_concat(front: Seq<WorkerState>, back: Seq<WorkerState>)
    ensures
        count_active(front + back) == count_active(front) + count_active(back),
{
    let whole = front + back;
    lemma_count_active_split(whole, front.len() as int);
    assert(whole.take(front.len() as int) =~= front);
    assert(whole.skip(front.len() as int) =~= back);
}

/// Fresh workers are all active.
pub proof fn lemma_count_active_fresh(n: nat)
    ensures
        count_active(fresh_workers(n)) == n,
    decreases n,
{
    if n > 0 {
        lemma_count_active_fresh((n - 1) as nat);
        assert(fresh_workers(n).drop_last() =~= fresh_workers((n - 1) as nat));
    }
}

/// Changing the state of one worker changes the count by what that worker
/// contributed before and contributes after.
pub proof fn lemma_count_active_update(workers: Seq<WorkerState>, at: int, state: WorkerState)
    requires
        0 <= at < workers.len(),
    ensures
        count_active(workers.update(at, state)) + (if workers[at] == WorkerState::Active {
            1nat
        } else {
            0nat
        }) == count_active(workers) + (if state == WorkerState::Active {
            1nat
        } else {
            0nat
        }),
    decreases workers.len(),
{
    let front = workers.drop_last();
    let updated = workers.update(at, state);
    if at == workers.len() - 1 {
        assert(updated.drop_last() =~= front);
    } else {
        lemma_count_active_update(front, at, state);
        assert(updated.drop_last() =~= front.update(at, state));
    }
}

/// The active workers from `at` on are the one at `at`, if it is active,
/// and those after it.
pub proof fn lemma_count_active_skip(workers: Seq<WorkerState>, at: int)
    requires
        0 <= at < workers.len(),
    ensures
        count_active(workers.skip(at)) == count_active(workers.skip(at + 1)) + if workers[at]
            == WorkerState::Active {
            1nat
        } else {
            0nat
        },
{
    let tail = workers.skip(at);
    lemma_count_active_split(tail, 1);
    assert(tail.skip(1) =~= workers.skip(at + 1));
    assert(tail.take(1).drop_last() =~= Seq::<WorkerState>::empty());
    assert(count_active(tail.take(1).drop_last()) == 0);
    assert(tail.take(1).last() == workers[at]);
}

/// The further back a tail starts, the fewer active workers it holds.
pub proof fn lemma_count_active_skip_monotone(workers: Seq<WorkerState>, from: int, to: int)
    requires
        0 <= from <= to <= workers.len(),
    ensures
        count_active(workers.skip(to)) <= count_active(workers.skip(from)),
    decreases to - from,
{
    if from < to {
        lemma_count_active_skip(workers, from);
        lemma_count_active_skip_monotone(workers, from + 1, to);
    }
}

/// Marking the `k` newest active workers takes exactly `k` off the roster,
/// when that many are on it.
pub proof fn lemma_retire_newest_count(workers: Seq<WorkerState>, k: nat)
    requires
        k <= count_active(workers),
    ensures
        count_active(retire_newest(workers, k)) + k == count_active(workers),
        retire_newest(workers, k).len() == workers.len(),
{
    lemma_retire_newest_tail(workers, k, 0);
    assert(workers.skip(0) =~= workers);
    assert(retire_newest(workers, k).skip(0) =~= retire_newest(workers, k));
}

/// In every tail the marked roster holds as many active workers as the
/// tail held beyond `k`.
proof fn lemma_retire_newest_tail(workers: Seq<WorkerState>, k: nat, from: int)
    requires
        0 <= from <= workers.len(),
    ensures
        count_active(retire_newest(workers, k).skip(from)) == if count_active(workers.skip(from))
            >= k {
            (count_active(workers.skip(from)) - k) as nat
        } else {
            0nat
        },
    decreases workers.len() - from,
{
    let marked = retire_newest(workers, k);
    if from == workers.len() {
        assert(marked.skip(from) =~= Seq::<WorkerState>::empty());
        assert(workers.skip(from) =~= Seq::<WorkerState>::empty());
    } else {
        lemma_retire_newest_tail(workers, k, from + 1);
        lemma_count_active_skip(workers, from);
        lemma_count_active_skip(marked, from);
    }
}

/// Appending messages adds their sentinels.
pub proof fn lemma_count_sentinels_concat<J>(front: Seq<Message<J>>, back: Seq<Message<J>>)
    ensures
        count_sentinels(front + back) == count_sentinels(front) + count_sentinels(back),
    decreases back.len(),
{
    if back.len() == 0 {
        assert(front + back =~= front);
    } else {
        lemma_count_sentinels_concat(front, back.drop_last());
        assert((front + back).drop_last() =~= front + back.drop_last());
    }
}

/// `n` sentinels are `n` sentinels.
pub proof fn lemma_count_sentinels_all<J>(n: nat)
    ensures
        count_sentinels(sentinels::<J>(n)) == n,
    decreases n,
{
    if n > 0 {
        lemma_count_sentinels_all::<J>((n - 1) as nat);
        assert(sentinels::<J>(n).drop_last() =~= sentinels::<J>((n - 1) as nat));
    }
}

/// A queue without sentinels holds none at any place.
pub proof fn lemma_no_sentinels<J>(queue: Seq<Message<J>>)
    requires
        count_sentinels(queue) == 0,
    ensures
        forall|i: int| 0 <= i < queue.len() ==> !((#[trigger] queue[i]) is Shutdown),
    decreases queue.len(),
{
    if queue.len() > 0 {
        let front = queue.drop_last();
        lemma_no_sentinels(front);
        assert forall|i: int| 0 <= i < queue.len() implies !((#[trigger] queue[i]) is Shutdown) by {
            if i < queue.len() - 1 {
                assert(front[i] == queue[i]);
            }
        }
    }
}

/// Taking the head of a queue takes one sentinel, if the head is one.
pub proof fn lemma_count_sentinels_head<J>(queue: Seq<Message<J>>)
    requires
        queue.len() > 0,
    ensures
        count_sentinels(queue) == count_sentinels(queue.drop_first()) + if queue[0] is Shutdown {
            1nat
        } else {
            0nat
        },
{
    let head = queue.take(1);
    assert(queue =~= head + queue.drop_first());
    lemma_count_sentinels_concat(head, queue.drop_first());
    assert(head.drop_last() =~= Seq::<Message<J>>::empty());
    assert(count_sentinels(head.drop_last()) == 0);
    assert(head.last() == queue[0]);
}

/// The jobs of a queue are those of its front and those of its back.
pub proof fn lemma_jobs_in_concat<J>(front: Seq<Message<J>>, back: Seq<Message<J>>)
    ensures
        jobs_in(front + back) == jobs_in(front) + jobs_in(back),
    decreases back.len(),
{
    if back.len() == 0 {
        assert(front + back =~= front);
        assert(jobs_in(front) + jobs_in(back) =~= jobs_in(front));
    } else {
        lemma_jobs_in_concat(front, back.drop_last());
        assert((front + back).drop_last() =~= front + back.drop_last());
        let tail = match back.last() {
            Message::Run(job) => seq![job],
            Message::Shutdown => Seq::empty(),
        };
        assert(jobs_in(front + back) =~= jobs_in(front) + (jobs_in(back.drop_last()) + tail));
    }
}

/// Sentinels are no jobs.
pub proof fn lemma_jobs_in_sentinels<J>(n: nat)
    ensures
        jobs_in(sentinels::<J>(n)) == Seq::<J>::empty(),
    decreases n,
{
    if n > 0 {
        lemma_jobs_in_sentinels::<J>((n - 1) as nat);
        assert(sentinels::<J>(n).drop_last() =~= sentinels::<J>((n - 1) as nat));
        assert(jobs_in(sentinels::<J>(n)) =~= Seq::<J>::empty());
    }
}

/// The jobs of a queue are the job at its head, if there is one, and the
/// jobs behind the head.
pub proof fn lemma_jobs_in_head<J>(queue: Seq<Message<J>>)
    requires
        queue.len() > 0,
    ensures
        jobs_in(queue) == match queue[0] {
            Message::Run(job) => seq![job] + jobs_in(queue.drop_first()),
            Message::Shutdown => jobs_in(queue.drop_first()),
        },
{
    let head = queue.take(1);
    assert(queue =~= head + queue.drop_first());
    lemma_jobs_in_concat(head, queue.drop_first());
    assert(head.drop_last() =~= Seq::<Message<J>>::empty());
    assert(jobs_in(head.drop_last()) =~= Seq::<J>::empty());
    assert(head.last() == queue[0]);
    match queue[0] {
        Message::Run(job) => {
            assert(jobs_in(head) =~= seq![job]);
        },
        Message::Shutdown => {
            assert(jobs_in(head) =~= Seq::<J>::empty());
            assert(jobs_in(head) + jobs_in(queue.drop_first()) =~= jobs_in(queue.drop_first()));
        },
    }
}

/// Taking the head keeps the jobs before the sentinels.
pub proof fn lemma_jobs_first_tail<J>(queue: Seq<Message<J>>)
    requires
        jobs_first(queue),
        queue.len() > 0,
    ensures
        jobs_first(queue.drop_first()),
        queue[0] is Shutdown ==> forall|i: int|
            0 <= i < queue.len() ==> (#[trigger] queue[i]) is Shutdown,
{
    let tail = queue.drop_first();
    assert forall|i: int, j: int|
        0 <= i < j < tail.len() && (#[trigger] tail[i]) is Shutdown implies (
    #[trigger] tail[j]) is Shutdown by {
        assert(tail[i] == queue[i + 1]);
        assert(tail[j] == queue[j + 1]);
    }
}

/// The pool's queue and roster. The owner resizes, submits and shuts
/// down; each worker polls with its own number.
pub struct ThreadPool<J> {
    workers: Vec<WorkerState>,
    active: usize,
    queue: VecDeque<Message<J>>,
    accepting: bool,
    submitted: Ghost<Seq<J>>,
    handed: Ghost<Seq<J>>,
}

impl<J> View for ThreadPool<J> {
    type V = PoolView<J>;

    closed spec fn view(&self) -> PoolView<J> {
        PoolView {
            workers: self.workers@,
            queue: self.queue@,
            accepting: self.accepting,
            submitted: self.submitted@,
            handed: self.handed@,
        }
    }
}

impl<J> ThreadPool<J> {
    /// The counter of active workers agrees with the roster.
    pub closed spec fn wf(&self) -> bool {
        &&& self@.wf()
        &&& self.active == count_active(self.workers@)
    }

    /// A pool of `size` workers, numbered from zero, with an empty queue.
    pub fn new(size: usize) -> (pool: ThreadPool<J>)
        requires
            size > 0,
        ensures
            pool@ == PoolView::<J>::fresh(size as nat),
            pool@.size() == size,
            pool.wf(),
    {
        let mut workers: Vec<WorkerState> = Vec::new();
        let mut i: usize = 0;
        while i < size
            invariant
                i <= size,
                workers@ == fresh_workers(i as nat),
            decreases size - i,
        {
            workers.push(WorkerState::Active);
            i = i + 1;
            proof {
                assert(workers@ =~= fresh_workers(i as nat));
            }
        }
        proof {
            lemma_count_active_fresh(size as nat);
        }
        ThreadPool {
            workers,
            active: size,
            queue: VecDeque::new(),
            accepting: true,
            submitted: Ghost(Seq::empty()),
            handed: Ghost(Seq::empty()),
        }
    }

    /// Number of workers on the roster.
    pub fn size(&self) -> (size: usize)
        requires
            self.wf(),
        ensures
            size == self@.size(),
    {
        self.active
    }

    /// Whether jobs are still taken.
    pub fn is_accepting(&self) -> (accepting: bool)
        ensures
            accepting == self@.accepting,
    {
        self.accepting
    }

    /// Number of messages waiting in the queue.
    pub fn queued(&self) -> (queued: usize)
        ensures
            queued == self@.queue.len(),
    {
        self.queue.len()
    }

    /// The numbers of the workers on the roster, oldest first.
    pub fn worker_ids(&self) -> (ids: Vec<usize>)
        requires
            self.wf(),
        ensures
            lists_active(self@.workers, ids@),
            ids@.len() == self@.size(),
    {
        let mut ids: Vec<usize> = Vec::new();
        let mut i: usize = 0;
        proof {
            assert(self.workers@.take(0) =~= Seq::<WorkerState>::empty());
        }
        while i < self.workers.len()
            invariant
                i <= self.workers@.len(),
                ids@.len() == count_active(self.workers@.take(i as int)),
                forall|a: int, b: int| 0 <= a < b < ids@.len() ==> ids@[a] < ids@[b],
                forall|a: int| 0 <= a < ids@.len() ==> (#[trigger] ids@[a]) < i,
                forall|w: int|
                    0 <= w < i ==> (ids@.contains(w as usize) <==> self.workers@[w]
                        == WorkerState::Active),
            decreases self.workers@.len() - i,
        {
            let ghost before = ids@;
            proof {
                assert(self.workers@.take(i + 1).drop_last() =~= self.workers@.take(i as int));
            }
            match self.workers[i] {
                WorkerState::Active => {
                    ids.push(i);
                    proof {
                        assert(ids@[before.len() as int] == i);
                        assert forall|w: int| 0 <= w < i + 1 implies (ids@.contains(w as usize)
                            <==> self.workers@[w] == WorkerState::Active) by {
                            if w < i {
                                if before.contains(w as usize) {
                                    let a = choose|a: int|
                                        0 <= a < before.len() && before[a] == w as usize;
                                    assert(ids@[a] == w as usize);
                                }
                                if ids@.contains(w as usize) {
                                    let a = choose|a: int|
                                        0 <= a < ids@.len() && ids@[a] == w as usize;
                                    assert(a < before.len());
                                    assert(before[a] == w as usize);
                                }
                            }
                        }
                    }
                },
                _ => {
                    proof {
                        assert(!ids@.contains(i)) by {
                            if ids@.contains(i) {
                                let a = choose|a: int| 0 <= a < ids@.len() && ids@[a] == i;
                                assert(ids@[a] < i);
                            }
                        }
                    }
                },
            }
            i = i + 1;
        }
        proof {
            assert(self.workers@.take(self.workers@.len() as int) =~= self.workers@);
        }
        ids
    }

    /// Puts `job` at the tail of the queue. Returns `false`, and drops the
    /// job, after the shutdown.
    pub fn execute(&mut self, job: J) -> (accepted: bool)
        requires
            old(self).wf(),
        ensures
            accepted == old(self)@.accepting,
            final(self)@ == old(self)@.submitted(job),
            final(self).wf(),
    {
        if !self.accepting {
            return false;
        }
        proof {
            lemma_submitted(self@, job);
            self.submitted@ = self.submitted@.push(job);
        }
        self.queue.push_back(Message::Run(job));
        true
    }

    /// Brings the roster to `new_size` workers and tells the owner what to
    /// do. Growing adds workers with the next free numbers. Shrinking
    /// marks the most recently added workers; each leaves at its next
    /// poll. The queue is not touched either way.
    pub fn resize(&mut self, new_size: usize) -> (plan: ResizePlan)
        requires
            old(self).wf(),
            new_size > 0,
        ensures
            final(self)@ == old(self)@.resized(new_size as nat),
            plan.carries_out(old(self)@, new_size as nat),
            final(self)@.accepting ==> final(self)@.size() == new_size,
            final(self).wf(),
    {
        if !self.accepting || new_size == self.active {
            proof {
                assert(self.workers@ + fresh_workers(0) =~= self.workers@);
            }
            return ResizePlan::Unchanged;
        }
        if new_size > self.active {
            let ghost before = self.workers@;
            let extra = new_size - self.active;
            let mut ids: Vec<usize> = Vec::new();
            proof {
                assert(before.len() == self.workers.len());
            }
            let mut i: usize = 0;
            while i < extra
                invariant
                    i <= extra,
                    before.len() + i <= usize::MAX,
                    self.workers@ == before + fresh_workers(i as nat),
                    self.queue == old(self).queue,
                    self.accepting == old(self).accepting,
                    self.active == old(self).active,
                    self.submitted == old(self).submitted,
                    self.handed == old(self).handed,
                    ids@ == Seq::new(i as nat, |j: int| (before.len() + j) as usize),
                decreases extra - i,
            {
                ids.push(self.workers.len());
                self.workers.push(WorkerState::Active);
                i = i + 1;
                proof {
                    assert(self.workers.len() == before.len() + i);
                    assert(self.workers@ =~= before + fresh_workers(i as nat));
                    assert(ids@ =~= Seq::new(i as nat, |j: int| (before.len() + j) as usize));
                }
            }
            proof {
                lemma_count_active_concat(before, fresh_workers(extra as nat));
                lemma_count_active_fresh(extra as nat);
            }
            self.active = new_size;
            return ResizePlan::Spawn(ids);
        }
        let ghost before = self.workers@;
        let surplus = self.active - new_size;
        let mut ids: Vec<usize> = Vec::new();
        let mut left = surplus;
        let mut i: usize = self.workers.len();
        proof {
            assert(before.skip(i as int) =~= Seq::<WorkerState>::empty());
            assert(before.take(i as int) =~= before);
        }
        while left > 0
            invariant
                i <= before.len(),
                before.len() <= usize::MAX,
                self.workers@.len() == before.len(),
                left <= surplus,
                surplus <= count_active(before),
                surplus - left == count_active(before.skip(i as int)),
                ids@.len() == surplus - left,
                self.queue == old(self).queue,
                self.accepting == old(self).accepting,
                self.active == old(self).active,
                self.submitted == old(self).submitted,
                self.handed == old(self).handed,
                forall|w: int| 0 <= w < i ==> self.workers@[w] == before[w],
                forall|w: int|
                    i <= w < before.len() ==> self.workers@[w] == if before[w]
                        == WorkerState::Active {
                        WorkerState::Retiring
                    } else {
                        before[w]
                    },
                forall|a: int, b: int| 0 <= a < b < ids@.len() ==> ids@[a] > ids@[b],
                forall|a: int| 0 <= a < ids@.len() ==> i <= (#[trigger] ids@[a]) < before.len(),
                forall|w: int|
                    i <= w < before.len() ==> (ids@.contains(w as usize) <==> before[w]
                        == WorkerState::Active),
            decreases i,
        {
            proof {
                lemma_count_active_split(before, i as int);
                if i == 0 {
                    assert(before.take(0) =~= Seq::<WorkerState>::empty());
                }
            }
            i = i - 1;
            let ghost listed = ids@;
            proof {
                lemma_count_active_skip(before, i as int);
            }
            match self.workers[i] {
                WorkerState::Active => {
                    self.workers.set(i, WorkerState::Retiring);
                    ids.push(i);
                    left = left - 1;
                    proof {
                        assert(ids@[listed.len() as int] == i);
                        assert forall|w: int| i <= w < before.len() implies (ids@.contains(
                            w as usize,
                        ) <==> before[w] == WorkerState::Active) by {
                            if w > i {
                                if listed.contains(w as usize) {
                                    let a = choose|a: int|
                                        0 <= a < listed.len() && listed[a] == w as usize;
                                    assert(ids@[a] == w as usize);
                                }
                                if ids@.contains(w as usize) {
                                    let a = choose|a: int|
                                        0 <= a < ids@.len() && ids@[a] == w as usize;
                                    assert(a < listed.len());
                                    assert(listed[a] == w as usize);
                                }
                            }
                        }
                    }
                },
                _ => {
                    proof {
                        assert(!ids@.contains(i)) by {
                            if ids@.contains(i) {
                                let a = choose|a: int| 0 <= a < ids@.len() && ids@[a] == i;
                                assert(ids@[a] > i);
                            }
                        }
                    }
                },
            }
        }
        proof {
            let k = surplus as nat;
            assert forall|w: int| 0 <= w < before.len() implies self.workers@[w] == retire_newest(
                before,
                k,
            )[w] by {
                if w < i {
                    lemma_count_active_skip_monotone(before, w + 1, i as int);
                } else {
                    lemma_count_active_skip(before, w);
                    lemma_count_active_skip_monotone(before, i as int, w);
                }
            }
            assert(self.workers@ =~= retire_newest(before, k));
            lemma_retire_newest_count(before, k);
            assert forall|w: int| 0 <= w < before.len() implies (ids@.contains(w as usize)
                <==> before[w] == WorkerState::Active && count_active(before.skip(w + 1)) < k) by {
                if w < i {
                    lemma_count_active_skip_monotone(before, w + 1, i as int);
                    if ids@.contains(w as usize) {
                        let a = choose|a: int| 0 <= a < ids@.len() && ids@[a] == w as usize;
                        assert(i <= ids@[a]);
                    }
                } else {
                    lemma_count_active_skip(before, w);
                    lemma_count_active_skip_monotone(before, i as int, w);
                }
            }
        }
        self.active = new_size;
        ResizePlan::Retire(ids)
    }

    fn leave(&mut self, worker: usize)
        requires
            worker < old(self).workers@.len(),
            old(self).active == count_active(old(self).workers@),
        ensures
            final(self)@ == old(self)@.without(worker as nat),
            final(self).active == count_active(final(self).workers@),
            final(self)@.size() + (if old(self)@.workers[worker as int] == WorkerState::Active {
                1nat
            } else {
                0nat
            }) == old(self)@.size(),
    {
        proof {
            lemma_count_active_update(self.workers@, worker as int, WorkerState::Exited);
        }
        match self.workers[worker] {
            WorkerState::Active => {
                self.active = self.active - 1;
            },
            _ => {},
        }
        self.workers.set(worker, WorkerState::Exited);
    }

    /// One poll of the worker numbered `worker`: what it is to do now. A
    /// job handed out has left the queue, so it is handed out once.
    pub fn poll(&mut self, worker: usize) -> (action: WorkerAction<J>)
        requires
            old(self).wf(),
        ensures
            action == old(self)@.poll_action(worker as nat),
            final(self)@ == old(self)@.polled(worker as nat),
            final(self).wf(),
    {
        if worker >= self.workers.len() {
            return WorkerAction::Exit;
        }
        match self.workers[worker] {
            WorkerState::Active => {},
            _ => {
                self.leave(worker);
                return WorkerAction::Exit;
            },
        }
        proof {
            lemma_polled(self@, worker as nat);
            if self.queue@.len() > 0 {
                assert(self.queue@.subrange(1, self.queue@.len() as int)
                    =~= self.queue@.drop_first());
            }
        }
        match self.queue.pop_front() {
            None => {
                if self.accepting {
                    WorkerAction::Wait
                } else {
                    self.leave(worker);
                    WorkerAction::Exit
                }
            },
            Some(Message::Run(job)) => {
                proof {
                    self.handed@ = self.handed@.push(job);
                }
                WorkerAction::Run(job)
            },
            Some(Message::Shutdown) => {
                self.leave(worker);
                WorkerAction::Exit
            },
        }
    }

    /// Begins the shutdown: no more jobs are taken, and one sentinel per
    /// worker on the roster is put behind all jobs. Returns the numbers of
    /// those workers, oldest first, for the owner to wait for. A second
    /// shutdown changes nothing and names nobody.
    pub fn shutdown(&mut self) -> (ids: Vec<usize>)
        requires
            old(self).wf(),
        ensures
            final(self)@ == old(self)@.shut_down(),
            final(self).wf(),
            old(self)@.accepting ==> lists_active(old(self)@.workers, ids@) && ids@.len() == old(
                self,
            )@.size(),
            !old(self)@.accepting ==> ids@.len() == 0,
    {
        if !self.accepting {
            return Vec::new();
        }
        let ids = self.worker_ids();
        let ghost before = self.queue@;
        let mut i: usize = 0;
        proof {
            assert(before + sentinels::<J>(0) =~= before);
        }
        while i < self.active
            invariant
                i <= self.active,
                self.active == old(self).active,
                self.workers == old(self).workers,
                self.accepting == old(self).accepting,
                self.submitted == old(self).submitted,
                self.handed == old(self).handed,
                self.queue@ == before + sentinels::<J>(i as nat),
            decreases self.active - i,
        {
            self.queue.push_back(Message::Shutdown);
            i = i + 1;
            proof {
                assert(self.queue@ =~= before + sentinels::<J>(i as nat));
            }
        }
        self.accepting = false;
        proof {
            lemma_shut_down(old(self)@);
        }
        ids
    }

    /// A well-formed pool has a well-formed content.
    pub proof fn lemma_wf_view(&self)
        requires
            self.wf(),
        ensures
            self@.wf(),
    {
    }
}

/// What a worker does when it could not get at the pool at all: it leaves
/// rather than try again.
pub fn worker_turn<J>(pool: Option<&mut ThreadPool<J>>, worker: usize) -> (action: WorkerAction<J>)
    requires
        pool matches Some(p) ==> p.wf(),
    ensures
        match pool {
            Some(p) => {
                &&& action == p@.poll_action(worker as nat)
                &&& final(p)@ == p@.polled(worker as nat)
                &&& final(p).wf()
            },
            None => action is Exit,
        },
{
    match pool {
        Some(p) => p.poll(worker),
        None => WorkerAction::Exit,
    }
}

/// A resize keeps the pool well formed, leaves the queue alone, and, while
/// jobs are taken, brings the roster to the size asked for.
pub proof fn lemma_resized<J>(pool: PoolView<J>, new_size: nat)
    requires
        pool.wf(),
    ensures
        pool.resized(new_size).wf(),
        pool.resized(new_size).queue == pool.queue,
        pool.resized(new_size).accepting == pool.accepting,
        pool.resized(new_size).submitted == pool.submitted,
        pool.resized(new_size).handed == pool.handed,
        pool.accepting ==> pool.resized(new_size).size() == new_size,
{
    if pool.accepting {
        if new_size >= pool.size() {
            let extra = (new_size - pool.size()) as nat;
            lemma_count_active_concat(pool.workers, fresh_workers(extra));
            lemma_count_active_fresh(extra);
        } else {
            lemma_retire_newest_count(pool.workers, (pool.size() - new_size) as nat);
        }
    }
}

/// Growing a pool and shrinking it back leaves it with the workers it
/// had, each in the state it was in, and with its queue as it was: the
/// added workers are the ones that are marked, and a job submitted in
/// between is still queued, behind those that were queued before.
pub proof fn lemma_resize_round_trip<J>(pool: PoolView<J>, larger: nat, job: J)
    requires
        pool.wf(),
        pool.accepting,
        larger >= pool.size(),
    ensures
        pool.resized(larger).resized(pool.size()).size() == pool.size(),
        pool.resized(larger).resized(pool.size()).queue == pool.queue,
        pool.resized(larger).resized(pool.size()).workers.take(pool.workers.len() as int)
            == pool.workers,
        forall|w: int|
            pool.workers.len() <= w < pool.resized(larger).resized(pool.size()).workers.len()
                ==> pool.resized(larger).resized(pool.size()).workers[w] == WorkerState::Retiring,
        pool.resized(larger).submitted(job).resized(pool.size()).queue == pool.queue.push(
            Message::Run(job),
        ),
        pool.resized(larger).submitted(job).resized(pool.size()).size() == pool.size(),
        pool.resized(larger).submitted(job).resized(pool.size()).submitted
            == pool.submitted.push(job),
        pool.resized(larger).submitted(job).resized(pool.size()).handed == pool.handed,
{
    let extra = (larger - pool.size()) as nat;
    let grown = pool.resized(larger);
    let back = grown.resized(pool.size());
    let old_len = pool.workers.len() as int;
    lemma_count_active_concat(pool.workers, fresh_workers(extra));
    lemma_count_active_fresh(extra);
    assert(grown.size() == larger);
    assert(grown.submitted(job).resized(pool.size()).workers == back.workers);
    if extra == 0 {
        assert(grown.workers =~= pool.workers);
        assert(back.workers =~= pool.workers);
        assert(back.workers.take(old_len) =~= pool.workers);
    } else {
        lemma_retire_newest_count(grown.workers, extra);
        assert(grown.workers.skip(old_len) =~= fresh_workers(extra));
        assert forall|w: int| 0 <= w < grown.workers.len() implies #[trigger] back.workers[w]
            == (if w < old_len {
            pool.workers[w]
        } else {
            WorkerState::Retiring
        }) by {
            if w < old_len {
                lemma_count_active_skip_monotone(grown.workers, w + 1, old_len);
            } else {
                lemma_count_active_skip(grown.workers, w);
                lemma_count_active_skip_monotone(grown.workers, old_len, w);
            }
        }
        assert(back.workers.take(old_len) =~= pool.workers);
    }
}

/// Submitting a job keeps the pool well formed.
pub proof fn lemma_submitted<J>(pool: PoolView<J>, job: J)
    requires
        pool.wf(),
    ensures
        pool.submitted(job).wf(),
{
    if pool.accepting {
        let longer = pool.queue.push(Message::Run(job));
        assert(longer.drop_last() =~= pool.queue);
        lemma_no_sentinels(pool.queue);
        assert forall|i: int, j: int|
            0 <= i < j < longer.len() && (#[trigger] longer[i]) is Shutdown implies (
        #[trigger] longer[j]) is Shutdown by {
            assert(longer[i] == pool.queue[i]);
        }
        assert(pool.submitted.push(job) =~= pool.handed + jobs_in(longer));
    }
}

/// The shutdown keeps the pool well formed: every job queued before it
/// stands before every sentinel, and there is one sentinel per worker.
pub proof fn lemma_shut_down<J>(pool: PoolView<J>)
    requires
        pool.wf(),
    ensures
        pool.shut_down().wf(),
        !pool.shut_down().accepting,
        count_sentinels(pool.shut_down().queue) == pool.shut_down().size(),
        pool.accepting ==> pool.shut_down().queue.take(pool.queue.len() as int) == pool.queue,
{
    if pool.accepting {
        let n = pool.size();
        let queue = pool.shut_down().queue;
        lemma_count_sentinels_concat(pool.queue, sentinels::<J>(n));
        lemma_count_sentinels_all::<J>(n);
        lemma_no_sentinels(pool.queue);
        assert forall|a: int, b: int|
            0 <= a < b < queue.len() && (#[trigger] queue[a]) is Shutdown implies (
        #[trigger] queue[b]) is Shutdown by {
            if a < pool.queue.len() {
                assert(queue[a] == pool.queue[a]);
            }
        }
        assert(queue.take(pool.queue.len() as int) =~= pool.queue);
        lemma_jobs_in_concat(pool.queue, sentinels::<J>(n));
        lemma_jobs_in_sentinels::<J>(n);
        assert(jobs_in(queue) =~= jobs_in(pool.queue));
    }
}

/// A poll keeps the pool well formed. A worker that takes a sentinel
/// leaves, and it is the only one to leave; when it does, no job is left
/// in the queue.
pub proof fn lemma_polled<J>(pool: PoolView<J>, worker: nat)
    requires
        pool.wf(),
    ensures
        pool.polled(worker).wf(),
        pool.polled(worker).accepting == pool.accepting,
        !pool.leaves_unasked(worker) && pool.queue.len() > 0 && pool.queue[0] is Shutdown ==> {
            &&& pool.polled(worker).size() + 1 == pool.size()
            &&& count_sentinels(pool.polled(worker).queue) + 1 == count_sentinels(pool.queue)
            &&& forall|i: int|
                0 <= i < pool.queue.len() ==> (#[trigger] pool.queue[i]) is Shutdown
        },
        !pool.leaves_unasked(worker) && pool.queue.len() > 0 && pool.queue[0] is Run ==> {
            &&& pool.polled(worker).workers == pool.workers
            &&& pool.polled(worker).queue == pool.queue.drop_first()
            &&& pool.poll_action(worker) == WorkerAction::Run(pool.queue[0]->Run_0)
            &&& pool.polled(worker).handed == pool.handed.push(pool.queue[0]->Run_0)
        },
        pool.polled(worker).submitted == pool.submitted,
{
    if worker < pool.workers.len() {
        lemma_count_active_update(pool.workers, worker as int, WorkerState::Exited);
        if pool.queue.len() > 0 {
            lemma_jobs_first_tail(pool.queue);
            lemma_count_sentinels_head(pool.queue);
            lemma_jobs_in_head(pool.queue);
            match pool.queue[0] {
                Message::Run(job) => {
                    assert(pool.handed.push(job) + jobs_in(pool.queue.drop_first())
                        =~= pool.handed + (seq![job] + jobs_in(pool.queue.drop_first())));
                },
                Message::Shutdown => {},
            }
        }
    }
}

/// After the shutdown, once the queue is empty, no worker is left on the
/// roster: every one of them took a sentinel.
pub proof fn lemma_drained_pool_is_empty<J>(pool: PoolView<J>)
    requires
        pool.wf(),
        !pool.accepting,
        pool.queue.len() == 0,
    ensures
        pool.size() == 0,
{
}

/// Once the queue is empty, every job that was accepted has been handed
/// to a worker, once, and in the order of submission.
pub proof fn lemma_empty_queue_means_all_handed<J>(pool: PoolView<J>)
    requires
        pool.wf(),
        pool.queue.len() == 0,
    ensures
        pool.handed == pool.submitted,
{
    assert(pool.handed + jobs_in(pool.queue) =~= pool.handed);
}

/// A job that was accepted and not yet handed out waits in the queue, and
/// the jobs handed out are the first of those accepted.
pub proof fn lemma_jobs_wait_in_order<J>(pool: PoolView<J>)
    requires
        pool.wf(),
    ensures
        pool.handed.len() + jobs_in(pool.queue).len() == pool.submitted.len(),
        pool.handed == pool.submitted.take(pool.handed.len() as int),
        jobs_in(pool.queue) == pool.submitted.skip(pool.handed.len() as int),
{
    assert(pool.handed =~= pool.submitted.take(pool.handed.len() as int));
    assert(jobs_in(pool.queue) =~= pool.submitted.skip(pool.handed.len() as int));
}

} // verus!
