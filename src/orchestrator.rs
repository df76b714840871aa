use vstd::prelude::*;

verus! {

/// Where one worker process stands.
#[derive(Clone, Copy, Debug, PartialEq, Eq, Structural)]
pub enum WorkerState {
    /// Not spawned yet.
    Pending,
    /// Spawned and not joined yet.
    Running,
    /// Joined, with its exit code (`None` when no code was reported).
    Exited(Option<i32>),
}

/// How a run of worker processes ended.
#[derive(Clone, Copy, Debug, PartialEq, Eq, Structural)]
pub enum RunVerdict {
    /// Every worker was spawned and exited with status 0.
    Success,
    /// The worker of this batch could not be spawned.
    SpawnError(usize),
    /// The worker of this batch exited with a status other than 0.
    WorkerFailure(usize),
}

/// What the controller is to do next.
#[derive(Clone, Copy, Debug, PartialEq, Eq, Structural)]
pub enum Step {
    /// Spawn the worker of this batch.
    Spawn(usize),
    /// Block until the worker of this batch exits.
    Join(usize),
    /// Every started worker has been joined: the run is over.
    Finish(RunVerdict),
}

/// What the controller reports back after doing a step.
#[derive(Clone, Copy, Debug, PartialEq, Eq, Structural)]
pub enum Event {
    /// The worker of this batch was spawned.
    Spawned(usize),
    /// The worker of this batch could not be spawned.
    SpawnFailed(usize),
    /// The worker of this batch exited, with this exit code if it gave one.
    Exited(usize, Option<i32>),
}

/// A worker not spawned yet.
pub open spec fn is_pending(w: WorkerState) -> bool {
    w is Pending
}

/// A worker spawned and not joined yet.
pub open spec fn is_running(w: WorkerState) -> bool {
    w is Running
}

/// A worker that exited with anything but status 0.
pub open spec fn is_failed(w: WorkerState) -> bool {
    w is Exited && w->Exited_0 != Some(0i32)
}

/// The test that `kind` selects: 0 pending, 1 running, 2 failed.
pub open spec fn has_kind(kind: u8, w: WorkerState) -> bool {
    if kind == 0 {
        is_pending(w)
    } else if kind == 1 {
        is_running(w)
    } else {
        is_failed(w)
    }
}

/// The first index of `ws` whose state passes the test of `kind`; `ws.len()`
/// if none does.
pub open spec fn first_index(ws: Seq<WorkerState>, kind: u8) -> nat
    decreases ws.len(),
{
    if ws.len() == 0 {
        0
    } else if has_kind(kind, ws[0]) {
        0
    } else {
        1 + first_index(ws.drop_first(), kind)
    }
}

/// The controller's decision in a given state: spawn the workers in order
/// until one cannot be spawned, then join every started worker in order, then
/// finish with the first failure found, if any.
pub open spec fn step_of(ws: Seq<WorkerState>, spawn_failure: Option<usize>) -> Step {
    let p = first_index(ws, 0);
    let r = first_index(ws, 1);
    let f = first_index(ws, 2);
    if spawn_failure is None && p < ws.len() {
        Step::Spawn(p as usize)
    } else if r < ws.len() {
        Step::Join(r as usize)
    } else if spawn_failure is Some {
        Step::Finish(RunVerdict::SpawnError(spawn_failure->Some_0))
    } else if f < ws.len() {
        Step::Finish(RunVerdict::WorkerFailure(f as usize))
    } else {
        Step::Finish(RunVerdict::Success)
    }
}

/// What `first_index` is: no earlier state passes the test, and the one found does.
pub proof fn lemma_first_index(ws: Seq<WorkerState>, kind: u8)
    ensures
        first_index(ws, kind) <= ws.len(),
        forall|j: int| 0 <= j < first_index(ws, kind) ==> !has_kind(kind, #[trigger] ws[j]),
        first_index(ws, kind) < ws.len() ==> has_kind(kind, ws[first_index(ws, kind) as int]),
    decreases ws.len(),
{
    if ws.len() > 0 && !has_kind(kind, ws[0]) {
        lemma_first_index(ws.drop_first(), kind);
        assert forall|j: int| 0 <= j < first_index(ws, kind) implies !has_kind(
            kind,
            #[trigger] ws[j],
        ) by {
            if j > 0 {
                assert(ws[j] == ws.drop_first()[j - 1]);
            }
        }
    }
}

/// The supervisor of the worker processes of one run, one per batch.
pub struct Orchestrator {
    workers: Vec<WorkerState>,
    spawn_failure: Option<usize>,
}

impl Orchestrator {
    /// The state of each batch's worker, by batch.
    pub closed spec fn workers(&self) -> Seq<WorkerState> {
        self.workers@
    }

    /// The batch whose worker could not be spawned, if any.
    pub closed spec fn spawn_failure(&self) -> Option<usize> {
        self.spawn_failure
    }

    /// A spawn failure names a batch whose worker never started.
    pub open spec fn wf(&self) -> bool {
        &&& self.workers().len() <= usize::MAX
        &&& match self.spawn_failure() {
            Some(i) => i < self.workers().len() && self.workers()[i as int] is Pending,
            None => true,
        }
    }

    /// The next step in this state.
    pub open spec fn step(&self) -> Step {
        step_of(self.workers(), self.spawn_failure())
    }

    /// A supervisor for `n` batches, none of whose workers is spawned yet.
    pub fn new(n: usize) -> (r: Self)
        ensures
            r.wf(),
            r.workers() == Seq::new(n as nat, |i: int| WorkerState::Pending),
            r.spawn_failure() is None,
    {
        let mut workers: Vec<WorkerState> = Vec::new();
        let mut i: usize = 0;
        while i < n
            invariant
                i <= n,
                workers@ == Seq::new(i as nat, |k: int| WorkerState::Pending),
            decreases n - i,
        {
            workers.push(WorkerState::Pending);
            i = i + 1;
            assert(workers@ =~= Seq::new(i as nat, |k: int| WorkerState::Pending));
        }
        Orchestrator { workers, spawn_failure: None }
    }

    /// The state of the worker of batch `i`.
    pub fn worker(&self, i: usize) -> (r: Option<WorkerState>)
        ensures
            r == if i < self.workers().len() {
                Some(self.workers()[i as int])
            } else {
                None::<WorkerState>
            },
    {
        if i < self.workers.len() {
            Some(self.workers[i])
        } else {
            None
        }
    }

    /// The first batch whose worker passes the test that `kind` selects:
    /// 0 pending, 1 running, 2 failed; the number of batches if there is none.
    fn find_first(&self, kind: u8) -> (r: usize)
        ensures
            r == first_index(self.workers(), kind),
    {
        proof {
            lemma_first_index(self.workers@, kind);
        }
        let mut i: usize = 0;
        while i < self.workers.len()
            invariant
                i <= self.workers@.len(),
                forall|j: int| 0 <= j < i ==> !has_kind(kind, #[trigger] self.workers@[j]),
                first_index(self.workers@, kind) <= self.workers@.len(),
                forall|j: int|
                    0 <= j < first_index(self.workers@, kind) ==> !has_kind(
                        kind,
                        #[trigger] self.workers@[j],
                    ),
                first_index(self.workers@, kind) < self.workers@.len() ==> has_kind(
                    kind,
                    self.workers@[first_index(self.workers@, kind) as int],
                ),
            decreases self.workers@.len() - i,
        {
            let w = self.workers[i];
            let hit = match w {
                WorkerState::Pending => kind == 0,
                WorkerState::Running => kind == 1,
                WorkerState::Exited(Some(0i32)) => false,
                WorkerState::Exited(_) => kind != 0 && kind != 1,
            };
            assert(hit == has_kind(kind, self.workers@[i as int]));
            if hit {
                return i;
            }
            i = i + 1;
        }
        i
    }

    /// The next step: exactly `step_of` the current state.
    pub fn next_step(&self) -> (s: Step)
        ensures
            s == self.step(),
    {
        let p = self.find_first(0);
        let r = self.find_first(1);
        let f = self.find_first(2);
        let n = self.workers.len();
        if self.spawn_failure.is_none() && p < n {
            Step::Spawn(p)
        } else if r < n {
            Step::Join(r)
        } else if let Some(i) = self.spawn_failure {
            Step::Finish(RunVerdict::SpawnError(i))
        } else if f < n {
            Step::Finish(RunVerdict::WorkerFailure(f))
        } else {
            Step::Finish(RunVerdict::Success)
        }
    }

    /// Whether `ev` answers the current step: a spawn (or its failure) for the
    /// batch that was to be spawned, an exit for the worker that was to be joined.
    pub open spec fn accepts(&self, ev: Event) -> bool {
        match ev {
            Event::Spawned(i) => self.step() == Step::Spawn(i),
            Event::SpawnFailed(i) => self.step() == Step::Spawn(i),
            Event::Exited(i, _) => self.step() == Step::Join(i),
        }
    }

    /// The workers and the spawn failure after an accepted event.
    pub open spec fn after(&self, ev: Event) -> (Seq<WorkerState>, Option<usize>) {
        match ev {
            Event::Spawned(i) => (
                self.workers().update(i as int, WorkerState::Running),
                self.spawn_failure(),
            ),
            Event::SpawnFailed(i) => (self.workers(), Some(i)),
            Event::Exited(i, code) => (
                self.workers().update(i as int, WorkerState::Exited(code)),
                self.spawn_failure(),
            ),
        }
    }

    /// Records what the controller did. An event that does not answer the
    /// current step is refused and changes nothing.
    pub fn record(&mut self, ev: Event) -> (accepted: bool)
        requires
            old(self).wf(),
        ensures
            final(self).wf(),
            accepted == old(self).accepts(ev),
            accepted ==> (final(self).workers(), final(self).spawn_failure()) == old(self).after(
                ev,
            ),
            !accepted ==> *final(self) == *old(self),
    {
        let step = self.next_step();
        proof {
            lemma_first_index(self.workers@, 0);
            lemma_first_index(self.workers@, 1);
        }
        match ev {
            Event::Spawned(i) => {
                if step == Step::Spawn(i) {
                    self.workers.set(i, WorkerState::Running);
                    true
                } else {
                    false
                }
            },
            Event::SpawnFailed(i) => {
                if step == Step::Spawn(i) {
                    self.spawn_failure = Some(i);
                    true
                } else {
                    false
                }
            },
            Event::Exited(i, code) => {
                if step == Step::Join(i) {
                    self.workers.set(i, WorkerState::Exited(code));
                    true
                } else {
                    false
                }
            },
        }
    }

}

/// What a worker still costs the run: a spawn and a join while it may still
/// be spawned, a join while it runs, nothing once it has exited or can no
/// longer start.
pub open spec fn weight(w: WorkerState, spawning_stopped: bool) -> nat {
    match w {
        WorkerState::Pending => if spawning_stopped {
            0nat
        } else {
            2nat
        },
        WorkerState::Running => 1nat,
        WorkerState::Exited(_) => 0nat,
    }
}

/// The steps that a run has left at most.
pub open spec fn remaining(ws: Seq<WorkerState>, spawning_stopped: bool) -> nat
    decreases ws.len(),
{
    if ws.len() == 0 {
        0
    } else {
        remaining(ws.drop_last(), spawning_stopped) + weight(ws.last(), spawning_stopped)
    }
}

proof fn lemma_remaining_update(ws: Seq<WorkerState>, stopped: bool, i: int, w: WorkerState)
    requires
        0 <= i < ws.len(),
    ensures
        remaining(ws.update(i, w), stopped) + weight(ws[i], stopped) == remaining(ws, stopped)
            + weight(w, stopped),
    decreases ws.len(),
{
    let u = ws.update(i, w);
    if i < ws.len() - 1 {
        assert(u.drop_last() =~= ws.drop_last().update(i, w));
        lemma_remaining_update(ws.drop_last(), stopped, i, w);
    } else {
        assert(u.drop_last() =~= ws.drop_last());
    }
}

proof fn lemma_remaining_stop(ws: Seq<WorkerState>, i: int)
    requires
        0 <= i < ws.len(),
        ws[i] is Pending,
    ensures
        remaining(ws, true) + 2 <= remaining(ws, false),
    decreases ws.len(),
{
    lemma_remaining_stop_le(ws.drop_last());
    if i < ws.len() - 1 {
        lemma_remaining_stop(ws.drop_last(), i);
    }
}

proof fn lemma_remaining_stop_le(ws: Seq<WorkerState>)
    ensures
        remaining(ws, true) <= remaining(ws, false),
    decreases ws.len(),
{
    if ws.len() > 0 {
        lemma_remaining_stop_le(ws.drop_last());
    }
}

impl Orchestrator {
    /// The steps that this run has left at most.
    pub open spec fn work_left(&self) -> nat {
        remaining(self.workers(), self.spawn_failure() is Some)
    }
}

/// Every run ends: each accepted event brings it strictly closer to its end,
/// and a worker that has exited keeps its exit code for the rest of the run.
pub proof fn lemma_progress(o: Orchestrator, ev: Event)
    requires
        o.wf(),
        o.accepts(ev),
    ensures
        ({
            let (ws, failure) = o.after(ev);
            &&& remaining(ws, failure is Some) < o.work_left()
            &&& ws.len() == o.workers().len()
            &&& forall|j: int|
                0 <= j < ws.len() && (#[trigger] o.workers()[j]) is Exited ==> ws[j]
                    == o.workers()[j]
        }),
{
    let ws = o.workers();
    lemma_first_index(ws, 0);
    lemma_first_index(ws, 1);
    let stopped = o.spawn_failure() is Some;
    match ev {
        Event::Spawned(i) => {
            lemma_remaining_update(ws, stopped, i as int, WorkerState::Running);
        },
        Event::SpawnFailed(i) => {
            lemma_remaining_stop(ws, i as int);
        },
        Event::Exited(i, code) => {
            lemma_remaining_update(ws, stopped, i as int, WorkerState::Exited(code));
        },
    }
}

/// A run finishes only once every started worker has been joined; it
/// finishes with success only if every worker was spawned and exited with
/// status 0, and any worker that exited otherwise makes it fail.
pub proof fn lemma_finish_joins_all(o: Orchestrator)
    requires
        o.wf(),
    ensures
        o.step() is Finish ==> forall|j: int|
            0 <= j < o.workers().len() ==> !(#[trigger] o.workers()[j] is Running),
        o.step() == Step::Finish(RunVerdict::Success) ==> forall|j: int|
            0 <= j < o.workers().len() ==> #[trigger] o.workers()[j] == WorkerState::Exited(
                Some(0i32),
            ),
        (exists|j: int| 0 <= j < o.workers().len() && is_failed(#[trigger] o.workers()[j]))
            ==> o.step() != Step::Finish(RunVerdict::Success),
{
    let ws = o.workers();
    lemma_first_index(ws, 0);
    lemma_first_index(ws, 1);
    lemma_first_index(ws, 2);
    if o.step() == Step::Finish(RunVerdict::Success) {
        assert forall|j: int| 0 <= j < ws.len() implies #[trigger] ws[j] == WorkerState::Exited(
            Some(0i32),
        ) by {
            assert(!has_kind(0, ws[j]));
            assert(!has_kind(1, ws[j]));
            assert(!has_kind(2, ws[j]));
        }
    }
}

} // verus!
