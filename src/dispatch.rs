use crate::engine::{AcquireError, EngineCell, EngineState};
use vstd::pervasive::unreached;
use vstd::prelude::*;

verus! {

/// The outcomes that report a failed job.
pub open spec fn failures(outcomes: Seq<bool>) -> Seq<bool> {
    outcomes.filter(|ok: bool| !ok)
}

/// Runs one execution unit's batch: makes sure the unit's engine exists, then
/// calls `recognize` once on every job, in order. A job that fails does not
/// stop the ones after it; the result holds one outcome per job. Only an
/// engine that cannot be constructed ends the batch, before any job runs.
pub fn run_batch<E, X, G, F>(
    cell: &mut EngineCell<E>,
    make: G,
    jobs: &Vec<String>,
    recognize: F,
) -> (r: Result<Vec<bool>, AcquireError<X>>) where
    G: FnOnce() -> Result<E, X>,
    F: Fn(&E, &String) -> bool,

    requires
        old(cell).wf(),
        old(cell).state() is Empty ==> make.requires(()),
        forall|e: &E, j: &String| #[trigger] recognize.requires((e, j)),
    ensures
        final(cell).wf(),
        EngineCell::acquire_step(*old(cell), *final(cell)),
        r is Ok <==> final(cell).state() is Ready,
        old(cell).state() is Failed ==> r is Err && r->Err_0 is Unavailable,
        old(cell).state() is Empty ==> exists|res: Result<E, X>|
            #[trigger] make.ensures((), res) && match res {
                Ok(e) => final(cell).state() == EngineState::<E>::Ready(e),
                Err(x) => r == Err::<Vec<bool>, AcquireError<X>>(AcquireError::Init(x)),
            },
        match (r, final(cell).state()) {
            (Ok(outcomes), EngineState::Ready(e)) => {
                &&& outcomes@.len() == jobs@.len()
                &&& forall|i: int|
                    0 <= i < jobs@.len() ==> recognize.ensures(
                        (&e, &jobs@[i]),
                        #[trigger] outcomes@[i],
                    )
            },
            _ => true,
        },
{
    match cell.acquire(make) {
        Err(err) => Err(err),
        Ok(()) => {
            let engine = match cell.engine() {
                Some(e) => e,
                None => unreached(),
            };
            let mut outcomes: Vec<bool> = Vec::new();
            let mut i: usize = 0;
            while i < jobs.len()
                invariant
                    cell.state() == EngineState::<E>::Ready(*engine),
                    forall|e: &E, j: &String| #[trigger] recognize.requires((e, j)),
                    i <= jobs@.len(),
                    outcomes@.len() == i,
                    forall|k: int|
                        0 <= k < i ==> recognize.ensures(
                            (engine, &jobs@[k]),
                            #[trigger] outcomes@[k],
                        ),
                decreases jobs@.len() - i,
            {
                let ok = recognize(engine, &jobs[i]);
                outcomes.push(ok);
                i = i + 1;
            }
            Ok(outcomes)
        },
    }
}

/// How many of the outcomes report a failed job.
pub fn count_failures(outcomes: &Vec<bool>) -> (r: usize)
    ensures
        r == failures(outcomes@).len(),
{
    let mut r: usize = 0;
    let mut i: usize = 0;
    while i < outcomes.len()
        invariant
            i <= outcomes@.len(),
            r == failures(outcomes@.subrange(0, i as int)).len(),
            r <= i,
        decreases outcomes@.len() - i,
    {
        proof {
            assert(outcomes@.subrange(0, i + 1).drop_last() =~= outcomes@.subrange(0, i as int));
            reveal(Seq::filter);
        }
        if !outcomes[i] {
            r = r + 1;
        }
        i = i + 1;
    }
    assert(outcomes@.subrange(0, outcomes@.len() as int) =~= outcomes@);
    r
}

/// The exit status of a worker process once its batch has run: success
/// whenever the engine could be constructed, whatever became of single jobs.
pub fn worker_exit_code<X>(result: &Result<Vec<bool>, AcquireError<X>>) -> (code: i32)
    ensures
        code == 0 <==> result is Ok,
{
    match result {
        Ok(_) => 0,
        Err(_) => 1,
    }
}

} // verus!
