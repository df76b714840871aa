use vstd::prelude::*;

verus! {

/// Where an execution unit's engine stands.
pub enum EngineState<E> {
    /// Not constructed yet.
    Empty,
    /// Constructed, and kept for the unit's lifetime.
    Ready(E),
    /// Construction was tried and failed; the unit cannot recognize anything.
    Failed,
}

/// Why `acquire` gave no engine.
pub enum AcquireError<X> {
    /// Construction was tried by this call and failed with this error.
    Init(X),
    /// Construction failed on an earlier call; it is not tried again.
    Unavailable,
}

/// A lazily constructed, expensive engine owned by one execution unit (one
/// thread, or one worker process). It is constructed on the first `acquire`
/// and never again.
pub struct EngineCell<E> {
    state: EngineState<E>,
    constructions: u64,
}

impl<E> EngineCell<E> {
    /// Where the engine stands.
    pub closed spec fn state(&self) -> EngineState<E> {
        self.state
    }

    /// How many times the engine has been constructed in this cell.
    pub closed spec fn constructions(&self) -> nat {
        self.constructions as nat
    }

    /// A construction was attempted exactly when the cell left `Empty`.
    pub open spec fn wf(&self) -> bool {
        self.constructions() == if self.state() is Empty {
            0nat
        } else {
            1nat
        }
    }

    /// What one `acquire` does to the cell: an empty cell is constructed once,
    /// whatever the outcome; any other cell is left as it is.
    pub open spec fn acquire_step(pre: Self, post: Self) -> bool {
        if pre.state() is Empty {
            &&& post.constructions() == pre.constructions() + 1
            &&& !(post.state() is Empty)
        } else {
            post == pre
        }
    }

    /// A cell with no engine yet.
    pub fn new() -> (r: Self)
        ensures
            r.wf(),
            r.state() is Empty,
            r.constructions() == 0,
    {
        EngineCell { state: EngineState::Empty, constructions: 0 }
    }

    /// How many times the engine has been constructed in this cell.
    pub fn construction_count(&self) -> (r: u64)
        ensures
            r == self.constructions(),
    {
        self.constructions
    }

    /// Whether an engine is ready for use.
    pub fn is_ready(&self) -> (r: bool)
        ensures
            r == self.state() is Ready,
    {
        match &self.state {
            EngineState::Ready(_) => true,
            _ => false,
        }
    }

    /// Makes sure the engine exists: on the first call `make` constructs it,
    /// later calls reuse it (or report the earlier failure) without calling
    /// `make`.
    pub fn acquire<X, F: FnOnce() -> Result<E, X>>(&mut self, make: F) -> (r: Result<
        (),
        AcquireError<X>,
    >)
        requires
            old(self).wf(),
            old(self).state() is Empty ==> make.requires(()),
        ensures
            final(self).wf(),
            Self::acquire_step(*old(self), *final(self)),
            r is Ok <==> final(self).state() is Ready,
            old(self).state() is Failed ==> r is Err && r->Err_0 is Unavailable,
            old(self).state() is Empty ==> exists|res: Result<E, X>|
                #[trigger] make.ensures((), res) && match res {
                    Ok(e) => final(self).state() == EngineState::<E>::Ready(e),
                    Err(x) => r == Err::<(), AcquireError<X>>(AcquireError::Init(x)),
                },
    {
        match self.state {
            EngineState::Ready(_) => Ok(()),
            EngineState::Failed => Err(AcquireError::Unavailable),
            EngineState::Empty => {
                let res = make();
                self.constructions = 1;
                match res {
                    Ok(e) => {
                        self.state = EngineState::Ready(e);
                        Ok(())
                    },
                    Err(x) => {
                        self.state = EngineState::Failed;
                        Err(AcquireError::Init(x))
                    },
                }
            },
        }
    }

    /// The engine, once it is ready.
    pub fn engine(&self) -> (r: Option<&E>)
        ensures
            match self.state() {
                EngineState::Ready(e) => r == Some(&e),
                _ => r is None,
            },
    {
        match &self.state {
            EngineState::Ready(e) => Some(e),
            _ => None,
        }
    }
}

/// At most one construction per execution unit: however many `acquire` calls
/// a fresh cell goes through, its engine is constructed once if there was at
/// least one call, and never more than once.
pub proof fn lemma_constructed_once<E>(cells: Seq<EngineCell<E>>)
    requires
        cells.len() > 0,
        cells[0].wf(),
        cells[0].state() is Empty,
        forall|i: int|
            0 <= i < cells.len() - 1 ==> EngineCell::acquire_step(
                #[trigger] cells[i],
                cells[i + 1],
            ),
    ensures
        forall|i: int| 0 <= i < cells.len() ==> #[trigger] cells[i].constructions() <= 1,
        cells.len() > 1 ==> cells.last().constructions() == 1,
    decreases cells.len(),
{
    if cells.len() > 1 {
        let prefix = cells.drop_last();
        assert forall|i: int| 0 <= i < prefix.len() - 1 implies EngineCell::acquire_step(
            #[trigger] prefix[i],
            prefix[i + 1],
        ) by {
            assert(EngineCell::acquire_step(cells[i], cells[i + 1]));
        }
        lemma_constructed_once(prefix);
        let k = cells.len() - 2;
        assert(EngineCell::acquire_step(cells[k], cells[k + 1]));
        if k > 0 {
            assert(EngineCell::acquire_step(cells[k - 1], cells[k]));
        }
        assert forall|i: int| 0 <= i < cells.len() implies #[trigger] cells[i].constructions()
            <= 1 by {
            if i < cells.len() - 1 {
                assert(prefix[i] == cells[i]);
            }
        }
    }
}

} // verus!
