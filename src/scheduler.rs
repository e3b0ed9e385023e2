//! The decisions of a scheduler that runs the transactions of batches one at a time.
//! The threads, channels and callbacks around it hand it events and carry out what it
//! decides.

use vstd::prelude::*;
use crate::context::ContextId;

verus! {

/// A batch: its header signature and the header signatures of its transactions, in order.
#[derive(Clone, Debug, PartialEq, Eq)]
pub struct BatchPair {
    pub header_signature: String,
    pub transaction_ids: Vec<String>,
}

#[derive(Clone, Debug, PartialEq, Eq)]
pub enum SchedulerError {
    /// A batch with this header signature was added before.
    DuplicateBatch(String),
    /// Batches cannot be added once the scheduler is finalized.
    SchedulerFinalized,
    /// The task iterator was taken already.
    NoTaskIterator,
    /// A notification came for a transaction other than the one in flight.
    UnexpectedNotification(String),
    /// The scheduler cannot go on.
    Internal(String),
}

/// The queue of batches not yet started, and what has been decided of the scheduler.
pub struct Shared {
    unscheduled: Vec<BatchPair>,
    finalized: bool,
    seen_batch_ids: Vec<String>,
}

fn holds_string(v: &Vec<String>, s: &String) -> (r: bool)
    ensures
        r == exists|i: int| 0 <= i < v@.len() && #[trigger] v@[i]@ == s@,
{
    let mut i: usize = 0;
    while i < v.len()
        invariant
            i <= v@.len(),
            forall|j: int| 0 <= j < i ==> #[trigger] v@[j]@ != s@,
        decreases v@.len() - i,
    {
        if v[i].eq(s) {
            return true;
        }
        i += 1;
    }
    false
}

impl Shared {
    pub closed spec fn unscheduled_view(&self) -> Seq<BatchPair> {
        self.unscheduled@
    }

    pub closed spec fn finalized_view(&self) -> bool {
        self.finalized
    }

    /// A batch with header signature `sig` was added at some time.
    pub closed spec fn was_seen(&self, sig: Seq<char>) -> bool {
        exists|i: int| 0 <= i < self.seen_batch_ids@.len() && #[trigger] self.seen_batch_ids@[i]@ == sig
    }

    pub fn new() -> (r: Shared)
        ensures
            r.unscheduled_view().len() == 0,
            !r.finalized_view(),
            forall|sig: Seq<char>| !r.was_seen(sig),
    {
        Shared { unscheduled: Vec::new(), finalized: false, seen_batch_ids: Vec::new() }
    }

    pub fn finalized(&self) -> (r: bool)
        ensures
            r == self.finalized_view(),
    {
        self.finalized
    }

    pub fn set_finalized(&mut self, finalized: bool)
        ensures
            final(self).finalized_view() == finalized,
            final(self).unscheduled_view() == old(self).unscheduled_view(),
            forall|sig: Seq<char>| final(self).was_seen(sig) == old(self).was_seen(sig),
    {
        self.finalized = finalized;
        assert(self.seen_batch_ids@ == old(self).seen_batch_ids@);
    }

    /// Whether a batch with this header signature was added before; a cancel does not
    /// forget it.
    pub fn batch_already_queued(&self, batch: &BatchPair) -> (r: bool)
        ensures
            r == self.was_seen(batch.header_signature@),
    {
        holds_string(&self.seen_batch_ids, &batch.header_signature)
    }

    pub fn unscheduled_batches_is_empty(&self) -> (r: bool)
        ensures
            r == (self.unscheduled_view().len() == 0),
    {
        self.unscheduled.len() == 0
    }

    /// Queues the batch, unless the scheduler is finalized or the batch was added before.
    pub fn add_batch(&mut self, batch: BatchPair) -> (r: Result<(), SchedulerError>)
        ensures
            old(self).finalized_view() ==> r == Err::<(), _>(SchedulerError::SchedulerFinalized),
            !old(self).finalized_view() && old(self).was_seen(batch.header_signature@) ==> (r matches Err(
                SchedulerError::DuplicateBatch(s),
            ) && s@ == batch.header_signature@),
            r is Err ==> *final(self) == *old(self),
            !old(self).finalized_view() && !old(self).was_seen(batch.header_signature@) ==> {
                &&& r is Ok
                &&& final(self).unscheduled_view() == old(self).unscheduled_view().push(batch)
                &&& final(self).finalized_view() == old(self).finalized_view()
                &&& forall|sig: Seq<char>| #[trigger] final(self).was_seen(sig)
                    == (old(self).was_seen(sig) || sig == batch.header_signature@)
            },
    {
        if self.finalized {
            return Err(SchedulerError::SchedulerFinalized);
        }
        if self.batch_already_queued(&batch) {
            return Err(SchedulerError::DuplicateBatch(batch.header_signature.clone()));
        }
        let ghost seen = self.seen_batch_ids@;
        self.seen_batch_ids.push(batch.header_signature.clone());
        self.unscheduled.push(batch);
        proof {
            assert forall|sig: Seq<char>| #[trigger] self.was_seen(sig)
                == (old(self).was_seen(sig) || sig == batch.header_signature@) by {
                if self.was_seen(sig) {
                    let i = choose|i: int| 0 <= i < self.seen_batch_ids@.len() && #[trigger] self.seen_batch_ids@[i]@ == sig;
                    if i < seen.len() {
                        assert(seen[i]@ == sig);
                    }
                }
                if old(self).was_seen(sig) {
                    let i = choose|i: int| 0 <= i < seen.len() && #[trigger] seen[i]@ == sig;
                    assert(self.seen_batch_ids@[i]@ == sig);
                }
                if sig == batch.header_signature@ {
                    assert(self.seen_batch_ids@[seen.len() as int]@ == sig);
                }
            }
        }
        Ok(())
    }

    /// Takes out every batch not yet started, in the order they were added. The header
    /// signatures stay known, so adding one of them again is still refused.
    pub fn drain_unscheduled_batches(&mut self) -> (r: Vec<BatchPair>)
        ensures
            r@ == old(self).unscheduled_view(),
            final(self).unscheduled_view().len() == 0,
            final(self).finalized_view() == old(self).finalized_view(),
            forall|sig: Seq<char>| #[trigger] final(self).was_seen(sig) == old(self).was_seen(sig),
    {
        let mut r: Vec<BatchPair> = Vec::new();
        std::mem::swap(&mut r, &mut self.unscheduled);
        assert(self.seen_batch_ids@ == old(self).seen_batch_ids@);
        r
    }

    /// Takes out the batch added first, if any.
    pub fn pop_unscheduled(&mut self) -> (r: Option<BatchPair>)
        ensures
            old(self).unscheduled_view().len() == 0 ==> r is None && *final(self) == *old(self),
            old(self).unscheduled_view().len() > 0 ==> r == Some(old(self).unscheduled_view()[0])
                && final(self).unscheduled_view() == old(self).unscheduled_view().drop_first(),
            final(self).finalized_view() == old(self).finalized_view(),
            forall|sig: Seq<char>| #[trigger] final(self).was_seen(sig) == old(self).was_seen(sig),
    {
        if self.unscheduled.len() == 0 {
            None
        } else {
            let b = self.unscheduled.remove(0);
            assert(self.unscheduled@ =~= old(self).unscheduled@.drop_first());
            assert(self.seen_batch_ids@ == old(self).seen_batch_ids@);
            Some(b)
        }
    }
}

/// Once the signature of a batch is known, a cancel does not make it addable again:
/// adding it after the drain fails as a duplicate.
pub proof fn lemma_cancel_keeps_duplicates(before: &Shared, after: &Shared, sig: Seq<char>)
    requires
        before.was_seen(sig),
        !before.finalized_view(),
        after.unscheduled_view().len() == 0,
        after.finalized_view() == before.finalized_view(),
        forall|s: Seq<char>| #[trigger] after.was_seen(s) == before.was_seen(s),
    ensures
        after.was_seen(sig),
        !after.finalized_view(),
{
    assert(after.was_seen(sig) == before.was_seen(sig));
}

/// A transaction handed out for execution, with the fresh context it runs in.
#[derive(Clone, Debug, PartialEq, Eq)]
pub struct ExecutionTask {
    pub batch_id: String,
    pub transaction_id: String,
    pub context_id: ContextId,
}

/// What an executor reports of a transaction it ran.
#[derive(Clone, Debug, PartialEq, Eq)]
pub enum ExecutionTaskCompletionNotification {
    /// The transaction ran; its changes are in the context.
    Valid(ContextId, String),
    /// The transaction is invalid, for the reason given.
    Invalid(String, String),
}

impl ExecutionTaskCompletionNotification {
    pub open spec fn transaction_view(&self) -> Seq<char> {
        match self {
            ExecutionTaskCompletionNotification::Valid(_, t) => t@,
            ExecutionTaskCompletionNotification::Invalid(t, _) => t@,
        }
    }

    pub fn transaction_id(&self) -> (r: &String)
        ensures
            r@ == self.transaction_view(),
    {
        match self {
            ExecutionTaskCompletionNotification::Valid(_, t) => t,
            ExecutionTaskCompletionNotification::Invalid(t, _) => t,
        }
    }
}

#[derive(Clone, Debug, PartialEq, Eq)]
pub struct TransactionResult {
    pub transaction_id: String,
    pub context_id: ContextId,
}

/// How a batch ended: every transaction valid, with its context, in batch order; or the
/// whole batch invalid.
#[derive(Clone, Debug, PartialEq, Eq)]
pub enum BatchOutcome {
    Valid(Vec<TransactionResult>),
    Invalid,
}

#[derive(Clone, Debug, PartialEq, Eq)]
pub struct BatchExecutionResult {
    pub batch: BatchPair,
    pub outcome: BatchOutcome,
}

/// What the core asks to be done next.
#[derive(Debug)]
pub enum CoreStep {
    /// Nothing until the next message.
    Idle,
    /// Create a context over these ancestors and hand its id to `dispatch`.
    CreateContext(Vec<ContextId>),
    /// The batch is done: deliver its result.
    BatchDone(BatchExecutionResult),
    /// No batch is left and none will come: end the stream of tasks.
    EndOfStream,
}

struct ActiveBatch {
    batch: BatchPair,
    next: usize,
    in_flight: Option<String>,
    results: Vec<TransactionResult>,
    invalidated: bool,
    previous_context: Option<ContextId>,
}

/// The state of the scheduler's core: the batch being run, and whether the end of the
/// stream was announced.
pub struct SchedulerCore {
    active: Option<ActiveBatch>,
    ended: bool,
}

impl SchedulerCore {
    pub closed spec fn wf(&self) -> bool {
        self.active matches Some(a) ==> {
            &&& a.next <= a.batch.transaction_ids@.len()
            &&& a.in_flight matches Some(t) ==> a.next >= 1 && t@ == a.batch.transaction_ids@[a.next
                - 1]@
        }
    }

    /// The batch being run.
    pub closed spec fn active_batch(&self) -> Option<BatchPair> {
        match self.active {
            Some(a) => Some(a.batch),
            None => None,
        }
    }

    /// The ids of the transactions of the active batch handed out so far, in order.
    pub closed spec fn dispatched(&self) -> Seq<String> {
        match self.active {
            Some(a) => a.batch.transaction_ids@.subrange(0, a.next as int),
            None => Seq::empty(),
        }
    }

    /// The transaction handed out and not yet reported on.
    pub closed spec fn in_flight(&self) -> Option<Seq<char>> {
        match self.active {
            Some(a) => match a.in_flight {
                Some(t) => Some(t@),
                None => None,
            },
            None => None,
        }
    }

    pub closed spec fn invalidated(&self) -> bool {
        self.active matches Some(a) && a.invalidated
    }

    /// The valid results of the active batch so far.
    pub closed spec fn results(&self) -> Seq<TransactionResult> {
        match self.active {
            Some(a) => a.results@,
            None => Seq::empty(),
        }
    }

    /// The context of the transaction handed out last in the active batch.
    pub closed spec fn previous_context(&self) -> Option<ContextId> {
        match self.active {
            Some(a) => a.previous_context,
            None => None,
        }
    }

    pub closed spec fn ended(&self) -> bool {
        self.ended
    }

    /// The core can hand out the next transaction of its batch.
    pub open spec fn awaiting_context(&self) -> bool {
        &&& self.active_batch() is Some
        &&& self.in_flight() is None
        &&& !self.invalidated()
        &&& self.dispatched().len() < self.active_batch()->0.transaction_ids@.len()
    }

    pub fn new() -> (r: SchedulerCore)
        ensures
            r.wf(),
            r.active_batch() is None,
            !r.ended(),
    {
        SchedulerCore { active: None, ended: false }
    }

    /// Decides what happens next with the active batch.
    fn advance(&mut self) -> (r: CoreStep)
        requires
            old(self).wf(),
            old(self).active_batch() is Some,
        ensures
            final(self).wf(),
            final(self).ended() == old(self).ended(),
            old(self).in_flight() is Some ==> r is Idle && *final(self) == *old(self),
            old(self).awaiting_context() ==> *final(self) == *old(self) && (r matches CoreStep::CreateContext(
                bases,
            ) && bases@ == option_seq(old(self).previous_context())),
            old(self).in_flight() is None && !old(self).awaiting_context() ==> final(self).active_batch() is None
                && (r matches CoreStep::BatchDone(res) && res.batch == old(self).active_batch()->0 && if old(
                self,
            ).invalidated() {
                res.outcome == BatchOutcome::Invalid
            } else {
                res.outcome matches BatchOutcome::Valid(v) && v@ == old(self).results()
            }),
    {
        let a = self.active.as_ref().unwrap();
        if a.in_flight.is_some() {
            return CoreStep::Idle;
        }
        if !a.invalidated && a.next < a.batch.transaction_ids.len() {
            let mut bases: Vec<ContextId> = Vec::new();
            if let Some(c) = a.previous_context {
                bases.push(c);
            }
            assert(bases@ =~= option_seq(old(self).previous_context()));
            return CoreStep::CreateContext(bases);
        }
        let a = self.active.take().unwrap();
        let outcome = if a.invalidated {
            BatchOutcome::Invalid
        } else {
            BatchOutcome::Valid(a.results)
        };
        CoreStep::BatchDone(BatchExecutionResult { batch: a.batch, outcome })
    }

    /// Decides the next step: start the first queued batch when none is active, hand out
    /// the next transaction once the one in flight is reported on, deliver a finished
    /// batch, or, finalized with nothing left, end the stream once.
    pub fn next_step(&mut self, shared: &mut Shared) -> (r: CoreStep)
        requires
            old(self).wf(),
        ensures
            final(self).wf(),
            old(self).in_flight() is Some ==> r is Idle && *final(self) == *old(self) && *final(shared)
                == *old(shared),
            r matches CoreStep::CreateContext(bases) ==> final(self).awaiting_context()
                && bases@ == option_seq(final(self).previous_context()),
            old(self).active_batch() is None && old(shared).unscheduled_view().len() > 0 ==> {
                let front = old(shared).unscheduled_view()[0];
                &&& final(shared).unscheduled_view() == old(shared).unscheduled_view().drop_first()
                &&& final(shared).finalized_view() == old(shared).finalized_view()
                &&& forall|sig: Seq<char>| #[trigger] final(shared).was_seen(sig) == old(shared).was_seen(sig)
                &&& final(self).ended() == old(self).ended()
                &&& front.transaction_ids@.len() > 0 ==> {
                    &&& final(self).active_batch() == Some(front)
                    &&& final(self).dispatched().len() == 0
                    &&& final(self).in_flight() is None
                    &&& final(self).results().len() == 0
                    &&& !final(self).invalidated()
                    &&& final(self).previous_context() is None
                    &&& (r matches CoreStep::CreateContext(bases) && bases@.len() == 0)
                }
                &&& front.transaction_ids@.len() == 0 ==> {
                    &&& final(self).active_batch() is None
                    &&& (r matches CoreStep::BatchDone(res) && res.batch == front
                        && (res.outcome matches BatchOutcome::Valid(v) && v@.len() == 0))
                }
            },
            old(self).active_batch() is Some && old(self).awaiting_context() ==> (r matches CoreStep::CreateContext(
                bases,
            ) && bases@ == option_seq(old(self).previous_context())),
            old(self).active_batch() is None && old(shared).unscheduled_view().len() == 0 ==> {
                &&& *final(shared) == *old(shared)
                &&& final(self).active_batch() is None
                &&& (old(shared).finalized_view() && !old(self).ended()) ==> r is EndOfStream
                    && final(self).ended()
                &&& !(old(shared).finalized_view() && !old(self).ended()) ==> r is Idle
                    && *final(self) == *old(self)
            },
            old(self).active_batch() is Some ==> *final(shared) == *old(shared),
            old(self).active_batch() is Some && old(self).awaiting_context() ==> *final(self) == *old(
                self,
            ),
            old(self).active_batch() is Some && old(self).in_flight() is None
                && !old(self).awaiting_context() ==> final(self).active_batch() is None && (r matches CoreStep::BatchDone(
                res,
            ) && res.batch == old(self).active_batch()->0 && if old(self).invalidated() {
                res.outcome == BatchOutcome::Invalid
            } else {
                res.outcome matches BatchOutcome::Valid(v) && v@ == old(self).results()
            }),
    {
        if self.active.is_none() {
            match shared.pop_unscheduled() {
                Some(batch) => {
                    self.active = Some(
                        ActiveBatch {
                            batch,
                            next: 0,
                            in_flight: None,
                            results: Vec::new(),
                            invalidated: false,
                            previous_context: None,
                        },
                    );
                },
                None => {
                    if shared.finalized() && !self.ended {
                        self.ended = true;
                        return CoreStep::EndOfStream;
                    }
                    return CoreStep::Idle;
                },
            }
        }
        self.advance()
    }

    /// Hands out the next transaction of the active batch, to run in `context_id`.
    pub fn dispatch(&mut self, context_id: ContextId) -> (r: ExecutionTask)
        requires
            old(self).wf(),
            old(self).awaiting_context(),
        ensures
            final(self).wf(),
            final(self).active_batch() == old(self).active_batch(),
            r.batch_id@ == old(self).active_batch()->0.header_signature@,
            r.transaction_id == old(self).active_batch()->0.transaction_ids@[old(
                self,
            ).dispatched().len() as int],
            r.context_id == context_id,
            final(self).dispatched() == old(self).dispatched().push(r.transaction_id),
            final(self).in_flight() == Some(r.transaction_id@),
            final(self).previous_context() == Some(context_id),
            final(self).results() == old(self).results(),
            !final(self).invalidated(),
            final(self).ended() == old(self).ended(),
    {
        let mut a = self.active.take().unwrap();
        assert(a.batch.transaction_ids@.subrange(0, a.next as int).len() == a.next);
        let n = a.batch.transaction_ids.len();
        assert(a.next < n);
        let t = a.batch.transaction_ids[a.next].clone();
        let ghost old_next = a.next;
        a.next = a.next + 1;
        a.in_flight = Some(t.clone());
        a.previous_context = Some(context_id);
        let task = ExecutionTask { batch_id: a.batch.header_signature.clone(), transaction_id: t, context_id };
        assert(a.batch.transaction_ids@.subrange(0, a.next as int) =~= a.batch.transaction_ids@.subrange(
            0,
            old_next as int,
        ).push(task.transaction_id));
        self.active = Some(a);
        task
    }

    /// Takes a report on the transaction in flight. A report on any other transaction is
    /// refused, and invalidates the active batch.
    pub fn on_notification(&mut self, n: ExecutionTaskCompletionNotification) -> (r: Result<(), SchedulerError>)
        requires
            old(self).wf(),
        ensures
            final(self).wf(),
            final(self).active_batch() == old(self).active_batch(),
            final(self).dispatched() == old(self).dispatched(),
            final(self).previous_context() == old(self).previous_context(),
            final(self).ended() == old(self).ended(),
            final(self).in_flight() is None,
            old(self).in_flight() == Some(n.transaction_view()) ==> r is Ok && match n {
                ExecutionTaskCompletionNotification::Valid(c, t) => final(self).results() == old(
                    self,
                ).results().push(TransactionResult { transaction_id: t, context_id: c })
                    && final(self).invalidated() == old(self).invalidated(),
                ExecutionTaskCompletionNotification::Invalid(..) => final(self).invalidated()
                    && final(self).results() == old(self).results(),
            },
            old(self).in_flight() != Some(n.transaction_view()) ==> (r matches Err(
                SchedulerError::UnexpectedNotification(t),
            ) && t@ == n.transaction_view()) && final(self).results() == old(self).results() && (old(
                self,
            ).active_batch() is Some ==> final(self).invalidated()),
    {
        let expected = match &self.active {
            Some(a) => match &a.in_flight {
                Some(t) => t.eq(n.transaction_id()),
                None => false,
            },
            None => false,
        };
        if !expected {
            let t = n.transaction_id().clone();
            if let Some(mut a) = self.active.take() {
                a.invalidated = true;
                a.in_flight = None;
                self.active = Some(a);
            }
            return Err(SchedulerError::UnexpectedNotification(t));
        }
        let mut a = self.active.take().unwrap();
        a.in_flight = None;
        match n {
            ExecutionTaskCompletionNotification::Valid(c, t) => {
                a.results.push(TransactionResult { transaction_id: t, context_id: c });
            },
            ExecutionTaskCompletionNotification::Invalid(..) => {
                a.invalidated = true;
            },
        }
        self.active = Some(a);
        Ok(())
    }
}

/// The transactions handed out from the active batch are its first ones, in batch order.
pub proof fn lemma_dispatch_follows_batch_order(core: &SchedulerCore)
    requires
        core.wf(),
        core.active_batch() is Some,
    ensures
        core.dispatched().len() <= core.active_batch()->0.transaction_ids@.len(),
        core.dispatched() == core.active_batch()->0.transaction_ids@.subrange(
            0,
            core.dispatched().len() as int,
        ),
{
}

/// While a transaction is in flight the core hands out no other: it asks for no context,
/// and `dispatch` cannot be called, until the report on that transaction has cleared it.
pub proof fn lemma_one_task_in_flight(core: &SchedulerCore)
    requires
        core.wf(),
        core.in_flight() is Some,
    ensures
        !core.awaiting_context(),
        core.in_flight()->0 == core.dispatched().last()@,
{
}

/// A transaction in flight, an invalidated batch or a handed-out transaction all belong
/// to an active batch.
pub proof fn lemma_in_flight_has_batch(core: &SchedulerCore)
    requires
        core.wf(),
    ensures
        core.in_flight() is Some ==> core.active_batch() is Some,
        core.invalidated() ==> core.active_batch() is Some,
        core.dispatched().len() > 0 ==> core.active_batch() is Some,
        core.active_batch() is None ==> core.dispatched().len() == 0 && core.results().len() == 0
            && core.previous_context() is None,
{
}

pub open spec fn option_seq(o: Option<ContextId>) -> Seq<ContextId> {
    match o {
        Some(c) => seq![c],
        None => Seq::empty(),
    }
}

} // verus!
