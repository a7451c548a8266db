//! Operations as one kind of thing: whatever asks the table one request at
//! a time can be driven by one loop.

use crate::compactor::{Compaction, CompactionModel, CompactionOutcome};
use crate::errors::Error;
use crate::memory::MemoryTable;
use crate::models::{PollResponse, PublishedEvent, Stream, Subscription};
use crate::poll::{Poll, PollModel};
use crate::publisher::{Publish, PublishModel};
use crate::registry::{CreateStream, CreateStreamModel, DeleteStream, DeleteStreamModel};
use crate::replies::ResultShape;
use crate::store::{proceed, run, Machine, Step, StepView, StoreReply};
use crate::subscriptions::{
    CommitOffsets, CommitOffsetsModel, CreateSubscription, CreateSubscriptionModel,
};
use vstd::prelude::*;

verus! {

/// An operation of the log: it takes its first step with no reply, and each
/// later step with the table's reply to the request of the step before.
pub trait Operation: Sized {
    /// What the operation returns when it succeeds.
    type Output: DeepView;

    /// The mathematical model of the operation.
    type Model: Machine<Out = <Self::Output as DeepView>::V>;

    /// The state of the operation, in its model.
    spec fn model(&self) -> Self::Model;

    /// Takes one step.
    fn advance(self, reply: Option<StoreReply>) -> (after: (Self, Step<Self::Output>))
        ensures
            (after.0.model(), after.1.shape()) == self.model().next(reply.deep_view()),
    ;
}

impl Operation for CreateStream {
    type Output = Stream;

    type Model = CreateStreamModel;

    open spec fn model(&self) -> CreateStreamModel {
        self@
    }

    fn advance(self, reply: Option<StoreReply>) -> (after: (Self, Step<Stream>)) {
        self.step(reply)
    }
}

impl Operation for DeleteStream {
    type Output = ();

    type Model = DeleteStreamModel;

    open spec fn model(&self) -> DeleteStreamModel {
        self@
    }

    fn advance(self, reply: Option<StoreReply>) -> (after: (Self, Step<()>)) {
        self.step(reply)
    }
}

impl Operation for Publish {
    type Output = Vec<PublishedEvent>;

    type Model = PublishModel;

    open spec fn model(&self) -> PublishModel {
        self@
    }

    fn advance(self, reply: Option<StoreReply>) -> (after: (Self, Step<Vec<PublishedEvent>>)) {
        self.step(reply)
    }
}

impl Operation for CreateSubscription {
    type Output = Subscription;

    type Model = CreateSubscriptionModel;

    open spec fn model(&self) -> CreateSubscriptionModel {
        self@
    }

    fn advance(self, reply: Option<StoreReply>) -> (after: (Self, Step<Subscription>)) {
        self.step(reply)
    }
}

impl Operation for CommitOffsets {
    type Output = ();

    type Model = CommitOffsetsModel;

    open spec fn model(&self) -> CommitOffsetsModel {
        self@
    }

    fn advance(self, reply: Option<StoreReply>) -> (after: (Self, Step<()>)) {
        self.step(reply)
    }
}

impl Operation for Poll {
    type Output = PollResponse;

    type Model = PollModel;

    open spec fn model(&self) -> PollModel {
        self@
    }

    fn advance(self, reply: Option<StoreReply>) -> (after: (Self, Step<PollResponse>)) {
        self.step(reply)
    }
}

impl Operation for Compaction {
    type Output = CompactionOutcome;

    type Model = CompactionModel;

    open spec fn model(&self) -> CompactionModel {
        self@
    }

    fn advance(self, reply: Option<StoreReply>) -> (after: (Self, Step<CompactionOutcome>)) {
        self.step(reply)
    }
}

/// Runs an operation to its end against a table in memory. The table and
/// the result are then what the model of the operation, run against the
/// model of the table, comes to.
pub fn drive<O: Operation>(table: &mut MemoryTable, operation: O) -> (result: Result<
    O::Output,
    Error,
>)
    ensures
        ({
            let model = operation.model();
            let (after, outcome) = run(model, old(table)@, model.budget());
            final(table)@ == after && outcome == Some(result.deep_view_result())
        }),
{
    let ghost start = operation.model();
    let ghost before = table@;
    let ghost mut fuel: nat = start.budget();
    proof {
        start.lemma_budget(None);
    }
    let (mut current, mut step) = operation.advance(None);
    loop
        invariant
            start == operation.model(),
            before == old(table)@,
            proceed((current.model(), step.shape()), table@, fuel) == run(
                start,
                before,
                start.budget(),
            ),
            step is Call ==> fuel > current.model().budget(),
        decreases fuel,
    {
        match step {
            Step::Done(result) => {
                assert(step.shape() == StepView::<<O::Output as DeepView>::V>::Done(
                    result.deep_view_result(),
                ));
                return result;
            },
            Step::Call(request) => {
                let ghost asked = (current.model(), step.shape());
                let ghost held = table@;
                let reply = table.answer(request);
                proof {
                    current.model().lemma_budget(Some(reply@));
                    assert(proceed(asked, held, fuel) == proceed(
                        asked.0.next(Some(reply@)),
                        table@,
                        (fuel - 1) as nat,
                    ));
                    fuel = (fuel - 1) as nat;
                }
                let (next, then) = current.advance(Some(reply));
                current = next;
                step = then;
            },
        }
    }
}

} // verus!
