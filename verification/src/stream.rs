//! Items, stages, and the task that runs a stage between two channels.

use std::collections::VecDeque;
use vstd::prelude::*;

use crate::error::SyncError2;
use crate::peer::PeerData;

verus! {

/// What moves through every channel of the pipeline: a value or a failure,
/// either one with the peer it is attributed to.
pub type SyncResult<T> = Result<PeerData<T>, PeerData<SyncError2>>;

/// One stage of the pipeline: it turns an item into the next stage's item,
/// or rejects it. A stage may keep state of its own from item to item.
pub trait ProcessStage: Sized {
    type Input;

    type Output;

    /// Whether `map`, called on `input`, may leave the stage as `after` and
    /// return `outcome`. Unless a stage says more of itself, every outcome
    /// is allowed: so it is for a stage that decides by what it finds
    /// outside itself.
    open spec fn maps(
        &self,
        input: Self::Input,
        after: Self,
        outcome: Result<Self::Output, SyncError2>,
    ) -> bool {
        true
    }

    fn map(&mut self, input: Self::Input) -> (outcome: Result<Self::Output, SyncError2>)
        ensures
            old(self).maps(input, *final(self), outcome),
    ;
}

/// The item that stands for `outcome`, attributed to `peer`.
pub open spec fn tagged<O>(peer: libp2p::PeerId, outcome: Result<O, SyncError2>) -> SyncResult<O> {
    match outcome {
        Ok(data) => Ok(PeerData { peer, data }),
        Err(error) => Err(PeerData { peer, data: error }),
    }
}

/// Attributes what a stage made of an item to the peer that the item came
/// from.
pub fn tag_outcome<O>(peer: libp2p::PeerId, outcome: Result<O, SyncError2>) -> (item: SyncResult<O>)
    ensures
        item == tagged(peer, outcome),
{
    match outcome {
        Ok(data) => Ok(PeerData { peer, data }),
        Err(error) => Err(PeerData { peer, data: error }),
    }
}

/// What a stage made of a value, read off the item that was sent for it.
pub open spec fn outcome_of<O>(sent: SyncResult<O>) -> Result<O, SyncError2> {
    match sent {
        Ok(mapped) => Ok(mapped.data),
        Err(failure) => Err(failure.data),
    }
}

/// Whether a stage that received `item` may send `sent`: a failure goes on
/// as it is, and what the stage makes of a value, be it a value or a
/// failure, keeps the value's peer.
pub open spec fn passes_on<I, O>(item: SyncResult<I>, sent: SyncResult<O>) -> bool {
    match item {
        Err(failure) => sent == Err::<PeerData<O>, PeerData<SyncError2>>(failure),
        Ok(received) => match sent {
            Ok(mapped) => mapped.peer == received.peer,
            Err(failure) => failure.peer == received.peer,
        },
    }
}

/// Where a stage's task stands.
#[derive(Clone, Copy, Debug, PartialEq, Eq, Structural)]
pub enum StagePhase {
    /// Not started yet.
    Idle,
    /// Waiting for the next item from upstream.
    Receiving,
    /// Waiting for a value to be taken by the downstream channel.
    Forwarding,
    /// Waiting for a failure to be taken by the downstream channel; the task
    /// ends after it.
    Finishing,
    /// Ended.
    Stopped,
}

/// What happened to a stage's task since its last action.
#[derive(Debug)]
pub enum StageEvent<I> {
    /// The task was scheduled.
    Started,
    /// Upstream delivered an item.
    Received(SyncResult<I>),
    /// Upstream is closed and drained.
    Closed,
    /// Downstream took the item that was sent.
    Delivered,
    /// Downstream has no receiver any more.
    ReceiverGone,
}

/// What a stage's task does next.
#[derive(Debug, PartialEq, Eq)]
pub enum StageAction<O> {
    /// Wait for the next item from upstream.
    Receive,
    /// Send the item downstream.
    Send(SyncResult<O>),
    /// End the task.
    Stop,
}

/// The steps that a stage's task may take from `phase` on `event`.
pub open spec fn stage_step<I, O>(
    phase: StagePhase,
    event: StageEvent<I>,
    next: StagePhase,
    action: StageAction<O>,
) -> bool {
    match (phase, event) {
        (StagePhase::Idle, StageEvent::Started) => next == StagePhase::Receiving
            && action is Receive,
        (StagePhase::Receiving, StageEvent::Received(item)) => {
            &&& action matches StageAction::Send(sent)
            &&& passes_on(item, sent)
            &&& next == if sent is Ok {
                StagePhase::Forwarding
            } else {
                StagePhase::Finishing
            }
        },
        (StagePhase::Forwarding, StageEvent::Delivered) => next == StagePhase::Receiving
            && action is Receive,
        _ => next == StagePhase::Stopped && action is Stop,
    }
}

/// What the step of a task does to its stage: a value that arrives is
/// mapped once, and what is sent is what the stage made of it; in every
/// other step the stage is left as it is.
pub open spec fn stage_used<S: ProcessStage>(
    phase: StagePhase,
    before: S,
    event: StageEvent<S::Input>,
    after: S,
    action: StageAction<S::Output>,
) -> bool {
    match (phase, event) {
        (StagePhase::Receiving, StageEvent::Received(Ok(received))) => {
            &&& action matches StageAction::Send(sent)
            &&& before.maps(received.data, after, outcome_of(sent))
        },
        _ => after == before,
    }
}

impl StagePhase {
    /// One step of the task that runs `stage` between two channels: from
    /// where the task stands and what happened, to where it stands next and
    /// what it does. Only a value that arrives is handed to the stage.
    pub fn step<S: ProcessStage>(
        self,
        stage: &mut S,
        event: StageEvent<S::Input>,
    ) -> (next: (StagePhase, StageAction<S::Output>))
        ensures
            stage_step(self, event, next.0, next.1),
            stage_used(self, *old(stage), event, *final(stage), next.1),
    {
        match (self, event) {
            (StagePhase::Idle, StageEvent::Started) => (StagePhase::Receiving, StageAction::Receive),
            (StagePhase::Receiving, StageEvent::Received(Err(failure))) => (
                StagePhase::Finishing,
                StageAction::Send(Err(failure)),
            ),
            (StagePhase::Receiving, StageEvent::Received(Ok(received))) => {
                let peer = received.peer;
                let sent = tag_outcome(peer, stage.map(received.data));
                match sent {
                    Ok(mapped) => (StagePhase::Forwarding, StageAction::Send(Ok(mapped))),
                    Err(failure) => (StagePhase::Finishing, StageAction::Send(Err(failure))),
                }
            },
            (StagePhase::Forwarding, StageEvent::Delivered) => (
                StagePhase::Receiving,
                StageAction::Receive,
            ),
            _ => (StagePhase::Stopped, StageAction::Stop),
        }
    }
}

/// Once the receiver of its channel is gone, a stage's task sends nothing
/// more: it stops at that event, whatever it was doing, and a stopped task
/// stays stopped.
pub proof fn lemma_stage_stops_without_receiver<I, O>(
    phase: StagePhase,
    event: StageEvent<I>,
    next: StagePhase,
    action: StageAction<O>,
)
    requires
        stage_step(phase, event, next, action),
        event is ReceiverGone || phase == StagePhase::Stopped,
    ensures
        next == StagePhase::Stopped,
        action is Stop,
{
}

/// Whether `phases`, `events` and `actions` are a course of a stage's task:
/// from each phase, on the event that happened, a step to the next phase
/// and the action taken.
pub open spec fn stage_course<I, O>(
    phases: Seq<StagePhase>,
    events: Seq<StageEvent<I>>,
    actions: Seq<StageAction<O>>,
) -> bool {
    &&& phases.len() == events.len() + 1
    &&& actions.len() == events.len()
    &&& forall|i: int|
        0 <= i < events.len() ==> stage_step(
            phases[i],
            #[trigger] events[i],
            phases[i + 1],
            actions[i],
        )
}

/// In every course of a stage's task, the send that finds the receiver gone
/// is the last: no action from that event on sends anything.
pub proof fn lemma_stage_sends_nothing_after_receiver_gone<I, O>(
    phases: Seq<StagePhase>,
    events: Seq<StageEvent<I>>,
    actions: Seq<StageAction<O>>,
    gone: int,
    later: int,
)
    requires
        stage_course(phases, events, actions),
        0 <= gone <= later < events.len(),
        events[gone] is ReceiverGone,
    ensures
        actions[later] is Stop,
        phases[later + 1] == StagePhase::Stopped,
    decreases later - gone,
{
    if gone < later {
        lemma_stage_sends_nothing_after_receiver_gone(phases, events, actions, gone, later - 1);
    }
    assert(stage_step(phases[later], events[later], phases[later + 1], actions[later]));
}

/// Whether `output` is what a task makes of the first `available` of its
/// inputs when it ends at the first failure that it sends: values up to
/// there, and nothing after a failure.
pub open spec fn ends_at_first_failure<T, E>(output: Seq<Result<T, E>>, available: nat) -> bool {
    &&& output.len() <= available
    &&& forall|i: int| 0 <= i < output.len() - 1 ==> (#[trigger] output[i]) is Ok
    &&& output.len() < available ==> output.len() > 0 && output.last() is Err
}

/// Whether `output` is what a stage may send, item by item, when `input`
/// is all that upstream delivers and downstream takes everything.
pub open spec fn stage_outputs<I, O>(input: Seq<SyncResult<I>>, output: Seq<SyncResult<O>>) -> bool {
    &&& ends_at_first_failure(output, input.len())
    &&& forall|i: int| 0 <= i < output.len() ==> passes_on(input[i], #[trigger] output[i])
}

/// Whether `states` is what a stage went through while its task made
/// `output` of `input`: the stage as it was before each item and after the
/// last, where a value is mapped once, with the outcome that was sent, and
/// a failure leaves the stage as it is.
pub open spec fn stage_trace<S: ProcessStage>(
    states: Seq<S>,
    input: Seq<SyncResult<S::Input>>,
    output: Seq<SyncResult<S::Output>>,
) -> bool {
    &&& states.len() == output.len() + 1
    &&& output.len() <= input.len()
    &&& forall|i: int|
        0 <= i < output.len() ==> match input[i] {
            Ok(received) => states[i].maps(
                received.data,
                states[i + 1],
                outcome_of(#[trigger] output[i]),
            ),
            Err(_) => states[i + 1] == states[i],
        }
}

/// Whether the stage that made `output` of `input` rejected nothing: it
/// sent a value for every value that it received.
pub open spec fn accepts<I, O>(input: Seq<SyncResult<I>>, output: Seq<SyncResult<O>>) -> bool {
    forall|i: int|
        0 <= i < output.len() && i < input.len() && input[i] is Ok ==> (#[trigger] output[i]) is Ok
}

/// A stage that rejects nothing sends a value for each of the values that
/// arrive before the first failure.
pub proof fn lemma_accepting_stage_sends_values<I, O>(
    input: Seq<SyncResult<I>>,
    output: Seq<SyncResult<O>>,
    values: int,
)
    requires
        stage_outputs(input, output),
        accepts(input, output),
        0 <= values <= input.len(),
        forall|i: int| 0 <= i < values ==> (#[trigger] input[i]) is Ok,
    ensures
        output.len() >= values,
        forall|i: int| 0 <= i < values ==> (#[trigger] output[i]) is Ok,
{
    if output.len() < values {
        let last = output.len() - 1;
        assert(input[last] is Ok);
        assert(output[last] is Ok);
    }
    assert forall|i: int| 0 <= i < values implies (#[trigger] output[i]) is Ok by {
        assert(input[i] is Ok);
    }
}

/// A failure that arrives after values only, at a stage that rejects
/// nothing, is the last item that the stage sends, and it is sent as it
/// came.
pub proof fn lemma_stage_ends_with_failure<I, O>(
    input: Seq<SyncResult<I>>,
    output: Seq<SyncResult<O>>,
    at: int,
)
    requires
        stage_outputs(input, output),
        accepts(input, output),
        0 <= at < input.len(),
        forall|i: int| 0 <= i < at ==> (#[trigger] input[i]) is Ok,
        input[at] is Err,
    ensures
        output.len() == at + 1,
        forall|i: int| 0 <= i < at ==> (#[trigger] output[i]) is Ok,
        output[at] == Err::<PeerData<O>, PeerData<SyncError2>>(input[at]->Err_0),
{
    lemma_accepting_stage_sends_values(input, output, at);
    if output.len() == at {
        if at > 0 {
            assert(output[at - 1] is Ok);
        }
    }
    assert(passes_on(input[at], output[at]));
    if output.len() > at + 1 {
        assert(output[at] is Ok);
    }
}

/// Where a stage sent values only, it received values only, and sent one
/// for each.
pub proof fn lemma_values_sent_were_values_received<I, O>(
    input: Seq<SyncResult<I>>,
    output: Seq<SyncResult<O>>,
)
    requires
        stage_outputs(input, output),
        forall|i: int| 0 <= i < output.len() ==> (#[trigger] output[i]) is Ok,
    ensures
        output.len() == input.len(),
        forall|i: int| 0 <= i < input.len() ==> (#[trigger] input[i]) is Ok,
{
    if output.len() < input.len() {
        assert(output[output.len() - 1] is Ok);
    }
    assert forall|i: int| 0 <= i < input.len() implies (#[trigger] input[i]) is Ok by {
        assert(output[i] is Ok);
        assert(passes_on(input[i], output[i]));
    }
}

/// Runs `stage` over a closed channel that holds `input`, into a channel
/// that takes everything, and returns what was sent. The stage is called
/// once for each value up to the first failure, in order, and is left as
/// the last call left it.
pub fn run_stage<S: ProcessStage>(stage: &mut S, input: VecDeque<SyncResult<S::Input>>) -> (output:
    VecDeque<SyncResult<S::Output>>)
    ensures
        stage_outputs(input@, output@),
        exists|states: Seq<S>|
            {
                &&& #[trigger] stage_trace(states, input@, output@)
                &&& states[0] == *old(stage)
                &&& states.last() == *final(stage)
            },
{
    let ghost all = input@;
    let ghost mut states: Seq<S> = seq![*stage];
    let mut input = input;
    let mut output: VecDeque<SyncResult<S::Output>> = VecDeque::new();
    let mut phase = StagePhase::Idle;
    let mut event: StageEvent<S::Input> = StageEvent::Started;
    loop
        invariant_except_break
            input@.len() <= all.len(),
            input@ == all.skip(all.len() - input@.len()),
            output@.len() <= all.len(),
            forall|i: int| 0 <= i < output@.len() ==> passes_on(all[i], #[trigger] output@[i]),
            forall|i: int| 0 <= i < output@.len() - 1 ==> (#[trigger] output@[i]) is Ok,
            stage_trace(states, all, output@),
            states[0] == *old(stage),
            states.last() == *stage,
            match (phase, event) {
                (StagePhase::Idle, StageEvent::Started) => output@.len() == 0 && input@ == all,
                (StagePhase::Receiving, StageEvent::Received(item)) => {
                    &&& input@.len() < all.len()
                    &&& item == all[all.len() - input@.len() - 1]
                    &&& output@.len() == all.len() - input@.len() - 1
                    &&& output@.len() > 0 ==> output@.last() is Ok
                },
                (StagePhase::Receiving, StageEvent::Closed) => {
                    &&& output@.len() == all.len()
                    &&& output@.len() > 0 ==> output@.last() is Ok
                },
                (StagePhase::Forwarding, StageEvent::Delivered) => {
                    &&& output@.len() == all.len() - input@.len()
                    &&& output@.len() > 0 ==> output@.last() is Ok
                },
                (StagePhase::Finishing, StageEvent::Delivered) => {
                    &&& output@.len() == all.len() - input@.len()
                    &&& output@.len() > 0
                    &&& output@.last() is Err
                },
                _ => false,
            },
        ensures
            stage_outputs(all, output@),
            stage_trace(states, all, output@),
            states[0] == *old(stage),
            states.last() == *stage,
        decreases
                2 * input@.len() + match event {
                    StageEvent::Received(_) => 2nat,
                    StageEvent::Started => 1nat,
                    StageEvent::Delivered => 1nat,
                    _ => 0nat,
                },
    {
        let ghost before = states;
        let ghost sent_so_far = output@;
        let (next, action) = phase.step(stage, event);
        phase = next;
        match action {
            StageAction::Receive => {
                match input.pop_front() {
                    Some(item) => {
                        event = StageEvent::Received(item);
                    },
                    None => {
                        event = StageEvent::Closed;
                    },
                }
            },
            StageAction::Send(sent) => {
                output.push_back(sent);
                proof {
                    states = states.push(*stage);
                    assert forall|i: int| 0 <= i < output@.len() implies match all[i] {
                        Ok(received) => states[i].maps(
                            received.data,
                            states[i + 1],
                            outcome_of(#[trigger] output@[i]),
                        ),
                        Err(_) => states[i + 1] == states[i],
                    } by {
                        if i < sent_so_far.len() {
                            assert(output@[i] == sent_so_far[i]);
                            assert(states[i] == before[i]);
                            assert(states[i + 1] == before[i + 1]);
                        }
                    }
                }
                event = StageEvent::Delivered;
            },
            StageAction::Stop => {
                break ;
            },
        }
    }
    output
}

} // verus!
