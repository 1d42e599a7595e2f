//! The header fanout: one channel of signed headers becomes two that stay
//! in step.

use std::collections::VecDeque;
use vstd::prelude::*;

use crate::header::{BlockHeader, SignedBlockHeader};
use crate::stream::{ends_at_first_failure, SyncResult};

verus! {

/// Where the task stands that hands each signed header on to two channels:
/// as it is to the first, and its plain header to the second.
#[derive(Clone, Copy, Debug, PartialEq, Eq)]
pub enum HeaderFanout {
    /// Not started yet.
    Idle,
    /// Waiting for the next item from the source.
    Receiving,
    /// Waiting for a signed header to be taken by the first channel; its
    /// plain header goes to the second channel after it.
    SendingSigned { header: BlockHeader },
    /// Waiting for a failure to be taken by the first channel; the task ends
    /// after it.
    SendingFailure,
    /// Waiting for a plain header to be taken by the second channel.
    SendingPlain,
    /// Ended.
    Stopped,
}

/// What happened to the task since its last action.
#[derive(Clone, Copy, Debug, PartialEq, Eq)]
pub enum FanoutEvent {
    /// The task was scheduled.
    Started,
    /// The source delivered an item.
    Received(SyncResult<SignedBlockHeader>),
    /// The source is closed and drained.
    Closed,
    /// The channel took the item that was sent.
    Delivered,
    /// The channel that was sent to has no receiver any more.
    ReceiverGone,
}

/// What the task does next.
#[derive(Clone, Copy, Debug, PartialEq, Eq)]
pub enum FanoutAction {
    /// Wait for the next item from the source.
    Receive,
    /// Send the item to the first channel.
    SendSigned(SyncResult<SignedBlockHeader>),
    /// Send the header to the second channel.
    SendPlain(BlockHeader),
    /// End the task.
    Stop,
}

/// The step that the task takes from `state` on `event`.
pub open spec fn fanout_step(
    state: HeaderFanout,
    event: FanoutEvent,
    next: HeaderFanout,
    action: FanoutAction,
) -> bool {
    match (state, event) {
        (HeaderFanout::Idle, FanoutEvent::Started) => next is Receiving && action is Receive,
        (HeaderFanout::Receiving, FanoutEvent::Received(Ok(signed))) => {
            &&& next == (HeaderFanout::SendingSigned { header: signed.data.header })
            &&& action == FanoutAction::SendSigned(Ok(signed))
        },
        (HeaderFanout::Receiving, FanoutEvent::Received(Err(failure))) => {
            &&& next is SendingFailure
            &&& action == FanoutAction::SendSigned(Err(failure))
        },
        (HeaderFanout::SendingSigned { header }, FanoutEvent::Delivered) => {
            &&& next is SendingPlain
            &&& action == FanoutAction::SendPlain(header)
        },
        (HeaderFanout::SendingPlain, FanoutEvent::Delivered) => next is Receiving
            && action is Receive,
        _ => next is Stopped && action is Stop,
    }
}

impl HeaderFanout {
    /// One step of the task: from where it stands and what happened, to
    /// where it stands next and what it does.
    pub fn step(self, event: FanoutEvent) -> (next: (HeaderFanout, FanoutAction))
        ensures
            fanout_step(self, event, next.0, next.1),
    {
        match (self, event) {
            (HeaderFanout::Idle, FanoutEvent::Started) => (
                HeaderFanout::Receiving,
                FanoutAction::Receive,
            ),
            (HeaderFanout::Receiving, FanoutEvent::Received(Ok(signed))) => (
                HeaderFanout::SendingSigned { header: signed.data.header },
                FanoutAction::SendSigned(Ok(signed)),
            ),
            (HeaderFanout::Receiving, FanoutEvent::Received(Err(failure))) => (
                HeaderFanout::SendingFailure,
                FanoutAction::SendSigned(Err(failure)),
            ),
            (HeaderFanout::SendingSigned { header }, FanoutEvent::Delivered) => (
                HeaderFanout::SendingPlain,
                FanoutAction::SendPlain(header),
            ),
            (HeaderFanout::SendingPlain, FanoutEvent::Delivered) => (
                HeaderFanout::Receiving,
                FanoutAction::Receive,
            ),
            _ => (HeaderFanout::Stopped, FanoutAction::Stop),
        }
    }
}

/// Once the receiver of either channel is gone, the task sends nothing
/// more, to neither: it stops at that event, whatever it was doing, and a
/// stopped task stays stopped.
pub proof fn lemma_fanout_stops_without_receiver(
    state: HeaderFanout,
    event: FanoutEvent,
    next: HeaderFanout,
    action: FanoutAction,
)
    requires
        fanout_step(state, event, next, action),
        event is ReceiverGone || state is Stopped,
    ensures
        next is Stopped,
        action is Stop,
{
}

/// Whether `states`, `events` and `actions` are a course of the task: from
/// each state, on the event that happened, the step to the next state and
/// the action taken.
pub open spec fn fanout_course(
    states: Seq<HeaderFanout>,
    events: Seq<FanoutEvent>,
    actions: Seq<FanoutAction>,
) -> bool {
    &&& states.len() == events.len() + 1
    &&& actions.len() == events.len()
    &&& forall|i: int|
        0 <= i < events.len() ==> fanout_step(
            states[i],
            #[trigger] events[i],
            states[i + 1],
            actions[i],
        )
}

/// In every course of the task, the send that finds a receiver gone is the
/// last: no action from that event on sends anything, to either channel.
pub proof fn lemma_fanout_sends_nothing_after_receiver_gone(
    states: Seq<HeaderFanout>,
    events: Seq<FanoutEvent>,
    actions: Seq<FanoutAction>,
    gone: int,
    later: int,
)
    requires
        fanout_course(states, events, actions),
        0 <= gone <= later < events.len(),
        events[gone] is ReceiverGone,
    ensures
        actions[later] is Stop,
        states[later + 1] is Stopped,
    decreases later - gone,
{
    if gone < later {
        lemma_fanout_sends_nothing_after_receiver_gone(states, events, actions, gone, later - 1);
    }
    assert(fanout_step(states[later], events[later], states[later + 1], actions[later]));
}

/// Whether `signed` and `plain` are what the task sends to its two
/// channels when `source` is all that arrives and both take everything:
/// `signed` repeats `source` up to its first failure, and `plain` holds the
/// header of each value of `signed`, in the same order.
pub open spec fn fanout_outputs(
    source: Seq<SyncResult<SignedBlockHeader>>,
    signed: Seq<SyncResult<SignedBlockHeader>>,
    plain: Seq<BlockHeader>,
) -> bool {
    &&& ends_at_first_failure(signed, source.len())
    &&& signed == source.take(signed.len() as int)
    &&& plain.len() == if signed.len() > 0 && signed.last() is Err {
        signed.len() - 1
    } else {
        signed.len() as int
    }
    &&& forall|i: int|
        0 <= i < plain.len() ==> signed[i] is Ok && signed[i]->Ok_0.data.header
            == #[trigger] plain[i]
}

/// Where no failure arrives, the two channels carry the same headers, one
/// for one and in the same order, and they are those of the source.
pub proof fn lemma_fanout_outputs_agree(
    source: Seq<SyncResult<SignedBlockHeader>>,
    signed: Seq<SyncResult<SignedBlockHeader>>,
    plain: Seq<BlockHeader>,
)
    requires
        fanout_outputs(source, signed, plain),
        forall|i: int| 0 <= i < source.len() ==> (#[trigger] source[i]) is Ok,
    ensures
        signed == source,
        plain.len() == source.len(),
        forall|i: int|
            0 <= i < source.len() ==> (#[trigger] source[i])->Ok_0.data.header == plain[i],
{
    if signed.len() > 0 {
        assert(signed.last() == source[signed.len() - 1]);
    }
    assert(source.take(source.len() as int) =~= source);
}

spec fn weight(state: HeaderFanout, event: FanoutEvent) -> nat {
    match (state, event) {
        (HeaderFanout::Idle, _) => 5,
        (HeaderFanout::Receiving, FanoutEvent::Received(_)) => 4,
        (HeaderFanout::SendingSigned { .. }, _) => 3,
        (HeaderFanout::SendingFailure, _) => 3,
        (HeaderFanout::SendingPlain, _) => 2,
        _ => 1,
    }
}

/// Runs the task over a closed channel that holds `source`, into two
/// channels that take everything, and returns what was sent to each.
pub fn run_fanout(source: VecDeque<SyncResult<SignedBlockHeader>>) -> (output: (
    VecDeque<SyncResult<SignedBlockHeader>>,
    VecDeque<BlockHeader>,
))
    ensures
        fanout_outputs(source@, output.0@, output.1@),
{
    let ghost all = source@;
    let mut source = source;
    let mut signed: VecDeque<SyncResult<SignedBlockHeader>> = VecDeque::new();
    let mut plain: VecDeque<BlockHeader> = VecDeque::new();
    let mut state = HeaderFanout::Idle;
    let mut event = FanoutEvent::Started;
    loop
        invariant_except_break
            source@.len() <= all.len(),
            source@ == all.skip(all.len() - source@.len()),
            signed@.len() <= all.len(),
            plain@.len() <= signed@.len(),
            forall|i: int| 0 <= i < signed@.len() ==> #[trigger] signed@[i] == all[i],
            signed@.len() <= plain@.len() + 1,
            forall|i: int| 0 <= i < plain@.len() ==> (#[trigger] signed@[i]) is Ok,
            forall|i: int|
                0 <= i < plain@.len() ==> signed@[i]->Ok_0.data.header == #[trigger] plain@[i],
            ({
                let c = all.len() - source@.len();
                match (state, event) {
                    (HeaderFanout::Idle, FanoutEvent::Started) => c == 0 && signed@.len() == 0,
                    (HeaderFanout::Receiving, FanoutEvent::Received(item)) => {
                        &&& c >= 1
                        &&& item == all[c - 1]
                        &&& signed@.len() == c - 1
                        &&& plain@.len() == c - 1
                    },
                    (HeaderFanout::Receiving, FanoutEvent::Closed) => {
                        &&& signed@.len() == all.len()
                        &&& plain@.len() == all.len()
                    },
                    (HeaderFanout::SendingSigned { header }, FanoutEvent::Delivered) => {
                        &&& c >= 1
                        &&& signed@.len() == c
                        &&& plain@.len() == c - 1
                        &&& signed@.last() matches Ok(item)
                        &&& item.data.header == header
                    },
                    (HeaderFanout::SendingFailure, FanoutEvent::Delivered) => {
                        &&& c >= 1
                        &&& signed@.len() == c
                        &&& plain@.len() == c - 1
                        &&& signed@.last() is Err
                    },
                    (HeaderFanout::SendingPlain, FanoutEvent::Delivered) => {
                        &&& signed@.len() == c
                        &&& plain@.len() == c
                    },
                    _ => false,
                }
            }),
        ensures
            fanout_outputs(all, signed@, plain@),
        decreases source@.len(), weight(state, event),
    {
        let (next, action) = state.step(event);
        state = next;
        match action {
            FanoutAction::Receive => {
                match source.pop_front() {
                    Some(item) => {
                        event = FanoutEvent::Received(item);
                    },
                    None => {
                        event = FanoutEvent::Closed;
                    },
                }
            },
            FanoutAction::SendSigned(item) => {
                signed.push_back(item);
                event = FanoutEvent::Delivered;
            },
            FanoutAction::SendPlain(header) => {
                plain.push_back(header);
                event = FanoutEvent::Delivered;
            },
            FanoutAction::Stop => {
                assert(signed@ =~= all.take(signed@.len() as int));
                break ;
            },
        }
    }
    (signed, plain)
}

} // verus!
