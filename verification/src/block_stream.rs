//! The block joiner: pairs each signed header with the events that were read
//! for its block.

use std::collections::VecDeque;
use vstd::prelude::*;

use crate::error::SyncError2;
use crate::event::{BlockData, BlockEvents};
use crate::header::SignedBlockHeader;
use crate::peer::PeerData;
use crate::stream::SyncResult;

verus! {

/// Where the task stands that pairs each signed header with the events of
/// its block. The two channels that it reads are fed from one sequence of
/// headers, so that the n-th item of the one belongs to the n-th of the
/// other.
#[derive(Clone, Copy, Debug, PartialEq, Eq)]
pub enum BlockStream {
    /// Not started yet.
    Idle,
    /// Waiting for the next signed header.
    AwaitingHeader,
    /// Waiting for the events that belong to `header`.
    AwaitingEvents { header: PeerData<SignedBlockHeader> },
    /// Waiting for a block to be taken by the downstream channel.
    Sending,
    /// Waiting for a failure to be taken by the downstream channel; the task
    /// ends after it.
    Failing,
    /// Ended.
    Stopped,
}

/// What happened to the task since its last action.
#[derive(Debug)]
pub enum BlockStreamEvent {
    /// The task was scheduled.
    Started,
    /// The channel of headers delivered an item.
    Header(SyncResult<SignedBlockHeader>),
    /// The channel of headers is closed and drained.
    HeadersClosed,
    /// The channel of events delivered an item.
    Events(SyncResult<BlockEvents>),
    /// The channel of events is closed and drained.
    EventsClosed,
    /// Downstream took the item that was sent.
    Delivered,
    /// Downstream has no receiver any more.
    ReceiverGone,
}

/// What the task does next.
#[derive(Debug)]
pub enum BlockStreamAction {
    /// Wait for the next item of the channel of headers.
    NextHeader,
    /// Wait for the next item of the channel of events.
    NextEvents,
    /// Send the item downstream.
    Emit(SyncResult<BlockData>),
    /// End the task.
    Stop,
}

/// The block that is made of a signed header and the events read for it,
/// attributed to the peer that supplied the header.
pub open spec fn block_of(header: PeerData<SignedBlockHeader>, events: PeerData<BlockEvents>) -> PeerData<
    BlockData,
> {
    PeerData { peer: header.peer, data: BlockData { header: header.data, events: events.data.events } }
}

/// What becomes of an item of the channel of headers and the item of the
/// channel of events that belongs to it: their block, or the failure of the
/// header where it is one, else that of the events.
pub open spec fn joined(
    header: SyncResult<SignedBlockHeader>,
    events: SyncResult<BlockEvents>,
) -> SyncResult<BlockData> {
    match header {
        Err(failure) => Err(failure),
        Ok(signed) => match events {
            Err(failure) => Err(failure),
            Ok(read) => Ok(block_of(signed, read)),
        },
    }
}

/// The step that the task takes from `state` on `event`.
pub open spec fn block_stream_step(
    state: BlockStream,
    event: BlockStreamEvent,
    next: BlockStream,
    action: BlockStreamAction,
) -> bool {
    match (state, event) {
        (BlockStream::Idle, BlockStreamEvent::Started) => next is AwaitingHeader
            && action is NextHeader,
        (BlockStream::AwaitingHeader, BlockStreamEvent::Header(Ok(header))) => {
            &&& next == (BlockStream::AwaitingEvents { header })
            &&& action is NextEvents
        },
        (BlockStream::AwaitingHeader, BlockStreamEvent::Header(Err(failure))) => {
            &&& next is Failing
            &&& action == BlockStreamAction::Emit(Err(failure))
        },
        (BlockStream::AwaitingEvents { header }, BlockStreamEvent::Events(Ok(events))) => {
            &&& next is Sending
            &&& action == BlockStreamAction::Emit(Ok(block_of(header, events)))
        },
        (BlockStream::AwaitingEvents { header }, BlockStreamEvent::Events(Err(failure))) => {
            &&& next is Failing
            &&& action == BlockStreamAction::Emit(Err(failure))
        },
        (BlockStream::Sending, BlockStreamEvent::Delivered) => next is AwaitingHeader
            && action is NextHeader,
        _ => next is Stopped && action is Stop,
    }
}

impl BlockStream {
    /// One step of the task: from where it stands and what happened, to
    /// where it stands next and what it does.
    pub fn step(self, event: BlockStreamEvent) -> (next: (BlockStream, BlockStreamAction))
        ensures
            block_stream_step(self, event, next.0, next.1),
    {
        match (self, event) {
            (BlockStream::Idle, BlockStreamEvent::Started) => (
                BlockStream::AwaitingHeader,
                BlockStreamAction::NextHeader,
            ),
            (BlockStream::AwaitingHeader, BlockStreamEvent::Header(Ok(header))) => (
                BlockStream::AwaitingEvents { header },
                BlockStreamAction::NextEvents,
            ),
            (BlockStream::AwaitingHeader, BlockStreamEvent::Header(Err(failure))) => (
                BlockStream::Failing,
                BlockStreamAction::Emit(Err(failure)),
            ),
            (BlockStream::AwaitingEvents { header }, BlockStreamEvent::Events(Ok(events))) => {
                let data = BlockData { header: header.data, events: events.data.events };
                (
                    BlockStream::Sending,
                    BlockStreamAction::Emit(Ok(PeerData { peer: header.peer, data })),
                )
            },
            (BlockStream::AwaitingEvents { header }, BlockStreamEvent::Events(Err(failure))) => (
                BlockStream::Failing,
                BlockStreamAction::Emit(Err(failure)),
            ),
            (BlockStream::Sending, BlockStreamEvent::Delivered) => (
                BlockStream::AwaitingHeader,
                BlockStreamAction::NextHeader,
            ),
            _ => (BlockStream::Stopped, BlockStreamAction::Stop),
        }
    }
}

/// Once the receiver of its channel is gone, the task sends nothing more:
/// it stops at that event, whatever it was doing, and a stopped task stays
/// stopped.
pub proof fn lemma_block_stream_stops_without_receiver(
    state: BlockStream,
    event: BlockStreamEvent,
    next: BlockStream,
    action: BlockStreamAction,
)
    requires
        block_stream_step(state, event, next, action),
        event is ReceiverGone || state is Stopped,
    ensures
        next is Stopped,
        action is Stop,
{
}

/// Whether `states`, `events` and `actions` are a course of the task: from
/// each state, on the event that happened, the step to the next state and
/// the action taken.
pub open spec fn block_stream_course(
    states: Seq<BlockStream>,
    events: Seq<BlockStreamEvent>,
    actions: Seq<BlockStreamAction>,
) -> bool {
    &&& states.len() == events.len() + 1
    &&& actions.len() == events.len()
    &&& forall|i: int|
        0 <= i < events.len() ==> block_stream_step(
            states[i],
            #[trigger] events[i],
            states[i + 1],
            actions[i],
        )
}

/// In every course of the task, the send that finds the receiver gone is
/// the last: no action from that event on sends anything.
pub proof fn lemma_block_stream_sends_nothing_after_receiver_gone(
    states: Seq<BlockStream>,
    events: Seq<BlockStreamEvent>,
    actions: Seq<BlockStreamAction>,
    gone: int,
    later: int,
)
    requires
        block_stream_course(states, events, actions),
        0 <= gone <= later < events.len(),
        events[gone] is ReceiverGone,
    ensures
        actions[later] is Stop,
        states[later + 1] is Stopped,
    decreases later - gone,
{
    if gone < later {
        lemma_block_stream_sends_nothing_after_receiver_gone(
            states,
            events,
            actions,
            gone,
            later - 1,
        );
    }
    assert(block_stream_step(states[later], events[later], states[later + 1], actions[later]));
}

/// Whether `output` is what the task sends when `headers` and `events` are
/// all that its two channels deliver and downstream takes everything: item
/// by item the header joined with its events, up to the first failure or
/// to where either channel ends. A failed header is sent on without an item
/// of the other channel being taken for it.
pub open spec fn block_stream_outputs(
    headers: Seq<SyncResult<SignedBlockHeader>>,
    events: Seq<SyncResult<BlockEvents>>,
    output: Seq<SyncResult<BlockData>>,
) -> bool {
    &&& output.len() <= headers.len()
    &&& forall|i: int| 0 <= i < output.len() - 1 ==> (#[trigger] output[i]) is Ok
    &&& forall|i: int|
        0 <= i < output.len() ==> if headers[i] is Err {
            #[trigger] output[i] == Err::<PeerData<BlockData>, PeerData<SyncError2>>(
                headers[i]->Err_0,
            )
        } else {
            i < events.len() && output[i] == joined(headers[i], events[i])
        }
    &&& (output.len() == 0 || output.last() is Ok) ==> {
        ||| output.len() == headers.len()
        ||| (headers[output.len() as int] is Ok && events.len() == output.len())
    }
}

/// Where both channels deliver values only, and as many of them, every
/// header is joined with the events at its own position, in order, under
/// the header's peer.
pub proof fn lemma_block_stream_pairs_in_order(
    headers: Seq<SyncResult<SignedBlockHeader>>,
    events: Seq<SyncResult<BlockEvents>>,
    output: Seq<SyncResult<BlockData>>,
)
    requires
        block_stream_outputs(headers, events, output),
        headers.len() == events.len(),
        forall|i: int| 0 <= i < headers.len() ==> (#[trigger] headers[i]) is Ok,
        forall|i: int| 0 <= i < events.len() ==> (#[trigger] events[i]) is Ok,
    ensures
        output.len() == headers.len(),
        forall|i: int|
            0 <= i < output.len() ==> #[trigger] output[i] == Ok::<
                PeerData<BlockData>,
                PeerData<SyncError2>,
            >(block_of(headers[i]->Ok_0, events[i]->Ok_0)),
{
    if output.len() > 0 {
        let last = output.len() - 1;
        assert(headers[last] is Ok);
        assert(events[last] is Ok);
        assert(output[last] == joined(headers[last], events[last]));
    }
    assert forall|i: int| 0 <= i < output.len() implies #[trigger] output[i] == Ok::<
        PeerData<BlockData>,
        PeerData<SyncError2>,
    >(block_of(headers[i]->Ok_0, events[i]->Ok_0)) by {
        assert(headers[i] is Ok);
        assert(events[i] is Ok);
    }
}

/// Where the headers are values as far as the events reach, and the events
/// are values up to a failure that is their last item, the task joins the
/// blocks before the failure and ends with the failure as it came.
pub proof fn lemma_block_stream_ends_with_events_failure(
    headers: Seq<SyncResult<SignedBlockHeader>>,
    events: Seq<SyncResult<BlockEvents>>,
    output: Seq<SyncResult<BlockData>>,
    at: int,
)
    requires
        block_stream_outputs(headers, events, output),
        0 <= at < headers.len(),
        events.len() == at + 1,
        forall|i: int| 0 <= i <= at ==> (#[trigger] headers[i]) is Ok,
        forall|i: int| 0 <= i < at ==> (#[trigger] events[i]) is Ok,
        events[at] is Err,
    ensures
        output.len() == at + 1,
        forall|i: int| 0 <= i < at ==> (#[trigger] output[i]) is Ok,
        output[at] == Err::<PeerData<BlockData>, PeerData<SyncError2>>(events[at]->Err_0),
{
    assert forall|i: int| 0 <= i < at && i < output.len() implies (#[trigger] output[i]) is Ok by {
        assert(headers[i] is Ok);
        assert(events[i] is Ok);
        assert(output[i] == joined(headers[i], events[i]));
    }
    if output.len() <= at {
        if output.len() > 0 {
            assert(output[output.len() - 1] is Ok);
        }
        assert(headers[output.len() as int] is Ok);
    }
    assert(headers[at] is Ok);
    assert(output[at] == joined(headers[at], events[at]));
    if output.len() > at + 1 {
        assert(output[at] is Ok);
    }
}

/// Where the task sent values only, it joined a header that was a value
/// with events that were a value at every position, and it went on until
/// the headers ended, or until the events ended before a header that was
/// waiting for them.
pub proof fn lemma_blocks_sent_were_joined(
    headers: Seq<SyncResult<SignedBlockHeader>>,
    events: Seq<SyncResult<BlockEvents>>,
    output: Seq<SyncResult<BlockData>>,
)
    requires
        block_stream_outputs(headers, events, output),
        forall|i: int| 0 <= i < output.len() ==> (#[trigger] output[i]) is Ok,
    ensures
        output.len() <= events.len(),
        forall|i: int| 0 <= i < output.len() ==> (#[trigger] headers[i]) is Ok,
        forall|i: int| 0 <= i < output.len() ==> (#[trigger] events[i]) is Ok,
        output.len() == headers.len() || (headers[output.len() as int] is Ok && events.len()
            == output.len()),
{
    assert forall|i: int| 0 <= i < output.len() implies (#[trigger] headers[i]) is Ok by {
        assert(output[i] is Ok);
    }
    assert forall|i: int| 0 <= i < output.len() implies (#[trigger] events[i]) is Ok by {
        assert(output[i] is Ok);
        assert(output[i] == joined(headers[i], events[i]));
    }
    if output.len() > 0 {
        assert(output[output.len() - 1] is Ok);
    }
}

spec fn weight(event: BlockStreamEvent) -> nat {
    match event {
        BlockStreamEvent::Started => 4,
        BlockStreamEvent::Header(_) => 3,
        BlockStreamEvent::Events(_) => 2,
        BlockStreamEvent::Delivered => 1,
        _ => 0,
    }
}

/// Runs the task over two closed channels that hold `headers` and
/// `events`, into a channel that takes everything, and returns what was
/// sent.
pub fn run_block_stream(
    headers: VecDeque<SyncResult<SignedBlockHeader>>,
    events: VecDeque<SyncResult<BlockEvents>>,
) -> (output: VecDeque<SyncResult<BlockData>>)
    ensures
        block_stream_outputs(headers@, events@, output@),
{
    let ghost all_headers = headers@;
    let ghost all_events = events@;
    let mut headers = headers;
    let mut events = events;
    let mut output: VecDeque<SyncResult<BlockData>> = VecDeque::new();
    let mut state = BlockStream::Idle;
    let mut event = BlockStreamEvent::Started;
    loop
        invariant_except_break
            headers@.len() <= all_headers.len(),
            events@.len() <= all_events.len(),
            headers@ == all_headers.skip(all_headers.len() - headers@.len()),
            events@ == all_events.skip(all_events.len() - events@.len()),
            output@.len() <= all_headers.len(),
            forall|i: int| 0 <= i < output@.len() - 1 ==> (#[trigger] output@[i]) is Ok,
            forall|i: int|
                0 <= i < output@.len() ==> if all_headers[i] is Err {
                    #[trigger] output@[i] == Err::<PeerData<BlockData>, PeerData<SyncError2>>(
                        all_headers[i]->Err_0,
                    )
                } else {
                    i < all_events.len() && output@[i] == joined(all_headers[i], all_events[i])
                },
            ({
                let c = all_headers.len() - headers@.len();
                let e = all_events.len() - events@.len();
                match (state, event) {
                    (BlockStream::Idle, BlockStreamEvent::Started) => c == 0 && e == 0
                        && output@.len() == 0,
                    (BlockStream::AwaitingHeader, BlockStreamEvent::Header(item)) => {
                        &&& c >= 1
                        &&& item == all_headers[c - 1]
                        &&& output@.len() == c - 1
                        &&& e == c - 1
                        &&& output@.len() > 0 ==> output@.last() is Ok
                    },
                    (BlockStream::AwaitingHeader, BlockStreamEvent::HeadersClosed) => {
                        &&& c == all_headers.len()
                        &&& output@.len() == c
                        &&& output@.len() > 0 ==> output@.last() is Ok
                    },
                    (BlockStream::AwaitingEvents { header }, BlockStreamEvent::Events(item)) => {
                        &&& c >= 1
                        &&& all_headers[c - 1] == Ok::<
                            PeerData<SignedBlockHeader>,
                            PeerData<SyncError2>,
                        >(header)
                        &&& e == c
                        &&& item == all_events[c - 1]
                        &&& output@.len() == c - 1
                        &&& output@.len() > 0 ==> output@.last() is Ok
                    },
                    (BlockStream::AwaitingEvents { header }, BlockStreamEvent::EventsClosed) => {
                        &&& c >= 1
                        &&& all_headers[c - 1] is Ok
                        &&& all_events.len() == c - 1
                        &&& output@.len() == c - 1
                        &&& output@.len() > 0 ==> output@.last() is Ok
                    },
                    (BlockStream::Sending, BlockStreamEvent::Delivered) => {
                        &&& output@.len() == c
                        &&& e == c
                        &&& output@.len() > 0
                        &&& output@.last() is Ok
                    },
                    (BlockStream::Failing, BlockStreamEvent::Delivered) => {
                        &&& output@.len() == c
                        &&& output@.len() > 0
                        &&& output@.last() is Err
                    },
                    _ => false,
                }
            }),
        ensures
            block_stream_outputs(all_headers, all_events, output@),
        decreases headers@.len(), weight(event),
    {
        let (next, action) = state.step(event);
        state = next;
        match action {
            BlockStreamAction::NextHeader => {
                match headers.pop_front() {
                    Some(item) => {
                        event = BlockStreamEvent::Header(item);
                    },
                    None => {
                        event = BlockStreamEvent::HeadersClosed;
                    },
                }
            },
            BlockStreamAction::NextEvents => {
                match events.pop_front() {
                    Some(item) => {
                        event = BlockStreamEvent::Events(item);
                    },
                    None => {
                        event = BlockStreamEvent::EventsClosed;
                    },
                }
            },
            BlockStreamAction::Emit(item) => {
                output.push_back(item);
                event = BlockStreamEvent::Delivered;
            },
            BlockStreamAction::Stop => {
                break ;
            },
        }
    }
    output
}

} // verus!
