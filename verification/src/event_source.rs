//! The event source: reads, for each header, exactly the events that the
//! header declares.

use std::collections::VecDeque;
use vstd::prelude::*;

use crate::error::SyncError2;
use crate::event::{appended, grouped, lemma_grouped_push, BlockEvents, Event, EventsByTransaction, TransactionHash};
use crate::header::{BlockHeader, BlockNumber};
use crate::peer::PeerData;
use crate::stream::{ends_at_first_failure, SyncResult};

verus! {

/// Where the task stands that reads, for each header, the events that the
/// header declares.
#[derive(Debug)]
pub enum EventSource {
    /// Not started yet.
    Idle,
    /// Waiting for the next header.
    AwaitingHeader,
    /// Waiting for a peer that serves the events of `header`'s block.
    Polling { header: BlockHeader },
    /// Reading the events that `peer` serves: `remaining` more are declared.
    Reading { peer: libp2p::PeerId, block: BlockEvents, remaining: usize },
    /// All declared events are read: waiting for `peer`'s stream to end.
    Draining { peer: libp2p::PeerId, block: BlockEvents },
    /// Waiting for a block's events to be taken by the downstream channel.
    Emitting,
    /// Waiting for a failure to be taken by the downstream channel; the task
    /// ends after it.
    Failing,
    /// Ended.
    Stopped,
}

/// What happened to the task since its last action.
#[derive(Debug)]
pub enum EventSourceEvent {
    /// The task was scheduled.
    Started,
    /// The next header arrived.
    Header(BlockHeader),
    /// There are no more headers.
    HeadersClosed,
    /// No peer serves the block's events at the moment.
    NoPeer,
    /// A peer has begun to serve the block's events.
    Serving(libp2p::PeerId),
    /// The serving peer sent one more event of a transaction.
    Arrived(TransactionHash, Event),
    /// The serving peer's stream ended.
    StreamEnded,
    /// Downstream took the item that was sent.
    Delivered,
    /// Downstream has no receiver any more.
    ReceiverGone,
}

/// What the task does next.
#[derive(Debug)]
pub enum EventSourceAction {
    /// Wait for the next header.
    NextHeader,
    /// Ask the network for a peer that serves the events of this block.
    RequestEvents(BlockNumber),
    /// Wait for the next event of the serving peer's stream, or its end.
    NextEvent,
    /// Send the item downstream.
    Emit(SyncResult<BlockEvents>),
    /// End the task.
    Stop,
}

/// Whether `block` is what has been read for `header` when its events by
/// transaction are `groups`.
pub open spec fn holds(
    block: BlockEvents,
    header: BlockHeader,
    groups: Map<TransactionHash, Seq<Event>>,
) -> bool {
    block.header == header && block.events@ == groups
}

/// The steps that the task may take from `state` on `event`.
pub open spec fn event_source_step(
    state: EventSource,
    event: EventSourceEvent,
    next: EventSource,
    action: EventSourceAction,
) -> bool {
    match (state, event) {
        (EventSource::Idle, EventSourceEvent::Started) => next is AwaitingHeader
            && action is NextHeader,
        (EventSource::AwaitingHeader, EventSourceEvent::Header(header)) => {
            &&& next == (EventSource::Polling { header })
            &&& action == EventSourceAction::RequestEvents(header.number)
        },
        (EventSource::Polling { header }, EventSourceEvent::NoPeer) => {
            &&& next == (EventSource::Polling { header })
            &&& action == EventSourceAction::RequestEvents(header.number)
        },
        (EventSource::Polling { header }, EventSourceEvent::Serving(peer)) => {
            &&& action is NextEvent
            &&& if header.event_count == 0 {
                &&& next matches EventSource::Draining { peer: from, block }
                &&& from == peer
                &&& holds(block, header, Map::empty())
            } else {
                &&& next matches EventSource::Reading { peer: from, block, remaining }
                &&& from == peer
                &&& holds(block, header, Map::empty())
                &&& remaining == header.event_count
            }
        },
        (
            EventSource::Reading { peer, block, remaining },
            EventSourceEvent::Arrived(tx, event),
        ) => {
            &&& action is NextEvent
            &&& if remaining <= 1 {
                &&& next matches EventSource::Draining { peer: from, block: longer }
                &&& from == peer
                &&& holds(longer, block.header, appended(block.events@, tx, event))
            } else {
                &&& next matches EventSource::Reading { peer: from, block: longer, remaining: left }
                &&& from == peer
                &&& holds(longer, block.header, appended(block.events@, tx, event))
                &&& left == remaining - 1
            }
        },
        (EventSource::Reading { peer, block, remaining }, EventSourceEvent::StreamEnded) => {
            &&& next is Failing
            &&& action == EventSourceAction::Emit(
                Err(PeerData { peer, data: SyncError2::TooFewEvents }),
            )
        },
        (EventSource::Draining { peer, block }, EventSourceEvent::Arrived(tx, event)) => {
            &&& next is Failing
            &&& action == EventSourceAction::Emit(
                Err(PeerData { peer, data: SyncError2::TooManyEvents }),
            )
        },
        (EventSource::Draining { peer, block }, EventSourceEvent::StreamEnded) => {
            &&& next is Emitting
            &&& action == EventSourceAction::Emit(Ok(PeerData { peer, data: block }))
        },
        (EventSource::Emitting, EventSourceEvent::Delivered) => next is AwaitingHeader
            && action is NextHeader,
        _ => next is Stopped && action is Stop,
    }
}

impl EventSource {
    /// One step of the task: from where it stands and what happened, to
    /// where it stands next and what it does.
    pub fn step(self, event: EventSourceEvent) -> (next: (EventSource, EventSourceAction))
        ensures
            event_source_step(self, event, next.0, next.1),
    {
        match (self, event) {
            (EventSource::Idle, EventSourceEvent::Started) => (
                EventSource::AwaitingHeader,
                EventSourceAction::NextHeader,
            ),
            (EventSource::AwaitingHeader, EventSourceEvent::Header(header)) => (
                EventSource::Polling { header },
                EventSourceAction::RequestEvents(header.number),
            ),
            (EventSource::Polling { header }, EventSourceEvent::NoPeer) => (
                EventSource::Polling { header },
                EventSourceAction::RequestEvents(header.number),
            ),
            (EventSource::Polling { header }, EventSourceEvent::Serving(peer)) => {
                let block = BlockEvents { header, events: EventsByTransaction::new() };
                if header.event_count == 0 {
                    (EventSource::Draining { peer, block }, EventSourceAction::NextEvent)
                } else {
                    (
                        EventSource::Reading { peer, block, remaining: header.event_count },
                        EventSourceAction::NextEvent,
                    )
                }
            },
            (
                EventSource::Reading { peer, block, remaining },
                EventSourceEvent::Arrived(tx, event),
            ) => {
                let mut block = block;
                block.events.append(tx, event);
                if remaining <= 1 {
                    (EventSource::Draining { peer, block }, EventSourceAction::NextEvent)
                } else {
                    (
                        EventSource::Reading { peer, block, remaining: remaining - 1 },
                        EventSourceAction::NextEvent,
                    )
                }
            },
            (EventSource::Reading { peer, block, remaining }, EventSourceEvent::StreamEnded) => (
                EventSource::Failing,
                EventSourceAction::Emit(Err(PeerData { peer, data: SyncError2::TooFewEvents })),
            ),
            (EventSource::Draining { peer, block }, EventSourceEvent::Arrived(tx, event)) => (
                EventSource::Failing,
                EventSourceAction::Emit(Err(PeerData { peer, data: SyncError2::TooManyEvents })),
            ),
            (EventSource::Draining { peer, block }, EventSourceEvent::StreamEnded) => (
                EventSource::Emitting,
                EventSourceAction::Emit(Ok(PeerData { peer, data: block })),
            ),
            (EventSource::Emitting, EventSourceEvent::Delivered) => (
                EventSource::AwaitingHeader,
                EventSourceAction::NextHeader,
            ),
            _ => (EventSource::Stopped, EventSourceAction::Stop),
        }
    }
}

/// Once the receiver of its channel is gone, the task sends nothing more:
/// it stops at that event, whatever it was doing, and a stopped task stays
/// stopped.
pub proof fn lemma_event_source_stops_without_receiver(
    state: EventSource,
    event: EventSourceEvent,
    next: EventSource,
    action: EventSourceAction,
)
    requires
        event_source_step(state, event, next, action),
        event is ReceiverGone || state is Stopped,
    ensures
        next is Stopped,
        action is Stop,
{
}

/// Whether `states`, `events` and `actions` are a course of the task: from
/// each state, on the event that happened, a step to the next state and the
/// action taken.
pub open spec fn event_source_course(
    states: Seq<EventSource>,
    events: Seq<EventSourceEvent>,
    actions: Seq<EventSourceAction>,
) -> bool {
    &&& states.len() == events.len() + 1
    &&& actions.len() == events.len()
    &&& forall|i: int|
        0 <= i < events.len() ==> event_source_step(
            states[i],
            #[trigger] events[i],
            states[i + 1],
            actions[i],
        )
}

/// In every course of the task, the send that finds the receiver gone is
/// the last: no action from that event on sends anything.
pub proof fn lemma_event_source_sends_nothing_after_receiver_gone(
    states: Seq<EventSource>,
    events: Seq<EventSourceEvent>,
    actions: Seq<EventSourceAction>,
    gone: int,
    later: int,
)
    requires
        event_source_course(states, events, actions),
        0 <= gone <= later < events.len(),
        events[gone] is ReceiverGone,
    ensures
        actions[later] is Stop,
        states[later + 1] is Stopped,
    decreases later - gone,
{
    if gone < later {
        lemma_event_source_sends_nothing_after_receiver_gone(
            states,
            events,
            actions,
            gone,
            later - 1,
        );
    }
    assert(event_source_step(states[later], events[later], states[later + 1], actions[later]));
}

/// What one peer serves when it is asked for the events of one block.
#[derive(Debug)]
pub struct EventFeed {
    pub peer: libp2p::PeerId,
    /// The events in the order in which the peer sends them, each with the
    /// transaction that emitted it.
    pub events: VecDeque<(TransactionHash, Event)>,
}

/// Whether `item` is what comes of reading `arrivals`, which `peer` serves,
/// for `header`: the events by transaction where they are exactly as many
/// as the header declares, and a failure attributed to `peer` where they
/// are fewer or more.
pub open spec fn collects(
    header: BlockHeader,
    peer: libp2p::PeerId,
    arrivals: Seq<(TransactionHash, Event)>,
    item: SyncResult<BlockEvents>,
) -> bool {
    if arrivals.len() < header.event_count {
        item == Err::<PeerData<BlockEvents>, PeerData<SyncError2>>(
            PeerData { peer, data: SyncError2::TooFewEvents },
        )
    } else if arrivals.len() > header.event_count {
        item == Err::<PeerData<BlockEvents>, PeerData<SyncError2>>(
            PeerData { peer, data: SyncError2::TooManyEvents },
        )
    } else {
        &&& item matches Ok(read)
        &&& read.peer == peer
        &&& holds(read.data, header, grouped(arrivals))
    }
}

/// Whether `output` is what the task sends when `headers` is all that
/// arrives, the network answers the request for each block in turn with the
/// next of `feeds`, and downstream takes everything. The run ends at the
/// first failure, and where the feeds run out.
pub open spec fn event_source_outputs(
    headers: Seq<BlockHeader>,
    feeds: Seq<EventFeed>,
    output: Seq<SyncResult<BlockEvents>>,
) -> bool {
    &&& ends_at_first_failure(
        output,
        if headers.len() <= feeds.len() {
            headers.len()
        } else {
            feeds.len()
        },
    )
    &&& forall|i: int|
        0 <= i < output.len() ==> collects(
            headers[i],
            feeds[i].peer,
            feeds[i].events@,
            #[trigger] output[i],
        )
}

/// The failure that stands for a peer serving `arrived` events where
/// `declared` were to come, and they are not as many.
pub open spec fn miscount(declared: usize, arrived: nat) -> SyncError2 {
    if arrived < declared {
        SyncError2::TooFewEvents
    } else {
        SyncError2::TooManyEvents
    }
}

/// While every feed holds as many events as its header declares, the task
/// sends the events of one block after the other.
pub proof fn lemma_exact_feeds_are_collected(
    headers: Seq<BlockHeader>,
    feeds: Seq<EventFeed>,
    output: Seq<SyncResult<BlockEvents>>,
    exact: int,
)
    requires
        event_source_outputs(headers, feeds, output),
        0 <= exact <= headers.len(),
        exact <= feeds.len(),
        forall|i: int|
            0 <= i < exact ==> (#[trigger] feeds[i]).events@.len() == headers[i].event_count,
    ensures
        output.len() >= exact,
        forall|i: int| 0 <= i < exact ==> (#[trigger] output[i]) is Ok,
{
    assert forall|i: int| 0 <= i < exact && i < output.len() implies (#[trigger] output[i]) is Ok by {
        assert(feeds[i].events@.len() == headers[i].event_count);
        assert(collects(headers[i], feeds[i].peer, feeds[i].events@, output[i]));
    }
    if output.len() < exact {
        assert(output[output.len() - 1] is Ok);
    }
}

/// The first feed that does not hold as many events as its header declares
/// ends the task: the last item that it sends is the failure, too few or
/// too many events, attributed to the peer that served the feed.
pub proof fn lemma_miscount_ends_event_source(
    headers: Seq<BlockHeader>,
    feeds: Seq<EventFeed>,
    output: Seq<SyncResult<BlockEvents>>,
    at: int,
)
    requires
        event_source_outputs(headers, feeds, output),
        0 <= at < headers.len(),
        at < feeds.len(),
        forall|i: int| 0 <= i < at ==> (#[trigger] feeds[i]).events@.len() == headers[i].event_count,
        feeds[at].events@.len() != headers[at].event_count,
    ensures
        output.len() == at + 1,
        forall|i: int| 0 <= i < at ==> (#[trigger] output[i]) is Ok,
        output[at] == Err::<PeerData<BlockEvents>, PeerData<SyncError2>>(
            PeerData {
                peer: feeds[at].peer,
                data: miscount(headers[at].event_count, feeds[at].events@.len()),
            },
        ),
{
    lemma_exact_feeds_are_collected(headers, feeds, output, at);
    if output.len() == at {
        if at > 0 {
            assert(output[at - 1] is Ok);
        }
    }
    assert(collects(headers[at], feeds[at].peer, feeds[at].events@, output[at]));
    if output.len() > at + 1 {
        assert(output[at] is Ok);
    }
}

/// Where the task sent values only, each feed that it read held as many
/// events as its header declares, and the task went on to the end of the
/// headers or of the feeds.
pub proof fn lemma_collected_feeds_were_exact(
    headers: Seq<BlockHeader>,
    feeds: Seq<EventFeed>,
    output: Seq<SyncResult<BlockEvents>>,
)
    requires
        event_source_outputs(headers, feeds, output),
        forall|i: int| 0 <= i < output.len() ==> (#[trigger] output[i]) is Ok,
    ensures
        output.len() == headers.len() || output.len() == feeds.len(),
        forall|i: int|
            0 <= i < output.len() ==> (#[trigger] feeds[i]).events@.len() == headers[i].event_count,
{
    if output.len() > 0 {
        assert(output[output.len() - 1] is Ok);
    }
    assert forall|i: int| 0 <= i < output.len() implies (#[trigger] feeds[i]).events@.len()
        == headers[i].event_count by {
        assert(output[i] is Ok);
        assert(collects(headers[i], feeds[i].peer, feeds[i].events@, output[i]));
    }
}

spec fn weight(event: EventSourceEvent) -> nat {
    match event {
        EventSourceEvent::Started => 6,
        EventSourceEvent::Header(_) => 5,
        EventSourceEvent::Serving(_) => 4,
        EventSourceEvent::Arrived(_, _) => 3,
        EventSourceEvent::StreamEnded => 2,
        EventSourceEvent::Delivered => 1,
        _ => 0,
    }
}

/// Runs the task over a closed channel that holds `headers`, against a
/// network that answers with `feeds`, into a channel that takes everything,
/// and returns what was sent.
pub fn run_event_source(headers: VecDeque<BlockHeader>, feeds: VecDeque<EventFeed>) -> (output:
    VecDeque<SyncResult<BlockEvents>>)
    ensures
        event_source_outputs(headers@, feeds@, output@),
{
    let ghost all_headers = headers@;
    let ghost all_feeds = feeds@;
    let mut headers = headers;
    let mut feeds = feeds;
    let mut stream: VecDeque<(TransactionHash, Event)> = VecDeque::new();
    let ghost mut arrivals: Seq<(TransactionHash, Event)> = Seq::empty();
    let mut output: VecDeque<SyncResult<BlockEvents>> = VecDeque::new();
    let mut state = EventSource::Idle;
    let mut event = EventSourceEvent::Started;
    loop
        invariant_except_break
            headers@.len() <= all_headers.len(),
            feeds@.len() <= all_feeds.len(),
            stream@.len() <= arrivals.len(),
            headers@ == all_headers.skip(all_headers.len() - headers@.len()),
            feeds@ == all_feeds.skip(all_feeds.len() - feeds@.len()),
            stream@ == arrivals.skip(arrivals.len() - stream@.len()),
            forall|i: int|
                0 <= i < output@.len() ==> collects(
                    all_headers[i],
                    all_feeds[i].peer,
                    all_feeds[i].events@,
                    #[trigger] output@[i],
                ),
            forall|i: int| 0 <= i < output@.len() - 1 ==> (#[trigger] output@[i]) is Ok,
            ({
                let k = all_headers.len() - headers@.len();
                let f = all_feeds.len() - feeds@.len();
                let r = arrivals.len() - stream@.len();
                match (state, event) {
                    (EventSource::Idle, EventSourceEvent::Started) => k == 0 && f == 0
                        && output@.len() == 0,
                    (EventSource::AwaitingHeader, EventSourceEvent::Header(header)) => {
                        &&& k >= 1
                        &&& header == all_headers[k - 1]
                        &&& output@.len() == k - 1
                        &&& f == k - 1
                        &&& output@.len() > 0 ==> output@.last() is Ok
                    },
                    (EventSource::AwaitingHeader, EventSourceEvent::HeadersClosed) => {
                        &&& k == all_headers.len()
                        &&& output@.len() == k
                        &&& f == k
                        &&& output@.len() > 0 ==> output@.last() is Ok
                    },
                    (EventSource::Polling { header }, EventSourceEvent::Serving(peer)) => {
                        &&& k >= 1
                        &&& f == k
                        &&& output@.len() == k - 1
                        &&& output@.len() > 0 ==> output@.last() is Ok
                        &&& header == all_headers[k - 1]
                        &&& peer == all_feeds[k - 1].peer
                        &&& arrivals == all_feeds[k - 1].events@
                        &&& r == 0
                    },
                    (
                        EventSource::Reading { peer, block, remaining },
                        EventSourceEvent::Arrived(tx, arrived),
                    ) => {
                        &&& k >= 1
                        &&& f == k
                        &&& output@.len() == k - 1
                        &&& output@.len() > 0 ==> output@.last() is Ok
                        &&& peer == all_feeds[k - 1].peer
                        &&& arrivals == all_feeds[k - 1].events@
                        &&& r >= 1
                        &&& (tx, arrived) == arrivals[r - 1]
                        &&& holds(block, all_headers[k - 1], grouped(arrivals.take(r - 1)))
                        &&& remaining >= 1
                        &&& remaining == all_headers[k - 1].event_count - (r - 1)
                    },
                    (
                        EventSource::Reading { peer, block, remaining },
                        EventSourceEvent::StreamEnded,
                    ) => {
                        &&& k >= 1
                        &&& f == k
                        &&& output@.len() == k - 1
                        &&& output@.len() > 0 ==> output@.last() is Ok
                        &&& peer == all_feeds[k - 1].peer
                        &&& arrivals == all_feeds[k - 1].events@
                        &&& r == arrivals.len()
                        &&& remaining >= 1
                        &&& remaining == all_headers[k - 1].event_count - r
                    },
                    (
                        EventSource::Draining { peer, block },
                        EventSourceEvent::Arrived(tx, arrived),
                    ) => {
                        &&& k >= 1
                        &&& f == k
                        &&& output@.len() == k - 1
                        &&& output@.len() > 0 ==> output@.last() is Ok
                        &&& peer == all_feeds[k - 1].peer
                        &&& arrivals == all_feeds[k - 1].events@
                        &&& r >= 1
                        &&& r - 1 == all_headers[k - 1].event_count
                    },
                    (EventSource::Draining { peer, block }, EventSourceEvent::StreamEnded) => {
                        &&& k >= 1
                        &&& f == k
                        &&& output@.len() == k - 1
                        &&& output@.len() > 0 ==> output@.last() is Ok
                        &&& peer == all_feeds[k - 1].peer
                        &&& arrivals == all_feeds[k - 1].events@
                        &&& arrivals.len() == all_headers[k - 1].event_count
                        &&& holds(block, all_headers[k - 1], grouped(arrivals))
                    },
                    (EventSource::Emitting, EventSourceEvent::Delivered) => {
                        &&& output@.len() == k
                        &&& f == k
                        &&& output@.len() > 0
                        &&& output@.last() is Ok
                    },
                    (EventSource::Failing, EventSourceEvent::Delivered) => {
                        &&& output@.len() == k
                        &&& f == k
                        &&& output@.len() > 0
                        &&& output@.last() is Err
                    },
                    _ => false,
                }
            }),
        ensures
            event_source_outputs(all_headers, all_feeds, output@),
        decreases headers@.len(), weight(event), stream@.len(),
    {
        let ghost before = state;
        let ghost happened = event;
        let ghost read = arrivals.len() - stream@.len();
        let (next, action) = state.step(event);
        state = next;
        proof {
            if let EventSourceEvent::Arrived(tx, arrived) = happened {
                if before is Reading {
                    lemma_grouped_push(arrivals.take(read - 1), tx, arrived);
                    assert(arrivals.take(read - 1).push((tx, arrived)) =~= arrivals.take(read));
                }
            }
            assert(arrivals.take(arrivals.len() as int) =~= arrivals);
            assert(arrivals.take(0) =~= Seq::<(TransactionHash, Event)>::empty());
            assert(grouped(Seq::<(TransactionHash, Event)>::empty()) =~= Map::<
                TransactionHash,
                Seq<Event>,
            >::empty());
        }
        match action {
            EventSourceAction::NextHeader => {
                match headers.pop_front() {
                    Some(header) => {
                        event = EventSourceEvent::Header(header);
                    },
                    None => {
                        event = EventSourceEvent::HeadersClosed;
                    },
                }
            },
            EventSourceAction::RequestEvents(_) => {
                match feeds.pop_front() {
                    Some(feed) => {
                        stream = feed.events;
                        proof {
                            arrivals = stream@;
                            assert(arrivals.skip(0) =~= arrivals);
                        }
                        event = EventSourceEvent::Serving(feed.peer);
                    },
                    None => {
                        break ;
                    },
                }
            },
            EventSourceAction::NextEvent => {
                match stream.pop_front() {
                    Some((tx, arrived)) => {
                        event = EventSourceEvent::Arrived(tx, arrived);
                    },
                    None => {
                        event = EventSourceEvent::StreamEnded;
                    },
                }
            },
            EventSourceAction::Emit(item) => {
                output.push_back(item);
                event = EventSourceEvent::Delivered;
            },
            EventSourceAction::Stop => {
                break ;
            },
        }
    }
    output
}

} // verus!
