//! The header source: follows the tip of the chain and streams the headers
//! up to it.

use std::collections::VecDeque;
use vstd::prelude::*;

use crate::error::SyncError2;
use crate::header::{BlockHash, BlockNumber, SignedBlockHeader};
use crate::peer::PeerData;
use crate::stream::SyncResult;

verus! {

/// A request for the signed headers of the blocks numbered from `start` to
/// `stop`, both included.
#[derive(Clone, Copy, Debug, PartialEq, Eq)]
pub struct HeaderRequest {
    pub start: u64,
    pub stop: BlockNumber,
    /// Whether the headers are to come from `stop` down.
    pub reverse: bool,
}

/// What the task that streams headers is waiting for.
#[derive(Clone, Copy, Debug, PartialEq, Eq, Structural)]
pub enum SourcePhase {
    /// Not started yet.
    Idle,
    /// The next tip of the chain.
    AwaitingTip,
    /// The next header of the stream that was requested.
    Streaming,
    /// A header to be taken by the downstream channel.
    Sending,
    /// Nothing: the task has ended.
    Stopped,
}

/// Where the task stands that follows the tip of the chain and streams the
/// headers up to it.
#[derive(Clone, Copy, Debug, PartialEq, Eq)]
pub struct HeaderSource {
    /// The number of the next block whose header is wanted.
    pub cursor: u64,
    pub phase: SourcePhase,
}

/// What happened to the task since its last action.
#[derive(Clone, Copy, Debug, PartialEq, Eq)]
pub enum HeaderSourceEvent {
    /// The task was scheduled.
    Started,
    /// A tip of the chain was observed.
    Tip(BlockNumber, BlockHash),
    /// No more tips will be observed.
    TipsEnded,
    /// A peer served the next header of the stream.
    Header(PeerData<SignedBlockHeader>),
    /// The stream of headers ended.
    HeadersEnded,
    /// Downstream took the item that was sent.
    Delivered,
    /// Downstream has no receiver any more.
    ReceiverGone,
}

/// What the task does next.
#[derive(Clone, Copy, Debug, PartialEq, Eq)]
pub enum HeaderSourceAction {
    /// Wait for the next tip of the chain.
    NextTip,
    /// Open the stream of the requested headers and wait for its first.
    RequestHeaders(HeaderRequest),
    /// Wait for the next header of the open stream, or its end.
    NextHeader,
    /// Send the item downstream.
    Emit(SyncResult<SignedBlockHeader>),
    /// End the task.
    Stop,
}

/// The step that the task takes from `state` on `event`.
pub open spec fn header_source_step(
    state: HeaderSource,
    event: HeaderSourceEvent,
    next: HeaderSource,
    action: HeaderSourceAction,
) -> bool {
    match (state.phase, event) {
        (SourcePhase::Idle, HeaderSourceEvent::Started) => {
            &&& next == HeaderSource { cursor: state.cursor, phase: SourcePhase::AwaitingTip }
            &&& action is NextTip
        },
        (SourcePhase::AwaitingTip, HeaderSourceEvent::Tip(number, hash)) => {
            &&& next == HeaderSource { cursor: state.cursor, phase: SourcePhase::Streaming }
            &&& action == HeaderSourceAction::RequestHeaders(
                HeaderRequest { start: state.cursor, stop: number, reverse: false },
            )
        },
        (SourcePhase::Streaming, HeaderSourceEvent::Header(signed)) => {
            &&& next.cursor == signed.data.header.number@ + 1
            &&& next.phase == SourcePhase::Sending
            &&& action == HeaderSourceAction::Emit(Ok(signed))
        },
        (SourcePhase::Streaming, HeaderSourceEvent::HeadersEnded) => {
            &&& next == HeaderSource { cursor: state.cursor, phase: SourcePhase::AwaitingTip }
            &&& action is NextTip
        },
        (SourcePhase::Sending, HeaderSourceEvent::Delivered) => {
            &&& next == HeaderSource { cursor: state.cursor, phase: SourcePhase::Streaming }
            &&& action is NextHeader
        },
        _ => {
            &&& next == HeaderSource { cursor: state.cursor, phase: SourcePhase::Stopped }
            &&& action is Stop
        },
    }
}

impl HeaderSource {
    /// The task that begins with the header of block `start`.
    pub fn new(start: BlockNumber) -> (source: HeaderSource)
        ensures
            source.cursor == start@,
            source.phase == SourcePhase::Idle,
    {
        HeaderSource { cursor: start.get(), phase: SourcePhase::Idle }
    }

    /// One step of the task: from where it stands and what happened, to
    /// where it stands next and what it does.
    pub fn step(self, event: HeaderSourceEvent) -> (next: (HeaderSource, HeaderSourceAction))
        ensures
            header_source_step(self, event, next.0, next.1),
    {
        match (self.phase, event) {
            (SourcePhase::Idle, HeaderSourceEvent::Started) => (
                HeaderSource { cursor: self.cursor, phase: SourcePhase::AwaitingTip },
                HeaderSourceAction::NextTip,
            ),
            (SourcePhase::AwaitingTip, HeaderSourceEvent::Tip(number, _)) => (
                HeaderSource { cursor: self.cursor, phase: SourcePhase::Streaming },
                HeaderSourceAction::RequestHeaders(
                    HeaderRequest { start: self.cursor, stop: number, reverse: false },
                ),
            ),
            (SourcePhase::Streaming, HeaderSourceEvent::Header(signed)) => (
                HeaderSource {
                    cursor: signed.data.header.number.get() + 1,
                    phase: SourcePhase::Sending,
                },
                HeaderSourceAction::Emit(Ok(signed)),
            ),
            (SourcePhase::Streaming, HeaderSourceEvent::HeadersEnded) => (
                HeaderSource { cursor: self.cursor, phase: SourcePhase::AwaitingTip },
                HeaderSourceAction::NextTip,
            ),
            (SourcePhase::Sending, HeaderSourceEvent::Delivered) => (
                HeaderSource { cursor: self.cursor, phase: SourcePhase::Streaming },
                HeaderSourceAction::NextHeader,
            ),
            _ => (
                HeaderSource { cursor: self.cursor, phase: SourcePhase::Stopped },
                HeaderSourceAction::Stop,
            ),
        }
    }
}

/// Once the receiver of its channel is gone, the task sends nothing more:
/// it stops at that event, whatever it was doing, and a stopped task stays
/// stopped.
pub proof fn lemma_header_source_stops_without_receiver(
    state: HeaderSource,
    event: HeaderSourceEvent,
    next: HeaderSource,
    action: HeaderSourceAction,
)
    requires
        header_source_step(state, event, next, action),
        event is ReceiverGone || state.phase == SourcePhase::Stopped,
    ensures
        next.phase == SourcePhase::Stopped,
        action is Stop,
{
}

/// Whether `states`, `events` and `actions` are a course of the task: from
/// each state, on the event that happened, the step to the next state and
/// the action taken.
pub open spec fn header_source_course(
    states: Seq<HeaderSource>,
    events: Seq<HeaderSourceEvent>,
    actions: Seq<HeaderSourceAction>,
) -> bool {
    &&& states.len() == events.len() + 1
    &&& actions.len() == events.len()
    &&& forall|i: int|
        0 <= i < events.len() ==> header_source_step(
            states[i],
            #[trigger] events[i],
            states[i + 1],
            actions[i],
        )
}

/// In every course of the task, the send that finds the receiver gone is
/// the last: no action from that event on sends anything.
pub proof fn lemma_header_source_sends_nothing_after_receiver_gone(
    states: Seq<HeaderSource>,
    events: Seq<HeaderSourceEvent>,
    actions: Seq<HeaderSourceAction>,
    gone: int,
    later: int,
)
    requires
        header_source_course(states, events, actions),
        0 <= gone <= later < events.len(),
        events[gone] is ReceiverGone,
    ensures
        actions[later] is Stop,
        states[later + 1].phase == SourcePhase::Stopped,
    decreases later - gone,
{
    if gone < later {
        lemma_header_source_sends_nothing_after_receiver_gone(
            states,
            events,
            actions,
            gone,
            later - 1,
        );
    }
    assert(header_source_step(states[later], events[later], states[later + 1], actions[later]));
}

/// A tip of the chain, and the headers that the network served when they
/// were requested up to it.
#[derive(Debug)]
pub struct TipRound {
    pub tip: (BlockNumber, BlockHash),
    pub served: VecDeque<PeerData<SignedBlockHeader>>,
}

/// All headers that were served in `rounds`, in the order of their arrival.
pub open spec fn served_headers(rounds: Seq<TipRound>) -> Seq<PeerData<SignedBlockHeader>>
    decreases rounds.len(),
{
    if rounds.len() == 0 {
        Seq::empty()
    } else {
        served_headers(rounds.drop_last()) + rounds.last().served@
    }
}

/// The number of the block that is wanted next when the first was `start`
/// and `received` have arrived: one past the last of them.
pub open spec fn cursor_after(start: u64, received: Seq<PeerData<SignedBlockHeader>>) -> int {
    if received.len() == 0 {
        start as int
    } else {
        received.last().data.header.number@ + 1
    }
}

/// Whether `requests` and `output` are what the task asks of the network
/// and sends downstream when it starts at block `start`, `rounds` is all
/// that happens, and downstream takes everything: one request per tip, from
/// one past the last header received until then up to the tip, and every
/// header that was served, as it came.
pub open spec fn header_source_outputs(
    start: u64,
    rounds: Seq<TipRound>,
    requests: Seq<HeaderRequest>,
    output: Seq<SyncResult<SignedBlockHeader>>,
) -> bool {
    &&& requests.len() == rounds.len()
    &&& forall|i: int|
        0 <= i < requests.len() ==> {
            &&& (#[trigger] requests[i]).start == cursor_after(
                start,
                served_headers(rounds.take(i)),
            )
            &&& requests[i].stop == rounds[i].tip.0
            &&& !requests[i].reverse
        }
    &&& output.len() == served_headers(rounds).len()
    &&& forall|j: int|
        0 <= j < output.len() ==> #[trigger] output[j] == Ok::<
            PeerData<SignedBlockHeader>,
            PeerData<SyncError2>,
        >(served_headers(rounds)[j])
}

spec fn weight(event: HeaderSourceEvent) -> nat {
    match event {
        HeaderSourceEvent::Started => 5,
        HeaderSourceEvent::Tip(_, _) => 4,
        HeaderSourceEvent::Header(_) => 3,
        HeaderSourceEvent::Delivered => 2,
        HeaderSourceEvent::HeadersEnded => 1,
        _ => 0,
    }
}

/// Runs the task from block `start` through `rounds`, into a channel that
/// takes everything, and returns the requests that it made and what it
/// sent.
pub fn run_header_source(start: BlockNumber, rounds: VecDeque<TipRound>) -> (output: (
    Vec<HeaderRequest>,
    VecDeque<SyncResult<SignedBlockHeader>>,
))
    ensures
        header_source_outputs(start@, rounds@, output.0@, output.1@),
{
    let ghost all = rounds@;
    let mut rounds = rounds;
    let mut stream: VecDeque<PeerData<SignedBlockHeader>> = VecDeque::new();
    let ghost mut current: Seq<PeerData<SignedBlockHeader>> = Seq::empty();
    let ghost mut seen: Seq<PeerData<SignedBlockHeader>> = Seq::empty();
    let mut requests: Vec<HeaderRequest> = Vec::new();
    let mut output: VecDeque<SyncResult<SignedBlockHeader>> = VecDeque::new();
    let mut state = HeaderSource::new(start);
    let mut event = HeaderSourceEvent::Started;
    loop
        invariant_except_break
            rounds@.len() <= all.len(),
            rounds@ == all.skip(all.len() - rounds@.len()),
            stream@.len() <= current.len(),
            stream@ == current.skip(current.len() - stream@.len()),
            state.cursor == cursor_after(start@, seen),
            output@.len() == seen.len(),
            forall|j: int|
                0 <= j < output@.len() ==> #[trigger] output@[j] == Ok::<
                    PeerData<SignedBlockHeader>,
                    PeerData<SyncError2>,
                >(seen[j]),
            requests@.len() <= all.len(),
            forall|i: int|
                0 <= i < requests@.len() ==> {
                    &&& (#[trigger] requests@[i]).start == cursor_after(
                        start@,
                        served_headers(all.take(i)),
                    )
                    &&& requests@[i].stop == all[i].tip.0
                    &&& !requests@[i].reverse
                },
            ({
                let i = all.len() - rounds@.len();
                let j = current.len() - stream@.len();
                match (state.phase, event) {
                    (SourcePhase::Idle, HeaderSourceEvent::Started) => {
                        &&& i == 0
                        &&& requests@.len() == 0
                        &&& seen.len() == 0
                        &&& current.len() == 0
                    },
                    (SourcePhase::AwaitingTip, HeaderSourceEvent::Tip(number, hash)) => {
                        &&& i >= 1
                        &&& (number, hash) == all[i - 1].tip
                        &&& current == all[i - 1].served@
                        &&& j == 0
                        &&& requests@.len() == i - 1
                        &&& seen == served_headers(all.take(i - 1))
                    },
                    (SourcePhase::AwaitingTip, HeaderSourceEvent::TipsEnded) => {
                        &&& i == all.len()
                        &&& requests@.len() == i
                        &&& seen == served_headers(all)
                    },
                    (SourcePhase::Streaming, HeaderSourceEvent::Header(signed)) => {
                        &&& i >= 1
                        &&& current == all[i - 1].served@
                        &&& j >= 1
                        &&& signed == current[j - 1]
                        &&& requests@.len() == i
                        &&& seen == served_headers(all.take(i - 1)) + current.take(j - 1)
                    },
                    (SourcePhase::Streaming, HeaderSourceEvent::HeadersEnded) => {
                        &&& i >= 1
                        &&& requests@.len() == i
                        &&& seen == served_headers(all.take(i))
                    },
                    (SourcePhase::Sending, HeaderSourceEvent::Delivered) => {
                        &&& i >= 1
                        &&& current == all[i - 1].served@
                        &&& requests@.len() == i
                        &&& seen == served_headers(all.take(i - 1)) + current.take(j)
                    },
                    _ => false,
                }
            }),
        ensures
            header_source_outputs(start@, all, requests@, output@),
        decreases rounds@.len(), stream@.len(), weight(event),
    {
        let ghost i = all.len() - rounds@.len();
        let ghost j = current.len() - stream@.len();
        let ghost happened = event;
        let (next, action) = state.step(event);
        state = next;
        proof {
            assert(all.take(all.len() as int) =~= all);
            assert(all.take(0) =~= Seq::<TipRound>::empty());
            if i >= 1 {
                assert(all.take(i).drop_last() =~= all.take(i - 1));
                assert(all.take(i).last() == all[i - 1]);
                assert(current.take(current.len() as int) =~= current);
                assert(current.take(0) =~= Seq::<PeerData<SignedBlockHeader>>::empty());
            }
        }
        match action {
            HeaderSourceAction::NextTip => {
                match rounds.pop_front() {
                    Some(round) => {
                        stream = round.served;
                        proof {
                            current = stream@;
                            assert(current.skip(0) =~= current);
                        }
                        event = HeaderSourceEvent::Tip(round.tip.0, round.tip.1);
                    },
                    None => {
                        event = HeaderSourceEvent::TipsEnded;
                    },
                }
            },
            HeaderSourceAction::RequestHeaders(request) => {
                requests.push(request);
                proof {
                    assert(seen + current.take(0) =~= seen);
                }
                match stream.pop_front() {
                    Some(signed) => {
                        event = HeaderSourceEvent::Header(signed);
                    },
                    None => {
                        event = HeaderSourceEvent::HeadersEnded;
                    },
                }
            },
            HeaderSourceAction::NextHeader => {
                match stream.pop_front() {
                    Some(signed) => {
                        event = HeaderSourceEvent::Header(signed);
                    },
                    None => {
                        event = HeaderSourceEvent::HeadersEnded;
                    },
                }
            },
            HeaderSourceAction::Emit(item) => {
                proof {
                    if let HeaderSourceEvent::Header(signed) = happened {
                        assert(current.take(j - 1).push(signed) =~= current.take(j));
                        assert(seen.push(signed) =~= served_headers(all.take(i - 1))
                            + current.take(j));
                        seen = seen.push(signed);
                    }
                }
                output.push_back(item);
                event = HeaderSourceEvent::Delivered;
            },
            HeaderSourceAction::Stop => {
                break ;
            },
        }
    }
    (requests, output)
}

} // verus!
